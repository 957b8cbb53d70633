//! The Ring-0 sanitizer: cuts a corpus into chunks for structuring, and
//! assembles the structured sections into the master document.

use vstd::prelude::*;
use vstd::utf8::encode_utf8;
use crate::text::{
    chars_of, concat_text, find_chars, first_occurrence, join, joined, lemma_first_occurrence, occurs_at,
    string_from, string_views, trim, trimmed, law_trim_idempotent,
};

verus! {

/// The length of `s` in UTF-8 bytes, as `str::len` returns it (a `usize`).
pub open spec fn byte_len(s: Seq<char>) -> int {
    (encode_utf8(s).len() as usize) as int
}

pub open spec fn paragraph_break() -> Seq<char> {
    seq!['\n', '\n']
}

/// The pieces of `s` between its blank-line breaks (`\n\n`), found left to
/// right without overlap, as std's `str::split("\n\n")` gives them.
pub open spec fn paragraphs(s: Seq<char>) -> Seq<Seq<char>>
    decreases s.len(),
{
    match first_occurrence(s, paragraph_break()) {
        Some(i) => {
            proof {
                lemma_first_occurrence(s, paragraph_break());
            }
            if 0 <= i && i + 2 <= s.len() {
                seq![s.subrange(0, i)] + paragraphs(s.subrange(i + 2, s.len() as int))
            } else {
                seq![s]
            }
        },
        None => seq![s],
    }
}

/// One step of chunking: a paragraph that would push a non-empty chunk past
/// `max` bytes (counting the break before it) starts a new chunk, and the
/// finished chunk is kept trimmed; otherwise the paragraph joins the chunk.
pub open spec fn chunk_step(chunks: Seq<Seq<char>>, cur: Seq<char>, para: Seq<char>, max: int) -> (Seq<Seq<char>>, Seq<char>) {
    if byte_len(cur) + byte_len(para) + 2 > max && cur.len() > 0 {
        (chunks.push(trimmed(cur)), para)
    } else if cur.len() > 0 {
        (chunks, cur + paragraph_break() + para)
    } else {
        (chunks, para)
    }
}

/// The finished chunks and the open chunk after the first `k` paragraphs.
pub open spec fn chunk_prefix(paras: Seq<Seq<char>>, k: int, max: int) -> (Seq<Seq<char>>, Seq<char>)
    decreases k,
{
    if k <= 0 {
        (Seq::empty(), Seq::empty())
    } else {
        let (chunks, cur) = chunk_prefix(paras, k - 1, max);
        chunk_step(chunks, cur, paras[k - 1], max)
    }
}

/// The chunks of `text` for a budget of `max` bytes: the open chunk is closed
/// at the end, and a text that yields no chunk is its own single chunk.
pub open spec fn chunks_of(text: Seq<char>, max: int) -> Seq<Seq<char>> {
    let paras = paragraphs(text);
    let (chunks, cur) = chunk_prefix(paras, paras.len() as int, max);
    let closed = if cur.len() > 0 {
        chunks.push(trimmed(cur))
    } else {
        chunks
    };
    if closed.len() == 0 {
        seq![text]
    } else {
        closed
    }
}

/// The characters of `s` from `i` up to `j`.
fn slice_chars(s: &[char], i: usize, j: usize) -> (r: Vec<char>)
    requires
        i <= j <= s@.len(),
    ensures
        r@ == s@.subrange(i as int, j as int),
{
    vstd::slice::slice_to_vec(vstd::slice::slice_subrange(s, i, j))
}

fn split_paragraphs(s: &[char]) -> (r: Vec<Vec<char>>)
    ensures
        r@.map_values(|p: Vec<char>| p@) == paragraphs(s@),
    decreases s@.len(),
{
    let brk = ['\n', '\n'];
    proof {
        assert(brk@ =~= paragraph_break());
        lemma_first_occurrence(s@, paragraph_break());
    }
    let n = s.len();
    match find_chars(s, &brk) {
        Some(i) => {
            assert(occurs_at(s@, brk@, i as int));
            let piece = slice_chars(s, 0, i);
            let rest = slice_chars(s, i + 2, s.len());
            let mut more = split_paragraphs(&rest);
            let ghost mv = more@;
            let mut r: Vec<Vec<char>> = Vec::new();
            r.push(piece);
            r.append(&mut more);
            assert(r@.map_values(|p: Vec<char>| p@) =~= seq![r@[0]@] + mv.map_values(|p: Vec<char>| p@));
            r
        },
        None => {
            let mut r: Vec<Vec<char>> = Vec::new();
            r.push(slice_chars(s, 0, s.len()));
            assert(s@.subrange(0, s@.len() as int) =~= s@);
            assert(r@.map_values(|p: Vec<char>| p@) =~= seq![s@]);
            r
        },
    }
}

/// `a + b + 2 > max`, computed without overflow.
fn exceeds(a: usize, b: usize, max: usize) -> (r: bool)
    ensures
        r == (a + b + 2 > max),
{
    if a > max {
        true
    } else {
        let room = max - a;
        b > room || room - b < 2
    }
}

/// Cuts `text` into chunks of about `max` bytes at its blank-line breaks.
pub fn chunk_text(text: &str, max: usize) -> (chunks: Vec<String>)
    ensures
        string_views(chunks@) == chunks_of(text@, max as int),
        chunks@.len() >= 1,
{
    let s = chars_of(text);
    let paras = split_paragraphs(&s);
    let ghost pv = paras@.map_values(|p: Vec<char>| p@);
    let mut chunks: Vec<String> = Vec::new();
    let mut cur = String::new();
    let mut k: usize = 0;
    while k < paras.len()
        invariant
            k <= paras@.len(),
            pv == paras@.map_values(|p: Vec<char>| p@),
            pv == paragraphs(text@),
            (string_views(chunks@), cur@) == chunk_prefix(pv, k as int, max as int),
        decreases paras@.len() - k,
    {
        let para = string_from(paras[k].as_slice());
        assert(para@ == pv[k as int]);
        let ghost old_chunks = string_views(chunks@);
        let ghost old_cur = cur@;
        let cur_len = cur.as_str().len();
        let para_len = para.as_str().len();
        assert(cur_len == byte_len(cur@));
        assert(para_len == byte_len(para@));
        if exceeds(cur_len, para_len, max) && !cur.as_str().is_empty() {
            let t = trim(cur.as_str());
            chunks.push(t);
            assert(string_views(chunks@) =~= old_chunks.push(trimmed(old_cur)));
            cur = para;
        } else {
            if !cur.as_str().is_empty() {
                cur.append("\n\n");
                proof {
                    reveal_strlit("\n\n");
                }
            }
            cur.append(para.as_str());
        }
        assert(string_views(chunks@) =~= chunk_step(old_chunks, old_cur, pv[k as int], max as int).0);
        assert(cur@ =~= chunk_step(old_chunks, old_cur, pv[k as int], max as int).1);
        k = k + 1;
    }
    if !cur.as_str().is_empty() {
        chunks.push(trim(cur.as_str()));
    }
    if chunks.len() == 0 {
        chunks.push(String::from_str(text));
    }
    assert(string_views(chunks@) =~= chunks_of(text@, max as int));
    chunks
}

/// The sections that the structuring model returns for one chunk.
pub struct Structured {
    pub section_title: String,
    pub executive_summary: String,
    pub entities: Vec<String>,
    pub structured_markdown: String,
    pub tags: Vec<String>,
}

/// The instructions that tell the structuring model what to return.
pub const STRUCTURER_PROMPT: &'static str = "You are Ring-0 Data Structurer. Output ONLY valid JSON matching the schema. No other text. Schema: {section_title, executive_summary, entities: string[], structured_markdown, tags: string[]}";

/// The prompt that carries one raw chunk to the structuring model.
pub fn raw_data_prompt(chunk: &str) -> (r: String)
    ensures
        r@ == "RAW DATA:\n"@ + chunk@,
{
    concat_text("RAW DATA:\n", chunk)
}

/// A structured reply is kept only when its Markdown body is not empty.
pub fn accept_structured(parsed: Option<Structured>) -> (r: Option<Structured>)
    ensures
        r is Some <==> (parsed matches Some(p) && p.structured_markdown@.len() > 0),
        r matches Some(p) ==> parsed == Some(p),
{
    match parsed {
        Some(p) => {
            if p.structured_markdown.as_str().is_empty() {
                None
            } else {
                Some(p)
            }
        },
        None => None,
    }
}

/// The Markdown section for one structured chunk.
pub open spec fn section_text(s: Structured) -> Seq<char> {
    "## "@ + s.section_title@ + "\n\n**Summary:** "@ + s.executive_summary@ + "\n\n**Entities:** "@
        + joined(string_views(s.entities@), ", "@) + "\n\n"@ + s.structured_markdown@
        + "\n\n**Tags:** "@ + joined(string_views(s.tags@), ", "@) + "\n\n---\n\n"@
}

/// The master document: its heading, then the section of each chunk that was
/// structured, in chunk order.
pub open spec fn corpus_text(results: Seq<Option<Structured>>) -> Seq<char>
    decreases results.len(),
{
    if results.len() == 0 {
        "# Ring-0 Master Synthesized Corpus (v1.4 Rust)\n\n---\n\n"@
    } else {
        corpus_text(results.drop_last()) + match results.last() {
            Some(s) => section_text(s),
            None => Seq::empty(),
        }
    }
}

/// Renders one structured chunk as a Markdown section.
pub fn render_section(s: &Structured) -> (r: String)
    ensures
        r@ == section_text(*s),
{
    let mut r = String::from_str("## ");
    r.append(s.section_title.as_str());
    r.append("\n\n**Summary:** ");
    r.append(s.executive_summary.as_str());
    r.append("\n\n**Entities:** ");
    let entities = join(&s.entities, ", ");
    r.append(entities.as_str());
    r.append("\n\n");
    r.append(s.structured_markdown.as_str());
    r.append("\n\n**Tags:** ");
    let tags = join(&s.tags, ", ");
    r.append(tags.as_str());
    r.append("\n\n---\n\n");
    r
}

/// Assembles the master document from the structuring result of each chunk.
pub fn synthesize_corpus(results: &Vec<Option<Structured>>) -> (r: String)
    ensures
        r@ == corpus_text(results@),
{
    let mut r = String::from_str("# Ring-0 Master Synthesized Corpus (v1.4 Rust)\n\n---\n\n");
    let mut i: usize = 0;
    while i < results.len()
        invariant
            i <= results@.len(),
            r@ == corpus_text(results@.take(i as int)),
        decreases results@.len() - i,
    {
        assert(results@.take(i + 1).drop_last() =~= results@.take(i as int));
        match &results[i] {
            Some(s) => {
                let section = render_section(s);
                r.append(section.as_str());
            },
            None => {
                assert(corpus_text(results@.take(i + 1)) =~= corpus_text(results@.take(i as int)));
            },
        }
        i = i + 1;
    }
    assert(results@.take(results@.len() as int) =~= results@);
    r
}

/// The master document opens with its heading; each structured chunk added
/// at the end adds its section at the end, and a chunk that was not
/// structured adds nothing.  So the document of one structured chunk is the
/// heading followed by that chunk's section.
pub proof fn law_corpus_grows_by_section(results: Seq<Option<Structured>>, s: Structured)
    ensures
        corpus_text(Seq::empty()) == "# Ring-0 Master Synthesized Corpus (v1.4 Rust)\n\n---\n\n"@,
        corpus_text(results.push(Some(s))) == corpus_text(results) + section_text(s),
        corpus_text(results.push(None)) == corpus_text(results),
        corpus_text(seq![Some(s)]) == "# Ring-0 Master Synthesized Corpus (v1.4 Rust)\n\n---\n\n"@
            + section_text(s),
        corpus_text(seq![None::<Structured>]) == "# Ring-0 Master Synthesized Corpus (v1.4 Rust)\n\n---\n\n"@,
{
    assert(results.push(Some(s)).drop_last() =~= results);
    assert(results.push(None).drop_last() =~= results);
    let one = seq![Some(s)];
    let none = seq![None::<Structured>];
    assert(one.drop_last() =~= Seq::<Option<Structured>>::empty());
    assert(none.drop_last() =~= Seq::<Option<Structured>>::empty());
    assert(one.last() == Some(s));
    assert(none.last() == None::<Structured>);
    assert(corpus_text(one) == corpus_text(one.drop_last()) + section_text(s));
    assert(corpus_text(none) == corpus_text(none.drop_last()) + Seq::<char>::empty());
    assert(corpus_text(none) =~= corpus_text(Seq::<Option<Structured>>::empty()));
}

/// The document of two lists one after the other is the document of the first
/// followed by the sections of the second: every section stays, in order.
pub proof fn law_corpus_append(a: Seq<Option<Structured>>, b: Seq<Option<Structured>>)
    ensures
        corpus_text(a + b) == corpus_text(a) + corpus_text(b).subrange(
            corpus_text(Seq::empty()).len() as int,
            corpus_text(b).len() as int,
        ),
    decreases b.len(),
{
    let h = corpus_text(Seq::<Option<Structured>>::empty());
    lemma_corpus_heading(b);
    if b.len() == 0 {
        assert(a + b =~= a);
        assert(corpus_text(b).subrange(h.len() as int, corpus_text(b).len() as int) =~= Seq::<char>::empty());
    } else {
        law_corpus_append(a, b.drop_last());
        assert((a + b).drop_last() =~= a + b.drop_last());
        assert((a + b).last() == b.last());
        lemma_corpus_heading(b.drop_last());
        let tail = match b.last() {
            Some(s) => section_text(s),
            None => Seq::empty(),
        };
        assert(corpus_text(b) == corpus_text(b.drop_last()) + tail);
        assert(corpus_text(b).subrange(h.len() as int, corpus_text(b).len() as int) =~= corpus_text(
            b.drop_last(),
        ).subrange(h.len() as int, corpus_text(b.drop_last()).len() as int) + tail);
    }
}

/// Every master document begins with the heading.
proof fn lemma_corpus_heading(results: Seq<Option<Structured>>)
    ensures
        corpus_text(Seq::empty()).len() <= corpus_text(results).len(),
        corpus_text(results).subrange(0, corpus_text(Seq::empty()).len() as int) == corpus_text(
            Seq::<Option<Structured>>::empty(),
        ),
    decreases results.len(),
{
    let h = corpus_text(Seq::<Option<Structured>>::empty());
    if results.len() > 0 {
        lemma_corpus_heading(results.drop_last());
        let prev = corpus_text(results.drop_last());
        let tail = match results.last() {
            Some(s) => section_text(s),
            None => Seq::empty(),
        };
        assert((prev + tail).subrange(0, h.len() as int) =~= prev.subrange(0, h.len() as int));
    } else {
        assert(h.subrange(0, h.len() as int) =~= h);
    }
}

proof fn lemma_prefix_chunks_trimmed(paras: Seq<Seq<char>>, k: int, max: int)
    requires
        0 <= k <= paras.len(),
    ensures
        forall|i: int|
            0 <= i < chunk_prefix(paras, k, max).0.len() ==> trimmed(
                #[trigger] chunk_prefix(paras, k, max).0[i],
            ) == chunk_prefix(paras, k, max).0[i],
    decreases k,
{
    if k > 0 {
        lemma_prefix_chunks_trimmed(paras, k - 1, max);
        let (chunks, cur) = chunk_prefix(paras, k - 1, max);
        law_trim_idempotent(cur);
    }
}

/// Every chunk is already trimmed, unless the text yields no chunk of its own
/// and is handed back whole.
pub proof fn law_chunks_trimmed(text: Seq<char>, max: int)
    ensures
        chunks_of(text, max) == seq![text] || forall|i: int|
            0 <= i < chunks_of(text, max).len() ==> trimmed(#[trigger] chunks_of(text, max)[i])
                == chunks_of(text, max)[i],
{
    let paras = paragraphs(text);
    lemma_paragraphs_len(text);
    lemma_prefix_chunks_trimmed(paras, paras.len() as int, max);
    let (chunks, cur) = chunk_prefix(paras, paras.len() as int, max);
    law_trim_idempotent(cur);
}

proof fn lemma_paragraphs_len(s: Seq<char>)
    ensures
        paragraphs(s).len() >= 1,
    decreases s.len(),
{
    lemma_first_occurrence(s, paragraph_break());
    match first_occurrence(s, paragraph_break()) {
        Some(i) => {
            if 0 <= i && i + 2 <= s.len() {
                lemma_paragraphs_len(s.subrange(i + 2, s.len() as int));
            }
        },
        None => {},
    }
}

} // verus!
