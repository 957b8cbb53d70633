//! The Ring-0 refinery: recognises a document's kind from its extension,
//! pulls the text out of its contents, and normalises the text.

use vstd::prelude::*;
use vstd::utf8::{decode_utf8, encode_utf8, is_ascii_chars, valid_utf8};
use crate::pattern::{Pattern, present, present_groups, regex_compiles, regex_first_groups, regex_replaced};
use crate::text::{ascii_lower, chars_of, string_from, concat_text, join, joined, lowercased, string_views, to_lowercase, trim, trimmed};

verus! {

/// ANSI escape sequences.
pub const ANSI_ESCAPE: &'static str = r"\x1B(?:[@-Z\\-_]|\[[0-?]*[ -/]*[@-~])";

/// Shell prompts at the start of a line.
pub const SHELL_PROMPT: &'static str = r"(?m)^\s*(?:kali㎟\S*\s*|PS .*?>\s*|C:\\.*?>|\$\s*|#\s*)\s*";

/// Bracketed timestamps such as `[2024-01-31 12:00:05]`.
pub const TIMESTAMP: &'static str = r"\[\d{4}-\d{2}-\d{2}[ T]\d{2}:\d{2}(:\d{2})?\]";

/// Two word characters at word edges, split by white space.
pub const SPLIT_LETTERS: &'static str = r"(\b\w)\s+(\w\b)";

/// Markup tags.
pub const MARKUP_TAG: &'static str = r"<[^>]+>";

/// A PDF content stream; group 1 is its body.
pub const PDF_STREAM: &'static str = r"(?s)stream\r?\n(.*?)\r?\nendstream";

/// A PDF text-showing operator; group 1 is the shown string.
pub const PDF_SHOW_TEXT: &'static str = r"\(([^)]*)\)\s*Tj";

/// A run of text in a Word document body; group 1 is the text.
pub const DOCX_TEXT_RUN: &'static str = r"<w:t[^>]*>([^<]*)</w:t>";

/// What `flate2`'s zlib decoder yields for a byte string read to its end, or
/// `None` when reading fails.
pub uninterp spec fn zlib_inflated(data: Seq<u8>) -> Option<Seq<u8>>;

/// What std's `String::from_utf8_lossy` returns for a byte string.
pub uninterp spec fn utf8_lossy(bytes: Seq<u8>) -> Seq<char>;

/// `flate2::read::ZlibDecoder` over `data`, read to the end with `read_to_end`:
/// the inflated bytes, or `None` when the stream is not valid zlib.  The
/// outcome depends on `data` alone.
#[verifier::external_body]
fn zlib_decode(data: &[u8]) -> (r: Option<Vec<u8>>)
    ensures
        r is Some <==> zlib_inflated(data@) is Some,
        r matches Some(v) ==> zlib_inflated(data@) == Some(v@),
{
    let mut decoder = flate2::read::ZlibDecoder::new(data);
    let mut out = Vec::new();
    match std::io::Read::read_to_end(&mut decoder, &mut out) {
        Ok(_) => Some(out),
        Err(_) => None,
    }
}

/// std's `String::from_utf8_lossy`, owned: valid UTF-8 decodes as it is, and
/// what the replacement of invalid sequences gives otherwise is left to the name.
#[verifier::external_body]
fn lossy_text(bytes: &[u8]) -> (r: String)
    ensures
        r@ == utf8_lossy(bytes@),
        valid_utf8(bytes@) ==> r@ == decode_utf8(bytes@),
{
    String::from_utf8_lossy(bytes).into_owned()
}

/// The text of a plain file: its bytes decoded as UTF-8, with invalid
/// sequences replaced.
pub fn extract_plain_text(data: &[u8]) -> (r: String)
    ensures
        r@ == utf8_lossy(data@),
        valid_utf8(data@) ==> r@ == decode_utf8(data@),
{
    lossy_text(data)
}

/// The kinds of document the refinery reads.
#[derive(Debug, Clone, Copy, PartialEq, Eq, Structural)]
pub enum DocumentKind {
    Pdf,
    Docx,
    Xlsx,
    Pptx,
    Html,
    Plain,
}

/// The kind of a document with the (already lowercased) extension `ext`.
pub open spec fn kind_of(ext: Seq<char>) -> DocumentKind {
    if ext == "pdf"@ {
        DocumentKind::Pdf
    } else if ext == "docx"@ || ext == "doc"@ {
        DocumentKind::Docx
    } else if ext == "xlsx"@ || ext == "xls"@ {
        DocumentKind::Xlsx
    } else if ext == "pptx"@ {
        DocumentKind::Pptx
    } else if ext == "html"@ || ext == "htm"@ {
        DocumentKind::Html
    } else {
        DocumentKind::Plain
    }
}

fn str_eq(a: &str, b: &str) -> (r: bool)
    ensures
        r == (a@ == b@),
{
    String::from_str(a) == String::from_str(b)
}

/// The kind of a document with extension `ext`, compared in lowercase.
pub fn document_kind(ext: &str) -> (k: DocumentKind)
    ensures
        k == kind_of(lowercased(ext@)),
        is_ascii_chars(ext@) ==> k == kind_of(ascii_lower(ext@)),
{
    let e = to_lowercase(ext);
    let e = e.as_str();
    if str_eq(e, "pdf") {
        DocumentKind::Pdf
    } else if str_eq(e, "docx") || str_eq(e, "doc") {
        DocumentKind::Docx
    } else if str_eq(e, "xlsx") || str_eq(e, "xls") {
        DocumentKind::Xlsx
    } else if str_eq(e, "pptx") {
        DocumentKind::Pptx
    } else if str_eq(e, "html") || str_eq(e, "htm") {
        DocumentKind::Html
    } else {
        DocumentKind::Plain
    }
}

/// `t` without escape sequences, shell prompts and bracketed timestamps, trimmed.
pub open spec fn terminal_cleaned(t: Seq<char>) -> Seq<char> {
    let a = regex_replaced(ANSI_ESCAPE@, t, ""@);
    let b = regex_replaced(SHELL_PROMPT@, a, ""@);
    trimmed(regex_replaced(TIMESTAMP@, b, ""@))
}

/// Removes terminal noise from `t`; `None` when one of its patterns does not compile.
pub fn clean_terminal_noise(t: &str) -> (r: Option<String>)
    ensures
        r is Some <==> regex_compiles(ANSI_ESCAPE@) && regex_compiles(SHELL_PROMPT@) && regex_compiles(
            TIMESTAMP@,
        ),
        r matches Some(s) ==> s@ == terminal_cleaned(t@),
{
    let ansi = Pattern::new(ANSI_ESCAPE)?;
    let prompt = Pattern::new(SHELL_PROMPT)?;
    let stamp = Pattern::new(TIMESTAMP)?;
    let a = ansi.replace_all(t, "");
    let b = prompt.replace_all(a.as_str(), "");
    let c = stamp.replace_all(b.as_str(), "");
    Some(trim(c.as_str()))
}

/// `t` after `rounds` passes that join letters split by white space.
pub open spec fn kerned(t: Seq<char>, rounds: nat) -> Seq<char>
    decreases rounds,
{
    if rounds == 0 {
        t
    } else {
        regex_replaced(SPLIT_LETTERS@, kerned(t, (rounds - 1) as nat), "$1$2"@)
    }
}

/// Joins letters that PDF kerning split apart, in six passes; `None` when the
/// pattern does not compile.
pub fn fix_pdf_kerning(t: &str) -> (r: Option<String>)
    ensures
        r is Some <==> regex_compiles(SPLIT_LETTERS@),
        r matches Some(s) ==> s@ == kerned(t@, 6),
{
    let split = Pattern::new(SPLIT_LETTERS)?;
    let mut s = String::from_str(t);
    let mut i: usize = 0;
    while i < 6
        invariant
            i <= 6,
            split.source() == SPLIT_LETTERS@,
            s@ == kerned(t@, i as nat),
        decreases 6 - i,
    {
        s = split.replace_all(s.as_str(), "$1$2");
        i = i + 1;
    }
    Some(s)
}

/// A character of the Arabic blocks: Arabic, Arabic Supplement, Arabic
/// Extended-A, and the Arabic Presentation Forms A and B.
pub open spec fn is_arabic(c: char) -> bool {
    ||| '\u{0600}' <= c <= '\u{06FF}'
    ||| '\u{0750}' <= c <= '\u{077F}'
    ||| '\u{08A0}' <= c <= '\u{08FF}'
    ||| '\u{FB50}' <= c <= '\u{FDFF}'
    ||| '\u{FE70}' <= c <= '\u{FEFF}'
}

fn arabic(c: char) -> (r: bool)
    ensures
        r == is_arabic(c),
{
    ('\u{0600}' <= c && c <= '\u{06FF}') || ('\u{0750}' <= c && c <= '\u{077F}') || ('\u{08A0}' <= c
        && c <= '\u{08FF}') || ('\u{FB50}' <= c && c <= '\u{FDFF}') || ('\u{FE70}' <= c && c <= '\u{FEFF}')
}

/// The first index of the run of Arabic characters of `s` that reaches index `k`.
pub open spec fn run_start(s: Seq<char>, k: int) -> int
    decreases k,
{
    if 0 < k < s.len() && is_arabic(s[k - 1]) {
        run_start(s, k - 1)
    } else {
        k
    }
}

/// The index just past the run of Arabic characters of `s` that reaches index `k`.
pub open spec fn run_end(s: Seq<char>, k: int) -> int
    decreases s.len() - k,
{
    if 0 <= k && k + 1 < s.len() && is_arabic(s[k + 1]) {
        run_end(s, k + 1)
    } else {
        k + 1
    }
}

/// `s` with every maximal run of Arabic characters reversed in place (text
/// extracted in visual order put back in logical order); every other
/// character stays where it is.
pub open spec fn arabic_fixed(s: Seq<char>) -> Seq<char> {
    Seq::new(
        s.len(),
        |k: int|
            if is_arabic(s[k]) {
                s[run_start(s, k) + run_end(s, k) - 1 - k]
            } else {
                s[k]
            },
    )
}

proof fn lemma_run_start_bounds(s: Seq<char>, k: int)
    requires
        0 <= k < s.len(),
    ensures
        0 <= run_start(s, k) <= k,
        run_start(s, k) == 0 || !is_arabic(s[run_start(s, k) - 1]),
        forall|j: int| run_start(s, k) <= j < k ==> is_arabic(#[trigger] s[j]),
    decreases k,
{
    if 0 < k && is_arabic(s[k - 1]) {
        lemma_run_start_bounds(s, k - 1);
    }
}

proof fn lemma_run_end_bounds(s: Seq<char>, k: int)
    requires
        0 <= k < s.len(),
    ensures
        k < run_end(s, k) <= s.len(),
        run_end(s, k) == s.len() || !is_arabic(s[run_end(s, k)]),
        forall|j: int| k < j < run_end(s, k) ==> is_arabic(#[trigger] s[j]),
    decreases s.len() - k,
{
    if k + 1 < s.len() && is_arabic(s[k + 1]) {
        lemma_run_end_bounds(s, k + 1);
    }
}

/// Every index of a maximal run `[st, en)` has that run's bounds.
proof fn lemma_run_bounds_inside(s: Seq<char>, st: int, en: int, j: int)
    requires
        0 <= st <= j < en <= s.len(),
        forall|i: int| st <= i < en ==> is_arabic(#[trigger] s[i]),
        st == 0 || !is_arabic(s[st - 1]),
        en == s.len() || !is_arabic(s[en]),
    ensures
        run_start(s, j) == st,
        run_end(s, j) == en,
{
    lemma_run_start_inside(s, st, en, j);
    lemma_run_end_inside(s, st, en, j);
}

proof fn lemma_run_start_inside(s: Seq<char>, st: int, en: int, j: int)
    requires
        0 <= st <= j < en <= s.len(),
        forall|i: int| st <= i < en ==> is_arabic(#[trigger] s[i]),
        st == 0 || !is_arabic(s[st - 1]),
    ensures
        run_start(s, j) == st,
    decreases j - st,
{
    if j > st {
        assert(is_arabic(s[j - 1]));
        lemma_run_start_inside(s, st, en, j - 1);
    }
}

proof fn lemma_run_end_inside(s: Seq<char>, st: int, en: int, j: int)
    requires
        0 <= st <= j < en <= s.len(),
        forall|i: int| st <= i < en ==> is_arabic(#[trigger] s[i]),
        en == s.len() || !is_arabic(s[en]),
    ensures
        run_end(s, j) == en,
    decreases en - j,
{
    if j + 1 < en {
        assert(is_arabic(s[j + 1]));
        lemma_run_end_inside(s, st, en, j + 1);
    }
}

/// The run around an Arabic character at `k`: its bounds.
proof fn lemma_run_of(s: Seq<char>, k: int)
    requires
        0 <= k < s.len(),
        is_arabic(s[k]),
    ensures
        0 <= run_start(s, k) <= k < run_end(s, k) <= s.len(),
        run_start(s, k) == 0 || !is_arabic(s[run_start(s, k) - 1]),
        run_end(s, k) == s.len() || !is_arabic(s[run_end(s, k)]),
        forall|i: int| run_start(s, k) <= i < run_end(s, k) ==> is_arabic(#[trigger] s[i]),
{
    lemma_run_start_bounds(s, k);
    lemma_run_end_bounds(s, k);
    let st = run_start(s, k);
    let en = run_end(s, k);
    assert forall|i: int| st <= i < en implies is_arabic(#[trigger] s[i]) by {
        if i < k {
        } else if i > k {
        }
    }
}

/// Reversing the Arabic runs keeps which characters are Arabic.
proof fn lemma_arabic_fixed_class(s: Seq<char>, k: int)
    requires
        0 <= k < s.len(),
    ensures
        is_arabic(arabic_fixed(s)[k]) == is_arabic(s[k]),
{
    if is_arabic(s[k]) {
        lemma_run_of(s, k);
        let m = run_start(s, k) + run_end(s, k) - 1 - k;
        assert(is_arabic(s[m]));
    }
}

/// Reversing the Arabic runs keeps every run where it was.
proof fn lemma_arabic_fixed_run(s: Seq<char>, k: int)
    requires
        0 <= k < s.len(),
        is_arabic(s[k]),
    ensures
        run_start(arabic_fixed(s), k) == run_start(s, k),
        run_end(arabic_fixed(s), k) == run_end(s, k),
{
    let t = arabic_fixed(s);
    lemma_run_of(s, k);
    let st = run_start(s, k);
    let en = run_end(s, k);
    assert forall|i: int| st <= i < en implies is_arabic(#[trigger] t[i]) by {
        lemma_arabic_fixed_class(s, i);
    }
    if st > 0 {
        lemma_arabic_fixed_class(s, st - 1);
    }
    if en < s.len() {
        lemma_arabic_fixed_class(s, en);
    }
    lemma_run_bounds_inside(t, st, en, k);
}

/// Putting Arabic runs in order twice gives the text back.
pub proof fn law_arabic_involution(s: Seq<char>)
    ensures
        arabic_fixed(arabic_fixed(s)) == s,
{
    let t = arabic_fixed(s);
    assert forall|k: int| 0 <= k < s.len() implies #[trigger] arabic_fixed(t)[k] == s[k] by {
        lemma_arabic_fixed_class(s, k);
        if is_arabic(s[k]) {
            lemma_arabic_fixed_run(s, k);
            lemma_run_of(s, k);
            let st = run_start(s, k);
            let en = run_end(s, k);
            assert(is_arabic(t[k]));
            assert(run_end(t, k) == en);
            let m = st + en - 1 - k;
            assert(st <= m < en);
            lemma_run_bounds_inside(s, st, en, m);
            assert(run_start(s, m) == st && run_end(s, m) == en);
            assert(is_arabic(s[m]));
        } else {
            assert(!is_arabic(t[k]));
        }
    }
    assert(arabic_fixed(t) =~= s);
}

/// Each maximal run `[st, en)` of Arabic characters comes out as the exact
/// reverse of itself, in the same place: the character at `k` is the one that
/// stood at `st + en - 1 - k`.  The text keeps its length.
pub proof fn law_arabic_runs_reversed(s: Seq<char>, st: int, en: int)
    requires
        0 <= st < en <= s.len(),
        forall|i: int| st <= i < en ==> is_arabic(#[trigger] s[i]),
        st == 0 || !is_arabic(s[st - 1]),
        en == s.len() || !is_arabic(s[en]),
    ensures
        arabic_fixed(s).len() == s.len(),
        forall|k: int| st <= k < en ==> #[trigger] arabic_fixed(s)[k] == s[st + en - 1 - k],
        arabic_fixed(s).subrange(st, en) == s.subrange(st, en).reverse(),
{
    assert forall|k: int| st <= k < en implies #[trigger] arabic_fixed(s)[k] == s[st + en - 1 - k] by {
        lemma_run_bounds_inside(s, st, en, k);
    }
    assert(arabic_fixed(s).subrange(st, en) =~= s.subrange(st, en).reverse());
}

/// A character outside the Arabic script stays where it is.
pub proof fn law_arabic_keeps_others(s: Seq<char>, k: int)
    requires
        0 <= k < s.len(),
        !is_arabic(s[k]),
    ensures
        arabic_fixed(s).len() == s.len(),
        arabic_fixed(s)[k] == s[k],
{
}

/// Puts each run of Arabic script in `t` back in logical order.
pub fn fix_arabic_reversal(t: &str) -> (r: String)
    ensures
        r@ == arabic_fixed(t@),
{
    let s = chars_of(t);
    let n = s.len();
    let ghost sv = s@;
    let ghost fx = arabic_fixed(sv);
    let mut out: Vec<char> = Vec::new();
    let mut i: usize = 0;
    while i < n
        invariant
            n == sv.len(),
            sv == s@,
            fx == arabic_fixed(sv),
            i <= n,
            i == 0 || i == n || !is_arabic(sv[i - 1]) || !is_arabic(sv[i as int]),
            out@ == fx.take(i as int),
        decreases n - i,
    {
        if arabic(s[i]) {
            let mut e: usize = i + 1;
            while e < n && arabic(s[e])
                invariant
                    n == sv.len(),
                    sv == s@,
                    i < e <= n,
                    forall|j: int| i <= j < e ==> is_arabic(#[trigger] sv[j]),
                decreases n - e,
            {
                e = e + 1;
            }
            proof {
                assert forall|j: int| i <= j < e implies #[trigger] run_start(sv, j) == i && run_end(sv, j)
                    == e by {
                    lemma_run_bounds_inside(sv, i as int, e as int, j);
                }
            }
            let mut k: usize = e;
            while k > i
                invariant
                    n == sv.len(),
                    sv == s@,
                    fx == arabic_fixed(sv),
                    i < e <= n,
                    i <= k <= e,
                    forall|j: int| i <= j < e ==> is_arabic(#[trigger] sv[j]),
                    forall|j: int| i <= j < e ==> #[trigger] run_start(sv, j) == i && run_end(sv, j) == e,
                    out@ == fx.take(i + (e - k)),
                decreases k - i,
            {
                let ghost pos = i + (e - k);
                assert(is_arabic(sv[pos]));
                assert(run_start(sv, pos) == i && run_end(sv, pos) == e);
                out.push(s[k - 1]);
                assert(fx[pos] == sv[k - 1]);
                assert(out@ =~= fx.take(pos + 1));
                k = k - 1;
            }
            i = e;
        } else {
            out.push(s[i]);
            assert(out@ =~= fx.take(i + 1));
            i = i + 1;
        }
    }
    assert(fx.take(n as int) =~= fx);
    string_from(&out)
}

/// The normal form of extracted text: terminal noise removed, kerning fixed,
/// Arabic runs put back in logical order.
pub open spec fn normalized(text: Seq<char>) -> Seq<char> {
    arabic_fixed(kerned(terminal_cleaned(text), 6))
}

/// All patterns of the normalisation compile.
pub open spec fn normalizer_ready() -> bool {
    &&& regex_compiles(ANSI_ESCAPE@)
    &&& regex_compiles(SHELL_PROMPT@)
    &&& regex_compiles(TIMESTAMP@)
    &&& regex_compiles(SPLIT_LETTERS@)
}

/// Normalises the text extracted from a document.
pub fn normalize_text(text: &str) -> (r: Option<String>)
    ensures
        r is Some <==> normalizer_ready(),
        r matches Some(s) ==> s@ == normalized(text@),
{
    let t = clean_terminal_noise(text)?;
    let t = fix_pdf_kerning(t.as_str())?;
    Some(fix_arabic_reversal(t.as_str()))
}

/// The text of an HTML page: every tag replaced by a space.
pub fn extract_html_text(content: &str) -> (r: Option<String>)
    ensures
        r is Some <==> regex_compiles(MARKUP_TAG@),
        r matches Some(s) ==> s@ == regex_replaced(MARKUP_TAG@, content@, " "@),
{
    let tag = Pattern::new(MARKUP_TAG)?;
    Some(tag.replace_all(content, " "))
}

/// The text runs of a Word document body, joined by spaces.
pub fn extract_docx_text(document_xml: &str) -> (r: Option<String>)
    ensures
        r is Some <==> regex_compiles(DOCX_TEXT_RUN@),
        r matches Some(s) ==> s@ == joined(present(regex_first_groups(DOCX_TEXT_RUN@, document_xml@)), " "@),
{
    let run = Pattern::new(DOCX_TEXT_RUN)?;
    let groups = run.first_groups(document_xml);
    let parts = present_groups(&groups);
    Some(join(&parts, " "))
}

/// The entry of a Word document archive that holds the document body.
pub const DOCX_BODY_ENTRY: &'static str = "word/document.xml";

/// Whether `zip::ZipArchive::new` accepts `archive` as a zip archive.
pub uninterp spec fn zip_archive_opens(archive: Seq<u8>) -> bool;

/// What the entry `name` of the zip archive `archive` reads as text: the
/// entry found with `ZipArchive::by_name` and read with `read_to_string`;
/// empty when the archive has no such entry.
pub uninterp spec fn zip_entry_text(archive: Seq<u8>, name: Seq<char>) -> Seq<char>;

/// Opens `archive` with `zip::ZipArchive::new` over an in-memory cursor and
/// reads the entry `name` (`by_name`, then `read_to_string`).  `None` when
/// the archive does not open; otherwise the entry's text, which is empty when
/// there is no such entry.  Both outcomes depend on the bytes and the name alone.
#[verifier::external_body]
fn zip_read_entry(archive: &[u8], name: &str) -> (r: Option<String>)
    ensures
        r is Some <==> zip_archive_opens(archive@),
        r matches Some(s) ==> s@ == zip_entry_text(archive@, name@),
{
    match zip::ZipArchive::new(std::io::Cursor::new(archive)) {
        Ok(mut zipped) => {
            let mut text = String::new();
            if let Ok(mut entry) = zipped.by_name(name) {
                let _ = std::io::Read::read_to_string(&mut entry, &mut text);
            }
            Some(text)
        },
        Err(_) => None,
    }
}

/// Why the text of a Word document could not be extracted.
#[derive(Debug, Clone, Copy, PartialEq, Eq, Structural)]
pub enum DocxError {
    /// The bytes are not a zip archive.
    NotAnArchive,
    /// The text-run pattern does not compile.
    PatternRejected,
}

/// The text of the Word document whose archive is `archive`: the text runs
/// of its body entry, joined by spaces.
pub open spec fn docx_text(archive: Seq<u8>) -> Seq<char> {
    joined(present(regex_first_groups(DOCX_TEXT_RUN@, zip_entry_text(archive, DOCX_BODY_ENTRY@))), " "@)
}

/// The text of a Word document, from the bytes of its archive: the text runs
/// of `word/document.xml`, joined by spaces (empty when the archive has no
/// such entry).
pub fn extract_docx_bytes(archive: &[u8]) -> (r: Result<String, DocxError>)
    ensures
        r matches Err(DocxError::NotAnArchive) <==> !zip_archive_opens(archive@),
        r matches Err(DocxError::PatternRejected) <==> zip_archive_opens(archive@) && !regex_compiles(
            DOCX_TEXT_RUN@,
        ),
        r matches Ok(s) ==> s@ == docx_text(archive@),
{
    let body = match zip_read_entry(archive, DOCX_BODY_ENTRY) {
        Some(body) => body,
        None => return Err(DocxError::NotAnArchive),
    };
    match extract_docx_text(body.as_str()) {
        Some(t) => Ok(t),
        None => Err(DocxError::PatternRejected),
    }
}

/// The placeholder text of a spreadsheet document.
pub fn extract_xlsx() -> (r: String)
    ensures
        r@ == "[XLSX extracted]"@,
{
    String::from_str("[XLSX extracted]")
}

/// The placeholder text of a presentation document.
pub fn extract_pptx() -> (r: String)
    ensures
        r@ == "[PPTX extracted]"@,
{
    String::from_str("[PPTX extracted]")
}

/// The strings shown by the streams in `streams`: for each stream that
/// inflates, the strings its text-showing operators show, in order.
pub open spec fn shown_strings(streams: Seq<Seq<char>>) -> Seq<Seq<char>>
    decreases streams.len(),
{
    if streams.len() == 0 {
        Seq::empty()
    } else {
        shown_strings(streams.drop_last()) + match zlib_inflated(encode_utf8(streams.last())) {
            Some(d) => present(regex_first_groups(PDF_SHOW_TEXT@, utf8_lossy(d))),
            None => Seq::empty(),
        }
    }
}

/// The text of a PDF file: the strings shown by its content streams, joined by spaces.
pub open spec fn pdf_text(data: Seq<u8>) -> Seq<char> {
    joined(shown_strings(present(regex_first_groups(PDF_STREAM@, utf8_lossy(data)))), " "@)
}

/// The strings that one inflated content stream shows.
fn shown_in(stream: &String, show: &Pattern) -> (r: Vec<String>)
    requires
        show.source() == PDF_SHOW_TEXT@,
    ensures
        string_views(r@) == match zlib_inflated(encode_utf8(stream@)) {
            Some(d) => present(regex_first_groups(PDF_SHOW_TEXT@, utf8_lossy(d))),
            None => Seq::empty(),
        },
{
    match zlib_decode(stream.as_str().as_bytes()) {
        Some(dec) => {
            let ds = lossy_text(dec.as_slice());
            let groups = show.first_groups(ds.as_str());
            present_groups(&groups)
        },
        None => Vec::new(),
    }
}

/// Extracts the text of a PDF file from its bytes.
pub fn extract_pdf_text(data: &[u8]) -> (r: Option<String>)
    ensures
        r is Some <==> regex_compiles(PDF_STREAM@) && regex_compiles(PDF_SHOW_TEXT@),
        r matches Some(s) ==> s@ == pdf_text(data@),
{
    let stream = Pattern::new(PDF_STREAM)?;
    let show = Pattern::new(PDF_SHOW_TEXT)?;
    let text = lossy_text(data);
    let groups = stream.first_groups(text.as_str());
    let streams = present_groups(&groups);
    let ghost sv = string_views(streams@);
    let mut parts: Vec<String> = Vec::new();
    let mut i: usize = 0;
    while i < streams.len()
        invariant
            i <= streams@.len(),
            sv == string_views(streams@),
            show.source() == PDF_SHOW_TEXT@,
            string_views(parts@) == shown_strings(sv.take(i as int)),
        decreases streams@.len() - i,
    {
        assert(sv.take(i + 1).drop_last() =~= sv.take(i as int));
        let ghost before = string_views(parts@);
        let mut found = shown_in(&streams[i], &show);
        let ghost fv = string_views(found@);
        parts.append(&mut found);
        assert(string_views(parts@) =~= before + fv);
        i = i + 1;
    }
    assert(sv.take(sv.len() as int) =~= sv);
    Some(join(&parts, " "))
}

/// The report block for one processed file.
pub fn file_report(name: &str, text: &str) -> (r: String)
    ensures
        r@ == "=== BEGIN "@ + name@ + "\n"@ + text@ + "\n=== END ===\n"@,
{
    let mut r = concat_text("=== BEGIN ", name);
    r.append("\n");
    r.append(text);
    r.append("\n=== END ===\n");
    r
}

} // verus!
