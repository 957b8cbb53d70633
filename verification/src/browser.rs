//! The browser's page renderer and its network-stack guard.

use vstd::prelude::*;
use crate::text::{
    begins_with, chars_of, concat_text, contains_chars, find_chars, first_occurrence, lemma_first_occurrence,
    occurs, occurs_at, string_from,
};

verus! {

/// The network stack is the kernel-bypass one: the preload list names its library.
pub open spec fn joyride_named(ld_preload: Seq<char>) -> bool {
    occurs(ld_preload, "joyride_networking.so"@)
}

/// Whether the `LD_PRELOAD` value `ld_preload` loads the Joyride networking library.
pub fn joyride_stack_active(ld_preload: &str) -> (r: bool)
    ensures
        r == joyride_named(ld_preload@),
{
    contains_chars(&chars_of(ld_preload), &chars_of("joyride_networking.so"))
}

/// The index just past the first newline of `s`, if it has one.
pub open spec fn newline_at(s: Seq<char>) -> Option<int> {
    first_occurrence(s, seq!['\n'])
}

/// The lines of `s`, as std's `str::lines` gives them: split at each `\n`, a
/// `\r` just before the `\n` dropped, and no empty line after a final `\n`.
pub open spec fn lines_of(s: Seq<char>) -> Seq<Seq<char>>
    decreases s.len(),
{
    if s.len() == 0 {
        Seq::empty()
    } else {
        match newline_at(s) {
            Some(i) => {
                proof {
                    lemma_first_occurrence(s, seq!['\n']);
                }
                let raw = s.subrange(0, i);
                let line = if raw.len() > 0 && raw.last() == '\r' {
                    raw.drop_last()
                } else {
                    raw
                };
                if 0 <= i < s.len() {
                    seq![line] + lines_of(s.subrange(i + 1, s.len() as int))
                } else {
                    seq![line]
                }
            },
            None => seq![s],
        }
    }
}

/// The text that follows the first `open` tag of `line`, up to the first
/// `close` tag of the line (or to the end of the line when it has none).
pub open spec fn tag_text(line: Seq<char>, open: Seq<char>, close: Seq<char>) -> Seq<char> {
    let start = first_occurrence(line, open)->0 + open.len();
    let end = match first_occurrence(line, close) {
        Some(e) => e,
        None => line.len() as int,
    };
    line.subrange(start, end)
}

/// The tag text of `line` can be cut out: the line does not close the tag
/// before the end of its first opening.
pub open spec fn tag_cuttable(line: Seq<char>, open: Seq<char>, close: Seq<char>) -> bool {
    occurs(line, open) ==> match first_occurrence(line, close) {
        Some(e) => first_occurrence(line, open)->0 + open.len() <= e,
        None => true,
    }
}

pub open spec fn line_renderable(line: Seq<char>) -> bool {
    &&& tag_cuttable(line, "<title>"@, "</title>"@)
    &&& tag_cuttable(line, "<h1>"@, "</h1>"@)
    &&& tag_cuttable(line, "<p>"@, "</p>"@)
}

/// Every line of `html` that opens a title, a header or a paragraph closes it
/// no earlier than where the opening ends.
pub open spec fn html_renderable(html: Seq<char>) -> bool {
    forall|k: int| 0 <= k < lines_of(html).len() ==> #[trigger] line_renderable(lines_of(html)[k])
}

/// The log and the window title after rendering one more line.
pub open spec fn render_line(line: Seq<char>, log: Seq<Seq<char>>, title: Seq<char>) -> (Seq<Seq<char>>, Seq<char>) {
    let title2 = if occurs(line, "<title>"@) {
        tag_text(line, "<title>"@, "</title>"@)
    } else {
        title
    };
    let log1 = if occurs(line, "<body>"@) {
        log.push("[Servo Layout] Entering document body rendering pipeline..."@)
    } else {
        log
    };
    let log2 = if occurs(line, "<h1>"@) {
        log1.push("[Servo Render] <h1> Header: "@ + tag_text(line, "<h1>"@, "</h1>"@))
    } else {
        log1
    };
    let log3 = if occurs(line, "<p>"@) {
        log2.push("[Servo Render] Paragraph text: "@ + tag_text(line, "<p>"@, "</p>"@))
    } else {
        log2
    };
    (log3, title2)
}

/// The log and the window title after rendering the first `k` lines.
pub open spec fn render_prefix(lines: Seq<Seq<char>>, k: int, title: Seq<char>) -> (Seq<Seq<char>>, Seq<char>)
    decreases k,
{
    if k <= 0 {
        (seq!["[Servo Core] Parsing and rendering HTML payload..."@], title)
    } else {
        let (log, t) = render_prefix(lines, k - 1, title);
        render_line(lines[k - 1], log, t)
    }
}

/// The renderer of the sovereign browser; it keeps the title of the page.
pub struct ServoRenderer {
    document_title: String,
}

/// Splits `s` into its lines.
fn lines(s: &[char]) -> (r: Vec<Vec<char>>)
    ensures
        r@.map_values(|l: Vec<char>| l@) == lines_of(s@),
    decreases s@.len(),
{
    if s.len() == 0 {
        return Vec::new();
    }
    let nl = ['\n'];
    proof {
        lemma_first_occurrence(s@, nl@);
        assert(nl@ =~= seq!['\n']);
    }
    match find_chars(s, &nl) {
        Some(i) => {
            let mut raw = slice_chars(s, 0, i);
            if raw.len() > 0 && raw[raw.len() - 1] == '\r' {
                raw.pop();
                assert(raw@ =~= s@.subrange(0, i as int).drop_last());
            }
            let rest = slice_chars(s, i + 1, s.len());
            let more = lines(&rest);
            let mut r: Vec<Vec<char>> = Vec::new();
            r.push(raw);
            let mut m = more;
            let ghost mv = m@;
            r.append(&mut m);
            assert(r@.map_values(|l: Vec<char>| l@) =~= seq![r@[0]@] + mv.map_values(|l: Vec<char>| l@));
            r
        },
        None => {
            let mut r: Vec<Vec<char>> = Vec::new();
            r.push(slice_chars(s, 0, s.len()));
            assert(s@.subrange(0, s@.len() as int) =~= s@);
            assert(r@.map_values(|l: Vec<char>| l@) =~= seq![s@]);
            r
        },
    }
}

/// The characters of `s` from `i` up to `j`.
fn slice_chars(s: &[char], i: usize, j: usize) -> (r: Vec<char>)
    requires
        i <= j <= s@.len(),
    ensures
        r@ == s@.subrange(i as int, j as int),
{
    vstd::slice::slice_to_vec(vstd::slice::slice_subrange(s, i, j))
}

/// The tag text of `line` for the tag pair `open` / `close`, where `open` occurs.
fn cut_tag(line: &[char], open: &[char], close: &[char]) -> (r: String)
    requires
        occurs(line@, open@),
        tag_cuttable(line@, open@, close@),
    ensures
        r@ == tag_text(line@, open@, close@),
{
    proof {
        lemma_first_occurrence(line@, open@);
        lemma_first_occurrence(line@, close@);
    }
    let n = line.len();
    let start = match find_chars(line, open) {
        Some(s) => {
            assert(occurs_at(line@, open@, s as int));
            s + open.len()
        },
        None => 0,
    };
    let end = match find_chars(line, close) {
        Some(e) => e,
        None => line.len(),
    };
    string_from(&slice_chars(line, start, end))
}

impl ServoRenderer {
    /// The title of the page rendered last.
    pub closed spec fn title(&self) -> Seq<char> {
        self.document_title@
    }

    /// A renderer with no page yet.
    pub fn new() -> (r: Self)
        ensures
            r.title() == "Untitled Document"@,
    {
        ServoRenderer { document_title: String::from_str("Untitled Document") }
    }

    /// Whether `html` can be rendered: see `html_renderable`.
    pub fn can_render(html: &str) -> (r: bool)
        ensures
            r == html_renderable(html@),
    {
        let s = chars_of(html);
        let ls = lines(&s);
        let title_open = chars_of("<title>");
        let title_close = chars_of("</title>");
        let h1_open = chars_of("<h1>");
        let h1_close = chars_of("</h1>");
        let p_open = chars_of("<p>");
        let p_close = chars_of("</p>");
        let ghost views = ls@.map_values(|l: Vec<char>| l@);
        let mut k: usize = 0;
        while k < ls.len()
            invariant
                k <= ls@.len(),
                views == ls@.map_values(|l: Vec<char>| l@),
                views == lines_of(html@),
                title_open@ == "<title>"@,
                title_close@ == "</title>"@,
                h1_open@ == "<h1>"@,
                h1_close@ == "</h1>"@,
                p_open@ == "<p>"@,
                p_close@ == "</p>"@,
                forall|j: int| 0 <= j < k ==> #[trigger] line_renderable(views[j]),
            decreases ls@.len() - k,
        {
            let line = &ls[k];
            if !Self::cuttable(line, &title_open, &title_close) || !Self::cuttable(line, &h1_open, &h1_close)
                || !Self::cuttable(line, &p_open, &p_close) {
                assert(!line_renderable(views[k as int]));
                return false;
            }
            k = k + 1;
        }
        true
    }

    fn cuttable(line: &[char], open: &[char], close: &[char]) -> (r: bool)
        ensures
            r == tag_cuttable(line@, open@, close@),
    {
        match find_chars(line, open) {
            None => {
                proof {
                    lemma_first_occurrence(line@, open@);
                }
                true
            },
            Some(s) => {
                proof {
                    lemma_first_occurrence(line@, open@);
                }
                match find_chars(line, close) {
                    Some(e) => {
                        proof {
                            lemma_first_occurrence(line@, open@);
                        }
                        s as u128 + open.len() as u128 <= e as u128
                    },
                    None => true,
                }
            },
        }
    }

    /// Renders `html`: updates the window title from the page's `<title>` and
    /// returns the render log, which begins with the parsing notice, has a line
    /// for the body, each header and each paragraph in page order, and ends
    /// with the completion notice naming the window.
    pub fn render_html(&mut self, html: &str) -> (log: Vec<String>)
        requires
            html_renderable(html@),
        ensures
            ({
                let (body_log, title) = render_prefix(lines_of(html@), lines_of(html@).len() as int, old(self).title());
                &&& final(self).title() == title
                &&& log@.map_values(|l: String| l@) == body_log.push(
                    "[Servo Core] Rendering complete. Window: \""@ + title + "\""@,
                )
            }),
    {
        let s = chars_of(html);
        let ls = lines(&s);
        let title_open = chars_of("<title>");
        let title_close = chars_of("</title>");
        let body = chars_of("<body>");
        let h1_open = chars_of("<h1>");
        let h1_close = chars_of("</h1>");
        let p_open = chars_of("<p>");
        let p_close = chars_of("</p>");
        let ghost views = ls@.map_values(|l: Vec<char>| l@);
        let ghost title0 = self.document_title@;
        let mut log: Vec<String> = Vec::new();
        log.push(String::from_str("[Servo Core] Parsing and rendering HTML payload..."));
        let mut k: usize = 0;
        while k < ls.len()
            invariant
                k <= ls@.len(),
                views == ls@.map_values(|l: Vec<char>| l@),
                views == lines_of(html@),
                html_renderable(html@),
                title_open@ == "<title>"@,
                title_close@ == "</title>"@,
                body@ == "<body>"@,
                h1_open@ == "<h1>"@,
                h1_close@ == "</h1>"@,
                p_open@ == "<p>"@,
                p_close@ == "</p>"@,
                (log@.map_values(|l: String| l@), self.document_title@) == render_prefix(views, k as int, title0),
            decreases ls@.len() - k,
        {
            let line = &ls[k];
            assert(line_renderable(views[k as int]));
            assert(views[k as int] == line@);
            let ghost before = log@.map_values(|l: String| l@);
            if contains_chars(line, &title_open) {
                self.document_title = cut_tag(line, &title_open, &title_close);
            }
            if contains_chars(line, &body) {
                log.push(String::from_str("[Servo Layout] Entering document body rendering pipeline..."));
            }
            if contains_chars(line, &h1_open) {
                let text = cut_tag(line, &h1_open, &h1_close);
                log.push(concat_text("[Servo Render] <h1> Header: ", text.as_str()));
            }
            if contains_chars(line, &p_open) {
                let text = cut_tag(line, &p_open, &p_close);
                log.push(concat_text("[Servo Render] Paragraph text: ", text.as_str()));
            }
            assert(log@.map_values(|l: String| l@) =~= render_line(line@, before, render_prefix(views, k as int, title0).1).0);
            k = k + 1;
        }
        let closing = concat_text("[Servo Core] Rendering complete. Window: \"", self.document_title.as_str());
        log.push(concat_text(closing.as_str(), "\""));
        log
    }
}

/// Rendering lines none of which opens a title keeps the window title, and
/// the log always begins with the parsing notice.
pub proof fn law_title_kept(lines: Seq<Seq<char>>, k: int, title: Seq<char>)
    requires
        0 <= k <= lines.len(),
        forall|j: int| 0 <= j < k ==> !occurs(#[trigger] lines[j], "<title>"@),
    ensures
        render_prefix(lines, k, title).1 == title,
        render_prefix(lines, k, title).0.len() >= 1,
        render_prefix(lines, k, title).0[0] == "[Servo Core] Parsing and rendering HTML payload..."@,
    decreases k,
{
    if k > 0 {
        law_title_kept(lines, k - 1, title);
        assert(!occurs(lines[k - 1], "<title>"@));
    }
}

/// After a line that opens a title, the window title is that line's title
/// text, whatever it was before.
pub proof fn law_title_set(lines: Seq<Seq<char>>, k: int, title: Seq<char>)
    requires
        0 < k <= lines.len(),
        occurs(lines[k - 1], "<title>"@),
    ensures
        render_prefix(lines, k, title).1 == tag_text(lines[k - 1], "<title>"@, "</title>"@),
{
}

/// The number of entries of `log` that begin with `prefix`.
pub open spec fn entries_with(log: Seq<Seq<char>>, prefix: Seq<char>) -> nat
    decreases log.len(),
{
    if log.len() == 0 {
        0
    } else {
        entries_with(log.drop_last(), prefix) + if begins_with(log.last(), prefix) {
            1nat
        } else {
            0nat
        }
    }
}

/// The number of the first `k` lines in which `tag` occurs.
pub open spec fn lines_with(lines: Seq<Seq<char>>, k: int, tag: Seq<char>) -> nat
    decreases k,
{
    if k <= 0 {
        0
    } else {
        lines_with(lines, k - 1, tag) + if occurs(lines[k - 1], tag) {
            1nat
        } else {
            0nat
        }
    }
}

proof fn lemma_entries_push(log: Seq<Seq<char>>, x: Seq<char>, prefix: Seq<char>)
    ensures
        entries_with(log.push(x), prefix) == entries_with(log, prefix) + if begins_with(x, prefix) {
            1nat
        } else {
            0nat
        },
{
    assert(log.push(x).drop_last() =~= log);
}

proof fn lemma_begins_with_own(p: Seq<char>, t: Seq<char>)
    ensures
        begins_with(p + t, p),
{
    assert((p + t).subrange(0, p.len() as int) =~= p);
}

proof fn lemma_not_begins(x: Seq<char>, p: Seq<char>, i: int)
    requires
        0 <= i < p.len(),
        i < x.len(),
        x[i] != p[i],
    ensures
        !begins_with(x, p),
{
    if begins_with(x, p) {
        assert(x.subrange(0, p.len() as int)[i] == x[i]);
    }
}

/// The entry prefixes of the render log.
pub open spec fn paragraph_prefix() -> Seq<char> {
    "[Servo Render] Paragraph text: "@
}

pub open spec fn header_prefix() -> Seq<char> {
    "[Servo Render] <h1> Header: "@
}

pub open spec fn body_entry() -> Seq<char> {
    "[Servo Layout] Entering document body rendering pipeline..."@
}

/// Which of the three kinds of entry each log entry is.
proof fn lemma_entry_kinds(t: Seq<char>, title: Seq<char>)
    ensures
        begins_with(paragraph_prefix() + t, paragraph_prefix()),
        !begins_with(paragraph_prefix() + t, header_prefix()),
        !begins_with(paragraph_prefix() + t, body_entry()),
        begins_with(header_prefix() + t, header_prefix()),
        !begins_with(header_prefix() + t, paragraph_prefix()),
        !begins_with(header_prefix() + t, body_entry()),
        begins_with(body_entry(), body_entry()),
        !begins_with(body_entry(), paragraph_prefix()),
        !begins_with(body_entry(), header_prefix()),
        !begins_with("[Servo Core] Parsing and rendering HTML payload..."@, paragraph_prefix()),
        !begins_with("[Servo Core] Parsing and rendering HTML payload..."@, header_prefix()),
        !begins_with("[Servo Core] Parsing and rendering HTML payload..."@, body_entry()),
        !begins_with("[Servo Core] Rendering complete. Window: \""@ + title + "\""@, paragraph_prefix()),
        !begins_with("[Servo Core] Rendering complete. Window: \""@ + title + "\""@, header_prefix()),
        !begins_with("[Servo Core] Rendering complete. Window: \""@ + title + "\""@, body_entry()),
{
    reveal_strlit("[Servo Render] Paragraph text: ");
    reveal_strlit("[Servo Render] <h1> Header: ");
    reveal_strlit("[Servo Layout] Entering document body rendering pipeline...");
    reveal_strlit("[Servo Core] Parsing and rendering HTML payload...");
    reveal_strlit("[Servo Core] Rendering complete. Window: \"");
    let pp = paragraph_prefix();
    let hp = header_prefix();
    let be = body_entry();
    let start = "[Servo Core] Parsing and rendering HTML payload..."@;
    let done = "[Servo Core] Rendering complete. Window: \""@ + title + "\""@;
    lemma_begins_with_own(pp, t);
    lemma_begins_with_own(hp, t);
    lemma_begins_with_own(be, Seq::empty());
    assert(be + Seq::<char>::empty() =~= be);
    assert((pp + t)[15] == pp[15]);
    assert((hp + t)[15] == hp[15]);
    assert((pp + t)[7] == pp[7]);
    assert((hp + t)[7] == hp[7]);
    lemma_not_begins(pp + t, hp, 15);
    lemma_not_begins(pp + t, be, 7);
    lemma_not_begins(hp + t, pp, 15);
    lemma_not_begins(hp + t, be, 7);
    lemma_not_begins(be, pp, 7);
    lemma_not_begins(be, hp, 7);
    lemma_not_begins(start, pp, 7);
    lemma_not_begins(start, hp, 7);
    lemma_not_begins(start, be, 7);
    assert(done[7] == 'C');
    lemma_not_begins(done, pp, 7);
    lemma_not_begins(done, hp, 7);
    lemma_not_begins(done, be, 7);
}

/// After `k` lines, the log holds one paragraph entry for each line that
/// opens a paragraph, one header entry for each line that opens a header, and
/// one body entry for each line that opens the body, whatever else the lines hold.
proof fn lemma_render_counts(lines: Seq<Seq<char>>, k: int, title: Seq<char>)
    requires
        0 <= k <= lines.len(),
    ensures
        entries_with(render_prefix(lines, k, title).0, paragraph_prefix()) == lines_with(lines, k, "<p>"@),
        entries_with(render_prefix(lines, k, title).0, header_prefix()) == lines_with(lines, k, "<h1>"@),
        entries_with(render_prefix(lines, k, title).0, body_entry()) == lines_with(lines, k, "<body>"@),
    decreases k,
{
    lemma_entry_kinds(Seq::empty(), title);
    if k == 0 {
        let l0 = seq!["[Servo Core] Parsing and rendering HTML payload..."@];
        lemma_entries_push(Seq::empty(), "[Servo Core] Parsing and rendering HTML payload..."@, paragraph_prefix());
        lemma_entries_push(Seq::empty(), "[Servo Core] Parsing and rendering HTML payload..."@, header_prefix());
        lemma_entries_push(Seq::empty(), "[Servo Core] Parsing and rendering HTML payload..."@, body_entry());
        assert(Seq::<Seq<char>>::empty().push("[Servo Core] Parsing and rendering HTML payload..."@) =~= l0);
    } else {
        lemma_render_counts(lines, k - 1, title);
        let (log, t) = render_prefix(lines, k - 1, title);
        let line = lines[k - 1];
        let ht = tag_text(line, "<h1>"@, "</h1>"@);
        let pt = tag_text(line, "<p>"@, "</p>"@);
        lemma_entry_kinds(ht, title);
        lemma_entry_kinds(pt, title);
        let log1 = if occurs(line, "<body>"@) { log.push(body_entry()) } else { log };
        let log2 = if occurs(line, "<h1>"@) { log1.push(header_prefix() + ht) } else { log1 };
        let log3 = if occurs(line, "<p>"@) { log2.push(paragraph_prefix() + pt) } else { log2 };
        assert(render_prefix(lines, k, title).0 == log3);
        lemma_entries_push(log, body_entry(), paragraph_prefix());
        lemma_entries_push(log, body_entry(), header_prefix());
        lemma_entries_push(log, body_entry(), body_entry());
        lemma_entries_push(log1, header_prefix() + ht, paragraph_prefix());
        lemma_entries_push(log1, header_prefix() + ht, header_prefix());
        lemma_entries_push(log1, header_prefix() + ht, body_entry());
        lemma_entries_push(log2, paragraph_prefix() + pt, paragraph_prefix());
        lemma_entries_push(log2, paragraph_prefix() + pt, header_prefix());
        lemma_entries_push(log2, paragraph_prefix() + pt, body_entry());
    }
}

/// The render log of a page has one paragraph entry for each line of the page
/// that opens a paragraph, one header entry for each line that opens a header,
/// and one body entry for each line that opens the body, whatever other tags
/// those lines hold; it begins with the parsing notice and ends with the
/// completion notice naming the window.
pub proof fn law_render_entries(html: Seq<char>, title: Seq<char>)
    ensures
        ({
            let lines = lines_of(html);
            let (body_log, t) = render_prefix(lines, lines.len() as int, title);
            let log = body_log.push("[Servo Core] Rendering complete. Window: \""@ + t + "\""@);
            &&& entries_with(log, "[Servo Render] Paragraph text: "@) == lines_with(lines, lines.len() as int, "<p>"@)
            &&& entries_with(log, "[Servo Render] <h1> Header: "@) == lines_with(lines, lines.len() as int, "<h1>"@)
            &&& entries_with(log, "[Servo Layout] Entering document body rendering pipeline..."@)
                == lines_with(lines, lines.len() as int, "<body>"@)
            &&& log[0] == "[Servo Core] Parsing and rendering HTML payload..."@
            &&& log.last() == "[Servo Core] Rendering complete. Window: \""@ + t + "\""@
        }),
{
    let lines = lines_of(html);
    let n = lines.len() as int;
    let (body_log, t) = render_prefix(lines, n, title);
    let done = "[Servo Core] Rendering complete. Window: \""@ + t + "\""@;
    lemma_render_counts(lines, n, title);
    lemma_entry_kinds(Seq::empty(), t);
    lemma_entries_push(body_log, done, paragraph_prefix());
    lemma_entries_push(body_log, done, header_prefix());
    lemma_entries_push(body_log, done, body_entry());
    lemma_log_starts(lines, n, title);
}

proof fn lemma_log_starts(lines: Seq<Seq<char>>, k: int, title: Seq<char>)
    requires
        0 <= k <= lines.len(),
    ensures
        render_prefix(lines, k, title).0.len() >= 1,
        render_prefix(lines, k, title).0[0] == "[Servo Core] Parsing and rendering HTML payload..."@,
    decreases k,
{
    if k > 0 {
        lemma_log_starts(lines, k - 1, title);
    }
}

} // verus!
