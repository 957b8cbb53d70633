//! The engine's interactive console: one line of input, one step.

use vstd::prelude::*;
use crate::grid::{CellValue, CellValueView, XcvSheet, cell_key, read_cell};
use crate::text::{
    chars_of, concat_text, is_white_space, join, joined, string_from, string_views, to_uppercase, upper_form,
    white_space,
};

verus! {

/// The end of the run of characters that are not white space starting at `i`.
pub open spec fn word_end(s: Seq<char>, i: int) -> int
    decreases s.len() - i,
{
    if 0 <= i < s.len() && !is_white_space(s[i]) {
        word_end(s, i + 1)
    } else {
        i
    }
}

pub proof fn lemma_word_end(s: Seq<char>, i: int)
    requires
        0 <= i <= s.len(),
    ensures
        i <= word_end(s, i) <= s.len(),
        i < s.len() && !is_white_space(s[i]) ==> i < word_end(s, i),
    decreases s.len() - i,
{
    if i < s.len() && !is_white_space(s[i]) {
        lemma_word_end(s, i + 1);
    }
}

/// The words of `s` from index `i` on: the maximal runs of characters that are
/// not white space, in order (std's `str::split_whitespace`).
pub open spec fn words_from(s: Seq<char>, i: int) -> Seq<Seq<char>>
    decreases s.len() - i,
{
    if i < 0 || i >= s.len() {
        Seq::empty()
    } else if is_white_space(s[i]) {
        words_from(s, i + 1)
    } else {
        let e = word_end(s, i);
        proof {
            lemma_word_end(s, i);
        }
        seq![s.subrange(i, e)] + words_from(s, e)
    }
}

/// The words of `s`.
pub open spec fn whitespace_words(s: Seq<char>) -> Seq<Seq<char>> {
    words_from(s, 0)
}

/// The words of `s` between runs of white space (std's `str::split_whitespace`).
fn split_words(s: &str) -> (r: Vec<String>)
    ensures
        string_views(r@) == whitespace_words(s@),
{
    let cs = chars_of(s);
    let n = cs.len();
    let ghost sv = cs@;
    let mut r: Vec<String> = Vec::new();
    let mut i: usize = 0;
    while i < n
        invariant
            n == sv.len(),
            sv == cs@,
            i <= n,
            whitespace_words(sv) == string_views(r@) + words_from(sv, i as int),
        decreases n - i,
    {
        if white_space(cs[i]) {
            i = i + 1;
        } else {
            proof {
                lemma_word_end(sv, i as int);
            }
            let start = i;
            while i < n && !white_space(cs[i])
                invariant
                    n == sv.len(),
                    sv == cs@,
                    start <= i <= n,
                    word_end(sv, start as int) == word_end(sv, i as int),
                decreases n - i,
            {
                i = i + 1;
            }
            let ghost before = string_views(r@);
            let w = string_from(vstd::slice::slice_subrange(cs.as_slice(), start, i));
            r.push(w);
            assert(string_views(r@) =~= before.push(sv.subrange(start as int, i as int)));
            assert(words_from(sv, start as int) =~= seq![sv.subrange(start as int, i as int)] + words_from(
                sv,
                i as int,
            ));
            assert(string_views(r@) + words_from(sv, i as int) =~= before + words_from(sv, start as int));
        }
    }
    assert(words_from(sv, i as int) =~= Seq::<Seq<char>>::empty());
    assert(string_views(r@) + Seq::<Seq<char>>::empty() =~= string_views(r@));
    r
}

/// What the console does after a line.
pub enum ConsoleAction {
    /// Nothing to do: the line was blank.
    Skip,
    /// Show this message.
    Show(String),
    /// Evaluate this formula of the sheet.
    Evaluate(String),
    /// Leave the console.
    Exit,
}

/// The value that `SET` stores from the words after the cell reference: a
/// formula when the first of them begins with `=`, text otherwise, the words
/// joined by single spaces.
pub open spec fn set_value(words: Seq<Seq<char>>) -> CellValueView {
    let text = joined(words.subrange(2, words.len() as int), " "@);
    if words[2].len() > 0 && words[2][0] == '=' {
        CellValueView::Formula(text)
    } else {
        CellValueView::Text(text)
    }
}

fn tail_words(words: &Vec<String>, from: usize) -> (r: Vec<String>)
    requires
        from <= words@.len(),
    ensures
        string_views(r@) == string_views(words@).subrange(from as int, words@.len() as int),
{
    let mut r: Vec<String> = Vec::new();
    let mut i: usize = from;
    while i < words.len()
        invariant
            from <= i <= words@.len(),
            string_views(r@) == string_views(words@).subrange(from as int, i as int),
        decreases words@.len() - i,
    {
        let ghost before = r@;
        let w = words[i].clone();
        r.push(w);
        assert(r@ =~= before.push(words@[i as int]));
        assert(string_views(r@) =~= string_views(before).push(words@[i as int]@));
        assert(string_views(r@) =~= string_views(words@).subrange(from as int, i + 1));
        i = i + 1;
    }
    r
}

fn first_is_equals(s: &String) -> (r: bool)
    ensures
        r == (s@.len() > 0 && s@[0] == '='),
{
    let cs = crate::text::chars_of(s.as_str());
    cs.len() > 0 && cs[0] == '='
}

fn same_text(a: &String, b: &str) -> (r: bool)
    ensures
        r == (a@ == b@),
{
    *a == String::from_str(b)
}

impl ConsoleAction {
    pub open spec fn is_show(self, msg: Seq<char>) -> bool {
        self matches ConsoleAction::Show(m) && m@ == msg
    }

    pub open spec fn is_evaluate(self, formula: Seq<char>) -> bool {
        self matches ConsoleAction::Evaluate(f) && f@ == formula
    }
}

/// Runs one console line against `sheet`.  Blank lines are skipped;
/// `SET <cell> <words...>` stores a value and reports the cell; `EVAL <cell>`
/// asks for the cell's formula to be evaluated (and shows nothing when the
/// cell holds no formula); `EXIT` leaves; anything else is unknown.  Command
/// words are matched in uppercase.
pub fn console_step(sheet: &mut XcvSheet, line: &str) -> (action: ConsoleAction)
    ensures
        ({
            let words = whitespace_words(line@);
            let cmd = if words.len() > 0 { upper_form(words[0]) } else { Seq::empty() };
            &&& words.len() == 0 ==> action is Skip && final(sheet).cells() == old(sheet).cells()
            &&& words.len() > 0 && cmd == "SET"@ && words.len() >= 3 ==> {
                &&& final(sheet).cells() == old(sheet).cells().insert(cell_key(words[1]), set_value(words))
                &&& action.is_show("[+] Cell "@ + upper_form(words[1]) + " updated."@)
            }
            &&& words.len() > 0 && cmd == "EVAL"@ && words.len() == 2 ==> {
                &&& final(sheet).cells() == old(sheet).cells()
                &&& match read_cell(old(sheet).cells(), words[1]) {
                    CellValueView::Formula(f) => action.is_evaluate(f),
                    _ => action is Skip,
                }
            }
            &&& words.len() > 0 && cmd == "EXIT"@ ==> action is Exit && final(sheet).cells() == old(sheet).cells()
            &&& words.len() > 0 && !(cmd == "SET"@ && words.len() >= 3) && !(cmd == "EVAL"@ && words.len() == 2)
                && cmd != "EXIT"@ ==> action.is_show("[!] Unknown command."@) && final(sheet).cells()
                == old(sheet).cells()
            &&& final(sheet).title() == old(sheet).title()
        }),
{
    proof {
        reveal_strlit("SET");
        reveal_strlit("EVAL");
        reveal_strlit("EXIT");
        assert("SET"@[0] != "EXIT"@[0]);
        assert("EVAL"@[1] != "EXIT"@[1]);
        assert("SET"@[0] != "EVAL"@[0]);
    }
    let words = split_words(line);
    let ghost wv = string_views(words@);
    if words.len() == 0 {
        return ConsoleAction::Skip;
    }
    let cmd = to_uppercase(words[0].as_str());
    if same_text(&cmd, "SET") && words.len() >= 3 {
        let rest = tail_words(&words, 2);
        let text = join(&rest, " ");
        assert(wv[2] == words@[2]@);
        assert(text@ == joined(wv.subrange(2, wv.len() as int), " "@));
        let value = if first_is_equals(&words[2]) {
            CellValue::Formula(text)
        } else {
            CellValue::Text(text)
        };
        assert(value@ == set_value(wv));
        assert(wv[1] == words@[1]@);
        sheet.set_cell(words[1].as_str(), value);
        let upper = to_uppercase(words[1].as_str());
        let msg = concat_text("[+] Cell ", upper.as_str());
        return ConsoleAction::Show(concat_text(msg.as_str(), " updated."));
    }
    if same_text(&cmd, "EVAL") && words.len() == 2 {
        assert(wv[1] == words@[1]@);
        return match sheet.get_cell(words[1].as_str()) {
            CellValue::Formula(f) => ConsoleAction::Evaluate(f),
            _ => ConsoleAction::Skip,
        };
    }
    if same_text(&cmd, "EXIT") {
        return ConsoleAction::Exit;
    }
    ConsoleAction::Show(String::from_str("[!] Unknown command."))
}

/// A formula stored with `SET` is what a later `EVAL` of any reference to
/// the same cell asks to evaluate, and what it stores for text is not a formula.
pub proof fn law_set_then_eval(cells: Map<Seq<char>, CellValueView>, words: Seq<Seq<char>>, other: Seq<char>)
    requires
        words.len() >= 3,
        cell_key(words[1]) == cell_key(other),
    ensures
        read_cell(cells.insert(cell_key(words[1]), set_value(words)), other) == set_value(words),
        words[2].len() > 0 && words[2][0] == '=' ==> read_cell(
            cells.insert(cell_key(words[1]), set_value(words)),
            other,
        ) == CellValueView::Formula(joined(words.subrange(2, words.len() as int), " "@)),
        !(words[2].len() > 0 && words[2][0] == '=') ==> read_cell(
            cells.insert(cell_key(words[1]), set_value(words)),
            other,
        ) is Text,
{
}

} // verus!
