//! The formula lexer: splits a spreadsheet formula into tokens.

use vstd::prelude::*;
use vstd::utf8::is_ascii_chars;
use crate::text::{ascii_lower, ascii_lower_char, ascii_upper, ascii_upper_char, chars_of, push_char, to_uppercase};

verus! {

/// A token of a formula.  A number is kept as the text of its numeral
/// (digits and dots), which a caller converts to a floating-point value.
#[derive(Debug, Clone, PartialEq)]
pub enum Token {
    Number(String),
    CellRef(String),
    Function(String),
    Operator(char),
    LeftParen,
    RightParen,
    Comma,
}

/// A token with its text as a sequence of characters.
pub enum TokenView {
    Number(Seq<char>),
    CellRef(Seq<char>),
    Function(Seq<char>),
    Operator(char),
    LeftParen,
    RightParen,
    Comma,
}

impl View for Token {
    type V = TokenView;

    open spec fn view(&self) -> TokenView {
        match self {
            Token::Number(s) => TokenView::Number(s@),
            Token::CellRef(s) => TokenView::CellRef(s@),
            Token::Function(s) => TokenView::Function(s@),
            Token::Operator(c) => TokenView::Operator(*c),
            Token::LeftParen => TokenView::LeftParen,
            Token::RightParen => TokenView::RightParen,
            Token::Comma => TokenView::Comma,
        }
    }
}

pub open spec fn is_digit(c: char) -> bool {
    '0' <= c <= '9'
}

pub open spec fn is_letter(c: char) -> bool {
    ('A' <= c <= 'Z') || ('a' <= c <= 'z')
}

pub open spec fn is_operator(c: char) -> bool {
    c == '+' || c == '-' || c == '*' || c == '/' || c == '^'
}

/// The end of the run of digits and dots that starts at `i`.
pub open spec fn numeral_end(s: Seq<char>, i: int) -> int
    decreases s.len() - i,
{
    if 0 <= i < s.len() && (is_digit(s[i]) || s[i] == '.') {
        numeral_end(s, i + 1)
    } else {
        i
    }
}

/// The end of the run of ASCII letters and digits that starts at `i`.
pub open spec fn name_end(s: Seq<char>, i: int) -> int
    decreases s.len() - i,
{
    if 0 <= i < s.len() && (is_digit(s[i]) || is_letter(s[i])) {
        name_end(s, i + 1)
    } else {
        i
    }
}

pub proof fn lemma_numeral_end(s: Seq<char>, i: int)
    requires
        0 <= i <= s.len(),
    ensures
        i <= numeral_end(s, i) <= s.len(),
        i < s.len() && is_digit(s[i]) ==> i < numeral_end(s, i),
    decreases s.len() - i,
{
    if i < s.len() && (is_digit(s[i]) || s[i] == '.') {
        lemma_numeral_end(s, i + 1);
    }
}

pub proof fn lemma_name_end(s: Seq<char>, i: int)
    requires
        0 <= i <= s.len(),
    ensures
        i <= name_end(s, i) <= s.len(),
        i < s.len() && is_letter(s[i]) ==> i < name_end(s, i),
    decreases s.len() - i,
{
    if i < s.len() && (is_digit(s[i]) || is_letter(s[i])) {
        lemma_name_end(s, i + 1);
    }
}

/// The tokens of `s` from index `i` on.  A numeral is a maximal run of digits
/// and dots starting with a digit; a name is a maximal run of ASCII letters and
/// digits starting with a letter, in ASCII uppercase, and a function name when `(`
/// follows it directly; operators, parentheses and commas stand alone; every
/// other character is skipped.
pub open spec fn tokens_from(s: Seq<char>, i: int) -> Seq<TokenView>
    decreases s.len() - i,
{
    if i < 0 || i >= s.len() {
        Seq::empty()
    } else {
        let c = s[i];
        if is_digit(c) {
            let e = numeral_end(s, i);
            proof {
                lemma_numeral_end(s, i);
            }
            seq![TokenView::Number(s.subrange(i, e))] + tokens_from(s, e)
        } else if is_letter(c) {
            let e = name_end(s, i);
            proof {
                lemma_name_end(s, i);
            }
            let name = ascii_upper(s.subrange(i, e));
            let tok = if e < s.len() && s[e] == '(' {
                TokenView::Function(name)
            } else {
                TokenView::CellRef(name)
            };
            seq![tok] + tokens_from(s, e)
        } else if is_operator(c) {
            seq![TokenView::Operator(c)] + tokens_from(s, i + 1)
        } else if c == '(' {
            seq![TokenView::LeftParen] + tokens_from(s, i + 1)
        } else if c == ')' {
            seq![TokenView::RightParen] + tokens_from(s, i + 1)
        } else if c == ',' {
            seq![TokenView::Comma] + tokens_from(s, i + 1)
        } else {
            tokens_from(s, i + 1)
        }
    }
}

/// The index of the first character of `s` at or after `i` that is not `=`.
pub open spec fn after_equals(s: Seq<char>, i: int) -> int
    decreases s.len() - i,
{
    if 0 <= i < s.len() && s[i] == '=' {
        after_equals(s, i + 1)
    } else {
        i
    }
}

/// The tokens of a formula: those of its text after its leading `=` signs.
pub open spec fn formula_tokens(formula: Seq<char>) -> Seq<TokenView> {
    tokens_from(formula, after_equals(formula, 0))
}

pub open spec fn token_views(tokens: Seq<Token>) -> Seq<TokenView> {
    tokens.map_values(|t: Token| t@)
}

/// Splits `formula` into tokens, after dropping its leading `=` signs.
pub fn tokenize(formula: &str) -> (tokens: Vec<Token>)
    ensures
        token_views(tokens@) == formula_tokens(formula@),
{
    let s = chars_of(formula);
    let n = s.len();
    let ghost sv = s@;
    let mut i: usize = 0;
    while i < n && s[i] == '='
        invariant
            n == sv.len(),
            sv == s@,
            i <= n,
            after_equals(sv, 0) == after_equals(sv, i as int),
        decreases n - i,
    {
        i = i + 1;
    }
    let ghost start = i as int;
    let mut tokens: Vec<Token> = Vec::new();
    while i < n
        invariant
            n == sv.len(),
            sv == s@,
            i <= n,
            start == after_equals(sv, 0),
            formula_tokens(sv) == token_views(tokens@) + tokens_from(sv, i as int),
        decreases n - i,
    {
        let c = s[i];
        let ghost old_tokens = tokens@;
        let ghost old_i = i as int;
        if '0' <= c && c <= '9' {
            let mut num = String::new();
            proof {
                lemma_numeral_end(sv, old_i);
            }
            while i < n && (('0' <= s[i] && s[i] <= '9') || s[i] == '.')
                invariant
                    n == sv.len(),
                    sv == s@,
                    0 <= old_i <= i <= n,
                    num@ == sv.subrange(old_i, i as int),
                    numeral_end(sv, old_i) == numeral_end(sv, i as int),
                decreases n - i,
            {
                push_char(&mut num, s[i]);
                assert(sv.subrange(old_i, i + 1) =~= sv.subrange(old_i, i as int).push(sv[i as int]));
                i = i + 1;
            }
            tokens.push(Token::Number(num));
        } else if ('A' <= c && c <= 'Z') || ('a' <= c && c <= 'z') {
            let mut ident = String::new();
            proof {
                lemma_name_end(sv, old_i);
            }
            while i < n && (('0' <= s[i] && s[i] <= '9') || ('A' <= s[i] && s[i] <= 'Z') || ('a' <= s[i]
                && s[i] <= 'z'))
                invariant
                    n == sv.len(),
                    sv == s@,
                    0 <= old_i <= i <= n,
                    ident@ == sv.subrange(old_i, i as int),
                    name_end(sv, old_i) == name_end(sv, i as int),
                    forall|k: int| old_i <= k < i ==> is_digit(#[trigger] sv[k]) || is_letter(sv[k]),
                decreases n - i,
            {
                push_char(&mut ident, s[i]);
                assert(sv.subrange(old_i, i + 1) =~= sv.subrange(old_i, i as int).push(sv[i as int]));
                i = i + 1;
            }
            assert(is_ascii_chars(ident@));
            let name = to_uppercase(ident.as_str());
            if i < n && s[i] == '(' {
                tokens.push(Token::Function(name));
            } else {
                tokens.push(Token::CellRef(name));
            }
        } else {
            if c == '+' || c == '-' || c == '*' || c == '/' || c == '^' {
                tokens.push(Token::Operator(c));
            } else if c == '(' {
                tokens.push(Token::LeftParen);
            } else if c == ')' {
                tokens.push(Token::RightParen);
            } else if c == ',' {
                tokens.push(Token::Comma);
            }
            i = i + 1;
        }
        assert(token_views(tokens@) =~= token_views(old_tokens) + tokens_from(sv, old_i).subrange(
            0,
            tokens@.len() - old_tokens.len(),
        ));
        assert(tokens_from(sv, old_i) =~= tokens_from(sv, old_i).subrange(
            0,
            tokens@.len() - old_tokens.len(),
        ) + tokens_from(sv, i as int));
    }
    assert(tokens_from(sv, i as int) =~= Seq::<TokenView>::empty());
    assert(token_views(tokens@) =~= token_views(tokens@) + Seq::<TokenView>::empty());
    tokens
}

proof fn lemma_numeral_end_shift(p: Seq<char>, s: Seq<char>, i: int)
    requires
        0 <= i <= s.len(),
    ensures
        numeral_end(p + s, p.len() + i) == p.len() + numeral_end(s, i),
    decreases s.len() - i,
{
    if i < s.len() {
        assert((p + s)[p.len() + i] == s[i]);
        if is_digit(s[i]) || s[i] == '.' {
            lemma_numeral_end_shift(p, s, i + 1);
        }
    }
}

proof fn lemma_name_end_shift(p: Seq<char>, s: Seq<char>, i: int)
    requires
        0 <= i <= s.len(),
    ensures
        name_end(p + s, p.len() + i) == p.len() + name_end(s, i),
    decreases s.len() - i,
{
    if i < s.len() {
        assert((p + s)[p.len() + i] == s[i]);
        if is_digit(s[i]) || is_letter(s[i]) {
            lemma_name_end_shift(p, s, i + 1);
        }
    }
}

proof fn lemma_after_equals_shift(p: Seq<char>, s: Seq<char>, i: int)
    requires
        0 <= i <= s.len(),
    ensures
        after_equals(p + s, p.len() + i) == p.len() + after_equals(s, i),
    decreases s.len() - i,
{
    if i < s.len() {
        assert((p + s)[p.len() + i] == s[i]);
        if s[i] == '=' {
            lemma_after_equals_shift(p, s, i + 1);
        }
    }
}

/// Text before position `i` does not change the tokens from `i` on.
proof fn lemma_tokens_from_shift(p: Seq<char>, s: Seq<char>, i: int)
    requires
        0 <= i <= s.len(),
    ensures
        tokens_from(p + s, p.len() + i) == tokens_from(s, i),
    decreases s.len() - i,
{
    let ps = p + s;
    let j = p.len() + i;
    if i < s.len() {
        assert(ps[j] == s[i]);
        let c = s[i];
        if is_digit(c) {
            lemma_numeral_end(s, i);
            lemma_numeral_end_shift(p, s, i);
            let e = numeral_end(s, i);
            assert(ps.subrange(j, p.len() + e) =~= s.subrange(i, e));
            lemma_tokens_from_shift(p, s, e);
        } else if is_letter(c) {
            lemma_name_end(s, i);
            lemma_name_end_shift(p, s, i);
            let e = name_end(s, i);
            assert(ps.subrange(j, p.len() + e) =~= s.subrange(i, e));
            if e < s.len() {
                assert(ps[p.len() + e] == s[e]);
            }
            lemma_tokens_from_shift(p, s, e);
        } else {
            lemma_tokens_from_shift(p, s, i + 1);
        }
    }
}

/// Leading `=` signs do not change a formula's tokens: `=f` and `f` tokenize alike.
pub proof fn law_leading_equals(f: Seq<char>)
    ensures
        formula_tokens(seq!['='] + f) == formula_tokens(f),
{
    let p = seq!['='];
    assert((p + f)[0] == '=');
    lemma_after_equals_shift(p, f, 0);
    assert(after_equals(p + f, 0) == after_equals(p + f, 1));
    let start = after_equals(f, 0);
    lemma_after_equals_bound(f, 0);
    lemma_tokens_from_shift(p, f, start);
}

proof fn lemma_after_equals_bound(s: Seq<char>, i: int)
    requires
        0 <= i <= s.len(),
    ensures
        i <= after_equals(s, i) <= s.len(),
    decreases s.len() - i,
{
    if i < s.len() && s[i] == '=' {
        lemma_after_equals_bound(s, i + 1);
    }
}

/// A trailing space does not change a formula's tokens.
pub proof fn law_trailing_space(f: Seq<char>)
    ensures
        formula_tokens(f.push(' ')) == formula_tokens(f),
{
    lemma_after_equals_push_space(f, 0);
    lemma_after_equals_bound(f, 0);
    lemma_tokens_from_push_space(f, after_equals(f, 0));
}

proof fn lemma_after_equals_push_space(s: Seq<char>, i: int)
    requires
        0 <= i <= s.len(),
    ensures
        after_equals(s.push(' '), i) == after_equals(s, i),
    decreases s.len() - i,
{
    if i < s.len() {
        assert(s.push(' ')[i] == s[i]);
        if s[i] == '=' {
            lemma_after_equals_push_space(s, i + 1);
        }
    } else {
        assert(s.push(' ')[i] == ' ');
    }
}

proof fn lemma_numeral_end_push_space(s: Seq<char>, i: int)
    requires
        0 <= i <= s.len(),
    ensures
        numeral_end(s.push(' '), i) == numeral_end(s, i),
    decreases s.len() - i,
{
    if i < s.len() {
        assert(s.push(' ')[i] == s[i]);
        if is_digit(s[i]) || s[i] == '.' {
            lemma_numeral_end_push_space(s, i + 1);
        }
    } else {
        assert(s.push(' ')[i] == ' ');
    }
}

proof fn lemma_name_end_push_space(s: Seq<char>, i: int)
    requires
        0 <= i <= s.len(),
    ensures
        name_end(s.push(' '), i) == name_end(s, i),
    decreases s.len() - i,
{
    if i < s.len() {
        assert(s.push(' ')[i] == s[i]);
        if is_digit(s[i]) || is_letter(s[i]) {
            lemma_name_end_push_space(s, i + 1);
        }
    } else {
        assert(s.push(' ')[i] == ' ');
    }
}

proof fn lemma_tokens_from_push_space(s: Seq<char>, i: int)
    requires
        0 <= i <= s.len(),
    ensures
        tokens_from(s.push(' '), i) == tokens_from(s, i),
    decreases s.len() - i,
{
    let t = s.push(' ');
    if i < s.len() {
        assert(t[i] == s[i]);
        let c = s[i];
        if is_digit(c) {
            lemma_numeral_end(s, i);
            lemma_numeral_end_push_space(s, i);
            let e = numeral_end(s, i);
            assert(t.subrange(i, e) =~= s.subrange(i, e));
            lemma_tokens_from_push_space(s, e);
        } else if is_letter(c) {
            lemma_name_end(s, i);
            lemma_name_end_push_space(s, i);
            let e = name_end(s, i);
            assert(t.subrange(i, e) =~= s.subrange(i, e));
            if e < s.len() {
                assert(t[e] == s[e]);
            } else {
                assert(t[e] == ' ');
            }
            lemma_tokens_from_push_space(s, e);
        } else {
            lemma_tokens_from_push_space(s, i + 1);
        }
    } else {
        assert(t[i] == ' ');
        assert(tokens_from(t, i + 1) == Seq::<TokenView>::empty());
    }
}

/// A change of letter case that keeps every character's class, leaves
/// non-letters alone, and agrees with the identity once uppercased.
pub open spec fn case_change(g: spec_fn(char) -> char) -> bool {
    forall|c: char|
        #![trigger g(c)]
        is_digit(g(c)) == is_digit(c) && is_letter(g(c)) == is_letter(c) && (!is_letter(c) ==> g(c)
            == c) && ascii_upper_char(g(c)) == ascii_upper_char(c)
}

proof fn lemma_ascii_case_changes()
    ensures
        case_change(|c: char| ascii_upper_char(c)),
        case_change(|c: char| ascii_lower_char(c)),
{
    assert forall|c: char| #![trigger ascii_upper_char(c)]
        is_digit(ascii_upper_char(c)) == is_digit(c) && is_letter(ascii_upper_char(c)) == is_letter(c)
            && (!is_letter(c) ==> ascii_upper_char(c) == c) && ascii_upper_char(ascii_upper_char(c))
            == ascii_upper_char(c) by {
        if 'a' <= c <= 'z' {
            let u = ((c as u32) - 32) as char;
            assert('A' <= u <= 'Z');
        }
    }
    assert forall|c: char| #![trigger ascii_lower_char(c)]
        is_digit(ascii_lower_char(c)) == is_digit(c) && is_letter(ascii_lower_char(c)) == is_letter(c)
            && (!is_letter(c) ==> ascii_lower_char(c) == c) && ascii_upper_char(ascii_lower_char(c))
            == ascii_upper_char(c) by {
        if 'A' <= c <= 'Z' {
            let l = ((c as u32) + 32) as char;
            assert('a' <= l <= 'z');
            assert(((l as u32) - 32) as char == c);
        }
    }
}

proof fn lemma_case_change_runs(g: spec_fn(char) -> char, s: Seq<char>, i: int)
    requires
        case_change(g),
        0 <= i <= s.len(),
    ensures
        numeral_end(s.map_values(g), i) == numeral_end(s, i),
        name_end(s.map_values(g), i) == name_end(s, i),
        after_equals(s.map_values(g), i) == after_equals(s, i),
    decreases s.len() - i,
{
    let t = s.map_values(g);
    if i < s.len() {
        assert(t[i] == g(s[i]));
        lemma_case_change_runs(g, s, i + 1);
    }
}

proof fn lemma_case_change_tokens(g: spec_fn(char) -> char, s: Seq<char>, i: int)
    requires
        case_change(g),
        0 <= i <= s.len(),
    ensures
        tokens_from(s.map_values(g), i) == tokens_from(s, i),
    decreases s.len() - i,
{
    let t = s.map_values(g);
    if i < s.len() {
        assert(t[i] == g(s[i]));
        let c = s[i];
        lemma_case_change_runs(g, s, i);
        if is_digit(c) {
            lemma_numeral_end(s, i);
            let e = numeral_end(s, i);
            assert forall|k: int| i <= k < e implies #[trigger] t[k] == s[k] by {
                lemma_numeral_run(s, i, k);
                assert(t[k] == g(s[k]));
            }
            assert(t.subrange(i, e) =~= s.subrange(i, e));
            lemma_case_change_tokens(g, s, e);
        } else if is_letter(c) {
            lemma_name_end(s, i);
            let e = name_end(s, i);
            assert forall|k: int| 0 <= k < e - i implies #[trigger] ascii_upper(t.subrange(i, e))[k]
                == ascii_upper(s.subrange(i, e))[k] by {
                assert(t[i + k] == g(s[i + k]));
            }
            assert(ascii_upper(t.subrange(i, e)) =~= ascii_upper(s.subrange(i, e)));
            if e < s.len() {
                assert(t[e] == g(s[e]));
            }
            lemma_case_change_tokens(g, s, e);
        } else {
            lemma_case_change_tokens(g, s, i + 1);
        }
    }
}

proof fn lemma_numeral_run(s: Seq<char>, i: int, k: int)
    requires
        0 <= i <= k < numeral_end(s, i),
        numeral_end(s, i) <= s.len(),
    ensures
        is_digit(s[k]) || s[k] == '.',
    decreases k - i,
{
    if i < k {
        lemma_numeral_run(s, i + 1, k);
    }
}

/// Letter case does not matter to the lexer: a formula in ASCII uppercase or
/// in ASCII lowercase gives the same tokens as the formula itself.
pub proof fn law_case_insensitive(f: Seq<char>)
    ensures
        formula_tokens(ascii_upper(f)) == formula_tokens(f),
        formula_tokens(ascii_lower(f)) == formula_tokens(f),
{
    lemma_ascii_case_changes();
    let up = |c: char| ascii_upper_char(c);
    let low = |c: char| ascii_lower_char(c);
    lemma_case_change_runs(up, f, 0);
    lemma_case_change_runs(low, f, 0);
    lemma_after_equals_bound(f, 0);
    lemma_case_change_tokens(up, f, after_equals(f, 0));
    lemma_case_change_tokens(low, f, after_equals(f, 0));
    assert(ascii_upper(f) == f.map_values(up));
    assert(ascii_lower(f) == f.map_values(low));
}

/// A run of digits and dots inside `a` ends where it ends in `a + t` when
/// `t` starts with a character that is neither.
proof fn lemma_numeral_end_append(a: Seq<char>, t: Seq<char>, i: int)
    requires
        0 <= i <= a.len(),
        t.len() > 0,
        !is_digit(t[0]) && t[0] != '.',
    ensures
        numeral_end(a + t, i) == numeral_end(a, i),
    decreases a.len() - i,
{
    if i < a.len() {
        assert((a + t)[i] == a[i]);
        if is_digit(a[i]) || a[i] == '.' {
            lemma_numeral_end_append(a, t, i + 1);
        }
    } else {
        assert((a + t)[i] == t[0]);
    }
}

/// A run of letters and digits inside `a` ends where it ends in `a + t` when
/// `t` starts with a character that is neither.
proof fn lemma_name_end_append(a: Seq<char>, t: Seq<char>, i: int)
    requires
        0 <= i <= a.len(),
        t.len() > 0,
        !is_digit(t[0]) && !is_letter(t[0]),
    ensures
        name_end(a + t, i) == name_end(a, i),
    decreases a.len() - i,
{
    if i < a.len() {
        assert((a + t)[i] == a[i]);
        if is_digit(a[i]) || is_letter(a[i]) {
            lemma_name_end_append(a, t, i + 1);
        }
    } else {
        assert((a + t)[i] == t[0]);
    }
}

proof fn lemma_after_equals_append(a: Seq<char>, t: Seq<char>, i: int)
    requires
        0 <= i <= a.len(),
        t.len() > 0,
        t[0] != '=',
    ensures
        after_equals(a + t, i) == after_equals(a, i),
    decreases a.len() - i,
{
    if i < a.len() {
        assert((a + t)[i] == a[i]);
        if a[i] == '=' {
            lemma_after_equals_append(a, t, i + 1);
        }
    } else {
        assert((a + t)[i] == t[0]);
    }
}

/// The tokens of `a + [op] + b` from index `i` of `a`: those of `a`, the
/// operator, then those of `b`.
proof fn lemma_tokens_around_operator(a: Seq<char>, op: char, tok: TokenView, b: Seq<char>, i: int)
    requires
        0 <= i <= a.len(),
        ((op == '+' || op == '-' || op == '*' || op == '/' || op == '^') && tok == TokenView::Operator(op))
            || (op == ')' && tok == TokenView::RightParen) || (op == ',' && tok == TokenView::Comma),
    ensures
        tokens_from(a + seq![op] + b, i) == tokens_from(a, i) + seq![tok] + tokens_from(b, 0),
    decreases a.len() - i,
{
    let t = seq![op] + b;
    let s = a + seq![op] + b;
    assert(s =~= a + t);
    assert(t[0] == op);
    if i < a.len() {
        assert(s[i] == a[i]);
        let c = a[i];
        if is_digit(c) {
            lemma_numeral_end(a, i);
            lemma_numeral_end_append(a, t, i);
            let e = numeral_end(a, i);
            assert(s.subrange(i, e) =~= a.subrange(i, e));
            lemma_tokens_around_operator(a, op, tok, b, e);
            assert(tokens_from(s, i) =~= seq![TokenView::Number(a.subrange(i, e))] + tokens_from(a, e)
                + seq![tok] + tokens_from(b, 0));
        } else if is_letter(c) {
            lemma_name_end(a, i);
            lemma_name_end_append(a, t, i);
            let e = name_end(a, i);
            assert(s.subrange(i, e) =~= a.subrange(i, e));
            if e < a.len() {
                assert(s[e] == a[e]);
            } else {
                assert(s[e] == op);
            }
            lemma_tokens_around_operator(a, op, tok, b, e);
            let name = ascii_upper(a.subrange(i, e));
            let name_tok = if e < a.len() && a[e] == '(' {
                TokenView::Function(name)
            } else {
                TokenView::CellRef(name)
            };
            assert(tokens_from(s, i) =~= seq![name_tok] + tokens_from(a, e) + seq![tok]
                + tokens_from(b, 0));
        } else {
            lemma_tokens_around_operator(a, op, tok, b, i + 1);
            assert(tokens_from(s, i) =~= tokens_from(a, i) + seq![tok] + tokens_from(b, 0));
        }
    } else {
        assert(s[i] == op);
        let p = a + seq![op];
        assert(s =~= p + b);
        lemma_tokens_from_shift(p, b, 0);
        assert(tokens_from(a, i) =~= Seq::<TokenView>::empty());
        assert(tokens_from(s, i) =~= tokens_from(a, i) + seq![tok] + tokens_from(b, 0));
    }
}

/// Each of the characters `+ - * / ^` stands as an operator token of its own
/// and splits the formula around it: the tokens of `a` followed by that
/// character and then `b` are the tokens of `a`, the operator, and the tokens
/// of the text `b` (so the tokens of `A1+B1` are the cell `A1`, `+`, the cell `B1`).
pub proof fn law_operator_splits(a: Seq<char>, op: char, b: Seq<char>)
    requires
        op == '+' || op == '-' || op == '*' || op == '/' || op == '^',
    ensures
        formula_tokens(a + seq![op] + b) == formula_tokens(a) + seq![TokenView::Operator(op)] + tokens_from(
            b,
            0,
        ),
{
    let t = seq![op] + b;
    assert(a + seq![op] + b =~= a + t);
    assert(t[0] == op);
    lemma_after_equals_append(a, t, 0);
    lemma_after_equals_bound(a, 0);
    lemma_tokens_around_operator(a, op, TokenView::Operator(op), b, after_equals(a, 0));
}

/// A closing parenthesis or a comma stands as a token of its own and splits
/// the formula around it, as an operator does.
pub proof fn law_separator_splits(a: Seq<char>, b: Seq<char>)
    ensures
        formula_tokens(a + seq![')'] + b) == formula_tokens(a) + seq![TokenView::RightParen] + tokens_from(b, 0),
        formula_tokens(a + seq![','] + b) == formula_tokens(a) + seq![TokenView::Comma] + tokens_from(b, 0),
{
    lemma_after_equals_bound(a, 0);
    let t1 = seq![')'] + b;
    let t2 = seq![','] + b;
    assert(a + seq![')'] + b =~= a + t1);
    assert(a + seq![','] + b =~= a + t2);
    assert(t1[0] == ')');
    assert(t2[0] == ',');
    lemma_after_equals_append(a, t1, 0);
    lemma_after_equals_append(a, t2, 0);
    lemma_tokens_around_operator(a, ')', TokenView::RightParen, b, after_equals(a, 0));
    lemma_tokens_around_operator(a, ',', TokenView::Comma, b, after_equals(a, 0));
}

/// A numeral of digits and dots that starts with a digit, alone in the text,
/// is one number token with that text.
pub proof fn law_lone_numeral(num: Seq<char>)
    requires
        num.len() > 0,
        is_digit(num[0]),
        forall|k: int| 0 <= k < num.len() ==> is_digit(#[trigger] num[k]) || num[k] == '.',
    ensures
        tokens_from(num, 0) == seq![TokenView::Number(num)],
{
    assert forall|j: int| 0 <= j <= num.len() implies #[trigger] numeral_end(num, j) == num.len() by {
        lemma_numeral_end_full(num, j);
    }
    assert(num.subrange(0, num.len() as int) =~= num);
    assert(tokens_from(num, num.len() as int) =~= Seq::<TokenView>::empty());
    assert(tokens_from(num, 0) =~= seq![TokenView::Number(num)]);
}

proof fn lemma_numeral_end_full(num: Seq<char>, j: int)
    requires
        0 <= j <= num.len(),
        forall|k: int| 0 <= k < num.len() ==> is_digit(#[trigger] num[k]) || num[k] == '.',
    ensures
        numeral_end(num, j) == num.len(),
    decreases num.len() - j,
{
    if j < num.len() {
        assert(is_digit(num[j]) || num[j] == '.');
        lemma_numeral_end_full(num, j + 1);
    }
}

/// A name of ASCII letters and digits that starts with a letter, alone in the
/// text, is one cell reference in uppercase (a function name only when `(`
/// follows it).
pub proof fn law_lone_name(name: Seq<char>)
    requires
        name.len() > 0,
        is_letter(name[0]),
        forall|k: int| 0 <= k < name.len() ==> is_letter(#[trigger] name[k]) || is_digit(name[k]),
    ensures
        tokens_from(name, 0) == seq![TokenView::CellRef(ascii_upper(name))],
{
    assert forall|j: int| 0 <= j <= name.len() implies #[trigger] name_end(name, j) == name.len() by {
        lemma_name_end_full(name, j);
    }
    assert(name.subrange(0, name.len() as int) =~= name);
    assert(tokens_from(name, name.len() as int) =~= Seq::<TokenView>::empty());
    assert(tokens_from(name, 0) =~= seq![TokenView::CellRef(ascii_upper(name))]);
}

proof fn lemma_name_end_full(name: Seq<char>, j: int)
    requires
        0 <= j <= name.len(),
        forall|k: int| 0 <= k < name.len() ==> is_letter(#[trigger] name[k]) || is_digit(name[k]),
    ensures
        name_end(name, j) == name.len(),
    decreases name.len() - j,
{
    if j < name.len() {
        assert(is_letter(name[j]) || is_digit(name[j]));
        lemma_name_end_full(name, j + 1);
    }
}

} // verus!
