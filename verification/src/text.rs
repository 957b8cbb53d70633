//! Character-level text helpers shared by the engine, the browser and the refinery.

use vstd::prelude::*;
use vstd::utf8::is_ascii_chars;

verus! {

/// The characters of `s`, in order.
pub fn chars_of(s: &str) -> (v: Vec<char>)
    ensures
        v@ == s@,
{
    let mut v: Vec<char> = Vec::new();
    for c in it: s.chars()
        invariant
            v@ == it.seq().take(it.index() as int),
    {
        v.push(c);
    }
    v
}

/// std's `String::push`: appends one character.
#[verifier::external_body]
pub(crate) fn push_char(s: &mut String, c: char)
    ensures
        final(s)@ == old(s)@.push(c),
{
    s.push(c);
}

/// The string made of `chars`, in order.
pub fn string_from(chars: &[char]) -> (s: String)
    ensures
        s@ == chars@,
{
    let mut s = String::new();
    let mut i: usize = 0;
    while i < chars.len()
        invariant
            i <= chars@.len(),
            s@ == chars@.take(i as int),
        decreases chars@.len() - i,
    {
        push_char(&mut s, chars[i]);
        assert(chars@.take(i + 1) =~= chars@.take(i as int).push(chars@[i as int]));
        i = i + 1;
    }
    assert(chars@.take(chars@.len() as int) =~= chars@);
    s
}

/// `p` occurs in `s` starting at index `i`.
pub open spec fn occurs_at(s: Seq<char>, p: Seq<char>, i: int) -> bool {
    &&& 0 <= i
    &&& i + p.len() <= s.len()
    &&& s.subrange(i, i + p.len()) == p
}

/// `p` occurs somewhere in `s` (std's `str::contains` for a string pattern).
pub open spec fn occurs(s: Seq<char>, p: Seq<char>) -> bool {
    exists|i: int| #[trigger] occurs_at(s, p, i)
}

/// `s` begins with `p` (std's `str::starts_with` for a string pattern).
pub open spec fn begins_with(s: Seq<char>, p: Seq<char>) -> bool {
    occurs_at(s, p, 0)
}

/// The index of the first occurrence of `p` in `s` at or after `from`.
pub open spec fn first_occurrence_from(s: Seq<char>, p: Seq<char>, from: int) -> Option<int>
    decreases s.len() + 1 - from,
{
    if from < 0 || from + p.len() > s.len() {
        None
    } else if occurs_at(s, p, from) {
        Some(from)
    } else {
        first_occurrence_from(s, p, from + 1)
    }
}

/// The index of the first occurrence of `p` in `s` (std's `str::find`, counted in characters).
pub open spec fn first_occurrence(s: Seq<char>, p: Seq<char>) -> Option<int> {
    first_occurrence_from(s, p, 0)
}

/// The first occurrence is an occurrence, and no occurrence comes before it.
pub proof fn lemma_first_occurrence_from(s: Seq<char>, p: Seq<char>, from: int)
    requires
        0 <= from,
    ensures
        first_occurrence_from(s, p, from) matches Some(i) ==> from <= i && occurs_at(s, p, i),
        forall|j: int| from <= j && occurs_at(s, p, j) ==> (first_occurrence_from(s, p, from) matches Some(i) && i <= j),
    decreases s.len() + 1 - from,
{
    if from + p.len() <= s.len() && !occurs_at(s, p, from) {
        lemma_first_occurrence_from(s, p, from + 1);
    }
}

/// The first occurrence of `p` in `s` exists exactly when `p` occurs in `s`.
pub proof fn lemma_first_occurrence(s: Seq<char>, p: Seq<char>)
    ensures
        first_occurrence(s, p) is Some <==> occurs(s, p),
        first_occurrence(s, p) matches Some(i) ==> occurs_at(s, p, i) && forall|j: int| #[trigger] occurs_at(s, p, j) ==> i <= j,
{
    lemma_first_occurrence_from(s, p, 0);
}

fn matches_at(s: &[char], p: &[char], i: usize) -> (r: bool)
    requires
        i + p@.len() <= s@.len(),
    ensures
        r == occurs_at(s@, p@, i as int),
{
    let slen = s.len();
    let mut k: usize = 0;
    while k < p.len()
        invariant
            slen == s@.len(),
            i + p@.len() <= s@.len(),
            k <= p@.len(),
            forall|j: int| 0 <= j < k ==> s@[i + j] == p@[j],
        decreases p@.len() - k,
    {
        if s[i + k] != p[k] {
            assert(s@.subrange(i as int, i + p@.len())[k as int] != p@[k as int]);
            return false;
        }
        k = k + 1;
    }
    assert(s@.subrange(i as int, i + p@.len()) =~= p@);
    true
}

/// The index of the first occurrence of `p` in `s`, in characters.
pub fn find_chars(s: &[char], p: &[char]) -> (r: Option<usize>)
    ensures
        r matches Some(i) ==> first_occurrence(s@, p@) == Some(i as int),
        r is None ==> first_occurrence(s@, p@) is None,
{
    if p.len() > s.len() {
        return None;
    }
    let last = s.len() - p.len();
    let mut i: usize = 0;
    loop
        invariant
            last + p@.len() == s@.len(),
            i <= last,
            first_occurrence(s@, p@) == first_occurrence_from(s@, p@, i as int),
        decreases last - i,
    {
        if matches_at(s, p, i) {
            return Some(i);
        }
        if i == last {
            assert(first_occurrence_from(s@, p@, i + 1) is None);
            return None;
        }
        i = i + 1;
    }
}

/// `p` occurs in `s` (std's `str::contains`).
pub fn contains_chars(s: &[char], p: &[char]) -> (r: bool)
    ensures
        r == occurs(s@, p@),
{
    proof {
        lemma_first_occurrence(s@, p@);
    }
    find_chars(s, p).is_some()
}

/// `s` begins with `p` (std's `str::starts_with`).
pub fn starts_with_chars(s: &[char], p: &[char]) -> (r: bool)
    ensures
        r == begins_with(s@, p@),
{
    if p.len() > s.len() {
        false
    } else {
        matches_at(s, p, 0)
    }
}

/// The text of `parts`, with `sep` between each two neighbours.
pub open spec fn joined(parts: Seq<Seq<char>>, sep: Seq<char>) -> Seq<char>
    decreases parts.len(),
{
    if parts.len() == 0 {
        Seq::empty()
    } else if parts.len() == 1 {
        parts[0]
    } else {
        joined(parts.drop_last(), sep) + sep + parts.last()
    }
}

pub open spec fn string_views(parts: Seq<String>) -> Seq<Seq<char>> {
    parts.map_values(|p: String| p@)
}

/// The pieces of `parts` joined by `sep` (std's `join` on a slice of strings).
pub fn join(parts: &Vec<String>, sep: &str) -> (r: String)
    ensures
        r@ == joined(string_views(parts@), sep@),
{
    let mut r = String::new();
    let mut i: usize = 0;
    while i < parts.len()
        invariant
            i <= parts@.len(),
            r@ == joined(string_views(parts@).take(i as int), sep@),
        decreases parts@.len() - i,
    {
        let ghost views = string_views(parts@);
        assert(views.take(i + 1).drop_last() =~= views.take(i as int));
        if i > 0 {
            r.append(sep);
        } else {
            assert(views.take(0) =~= Seq::<Seq<char>>::empty());
        }
        r.append(parts[i].as_str());
        i = i + 1;
    }
    assert(string_views(parts@).take(parts@.len() as int) =~= string_views(parts@));
    r
}

/// The text of `a` followed by that of `b`.
pub fn concat_text(a: &str, b: &str) -> (r: String)
    ensures
        r@ == a@ + b@,
{
    let mut r = String::from_str(a);
    r.append(b);
    r
}

/// `c` with an ASCII lowercase letter made uppercase.
pub open spec fn ascii_upper_char(c: char) -> char {
    if 'a' <= c <= 'z' {
        ((c as u32) - 32) as char
    } else {
        c
    }
}

/// `c` with an ASCII uppercase letter made lowercase.
pub open spec fn ascii_lower_char(c: char) -> char {
    if 'A' <= c <= 'Z' {
        ((c as u32) + 32) as char
    } else {
        c
    }
}

/// `s` with its ASCII letters in uppercase (std's `to_ascii_uppercase`).
pub open spec fn ascii_upper(s: Seq<char>) -> Seq<char> {
    s.map_values(|c: char| ascii_upper_char(c))
}

/// `s` with its ASCII letters in lowercase (std's `to_ascii_lowercase`).
pub open spec fn ascii_lower(s: Seq<char>) -> Seq<char> {
    s.map_values(|c: char| ascii_lower_char(c))
}

/// What std's `str::to_uppercase` returns for a string.
pub uninterp spec fn uppercased(s: Seq<char>) -> Seq<char>;

/// std's `str::to_uppercase`: the Unicode uppercase mapping of `s`, which
/// depends on `s` alone.  On ASCII text it maps `a`..`z` to `A`..`Z` and keeps
/// every other character; what it does beyond ASCII is left to the name.
#[verifier::external_body]
pub(crate) fn to_uppercase(s: &str) -> (r: String)
    ensures
        r@ == uppercased(s@),
        is_ascii_chars(s@) ==> r@ == ascii_upper(s@),
{
    s.to_uppercase()
}

/// `s` in uppercase: for ASCII text its letters `a`..`z` made `A`..`Z`, and
/// otherwise what std's `str::to_uppercase` gives.
pub open spec fn upper_form(s: Seq<char>) -> Seq<char> {
    if is_ascii_chars(s) {
        ascii_upper(s)
    } else {
        uppercased(s)
    }
}

/// What std's `str::to_lowercase` returns for a string.
pub uninterp spec fn lowercased(s: Seq<char>) -> Seq<char>;

/// std's `str::to_lowercase`: the Unicode lowercase mapping of `s`, which
/// depends on `s` alone.  On ASCII text it maps `A`..`Z` to `a`..`z` and keeps
/// every other character; what it does beyond ASCII is left to the name.
#[verifier::external_body]
pub(crate) fn to_lowercase(s: &str) -> (r: String)
    ensures
        r@ == lowercased(s@),
        is_ascii_chars(s@) ==> r@ == ascii_lower(s@),
{
    s.to_lowercase()
}

/// A character with the Unicode White_Space property (what std's
/// `char::is_whitespace` and `str::trim` count as white space).
pub open spec fn is_white_space(c: char) -> bool {
    ||| '\u{9}' <= c <= '\u{D}'
    ||| c == ' '
    ||| c == '\u{85}'
    ||| c == '\u{A0}'
    ||| c == '\u{1680}'
    ||| '\u{2000}' <= c <= '\u{200A}'
    ||| c == '\u{2028}'
    ||| c == '\u{2029}'
    ||| c == '\u{202F}'
    ||| c == '\u{205F}'
    ||| c == '\u{3000}'
}

pub fn white_space(c: char) -> (r: bool)
    ensures
        r == is_white_space(c),
{
    ('\u{9}' <= c && c <= '\u{D}') || c == ' ' || c == '\u{85}' || c == '\u{A0}' || c == '\u{1680}'
        || ('\u{2000}' <= c && c <= '\u{200A}') || c == '\u{2028}' || c == '\u{2029}' || c == '\u{202F}'
        || c == '\u{205F}' || c == '\u{3000}'
}

/// The first index at or after `i` that does not hold white space.
pub open spec fn lead_end(s: Seq<char>, i: int) -> int
    decreases s.len() - i,
{
    if 0 <= i < s.len() && is_white_space(s[i]) {
        lead_end(s, i + 1)
    } else {
        i
    }
}

/// The index just past the last character before `j` that is not white space.
pub open spec fn tail_start(s: Seq<char>, j: int) -> int
    decreases j,
{
    if 0 < j <= s.len() && is_white_space(s[j - 1]) {
        tail_start(s, j - 1)
    } else {
        j
    }
}

/// `s` without its leading and trailing white space (std's `str::trim`).
pub open spec fn trimmed(s: Seq<char>) -> Seq<char> {
    if lead_end(s, 0) >= s.len() {
        Seq::empty()
    } else {
        s.subrange(lead_end(s, 0), tail_start(s, s.len() as int))
    }
}

proof fn lemma_lead_end(s: Seq<char>, i: int)
    requires
        0 <= i <= s.len(),
    ensures
        i <= lead_end(s, i) <= s.len(),
        lead_end(s, i) < s.len() ==> !is_white_space(s[lead_end(s, i)]),
        forall|k: int| i <= k < lead_end(s, i) ==> is_white_space(#[trigger] s[k]),
    decreases s.len() - i,
{
    if i < s.len() && is_white_space(s[i]) {
        lemma_lead_end(s, i + 1);
    }
}

proof fn lemma_tail_start(s: Seq<char>, j: int)
    requires
        0 <= j <= s.len(),
    ensures
        0 <= tail_start(s, j) <= j,
        tail_start(s, j) > 0 ==> !is_white_space(s[tail_start(s, j) - 1]),
        forall|k: int| tail_start(s, j) <= k < j ==> is_white_space(#[trigger] s[k]),
    decreases j,
{
    if 0 < j && is_white_space(s[j - 1]) {
        lemma_tail_start(s, j - 1);
    }
}

/// The bounds of the trimmed text: it starts and ends with a character that is
/// not white space, and everything cut off is white space.
pub proof fn lemma_trimmed(s: Seq<char>)
    ensures
        trimmed(s).len() == 0 || (!is_white_space(trimmed(s)[0]) && !is_white_space(
            trimmed(s)[trimmed(s).len() - 1],
        )),
        trimmed(s).len() == 0 ==> forall|k: int| 0 <= k < s.len() ==> is_white_space(#[trigger] s[k]),
{
    lemma_lead_end(s, 0);
    lemma_tail_start(s, s.len() as int);
    let a = lead_end(s, 0);
    let b = tail_start(s, s.len() as int);
    if a < s.len() {
        if b <= a {
            assert(is_white_space(s[a]));
        }
    }
}

/// Text that neither starts nor ends with white space is its own trimmed form.
pub proof fn lemma_trimmed_stable(s: Seq<char>)
    requires
        s.len() == 0 || (!is_white_space(s[0]) && !is_white_space(s[s.len() - 1])),
    ensures
        trimmed(s) == s,
{
    if s.len() > 0 {
        assert(lead_end(s, 0) == 0);
        assert(tail_start(s, s.len() as int) == s.len());
        assert(s.subrange(0, s.len() as int) =~= s);
    }
}

/// Trimming twice is trimming once.
pub proof fn law_trim_idempotent(s: Seq<char>)
    ensures
        trimmed(trimmed(s)) == trimmed(s),
{
    lemma_trimmed(s);
    lemma_trimmed_stable(trimmed(s));
}

/// `s` without its leading and trailing white space (std's `str::trim`),
/// copied into a `String`.
pub fn trim(s: &str) -> (r: String)
    ensures
        r@ == trimmed(s@),
{
    let cs = chars_of(s);
    let n = cs.len();
    let mut a: usize = 0;
    while a < n && white_space(cs[a])
        invariant
            n == cs@.len(),
            a <= n,
            lead_end(cs@, 0) == lead_end(cs@, a as int),
        decreases n - a,
    {
        a = a + 1;
    }
    if a >= n {
        return String::new();
    }
    let mut b: usize = n;
    while b > 0 && white_space(cs[b - 1])
        invariant
            n == cs@.len(),
            b <= n,
            tail_start(cs@, n as int) == tail_start(cs@, b as int),
        decreases b,
    {
        b = b - 1;
    }
    proof {
        lemma_lead_end(cs@, 0);
        lemma_tail_start(cs@, n as int);
        if b <= a {
            assert(is_white_space(cs@[a as int]));
        }
    }
    string_from(vstd::slice::slice_subrange(cs.as_slice(), a, b))
}

} // verus!
