//! Regular expressions, through the `regex` crate, with the pattern text that
//! each compiled expression came from.

use vstd::prelude::*;
use crate::text::string_views;

verus! {

#[verifier::external_type_specification]
#[verifier::external_body]
pub struct ExRegex(regex::Regex);

#[verifier::external_type_specification]
#[verifier::external_body]
pub struct ExRegexError(regex::Error);

/// Whether `regex::Regex::new` accepts a pattern.
pub uninterp spec fn regex_compiles(pattern: Seq<char>) -> bool;

/// What `regex::Regex::replace_all` returns for a pattern, a haystack and a
/// replacement string (with its `$n` group references expanded).
pub uninterp spec fn regex_replaced(pattern: Seq<char>, haystack: Seq<char>, replacement: Seq<char>) -> Seq<char>;

/// Group 1 of each match of `regex::Regex::captures_iter`, in order, `None`
/// where the group did not take part in the match.
pub uninterp spec fn regex_first_groups(pattern: Seq<char>, haystack: Seq<char>) -> Seq<Option<Seq<char>>>;

/// A compiled regular expression and the pattern it was compiled from.  Its
/// fields are private and `Pattern::new` is the only place that makes one, so
/// `regex` is always the expression that the crate compiled from `source`.
pub struct Pattern {
    regex: regex::Regex,
    source: String,
}

/// `regex::Regex::new`: compiles `pattern`, or reports why it cannot.
/// Success depends on the pattern alone.
#[verifier::external_body]
fn regex_new(pattern: &str) -> (r: Result<regex::Regex, regex::Error>)
    ensures
        r is Ok <==> regex_compiles(pattern@),
{
    regex::Regex::new(pattern)
}

impl Pattern {
    /// The pattern text this expression was compiled from.
    pub closed spec fn source(&self) -> Seq<char> {
        self.source@
    }

    /// Compiles `pattern`; `None` when the `regex` crate rejects it.
    pub fn new(pattern: &str) -> (r: Option<Pattern>)
        ensures
            r is Some <==> regex_compiles(pattern@),
            r matches Some(p) ==> p.source() == pattern@,
    {
        match regex_new(pattern) {
            Ok(regex) => Some(Pattern { regex, source: String::from_str(pattern) }),
            Err(_) => None,
        }
    }

    /// `regex::Regex::replace_all` with a replacement string: every match of
    /// the pattern in `text` replaced, as the crate defines it.  The result
    /// depends on the pattern (every `Pattern` holds the expression compiled
    /// from its source), the text and the replacement alone.
    #[verifier::external_body]
    pub(crate) fn replace_all(&self, text: &str, replacement: &str) -> (r: String)
        ensures
            r@ == regex_replaced(self.source(), text@, replacement@),
    {
        self.regex.replace_all(text, replacement).into_owned()
    }

    /// `regex::Regex::captures_iter`: group 1 of every match, in order, as
    /// owned strings.  The result depends on the pattern and the text alone.
    #[verifier::external_body]
    pub(crate) fn first_groups(&self, text: &str) -> (r: Vec<Option<String>>)
        ensures
            r@.map_values(|g: Option<String>| match g {
                Some(s) => Some(s@),
                None => None,
            }) == regex_first_groups(self.source(), text@),
    {
        self.regex.captures_iter(text).map(|c| c.get(1).map(|m| m.as_str().to_string())).collect()
    }
}

/// The groups that took part, in order.
pub open spec fn present(groups: Seq<Option<Seq<char>>>) -> Seq<Seq<char>>
    decreases groups.len(),
{
    if groups.len() == 0 {
        Seq::empty()
    } else {
        present(groups.drop_last()) + match groups.last() {
            Some(g) => seq![g],
            None => Seq::empty(),
        }
    }
}

pub open spec fn group_views(groups: Seq<Option<String>>) -> Seq<Option<Seq<char>>> {
    groups.map_values(|g: Option<String>| match g {
        Some(s) => Some(s@),
        None => None,
    })
}

/// The groups of `groups` that took part in their match, in order.
pub fn present_groups(groups: &Vec<Option<String>>) -> (r: Vec<String>)
    ensures
        string_views(r@) == present(group_views(groups@)),
{
    let mut r: Vec<String> = Vec::new();
    let mut i: usize = 0;
    while i < groups.len()
        invariant
            i <= groups@.len(),
            string_views(r@) == present(group_views(groups@.take(i as int))),
        decreases groups@.len() - i,
    {
        assert(group_views(groups@.take(i + 1)).drop_last() =~= group_views(groups@.take(i as int)));
        let ghost before = string_views(r@);
        match &groups[i] {
            Some(g) => {
                r.push(g.clone());
                assert(string_views(r@) =~= before + seq![g@]);
            },
            None => {},
        }
        i = i + 1;
    }
    assert(groups@.take(groups@.len() as int) =~= groups@);
    r
}

} // verus!
