//! The monolith's master document, built from the text of every file.

use vstd::prelude::*;
use crate::text::{trim, trimmed};

verus! {

/// The master document for the files of `target`: a heading naming the
/// directory, then, for each file whose text is not blank after trimming, a
/// section with its name and its text, in the order given.
pub open spec fn monolith_text(target: Seq<char>, results: Seq<(String, String)>) -> Seq<char>
    decreases results.len(),
{
    if results.len() == 0 {
        "# Ring-0 v2.0 Monolith Corpus\n\n"@ + "**Source Directory:** "@ + target
            + " | **Deterministic Build**\n\n---\n\n"@
    } else {
        let (name, content) = results.last();
        monolith_text(target, results.drop_last()) + if trimmed(content@).len() > 0 {
            "## File: "@ + name@ + "\n\n"@ + content@ + "\n\n---\n\n"@
        } else {
            Seq::empty()
        }
    }
}

/// Builds the master document from `(file name, text)` pairs.
pub fn build_master_markdown(target: &str, results: &Vec<(String, String)>) -> (r: String)
    ensures
        r@ == monolith_text(target@, results@),
{
    let mut r = String::from_str("# Ring-0 v2.0 Monolith Corpus\n\n");
    r.append("**Source Directory:** ");
    r.append(target);
    r.append(" | **Deterministic Build**\n\n---\n\n");
    let mut i: usize = 0;
    while i < results.len()
        invariant
            i <= results@.len(),
            r@ == monolith_text(target@, results@.take(i as int)),
        decreases results@.len() - i,
    {
        assert(results@.take(i + 1).drop_last() =~= results@.take(i as int));
        let (name, content) = &results[i];
        let t = trim(content.as_str());
        if !t.as_str().is_empty() {
            r.append("## File: ");
            r.append(name.as_str());
            r.append("\n\n");
            r.append(content.as_str());
            r.append("\n\n---\n\n");
        }
        i = i + 1;
    }
    assert(results@.take(results@.len() as int) =~= results@);
    r
}

} // verus!
