//! The formula evaluator behind the desktop grid's command.

use vstd::prelude::*;
use crate::text::{chars_of, concat_text, occurs, begins_with, contains_chars, starts_with_chars, to_uppercase, trim, trimmed, upper_form};

verus! {

/// The answer the evaluator gives for `formula`.  The formula is trimmed and
/// uppercased (see `upper_form`), then checked for a sum, a square root, pi, and a leading
/// `=MATRIX`, in that order; any other formula is echoed back as given.
pub open spec fn evaluation(formula: Seq<char>) -> Seq<char> {
    let f = upper_form(trimmed(formula));
    if occurs(f, "∑"@) || occurs(f, "SUM"@) {
        "TACO_EVAL: Math [SUM/∑] Processed"@
    } else if occurs(f, "√"@) || occurs(f, "SQRT"@) {
        "TACO_EVAL: Math [SQRT/√] Processed"@
    } else if occurs(f, "π"@) || occurs(f, "PI"@) {
        "3.14159265359"@
    } else if begins_with(f, "=MATRIX"@) {
        "TACO_EVAL: Array/Matrix Processed"@
    } else {
        "Evaluated: "@ + formula
    }
}

/// Evaluates a formula typed into the grid.
pub fn evaluate_xcv(formula: String) -> (r: String)
    ensures
        r@ == evaluation(formula@),
{
    let t = trim(formula.as_str());
    let upper = to_uppercase(t.as_str());
    let f = chars_of(upper.as_str());
    if contains_chars(&f, &chars_of("∑")) || contains_chars(&f, &chars_of("SUM")) {
        return String::from_str("TACO_EVAL: Math [SUM/∑] Processed");
    } else if contains_chars(&f, &chars_of("√")) || contains_chars(&f, &chars_of("SQRT")) {
        return String::from_str("TACO_EVAL: Math [SQRT/√] Processed");
    } else if contains_chars(&f, &chars_of("π")) || contains_chars(&f, &chars_of("PI")) {
        return String::from_str("3.14159265359");
    } else if starts_with_chars(&f, &chars_of("=MATRIX")) {
        return String::from_str("TACO_EVAL: Array/Matrix Processed");
    }
    concat_text("Evaluated: ", formula.as_str())
}

} // verus!
