//! The grid's inter-process entry point, which acknowledges a formula.

use vstd::prelude::*;
use crate::text::concat_text;

verus! {

/// Acknowledges `formula` as processed by the engine.
pub fn evaluate_xcv(formula: String) -> (r: String)
    ensures
        r@ == "XCV_RESULT: Processed '"@ + formula@ + "' via Ring-0 Engine"@,
{
    let r = concat_text("XCV_RESULT: Processed '", formula.as_str());
    concat_text(r.as_str(), "' via Ring-0 Engine")
}

} // verus!
