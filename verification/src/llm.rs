//! Handles and outcomes of in-process, grammar-constrained model inference.

use vstd::prelude::*;

verus! {

/// An opaque handle to a loaded GGUF model.
#[allow(non_camel_case_types)]
pub struct llama_model {
    _private: [u8; 0],
}

/// An opaque handle to an inference context of a model.
#[allow(non_camel_case_types)]
pub struct llama_context {
    _private: [u8; 0],
}

/// The outcome of a constrained generation: an error when no context could be
/// made, an error when generation produced nothing (failure or a violation of
/// the schema), and the JSON text otherwise.
pub fn generation_outcome(context_created: bool, output: Option<String>) -> (r: Result<String, String>)
    ensures
        !context_created ==> (r matches Err(e) && e@ == "ctx alloc failed"@),
        context_created && output is None ==> (r matches Err(e) && e@
            == "generation failed or schema violation"@),
        context_created && output is Some ==> r == Ok::<String, String>(output->0),
{
    if !context_created {
        return Err(String::from_str("ctx alloc failed"));
    }
    match output {
        Some(json) => Ok(json),
        None => Err(String::from_str("generation failed or schema violation")),
    }
}

} // verus!
