//! The unikernel image's corpus stages: extraction and provenance marking.

use vstd::prelude::*;
use vstd::utf8::encode_utf8;

verus! {

/// The corpus that the unikernel's extraction stage produces for a directory.
pub fn extract_all_zero_copy(dir: &str) -> (r: Vec<u8>)
    ensures
        r@ == encode_utf8("[Unikernel extracted corpus]"@),
{
    vstd::slice::slice_to_vec("[Unikernel extracted corpus]".as_bytes())
}

/// `data` followed by the post-quantum signature marker.
pub fn sign_with_pq_provenance(data: &[u8]) -> (r: Vec<u8>)
    ensures
        r@ == data@ + encode_utf8("\n--- PQ SIGNATURE (Dilithium + SPHINCS+) ---"@),
{
    let mut out = vstd::slice::slice_to_vec(data);
    let mut mark = vstd::slice::slice_to_vec("\n--- PQ SIGNATURE (Dilithium + SPHINCS+) ---".as_bytes());
    out.append(&mut mark);
    out
}

} // verus!
