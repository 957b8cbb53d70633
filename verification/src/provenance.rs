//! Post-quantum provenance signatures: a detached Dilithium2 signature followed
//! by a detached SPHINCS+ (SHA-256, 128s, simple) signature.

use vstd::prelude::*;
use pqcrypto_traits::sign::DetachedSignature;

verus! {

#[verifier::external_type_specification]
#[verifier::external_body]
pub struct ExDilithiumPublicKey(pqcrypto_dilithium::dilithium2::PublicKey);

#[verifier::external_type_specification]
#[verifier::external_body]
pub struct ExDilithiumSecretKey(pqcrypto_dilithium::dilithium2::SecretKey);

#[verifier::external_type_specification]
#[verifier::external_body]
pub struct ExDilithiumDetachedSignature(pqcrypto_dilithium::dilithium2::DetachedSignature);

#[verifier::external_type_specification]
#[verifier::external_body]
pub struct ExSphincsPublicKey(pqcrypto_sphincsplus::sphincssha256128ssimple::PublicKey);

#[verifier::external_type_specification]
#[verifier::external_body]
pub struct ExSphincsSecretKey(pqcrypto_sphincsplus::sphincssha256128ssimple::SecretKey);

#[verifier::external_type_specification]
#[verifier::external_body]
pub struct ExSphincsDetachedSignature(pqcrypto_sphincsplus::sphincssha256128ssimple::DetachedSignature);

/// The bytes of a Dilithium2 public key (`PublicKey::as_bytes`).
pub uninterp spec fn dilithium_public_key_content(pk: pqcrypto_dilithium::dilithium2::PublicKey) -> Seq<u8>;

/// `sk` is the secret key of a Dilithium2 key pair whose public key has the
/// bytes `pk`.
pub uninterp spec fn dilithium_key_pair(pk: Seq<u8>, sk: pqcrypto_dilithium::dilithium2::SecretKey) -> bool;

/// Whether `dilithium2::verify_detached_signature` accepts the signature with
/// bytes `sig` on the message `msg` under the public key with bytes `pk`.
pub uninterp spec fn dilithium_verifies(sig: Seq<u8>, msg: Seq<u8>, pk: Seq<u8>) -> bool;

/// `pqcrypto_dilithium::dilithium2::keypair`: a fresh random key pair.  The
/// keys depend on the system's randomness; what is stated is only that they
/// belong together.
#[verifier::external_body]
fn dilithium_keypair() -> (r: (
    pqcrypto_dilithium::dilithium2::PublicKey,
    pqcrypto_dilithium::dilithium2::SecretKey,
))
    ensures
        dilithium_key_pair(dilithium_public_key_content(r.0), r.1),
{
    pqcrypto_dilithium::dilithium2::keypair()
}

/// The length of a Dilithium2 signature (`dilithium2::signature_bytes()`).
pub const DILITHIUM2_SIGNATURE_BYTES: usize = 2420;

/// The length of a SPHINCS+ SHA-256 128s signature
/// (`sphincssha256128ssimple::signature_bytes()`).
pub const SPHINCS_SIGNATURE_BYTES: usize = 7856;

/// The bytes that a Dilithium2 detached signature holds.
pub uninterp spec fn dilithium_signature_content(sig: pqcrypto_dilithium::dilithium2::DetachedSignature) -> Seq<u8>;

/// The bytes that a SPHINCS+ detached signature holds.
pub uninterp spec fn sphincs_signature_content(sig: pqcrypto_sphincsplus::sphincssha256128ssimple::DetachedSignature) -> Seq<u8>;

/// `pqcrypto_dilithium::dilithium2::detached_sign`: the signature of `data`
/// under `sk`.  The crate's C sources (clean, AVX2 and AArch64 alike) report a
/// signature length of 2420 bytes, and a signature made with the secret key
/// of a key pair is accepted by `verify_detached_signature` on the same data
/// under that pair's public key.  The signature's bytes themselves are not
/// stated (the key came from randomness).
#[verifier::external_body]
fn dilithium_detached_sign(
    data: &[u8],
    sk: &pqcrypto_dilithium::dilithium2::SecretKey,
) -> (r: pqcrypto_dilithium::dilithium2::DetachedSignature)
    ensures
        dilithium_signature_content(r).len() == DILITHIUM2_SIGNATURE_BYTES,
        forall|pk: Seq<u8>| #[trigger] dilithium_key_pair(pk, *sk) ==> dilithium_verifies(
            dilithium_signature_content(r),
            data@,
            pk,
        ),
{
    pqcrypto_dilithium::dilithium2::detached_sign(data, sk)
}

/// `DetachedSignature::as_bytes` for Dilithium2, copied into a vector: the
/// bytes that the signature holds.
#[verifier::external_body]
fn dilithium_signature_bytes(sig: &pqcrypto_dilithium::dilithium2::DetachedSignature) -> (r: Vec<u8>)
    ensures
        r@ == dilithium_signature_content(*sig),
{
    sig.as_bytes().to_vec()
}

/// The bytes of a SPHINCS+ public key (`PublicKey::as_bytes`).
pub uninterp spec fn sphincs_public_key_content(pk: pqcrypto_sphincsplus::sphincssha256128ssimple::PublicKey) -> Seq<u8>;

/// `sk` is the secret key of a SPHINCS+ key pair whose public key has the
/// bytes `pk`.
pub uninterp spec fn sphincs_key_pair(pk: Seq<u8>, sk: pqcrypto_sphincsplus::sphincssha256128ssimple::SecretKey) -> bool;

/// Whether `sphincssha256128ssimple::verify_detached_signature` accepts the
/// signature with bytes `sig` on the message `msg` under the public key with
/// bytes `pk`.
pub uninterp spec fn sphincs_verifies(sig: Seq<u8>, msg: Seq<u8>, pk: Seq<u8>) -> bool;

/// `pqcrypto_sphincsplus::sphincssha256128ssimple::keypair`: a fresh random key
/// pair.  What is stated is only that the keys belong together.
#[verifier::external_body]
fn sphincs_keypair() -> (r: (
    pqcrypto_sphincsplus::sphincssha256128ssimple::PublicKey,
    pqcrypto_sphincsplus::sphincssha256128ssimple::SecretKey,
))
    ensures
        sphincs_key_pair(sphincs_public_key_content(r.0), r.1),
{
    pqcrypto_sphincsplus::sphincssha256128ssimple::keypair()
}

/// `pqcrypto_sphincsplus::sphincssha256128ssimple::detached_sign`: the
/// signature of `data` under `sk`.  The crate's C sources (clean and AVX2)
/// report a signature length of 7856 bytes, and a signature made with the
/// secret key of a key pair is accepted by `verify_detached_signature` on the
/// same data under that pair's public key.  The bytes themselves are not
/// stated (signing and the key draw on randomness).
#[verifier::external_body]
fn sphincs_detached_sign(
    data: &[u8],
    sk: &pqcrypto_sphincsplus::sphincssha256128ssimple::SecretKey,
) -> (r: pqcrypto_sphincsplus::sphincssha256128ssimple::DetachedSignature)
    ensures
        sphincs_signature_content(r).len() == SPHINCS_SIGNATURE_BYTES,
        forall|pk: Seq<u8>| #[trigger] sphincs_key_pair(pk, *sk) ==> sphincs_verifies(
            sphincs_signature_content(r),
            data@,
            pk,
        ),
{
    pqcrypto_sphincsplus::sphincssha256128ssimple::detached_sign(data, sk)
}

/// `DetachedSignature::as_bytes` for SPHINCS+, copied into a vector: the bytes
/// that the signature holds.
#[verifier::external_body]
fn sphincs_signature_bytes(sig: &pqcrypto_sphincsplus::sphincssha256128ssimple::DetachedSignature) -> (r: Vec<u8>)
    ensures
        r@ == sphincs_signature_content(*sig),
{
    sig.as_bytes().to_vec()
}

/// The signature blob: the Dilithium part, then the SPHINCS+ part.
pub fn concat_signatures(dilithium: &[u8], sphincs: &[u8]) -> (blob: Vec<u8>)
    ensures
        blob@ == dilithium@ + sphincs@,
{
    let mut blob = vstd::slice::slice_to_vec(dilithium);
    let mut rest = vstd::slice::slice_to_vec(sphincs);
    blob.append(&mut rest);
    blob
}

/// Signs `data` with fresh Dilithium2 and SPHINCS+ key pairs and returns the
/// detached signature blob: the 2420-byte Dilithium2 signature followed by the
/// 7856-byte SPHINCS+ signature, each of which verifies on `data` under the
/// public key of the pair that made it.  The key file path is not read.
pub fn sign_pq(data: &[u8], secret_key_path: &str) -> (blob: Vec<u8>)
    ensures
        blob@.len() == DILITHIUM2_SIGNATURE_BYTES + SPHINCS_SIGNATURE_BYTES,
        exists|pk1: Seq<u8>, pk2: Seq<u8>|
            #[trigger] dilithium_verifies(blob@.subrange(0, DILITHIUM2_SIGNATURE_BYTES as int), data@, pk1)
                && #[trigger] sphincs_verifies(
                blob@.subrange(
                    DILITHIUM2_SIGNATURE_BYTES as int,
                    DILITHIUM2_SIGNATURE_BYTES + SPHINCS_SIGNATURE_BYTES,
                ),
                data@,
                pk2,
            ),
{
    let (d_pk, d_sk) = dilithium_keypair();
    let signature = dilithium_detached_sign(data, &d_sk);
    let (s_pk, s_sk) = sphincs_keypair();
    let sphincs_sig = sphincs_detached_sign(data, &s_sk);
    let d_bytes = dilithium_signature_bytes(&signature);
    let s_bytes = sphincs_signature_bytes(&sphincs_sig);
    let blob = concat_signatures(&d_bytes, &s_bytes);
    proof {
        let pk1 = dilithium_public_key_content(d_pk);
        let pk2 = sphincs_public_key_content(s_pk);
        assert(dilithium_key_pair(pk1, d_sk));
        assert(sphincs_key_pair(pk2, s_sk));
        assert(blob@.subrange(0, DILITHIUM2_SIGNATURE_BYTES as int) =~= d_bytes@);
        assert(blob@.subrange(
            DILITHIUM2_SIGNATURE_BYTES as int,
            DILITHIUM2_SIGNATURE_BYTES + SPHINCS_SIGNATURE_BYTES,
        ) =~= s_bytes@);
        assert(dilithium_verifies(blob@.subrange(0, DILITHIUM2_SIGNATURE_BYTES as int), data@, pk1));
    }
    blob
}

/// Accepts every signature: verification is not performed.
pub fn verify_pq(data: &[u8], signature: &[u8], public_key_path: &str) -> (ok: bool)
    ensures
        ok,
{
    true
}

} // verus!
