//! The cryptographic primitives that come from outside crates: AES-256-GCM,
//! HMAC-SHA256 and SHA-1.
//!
//! Each function here makes one outside call. Its contract is taken on trust;
//! everything that the rest of the library proves about encryption, key
//! derivation and hashing rests on these contracts.

use aes_gcm::aead::{Aead, KeyInit, Payload};
use aes_gcm::{Aes256Gcm, Key, Nonce};
use hmac::{Hmac, Mac};
use sha1::{Digest, Sha1};
use sha2::Sha256;
use vstd::prelude::*;

verus! {

/// Length of an AES-256 key.
pub const AES_KEY_LEN: usize = 32;

/// Length of the GCM nonce.
pub const GCM_NONCE_LEN: usize = 12;

/// Length of the GCM authentication tag (ICV).
pub const GCM_TAG_LEN: usize = 16;

/// The longest plaintext, and the longest associated data, that AES-GCM takes.
pub const GCM_MAX_LEN: u64 = 0x10_0000_0000;

/// The longest input whose bit count still fits the 64-bit length field of SHA-1
/// and SHA-256.
pub const HASH_MAX_LEN: u64 = 0x1fff_ffff_ffff_ffff;

/// The longest message for HMAC-SHA256, which hashes it after a 64-byte block.
pub const PRF_MAX_LEN: u64 = 0x1fff_ffff_ffff_ffbf;

/// The error of an AES-GCM operation, which carries no detail.
#[verifier::external_type_specification]
#[verifier::external_body]
pub struct ExAeadError(aes_gcm::Error);

/// Ciphertext followed by the tag, as AES-256-GCM encryption returns it.
pub uninterp spec fn aes256_gcm_sealed(
    key: Seq<u8>,
    nonce: Seq<u8>,
    aad: Seq<u8>,
    plaintext: Seq<u8>,
) -> Seq<u8>;

/// The plaintext that AES-256-GCM decryption returns; `None` where it refuses.
pub uninterp spec fn aes256_gcm_opened(
    key: Seq<u8>,
    nonce: Seq<u8>,
    aad: Seq<u8>,
    sealed: Seq<u8>,
) -> Option<Seq<u8>>;

/// The HMAC-SHA256 code of `data` under `key`.
pub uninterp spec fn hmac_sha256_code(key: Seq<u8>, data: Seq<u8>) -> Seq<u8>;

/// The SHA-1 digest of `data`.
pub uninterp spec fn sha1_digest(data: Seq<u8>) -> Seq<u8>;

/// `forged` agrees with `sealed` up to the tag, and its tag is another one.
pub open spec fn only_tag_differs(sealed: Seq<u8>, forged: Seq<u8>) -> bool {
    &&& forged.len() == sealed.len()
    &&& forged.take(sealed.len() - GCM_TAG_LEN) == sealed.take(sealed.len() - GCM_TAG_LEN)
    &&& forged != sealed
}

/// A message whose tag alone was forged splits where the genuine one does.
pub proof fn forgery_splits(prefix: Seq<u8>, sealed: Seq<u8>, forged: Seq<u8>)
    requires
        sealed.len() >= GCM_TAG_LEN,
        only_tag_differs(prefix + sealed, forged),
    ensures
        forged == prefix + forged.skip(prefix.len() as int),
        forged.skip(prefix.len() as int).len() == sealed.len(),
        only_tag_differs(sealed, forged.skip(prefix.len() as int)),
{
    let whole = prefix + sealed;
    let other = forged.skip(prefix.len() as int);
    let kept = whole.len() - GCM_TAG_LEN;
    assert forall|i: int| 0 <= i < kept implies forged[i] == whole[i] by {
        assert(forged.take(kept)[i] == whole.take(kept)[i]);
    }
    assert(forged =~= prefix + other);
    assert(other.take(sealed.len() - GCM_TAG_LEN) =~= sealed.take(sealed.len() - GCM_TAG_LEN));
}

/// `Aead::encrypt` of `aes_gcm::Aes256Gcm`.
///
/// Trusted: it succeeds exactly when neither the plaintext nor the associated
/// data is longer than the cipher's limit; the result is a function of the four
/// arguments; it is longer than the plaintext by the tag; decryption under the
/// same key, nonce and associated data gives the plaintext back; and decryption
/// refuses the same ciphertext under any other tag, because it recomputes the
/// one tag that fits.
#[verifier::external_body]
pub(crate) fn aes256_gcm_encrypt(
    key: &[u8],
    nonce: &[u8],
    aad: &[u8],
    plaintext: &[u8],
) -> (r: Result<Vec<u8>, aes_gcm::Error>)
    requires
        key@.len() == AES_KEY_LEN,
        nonce@.len() == GCM_NONCE_LEN,
    ensures
        (r is Ok) == (plaintext@.len() <= GCM_MAX_LEN && aad@.len() <= GCM_MAX_LEN),
        r matches Ok(sealed) ==> sealed@ == aes256_gcm_sealed(key@, nonce@, aad@, plaintext@),
        r matches Ok(sealed) ==> sealed@.len() == plaintext@.len() + GCM_TAG_LEN,
        r matches Ok(sealed) ==> aes256_gcm_opened(key@, nonce@, aad@, sealed@) == Some(plaintext@),
        r matches Ok(sealed) ==> forall|forged: Seq<u8>|
            only_tag_differs(sealed@, forged) ==> #[trigger] aes256_gcm_opened(key@, nonce@, aad@, forged) is None,
{
    Aes256Gcm::new(Key::<Aes256Gcm>::from_slice(key))
        .encrypt(Nonce::from_slice(nonce), Payload { msg: plaintext, aad })
}

/// `Aead::decrypt` of `aes_gcm::Aes256Gcm`.
///
/// Trusted: the outcome is a function of the four arguments, and a plaintext
/// that comes out is shorter than the input by the tag. Nothing is claimed of
/// another key or of altered ciphertext or associated data: those are refused
/// with overwhelming probability, not with certainty.
#[verifier::external_body]
pub(crate) fn aes256_gcm_decrypt(
    key: &[u8],
    nonce: &[u8],
    aad: &[u8],
    sealed: &[u8],
) -> (r: Result<Vec<u8>, aes_gcm::Error>)
    requires
        key@.len() == AES_KEY_LEN,
        nonce@.len() == GCM_NONCE_LEN,
    ensures
        r matches Ok(plaintext) ==> aes256_gcm_opened(key@, nonce@, aad@, sealed@) == Some(plaintext@),
        r is Err ==> aes256_gcm_opened(key@, nonce@, aad@, sealed@) is None,
        r matches Ok(plaintext) ==> plaintext@.len() + GCM_TAG_LEN == sealed@.len(),
{
    Aes256Gcm::new(Key::<Aes256Gcm>::from_slice(key))
        .decrypt(Nonce::from_slice(nonce), Payload { msg: sealed, aad })
}

/// `Mac::new_from_slice`, `update` and `finalize` of `hmac::Hmac<sha2::Sha256>`.
///
/// Trusted: a key of any length is taken, and the 32-byte code is a function of
/// key and data. Longer inputs than the precondition admits overflow the bit
/// count that SHA-256 appends to its input.
#[verifier::external_body]
pub(crate) fn hmac_sha256(key: &[u8], data: &[u8]) -> (r: [u8; 32])
    requires
        key@.len() <= HASH_MAX_LEN,
        data@.len() <= PRF_MAX_LEN,
    ensures
        r@ == hmac_sha256_code(key@, data@),
{
    let mut mac = <Hmac<Sha256> as Mac>::new_from_slice(key).expect("HMAC takes a key of any length");
    mac.update(data);
    mac.finalize().into_bytes().into()
}

/// `Digest::digest` of `sha1::Sha1`.
///
/// Trusted: the 20-byte digest is a function of the data. That different data
/// have different digests is not claimed, since collisions exist. Longer inputs than the
/// precondition admits overflow the bit count that SHA-1 appends to its input.
#[verifier::external_body]
pub(crate) fn sha1(data: &[u8]) -> (r: [u8; 20])
    requires
        data@.len() <= HASH_MAX_LEN,
    ensures
        r@ == sha1_digest(data@),
{
    Sha1::digest(data).into()
}

} // verus!
