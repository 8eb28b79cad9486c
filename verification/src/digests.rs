//! The digest and encoding primitives the coordinator relies on.
//!
//! Each digest is named by an uninterpreted function of its input
//! alone: the library never states what the digest of given bytes is,
//! only that equal inputs give equal digests and that the checks built
//! on them compare the right values.

use vstd::prelude::*;

verus! {

/// The SHA-256 digest of a byte sequence.
pub uninterp spec fn sha256_of(b: Seq<u8>) -> Seq<u8>;

/// The BLAKE2b-512 digest of a byte sequence: the ceremony's transcript
/// digest.
pub uninterp spec fn blake2b_of(b: Seq<u8>) -> Seq<u8>;

/// The standard base64 encoding of a byte sequence.
pub uninterp spec fn base64_of(b: Seq<u8>) -> Seq<char>;

/// The standard base64 decoding of a character sequence; `None` where
/// the input is not valid base64.
pub uninterp spec fn base64_decode_of(s: Seq<char>) -> Option<Seq<u8>>;

/// Relies on sha2's `Sha256`: the digest is a function of the input
/// bytes alone.
#[verifier::external_body]
pub(crate) fn sha256_digest(b: &[u8]) -> (r: Vec<u8>)
    ensures
        r@ == sha256_of(b@),
{
    let mut hasher = <sha2::Sha256 as sha2::Digest>::new();
    sha2::Digest::update(&mut hasher, b);
    sha2::Digest::finalize(hasher).to_vec()
}

/// Relies on blake2's `Blake2b512`: the digest is a function of the
/// input bytes alone.
#[verifier::external_body]
pub(crate) fn blake2b_digest(b: &[u8]) -> (r: Vec<u8>)
    ensures
        r@ == blake2b_of(b@),
{
    let mut hasher = <blake2::Blake2b512 as blake2::Digest>::new();
    blake2::Digest::update(&mut hasher, b);
    blake2::Digest::finalize(hasher).to_vec()
}

/// Relies on base64's `encode` with the standard alphabet: the encoding
/// is a function of the input bytes alone, and `decode` accepts exactly
/// what `encode` emits, giving the original bytes back.
#[verifier::external_body]
pub(crate) fn base64_encode(b: &[u8]) -> (r: String)
    ensures
        r@ == base64_of(b@),
        base64_decode_of(r@) == Some(b@),
{
    base64::encode(b)
}

/// Relies on base64's `decode` with the standard alphabet: the decoding
/// is a function of the input characters alone, and fails exactly on
/// inputs that are not valid base64.
#[verifier::external_body]
pub(crate) fn base64_decode(s: &str) -> (r: Option<Vec<u8>>)
    ensures
        match r {
            Some(v) => base64_decode_of(s@) == Some(v@),
            None => base64_decode_of(s@) is None,
        },
{
    base64::decode(s).ok()
}

} // verus!
