//! A trusted binding to the SHA-256 digest. The digest itself is not modelled:
//! its value is only given a name, `sha256_str`, so that contracts can say
//! that the same input always yields the same digest.

use sha2::Digest;
use sha2::Sha256;
use vstd::prelude::*;

verus! {

/// The SHA-256 digest of a string's UTF-8 bytes. The digest is a function of
/// the characters alone; nothing more is assumed of its value.
pub uninterp spec fn sha256_str(s: Seq<char>) -> Seq<u8>;

/// Relies on `sha2::Sha256`: feeding a byte string to the hasher and
/// finalizing it returns the 32-byte SHA-256 digest of that byte string,
/// a pure function of the input.
#[verifier::external_body]
pub fn sha256_digest(s: &str) -> (r: Vec<u8>)
    ensures
        r@ == sha256_str(s@),
        r@.len() == 32,
{
    let mut hasher = Sha256::new();
    hasher.update(s.as_bytes());
    hasher.finalize().to_vec()
}

} // verus!
