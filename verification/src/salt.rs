//! Salt generation: a fresh 6-character alphanumeric string drawn from a
//! process-wide random source, behind a trusted binding. Nothing is assumed
//! of which string comes back, only of its length and character class.

use rand::distributions::Alphanumeric;
use rand::thread_rng;
use rand::Rng;
use vstd::prelude::*;

verus! {

/// The number of characters in a salt.
pub const SALT_LEN: usize = 6;

/// An ASCII alphanumeric character: a digit, an uppercase letter, or a
/// lowercase letter.
pub open spec fn is_alnum_char(c: char) -> bool {
    ('0' <= c && c <= '9') || ('A' <= c && c <= 'Z') || ('a' <= c && c <= 'z')
}

/// A well-formed salt: exactly `SALT_LEN` alphanumeric characters.
pub open spec fn is_salt(s: Seq<char>) -> bool {
    &&& s.len() == SALT_LEN
    &&& forall|i: int| 0 <= i < s.len() ==> is_alnum_char(#[trigger] s[i])
}

/// Relies on `rand::distributions::Alphanumeric`: every sample is one of the
/// bytes `A-Z`, `a-z`, `0-9`, so six samples turned into characters form a
/// 6-character alphanumeric string. The result is random: no two calls are
/// related by this contract.
#[verifier::external_body]
pub fn random_salt() -> (r: String)
    ensures
        is_salt(r@),
{
    thread_rng().sample_iter(&Alphanumeric).take(SALT_LEN).map(char::from).collect()
}

} // verus!
