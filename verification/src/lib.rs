//! A minimal password-hashing codec.
//!
//! A plaintext password is combined with a fresh random salt and an
//! application-wide secret into a SHA-256 digest, and stored as the string
//! `<salt>$<hex digest>`. A candidate plaintext is later checked against the
//! stored string; a stored string of the wrong shape is rejected rather than
//! reported as an error.

pub mod codec;
pub mod digest;
pub mod hexcode;
pub mod salt;

pub use codec::HashedPassword;
