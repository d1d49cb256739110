//! The hashed-password codec: a plaintext and an application-wide secret are
//! combined with a fresh salt into `<salt>$<hex SHA-256 digest>`, and a
//! candidate plaintext is later checked against such a stored string.

use vstd::prelude::*;
use vstd::string::*;

use crate::digest::sha256_digest;
use crate::digest::sha256_str;
use crate::hexcode::hex_encode;
use crate::hexcode::is_hex_char;
use crate::hexcode::lemma_spec_hex_chars;
use crate::hexcode::lemma_spec_hex_injective;
use crate::hexcode::spec_hex;
use crate::salt::is_alnum_char;
use crate::salt::is_salt;
use crate::salt::random_salt;
use crate::salt::SALT_LEN;

verus! {

/// A salted, hashed password, stored as `<salt>$<hex digest>` where the
/// digest is `SHA-256(salt || plaintext || hex(secret))`. The plaintext
/// cannot be recovered from it; a candidate is checked by recomputing.
#[derive(Debug, Eq, PartialEq, Hash)]
pub struct HashedPassword(String);

impl View for HashedPassword {
    type V = Seq<char>;

    closed spec fn view(&self) -> Seq<char> {
        self.0@
    }
}

/// The encoded string an input triple produces: the salt, the delimiter, and
/// the lowercase hex digest of `salt || plain || hex(secret)`.
pub open spec fn encoding(salt: Seq<char>, plain: Seq<char>, secret: Seq<u8>) -> Seq<char> {
    salt + seq!['$'] + spec_hex(sha256_str(salt + plain + spec_hex(secret)))
}

/// The position of the first delimiter in `s`, or `s.len()` if there is none.
pub open spec fn first_sep(s: Seq<char>) -> int
    decreases s.len(),
{
    if s.len() == 0 {
        0
    } else if s[0] == '$' {
        0
    } else {
        1 + first_sep(s.subrange(1, s.len() as int))
    }
}

/// A stored string of the well-formed shape: a non-empty salt segment before
/// the first delimiter and a non-empty hash segment after it.
pub open spec fn well_formed_shape(s: Seq<char>) -> bool {
    0 < first_sep(s) && first_sep(s) + 1 < s.len()
}

/// What validation of a stored string means: the stored string is of the
/// well-formed shape, and re-encoding the candidate plaintext with the
/// stored salt and the given secret reproduces the stored string exactly.
pub open spec fn spec_validate(stored: Seq<char>, plain: Seq<char>, secret: Seq<u8>) -> bool {
    &&& well_formed_shape(stored)
    &&& stored == encoding(stored.subrange(0, first_sep(stored)), plain, secret)
}

/// The shape of every freshly produced encoding: six alphanumeric salt
/// characters, the delimiter, and 64 lowercase hex digits — 71 characters.
pub open spec fn is_encoded_form(s: Seq<char>) -> bool {
    &&& s.len() == SALT_LEN + 65
    &&& (forall|i: int| 0 <= i < SALT_LEN ==> is_alnum_char(#[trigger] s[i]))
    &&& s[SALT_LEN as int] == '$'
    &&& (forall|i: int| SALT_LEN + 1 <= i < s.len() ==> is_hex_char(#[trigger] s[i]))
}

/// `first_sep` finds exactly the position before which no delimiter stands
/// and at which one stands (or the length, when there is none).
pub proof fn lemma_first_sep_at(s: Seq<char>, i: int)
    requires
        0 <= i <= s.len(),
        forall|j: int| 0 <= j < i ==> s[j] != '$',
        i < s.len() ==> s[i] == '$',
    ensures
        first_sep(s) == i,
    decreases s.len(),
{
    if i > 0 {
        let t = s.subrange(1, s.len() as int);
        assert forall|j: int| 0 <= j < i - 1 implies t[j] != '$' by {
            assert(t[j] == s[j + 1]);
        }
        lemma_first_sep_at(t, i - 1);
    }
}

/// Two sequences with the same prefix and equal concatenations are equal.
proof fn lemma_concat_cancel(prefix: Seq<char>, x: Seq<char>, y: Seq<char>)
    requires
        prefix + x == prefix + y,
    ensures
        x == y,
{
    assert((prefix + x).len() == prefix.len() + x.len());
    assert((prefix + y).len() == prefix.len() + y.len());
    assert((prefix + x).len() == (prefix + y).len());
    assert(x.len() == y.len());
    assert forall|k: int| 0 <= k < x.len() implies x[k] == y[k] by {
        assert(0 <= k < y.len());
        assert((prefix + x)[prefix.len() + k] == x[k]);
        assert((prefix + y)[prefix.len() + k] == y[k]);
    }
    assert(x =~= y);
}

/// In an encoding under a well-formed salt, the first delimiter stands right
/// after the salt, and the salt segment is the salt.
proof fn lemma_encoding_sep(salt: Seq<char>, plain: Seq<char>, secret: Seq<u8>)
    requires
        is_salt(salt),
    ensures
        first_sep(encoding(salt, plain, secret)) == salt.len(),
        encoding(salt, plain, secret).subrange(0, salt.len() as int) == salt,
{
    let stored = encoding(salt, plain, secret);
    assert forall|j: int| 0 <= j < salt.len() implies stored[j] != '$' by {
        assert(stored[j] == salt[j]);
        assert(is_alnum_char(salt[j]));
    }
    assert(stored[salt.len() as int] == '$');
    lemma_first_sep_at(stored, salt.len() as int);
    assert(stored.subrange(0, salt.len() as int) =~= salt);
}

/// Round trip: an encoding of `plain` with `secret` under a well-formed salt
/// validates against the same `plain` and `secret`. The digest is required
/// non-empty, as every SHA-256 digest is (it has 32 bytes).
pub proof fn lemma_round_trip(salt: Seq<char>, plain: Seq<char>, secret: Seq<u8>)
    requires
        is_salt(salt),
        sha256_str(salt + plain + spec_hex(secret)).len() > 0,
    ensures
        spec_validate(encoding(salt, plain, secret), plain, secret),
{
    let stored = encoding(salt, plain, secret);
    lemma_encoding_sep(salt, plain, secret);
    assert(spec_hex(sha256_str(salt + plain + spec_hex(secret))).len() > 0);
    assert(stored.len() > salt.len() + 1);
}

/// Negative case: a wrong candidate never validates against an encoding of
/// the right plaintext, provided the two digests differ — inputs on which
/// SHA-256 collides are left out, since nothing in the model excludes them.
pub proof fn lemma_wrong_candidate(
    salt: Seq<char>,
    plain: Seq<char>,
    candidate: Seq<char>,
    secret: Seq<u8>,
)
    requires
        is_salt(salt),
        candidate != plain,
        sha256_str(salt + candidate + spec_hex(secret)) != sha256_str(
            salt + plain + spec_hex(secret),
        ),
    ensures
        !spec_validate(encoding(salt, plain, secret), candidate, secret),
{
    let stored = encoding(salt, plain, secret);
    lemma_encoding_sep(salt, plain, secret);
    let d1 = sha256_str(salt + plain + spec_hex(secret));
    let d2 = sha256_str(salt + candidate + spec_hex(secret));
    if spec_validate(stored, candidate, secret) {
        assert(stored == encoding(salt, candidate, secret));
        lemma_concat_cancel(salt + seq!['$'], spec_hex(d1), spec_hex(d2));
        lemma_spec_hex_injective(d1, d2);
        assert(false);
    }
}

/// Secret sensitivity: a secret other than the one used at creation never
/// validates, even for the right plaintext, provided the two digests differ —
/// inputs on which SHA-256 collides are left out, since nothing in the model
/// excludes them.
pub proof fn lemma_wrong_secret(
    salt: Seq<char>,
    plain: Seq<char>,
    secret: Seq<u8>,
    other: Seq<u8>,
)
    requires
        is_salt(salt),
        other != secret,
        sha256_str(salt + plain + spec_hex(other)) != sha256_str(salt + plain + spec_hex(secret)),
    ensures
        !spec_validate(encoding(salt, plain, secret), plain, other),
{
    let stored = encoding(salt, plain, secret);
    lemma_encoding_sep(salt, plain, secret);
    let d1 = sha256_str(salt + plain + spec_hex(secret));
    let d2 = sha256_str(salt + plain + spec_hex(other));
    if spec_validate(stored, plain, other) {
        assert(stored == encoding(salt, plain, other));
        lemma_concat_cancel(salt + seq!['$'], spec_hex(d1), spec_hex(d2));
        lemma_spec_hex_injective(d1, d2);
        assert(false);
    }
}

/// Malformed-record policy: a stored string with no delimiter, with an empty
/// salt segment, or with an empty hash segment never validates, whatever the
/// candidate and the secret.
pub proof fn lemma_malformed_rejected(stored: Seq<char>, plain: Seq<char>, secret: Seq<u8>)
    requires
        (forall|j: int| 0 <= j < stored.len() ==> stored[j] != '$') || (stored.len() > 0
            && stored[0] == '$') || (stored.len() > 0 && stored[stored.len() - 1] == '$'
            && (forall|j: int| 0 <= j < stored.len() - 1 ==> stored[j] != '$')),
    ensures
        !spec_validate(stored, plain, secret),
{
    if stored.len() > 0 && stored[0] == '$' {
        lemma_first_sep_at(stored, 0);
    } else if forall|j: int| 0 <= j < stored.len() ==> stored[j] != '$' {
        lemma_first_sep_at(stored, stored.len() as int);
    } else {
        lemma_first_sep_at(stored, stored.len() - 1);
    }
}

impl HashedPassword {
    /// The delimiter between the salt segment and the hash segment.
    #[inline]
    fn separator() -> (c: char)
        ensures
            c == '$',
    {
        '$'
    }

    /// The lowercase hex SHA-256 digest of a string.
    fn hash(s: &str) -> (r: String)
        ensures
            r@ == spec_hex(sha256_str(s@)),
            r@.len() == 64,
            forall|i: int| 0 <= i < r@.len() ==> is_hex_char(#[trigger] r@[i]),
    {
        let d = sha256_digest(s);
        let r = hex_encode(d.as_slice());
        proof {
            lemma_spec_hex_chars(d@);
        }
        r
    }

    /// Encode `plain` with `secret` under the given salt.
    fn hash_with_salt(plain: &str, secret: &[u8], salt: &str) -> (r: HashedPassword)
        ensures
            r@ == encoding(salt@, plain@, secret@),
            r@.len() == salt@.len() + 65,
            sha256_str(salt@ + plain@ + spec_hex(secret@)).len() == 32,
            forall|i: int| salt@.len() + 1 <= i < r@.len() ==> is_hex_char(#[trigger] r@[i]),
    {
        let hex_secret = hex_encode(secret);
        let mut row = salt.to_owned();
        row.append(plain);
        row.append(hex_secret.as_str());
        let hash = Self::hash(row.as_str());
        let mut value = salt.to_owned();
        value.append("$");
        value.append(hash.as_str());
        proof {
            reveal_strlit("$");
            assert("$"@ =~= seq!['$']);
            assert(value@ =~= encoding(salt@, plain@, secret@));
            assert forall|i: int| salt@.len() + 1 <= i < value@.len() implies is_hex_char(
                value@[i],
            ) by {
                assert(value@[i] == hash@[i - salt@.len() - 1]);
            }
        }
        HashedPassword(value)
    }

    /// Convert `plain` to a [`HashedPassword`], with `secret`: a fresh random
    /// salt is drawn, so two calls on the same inputs produce different
    /// encodings with overwhelming probability, and every call produces a
    /// value that validates against the same plaintext and secret.
    pub fn from_plain(plain: &str, secret: &[u8]) -> (r: HashedPassword)
        ensures
            spec_validate(r@, plain@, secret@),
            is_encoded_form(r@),
            exists|salt: Seq<char>|
                is_salt(salt) && r@ == encoding(salt, plain@, secret@),
    {
        let salt = random_salt();
        let r = Self::hash_with_salt(plain, secret, salt.as_str());
        proof {
            lemma_round_trip(salt@, plain@, secret@);
            assert forall|i: int| 0 <= i < SALT_LEN implies is_alnum_char(r@[i]) by {
                assert(r@[i] == salt@[i]);
            }
            assert(r@[SALT_LEN as int] == '$');
            assert(is_salt(salt@) && r@ == encoding(salt@, plain@, secret@));
        }
        r
    }

    /// Check whether `plain` is the plaintext this value was produced from,
    /// under the same secret. A stored string of the wrong shape — no
    /// delimiter, empty salt, or empty hash — is rejected, never an error.
    pub fn validate(&self, plain: &str, secret: &[u8]) -> (r: bool)
        ensures
            r == spec_validate(self@, plain@, secret@),
    {
        let s = self.0.as_str();
        let n = s.unicode_len();
        let mut i: usize = 0;
        while i < n && s.get_char(i) != Self::separator()
            invariant
                n == s@.len(),
                s@ == self@,
                i <= n,
                forall|j: int| 0 <= j < i ==> s@[j] != '$',
            decreases n - i,
        {
            i += 1;
        }
        proof {
            lemma_first_sep_at(self@, i as int);
        }
        if i == 0 || i >= n || i + 1 >= n {
            return false;
        }
        let salt = s.substring_char(0, i);
        let recomputed = Self::hash_with_salt(plain, secret, salt);
        proof {
            assert(self@.subrange(0, i as int) == salt@);
        }
        recomputed.0.eq(&self.0)
    }

    /// Wrap a previously persisted encoded string again, byte for byte. A
    /// malformed string is accepted here; `validate` rejects it.
    pub fn from_stored(value: String) -> (r: HashedPassword)
        ensures
            r@ == value@,
    {
        HashedPassword(value)
    }

    /// The raw encoded representation, for persistence.
    pub fn as_str(&self) -> (r: &str)
        ensures
            r@ == self@,
    {
        self.0.as_str()
    }
}

} // verus!
