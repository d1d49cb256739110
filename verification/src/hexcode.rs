//! Lowercase hexadecimal encoding of byte sequences: the mathematical
//! definition, the facts the codec needs (length, character class,
//! injectivity), and a trusted binding to the encoder.

use vstd::prelude::*;

verus! {

/// The lowercase hexadecimal digit for a nibble (a value below 16).
pub open spec fn hex_char_of_nibble(n: u8) -> char
    recommends
        n < 16,
{
    if n == 0 {
        '0'
    } else if n == 1 {
        '1'
    } else if n == 2 {
        '2'
    } else if n == 3 {
        '3'
    } else if n == 4 {
        '4'
    } else if n == 5 {
        '5'
    } else if n == 6 {
        '6'
    } else if n == 7 {
        '7'
    } else if n == 8 {
        '8'
    } else if n == 9 {
        '9'
    } else if n == 10 {
        'a'
    } else if n == 11 {
        'b'
    } else if n == 12 {
        'c'
    } else if n == 13 {
        'd'
    } else if n == 14 {
        'e'
    } else {
        'f'
    }
}

/// A lowercase hexadecimal digit.
pub open spec fn is_hex_char(c: char) -> bool {
    ('0' <= c && c <= '9') || ('a' <= c && c <= 'f')
}

/// The lowercase hexadecimal encoding of a byte sequence: two digits per
/// byte, high nibble first.
pub open spec fn spec_hex(bytes: Seq<u8>) -> Seq<char> {
    Seq::new(
        2 * bytes.len(),
        |i: int|
            if i % 2 == 0 {
                hex_char_of_nibble(bytes[i / 2] / 16)
            } else {
                hex_char_of_nibble(bytes[i / 2] % 16)
            },
    )
}

/// Every character of a hexadecimal encoding is a lowercase hexadecimal
/// digit.
pub proof fn lemma_spec_hex_chars(bytes: Seq<u8>)
    ensures
        forall|i: int| 0 <= i < spec_hex(bytes).len() ==> is_hex_char(#[trigger] spec_hex(bytes)[i]),
{
    assert forall|i: int| 0 <= i < spec_hex(bytes).len() implies is_hex_char(
        #[trigger] spec_hex(bytes)[i],
    ) by {
        let b = bytes[i / 2];
        assert(b / 16 < 16 && b % 16 < 16);
    }
}

/// Two distinct nibbles have distinct hexadecimal digits.
proof fn lemma_nibble_injective(a: u8, b: u8)
    requires
        a < 16,
        b < 16,
        hex_char_of_nibble(a) == hex_char_of_nibble(b),
    ensures
        a == b,
{
}

/// Hexadecimal encoding is injective: equal encodings come from equal byte
/// sequences.
pub proof fn lemma_spec_hex_injective(a: Seq<u8>, b: Seq<u8>)
    requires
        spec_hex(a) == spec_hex(b),
    ensures
        a == b,
{
    assert(spec_hex(a).len() == 2 * a.len());
    assert(spec_hex(b).len() == 2 * b.len());
    assert(a.len() == b.len());
    assert forall|i: int| 0 <= i < a.len() implies a[i] == b[i] by {
        assert((2 * i) % 2 == 0 && (2 * i) / 2 == i);
        assert((2 * i + 1) % 2 == 1 && (2 * i + 1) / 2 == i);
        assert(spec_hex(a)[2 * i] == hex_char_of_nibble(a[i] / 16));
        assert(spec_hex(b)[2 * i] == hex_char_of_nibble(b[i] / 16));
        assert(spec_hex(a)[2 * i + 1] == hex_char_of_nibble(a[i] % 16));
        assert(spec_hex(b)[2 * i + 1] == hex_char_of_nibble(b[i] % 16));
        assert(spec_hex(a)[2 * i] == spec_hex(b)[2 * i]);
        assert(spec_hex(a)[2 * i + 1] == spec_hex(b)[2 * i + 1]);
        lemma_nibble_injective(a[i] / 16, b[i] / 16);
        lemma_nibble_injective(a[i] % 16, b[i] % 16);
        assert(a[i] == 16 * (a[i] / 16) + a[i] % 16);
        assert(b[i] == 16 * (b[i] / 16) + b[i] % 16);
    }
    assert(a =~= b);
}

/// Relies on `hex::encode`: it returns the lowercase hexadecimal encoding of
/// its input, two digits per byte, high nibble first, in input order.
#[verifier::external_body]
pub fn hex_encode(bytes: &[u8]) -> (r: String)
    ensures
        r@ == spec_hex(bytes@),
{
    hex::encode(bytes)
}

} // verus!
