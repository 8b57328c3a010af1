//! Hex encoding of state digests.
//!
//! `hex_of` states exactly what the lowercase hex encoding of a byte sequence
//! is; the one call into the `hex` crate is held to it.

use vstd::prelude::*;

verus! {

/// The lowercase hex digit for a value below sixteen.
pub open spec fn hex_digit(n: u8) -> char
    recommends
        n < 16,
{
    if n < 10 {
        ((n + 48) as char)  // '0'..='9'
    } else {
        ((n + 87) as char)  // 'a'..='f'
    }
}

/// The lowercase hex encoding of a byte sequence: two digits per byte, high
/// nibble first.
pub open spec fn hex_of(s: Seq<u8>) -> Seq<char>
    decreases s.len(),
{
    if s.len() == 0 {
        Seq::empty()
    } else {
        seq![hex_digit(s[0] / 16), hex_digit(s[0] % 16)] + hex_of(s.skip(1))
    }
}

/// Relies on hex::encode: the lowercase hex encoding of the bytes, two digits
/// per byte, high nibble first.
#[verifier::external_body]
pub fn to_hex(b: &Vec<u8>) -> (r: String)
    ensures
        r@ == hex_of(b@),
{
    hex::encode(b)
}

} // verus!
