//! Calls into the `base64` and `rand` crates.

use vstd::prelude::*;
use base64::Engine;
use rand::Rng;

verus! {

/// The digit of a 6-bit value in the standard alphabet `A-Z a-z 0-9 + /`.
pub open spec fn base64_digit(v: int) -> char {
    if v < 26 {
        (65 + v) as char
    } else if v < 52 {
        (97 + v - 26) as char
    } else if v < 62 {
        (48 + v - 52) as char
    } else if v == 62 {
        '+'
    } else {
        '/'
    }
}

/// Standard Base64 (RFC 4648 alphabet, with `=` padding) of `b`: each group
/// of three bytes gives four digits of six bits each, most significant first;
/// a last group of one or two bytes, taken with zero bits after it, gives two
/// or three digits, padded with `=` to four.
pub open spec fn base64_standard(b: Seq<u8>) -> Seq<char>
    decreases b.len(),
{
    if b.len() == 0 {
        seq![]
    } else {
        let x = b[0] as int;
        let y = if b.len() > 1 { b[1] as int } else { 0 };
        let z = if b.len() > 2 { b[2] as int } else { 0 };
        let first = base64_digit(x / 4);
        let second = base64_digit((x % 4) * 16 + y / 16);
        let third = base64_digit((y % 16) * 4 + z / 64);
        if b.len() == 1 {
            seq![first, second, '=', '=']
        } else if b.len() == 2 {
            seq![first, second, third, '=']
        } else {
            seq![first, second, third, base64_digit(z % 64)] + base64_standard(
                b.subrange(3, b.len() as int),
            )
        }
    }
}

/// `base64::engine::general_purpose::STANDARD.encode`: the standard, padded
/// Base64 of the input, as the crate documents it. The bound on the length
/// keeps the crate's output-size computation from overflowing (it panics
/// there).
#[verifier::external_body]
pub fn base64_encode(bytes: &[u8]) -> (r: String)
    requires
        bytes@.len() <= usize::MAX / 2,
    ensures
        r@ == base64_standard(bytes@),
{
    base64::engine::general_purpose::STANDARD.encode(bytes)
}

/// `rand::rng().random::<u32>()`: any `u32`; nothing is promised of which.
#[verifier::external_body]
pub fn random_u32() -> u32 {
    rand::rng().random()
}

} // verus!
