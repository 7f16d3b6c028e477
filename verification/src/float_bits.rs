//! Binary64 float values carried as plain bit patterns. The language stores
//! and moves floats as `u64` bits; the three operations that actually look
//! inside a float — reading a literal, adding, and rendering — are done in
//! software by the `rustc_apfloat` IEEE-754 implementation.

use rustc_apfloat::ieee::Double;
use rustc_apfloat::Float;
use vstd::prelude::*;

verus! {

/// Whether a character sequence is a plain decimal float literal: one dot
/// with at least one ASCII digit on each side, and nothing else.
pub open spec fn simple_decimal(s: Seq<char>) -> bool {
    exists|d: int|
        0 < d < s.len() - 1 && s[d] == '.' && (forall|i: int|
            0 <= i < s.len() && i != d ==> #[trigger] is_digit_char(s[i]))
}

/// Whether a character is an ASCII decimal digit.
pub open spec fn is_digit_char(c: char) -> bool {
    ('0' as u32) <= (c as u32) <= ('9' as u32)
}

/// The bits of the binary64 value a decimal literal denotes, rounded to
/// nearest with ties to even.
pub uninterp spec fn f64_bits_of_decimal(s: Seq<char>) -> u64;

/// The bits of the IEEE-754 binary64 sum of two values given as bits,
/// rounded to nearest with ties to even.
pub uninterp spec fn f64_add_bits(a: u64, b: u64) -> u64;

/// The decimal rendering of the binary64 value with the given bits.
pub uninterp spec fn f64_display(bits: u64) -> Seq<char>;

/// Relies on `rustc_apfloat::ieee::Double::from_str`, which parses a
/// decimal literal to the nearest binary64 value (ties to even) as IEEE-754
/// prescribes, and on `to_bits`, which returns its bit pattern. `from_str`
/// accepts every plain `digits.digits` literal; `None` reports a string the
/// crate rejects.
#[verifier::external_body]
pub(crate) fn parse_f64_bits(s: &str) -> (r: Option<u64>)
    requires
        s@.len() < 0x1000_0000,
    ensures
        r matches Some(bits) ==> bits == f64_bits_of_decimal(s@),
        simple_decimal(s@) ==> r is Some,
{
    match <Double as core::str::FromStr>::from_str(s) {
        Ok(d) => Some(d.to_bits() as u64),
        Err(_) => None,
    }
}

/// Relies on `rustc_apfloat::ieee::Double`'s addition (`add_r` through the
/// `+` operator), the IEEE-754 binary64 sum rounded to nearest with ties to
/// even, and on `from_bits`/`to_bits`.
#[verifier::external_body]
pub(crate) fn add_f64_bits(a: u64, b: u64) -> (r: u64)
    ensures
        r == f64_add_bits(a, b),
{
    let x = Double::from_bits(a as u128);
    let y = Double::from_bits(b as u128);
    (x + y).value.to_bits() as u64
}

/// Relies on `rustc_apfloat::ieee::Double`'s `Display`, a decimal rendering
/// that depends on the bits alone.
#[verifier::external_body]
pub(crate) fn display_f64_bits(bits: u64) -> (r: String)
    ensures
        r@ == f64_display(bits),
{
    format!("{}", Double::from_bits(bits as u128))
}

} // verus!
