//! Floating-point values as the library sees them: the bit pattern of an
//! IEEE 754 double. Ordering and equality are decided here on the bits;
//! arithmetic, conversion, parsing and printing are the host's.

use vstd::prelude::*;

verus! {

/// The floating-point unit of the host. The library hands it bit patterns
/// and text and takes back what it answers; nothing is assumed of an
/// answer.
pub trait FloatOps {
    /// The double that `text` writes, if it writes one.
    fn parse(&self, text: &str) -> Option<u64>;

    /// The text of a double.
    fn format(&self, bits: u64) -> String;

    /// The double nearest to an integer.
    fn from_int(&self, n: i64) -> u64;

    /// The integer part of a double.
    fn to_int(&self, bits: u64) -> i64;

    fn sum(&self, a: u64, b: u64) -> u64;

    fn difference(&self, a: u64, b: u64) -> u64;

    fn product(&self, a: u64, b: u64) -> u64;

    fn quotient(&self, a: u64, b: u64) -> u64;
}

/// The bits of a double without its sign.
pub open spec fn magnitude(bits: u64) -> u64 {
    bits & 0x7fff_ffff_ffff_ffffu64
}

/// Whether the bits are those of a NaN: an all-ones exponent with a
/// fraction that is not zero.
pub open spec fn is_nan(bits: u64) -> bool {
    magnitude(bits) > 0x7ff0_0000_0000_0000u64
}

/// A number that orders the doubles which are not NaN as their values are
/// ordered, with both zeros at 0.
pub open spec fn float_key(bits: u64) -> int {
    if bits & 0x8000_0000_0000_0000u64 != 0 {
        -(magnitude(bits) as int)
    } else {
        magnitude(bits) as int
    }
}

/// IEEE 754 equality: false where either side is a NaN.
pub open spec fn float_equal(a: u64, b: u64) -> bool {
    !is_nan(a) && !is_nan(b) && float_key(a) == float_key(b)
}

/// IEEE 754 `<`: false where either side is a NaN.
pub open spec fn float_less(a: u64, b: u64) -> bool {
    !is_nan(a) && !is_nan(b) && float_key(a) < float_key(b)
}

fn key(bits: u64) -> (k: i64)
    ensures
        k == float_key(bits),
{
    let m: u64 = bits & 0x7fff_ffff_ffff_ffffu64;
    assert(m <= 0x7fff_ffff_ffff_ffffu64) by (bit_vector)
        requires
            m == bits & 0x7fff_ffff_ffff_ffffu64,
    ;
    if bits & 0x8000_0000_0000_0000u64 != 0 {
        -(m as i64)
    } else {
        m as i64
    }
}

fn nan(bits: u64) -> (b: bool)
    ensures
        b == is_nan(bits),
{
    (bits & 0x7fff_ffff_ffff_ffffu64) > 0x7ff0_0000_0000_0000u64
}

pub fn equal_bits(a: u64, b: u64) -> (r: bool)
    ensures
        r == float_equal(a, b),
{
    !nan(a) && !nan(b) && key(a) == key(b)
}

pub fn less_bits(a: u64, b: u64) -> (r: bool)
    ensures
        r == float_less(a, b),
{
    !nan(a) && !nan(b) && key(a) < key(b)
}

} // verus!
