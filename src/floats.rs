use vstd::prelude::*;

verus! {

/// Floating-point work, which the host performs. Floats reach the machine as
/// IEEE-754 bit patterns (`f64::to_bits`), and every answer that holds a float
/// is such a pattern too.
pub trait FloatUnit {
    /// Reads a decimal literal; `None` where the text is no float.
    fn parse(&self, text: &str) -> Option<u64>;

    fn add(&self, l: u64, r: u64) -> u64;

    fn sub(&self, l: u64, r: u64) -> u64;

    fn mul(&self, l: u64, r: u64) -> u64;

    fn div(&self, l: u64, r: u64) -> u64;

    fn rem(&self, l: u64, r: u64) -> u64;

    /// `floor(l / r)` as an integer.
    fn floor_div(&self, l: u64, r: u64) -> i64;

    /// `l < r`
    fn less(&self, l: u64, r: u64) -> bool;

    /// `l <= r`
    fn less_eq(&self, l: u64, r: u64) -> bool;
}

/// Is the bit pattern a zero (of either sign)?
pub open spec fn is_zero_bits(bits: u64) -> bool {
    bits == 0 || bits == 0x8000_0000_0000_0000
}

pub fn float_is_zero(bits: u64) -> (r: bool)
    ensures
        r == is_zero_bits(bits),
{
    bits == 0 || bits == 0x8000_0000_0000_0000
}

} // verus!
