use core::cmp::Ordering;
use vstd::prelude::*;
use vstd::std_specs::cmp::{PartialEqSpecImpl, PartialOrdSpecImpl};

verus! {

/// The bit pattern of an IEEE 754 double, compared as the double it holds.
#[derive(Clone, Copy, Debug)]
pub struct FloatBits(pub u64);

/// Whether the double with bits `b` is a NaN: all exponent bits set and a
/// nonzero fraction.
pub open spec fn is_nan_bits(b: u64) -> bool {
    (b / 0x10_0000_0000_0000) % 2048 == 2047 && b % 0x10_0000_0000_0000 != 0
}

/// The place of the non-NaN double with bits `b` in the order of doubles:
/// its magnitude bits, negated when the sign bit is set (so both zeros are
/// at 0).
pub open spec fn order_key(b: u64) -> int {
    if b >= 0x8000_0000_0000_0000 {
        -((b - 0x8000_0000_0000_0000) as int)
    } else {
        b as int
    }
}

/// Whether the doubles with bits `a` and `b` are equal: neither is a NaN,
/// and they are the same double (`0.0` equals `-0.0`).
pub open spec fn doubles_equal(a: u64, b: u64) -> bool {
    !is_nan_bits(a) && !is_nan_bits(b) && order_key(a) == order_key(b)
}

fn is_nan_exec(b: u64) -> (r: bool)
    ensures
        r == is_nan_bits(b),
{
    (b / 0x10_0000_0000_0000) % 2048 == 2047 && b % 0x10_0000_0000_0000 != 0
}

fn order_key_exec(b: u64) -> (r: i128)
    ensures
        r == order_key(b),
{
    if b >= 0x8000_0000_0000_0000 {
        -((b - 0x8000_0000_0000_0000) as i128)
    } else {
        b as i128
    }
}

impl PartialEq for FloatBits {
    fn eq(&self, other: &Self) -> (r: bool) {
        !is_nan_exec(self.0) && !is_nan_exec(other.0) && order_key_exec(self.0) == order_key_exec(
            other.0,
        )
    }
}

impl PartialEqSpecImpl for FloatBits {
    open spec fn obeys_eq_spec() -> bool {
        true
    }

    open spec fn eq_spec(&self, other: &FloatBits) -> bool {
        doubles_equal(self.0, other.0)
    }
}

impl PartialOrd for FloatBits {
    fn partial_cmp(&self, other: &Self) -> (r: Option<Ordering>) {
        if is_nan_exec(self.0) || is_nan_exec(other.0) {
            None
        } else {
            let a = order_key_exec(self.0);
            let b = order_key_exec(other.0);
            if a < b {
                Some(Ordering::Less)
            } else if a == b {
                Some(Ordering::Equal)
            } else {
                Some(Ordering::Greater)
            }
        }
    }
}

impl PartialOrdSpecImpl for FloatBits {
    open spec fn obeys_partial_cmp_spec() -> bool {
        true
    }

    /// `None` when either double is a NaN, else their order as doubles.
    open spec fn partial_cmp_spec(&self, other: &FloatBits) -> Option<Ordering> {
        if is_nan_bits(self.0) || is_nan_bits(other.0) {
            None
        } else if order_key(self.0) < order_key(other.0) {
            Some(Ordering::Less)
        } else if order_key(self.0) == order_key(other.0) {
            Some(Ordering::Equal)
        } else {
            Some(Ordering::Greater)
        }
    }
}

} // verus!
