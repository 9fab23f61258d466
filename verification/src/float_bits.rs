//! Measurements that are `f32` values travel through the library as their
//! IEEE 754 bit patterns (`f32::to_bits`). This module orders such patterns
//! the way `f32` comparison orders the values they stand for.

use vstd::prelude::*;

verus! {

/// Bit pattern of `f32::MIN`, the lowest finite value.
pub const F32_MIN_BITS: u32 = 0xff7f_ffff;

/// Whether a pattern stands for NaN: all exponent bits set and a mantissa
/// other than zero.
pub open spec fn is_nan_bits(b: u32) -> bool {
    (b / 0x80_0000) % 0x100 == 0xff && b % 0x80_0000 != 0
}

/// A number that orders non-NaN patterns as `f32` orders their values: the
/// magnitude bits, negated for negative values (so that -0 and +0 are equal).
pub open spec fn order_key(b: u32) -> int {
    if b >= 0x8000_0000 {
        -(b - 0x8000_0000)
    } else {
        b as int
    }
}

/// `f32` greater-than on bit patterns: false whenever a NaN is involved.
pub open spec fn f32_gt_spec(a: u32, b: u32) -> bool {
    !is_nan_bits(a) && !is_nan_bits(b) && order_key(a) > order_key(b)
}

/// The pattern of the negated value: the sign bit flipped.
pub open spec fn f32_neg_spec(b: u32) -> u32 {
    if b >= 0x8000_0000 {
        (b - 0x8000_0000) as u32
    } else {
        (b + 0x8000_0000) as u32
    }
}

pub fn is_nan(b: u32) -> (r: bool)
    ensures
        r == is_nan_bits(b),
{
    (b / 0x80_0000) % 0x100 == 0xff && b % 0x80_0000 != 0
}

/// `a > b` for the `f32` values that the patterns stand for.
pub fn f32_gt(a: u32, b: u32) -> (r: bool)
    ensures
        r == f32_gt_spec(a, b),
{
    if is_nan(a) || is_nan(b) {
        return false;
    }
    let a_neg = a >= 0x8000_0000;
    let b_neg = b >= 0x8000_0000;
    let a_mag = if a_neg { a - 0x8000_0000 } else { a };
    let b_mag = if b_neg { b - 0x8000_0000 } else { b };
    if !a_neg && !b_neg {
        a_mag > b_mag
    } else if a_neg && b_neg {
        a_mag < b_mag
    } else if !a_neg {
        a_mag > 0 || b_mag > 0
    } else {
        false
    }
}

/// The pattern of `-x` for the value `x` that `b` stands for.
pub fn f32_neg(b: u32) -> (r: u32)
    ensures
        r == f32_neg_spec(b),
{
    if b >= 0x8000_0000 {
        b - 0x8000_0000
    } else {
        b + 0x8000_0000
    }
}

/// Nothing is greater than itself, and `>` is transitive and asymmetric.
pub proof fn lemma_f32_gt_strict_order(a: u32, b: u32, c: u32)
    ensures
        !f32_gt_spec(a, a),
        f32_gt_spec(a, b) ==> !f32_gt_spec(b, a),
        f32_gt_spec(a, b) && f32_gt_spec(b, c) ==> f32_gt_spec(a, c),
{
}

/// Negation reverses the order.
pub proof fn lemma_f32_neg_reverses(a: u32, b: u32)
    ensures
        f32_gt_spec(a, b) == f32_gt_spec(f32_neg_spec(b), f32_neg_spec(a)),
{
    assert(is_nan_bits(f32_neg_spec(a)) == is_nan_bits(a)) by {
        if a >= 0x8000_0000 {
            assert((a / 0x80_0000) == (f32_neg_spec(a) / 0x80_0000) + 0x100);
        } else {
            assert((f32_neg_spec(a) / 0x80_0000) == (a / 0x80_0000) + 0x100);
        }
    }
    assert(is_nan_bits(f32_neg_spec(b)) == is_nan_bits(b)) by {
        if b >= 0x8000_0000 {
            assert((b / 0x80_0000) == (f32_neg_spec(b) / 0x80_0000) + 0x100);
        } else {
            assert((f32_neg_spec(b) / 0x80_0000) == (b / 0x80_0000) + 0x100);
        }
    }
}

} // verus!
