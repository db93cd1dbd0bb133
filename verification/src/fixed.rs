//! 16.16 fixed-point arithmetic for world coordinates, distances and angles.
//!
//! A fixed-point value `v` stands for the real number `v / FP_ONE`. All the
//! geometry of the engine (positions, ray distances, sprite sizes) is carried
//! in this representation, which keeps the core free of floating point; the
//! host converts to and from `f32` at the boundary.

use vstd::prelude::*;

verus! {

/// Scale of the fixed-point representation: one world unit.
pub const FP_ONE: i64 = 65536;

/// The real product of two fixed-point values, truncated toward zero
/// (both operands non-negative).
pub open spec fn spec_fp_mul(a: int, b: int) -> int {
    a * b / 65536
}

/// Fixed-point multiplication of non-negative values.
pub fn fp_mul(a: i64, b: i64) -> (r: i64)
    requires
        0 <= a,
        0 <= b,
        a * b <= u64::MAX,
        a * b / 65536 <= i64::MAX,
    ensures
        r == spec_fp_mul(a as int, b as int),
        0 <= r,
{
    let p: u64 = (a as u64) * (b as u64);
    (p / 65536) as i64
}

/// Correcting a ray distance by the cosine of its offset from the view
/// heading is the fisheye correction; at the center column the cosine is 1
/// (`FP_ONE`) and the corrected distance equals the raw distance.
pub proof fn lemma_fisheye_center_identity(d: int)
    ensures
        spec_fp_mul(d, FP_ONE as int) == d,
{
    assert(d * 65536 / 65536 == d) by (nonlinear_arith);
}

} // verus!
