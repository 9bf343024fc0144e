use vstd::prelude::*;

use crate::rect2d::Point2;

verus! {

/// Thousandths in one whole: normalized coordinates run from 0 to `RATIO_ONE`.
pub const RATIO_ONE: i64 = 1000;

/// Where `p` falls between `lo` and `hi` on one axis, in thousandths,
/// rounded toward negative infinity.
pub open spec fn ratio(p: int, lo: int, hi: int) -> int {
    ((p - lo) * 1000) / (hi - lo)
}

/// `point` mapped into the box from `min_point` to `max_point`, each axis as
/// a fraction in thousandths (`min_point` gives 0, `max_point` gives 1000).
pub fn normalize_point(point: Point2, max_point: Point2, min_point: Point2) -> (r: Point2)
    requires
        min_point.x < max_point.x,
        min_point.y < max_point.y,
        point.in_range(),
        max_point.in_range(),
        min_point.in_range(),
    ensures
        r.x == ratio(point.x as int, min_point.x as int, max_point.x as int),
        r.y == ratio(point.y as int, min_point.y as int, max_point.y as int),
{
    let x = axis_ratio(point.x, min_point.x, max_point.x);
    let y = axis_ratio(point.y, min_point.y, max_point.y);
    Point2 { x, y }
}

fn axis_ratio(p: i64, lo: i64, hi: i64) -> (r: i64)
    requires
        lo < hi,
        -0x4_0000_0000_0000 <= p <= 0x4_0000_0000_0000,
        -0x4_0000_0000_0000 <= lo <= 0x4_0000_0000_0000,
        -0x4_0000_0000_0000 <= hi <= 0x4_0000_0000_0000,
    ensures
        r == ratio(p as int, lo as int, hi as int),
{
    let num: i128 = (p as i128 - lo as i128) * 1000;
    let den: i128 = hi as i128 - lo as i128;
    let q: i128 = if num >= 0 {
        num / den
    } else {
        let a: i128 = -num - 1;
        -(a / den) - 1
    };
    proof {
        if num < 0 {
            let a: int = -num - 1;
            let d: int = den as int;
            assert((-a - 1) / d == -(a / d) - 1) by (nonlinear_arith)
                requires a >= 0, d > 0;
        }
        assert(-0x10_0000_0000_0000_0000 <= q <= 0x10_0000_0000_0000_0000) by (nonlinear_arith)
            requires
                q == num / den,
                den >= 1,
                -0x8_0000_0000_0000 * 1000 <= num <= 0x8_0000_0000_0000 * 1000;
    }
    q as i64
}

/// `v` clamped to the range of `u16`.
pub open spec fn clamp_u16(v: int) -> int {
    if v < 0 {
        0
    } else if v > u16::MAX {
        u16::MAX as int
    } else {
        v
    }
}

/// The cell of a `width` by `height` screen under a normalized position
/// (thousandths on each axis), rounded down and clamped to the range of `u16`.
pub fn normalized_point_to_tile(point: Point2, width: u16, height: u16) -> (r: (u16, u16))
    requires
        point.in_range(),
    ensures
        r.0 == clamp_u16((point.x * width) / 1000),
        r.1 == clamp_u16((point.y * height) / 1000),
{
    (scale_clamped(point.x, width), scale_clamped(point.y, height))
}

fn scale_clamped(v: i64, n: u16) -> (r: u16)
    requires
        -0x4_0000_0000_0000 <= v <= 0x4_0000_0000_0000,
    ensures
        r == clamp_u16((v * n) / 1000),
{
    assert(-0x4_0000_0000_0000 * 0x1_0000 <= v * n <= 0x4_0000_0000_0000 * 0x1_0000) by (nonlinear_arith)
        requires -0x4_0000_0000_0000 <= v <= 0x4_0000_0000_0000, 0 <= n <= 0xFFFF;
    let prod: i128 = v as i128 * n as i128;
    if prod < 0 {
        proof {
            assert(prod / 1000 < 0) by (nonlinear_arith)
                requires prod < 0;
        }
        return 0;
    }
    let q: i128 = prod / 1000;
    if q > 65535 {
        65535
    } else {
        q as u16
    }
}

} // verus!
