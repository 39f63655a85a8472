//! Randomness for the simulation.
//!
//! One trusted wrapper hands out a number from a half-open range; everything
//! built on top of it — random points in a rectangle, random offsets of a
//! given magnitude — is verified against the bounds the wrapper states.
//! Nothing beyond those bounds is ever assumed of a random value.

use vstd::prelude::*;
use crate::math::{isqrt, sqrt_floor, lemma_sqrt_floor_bounds};

verus! {

/// Relies on rand::random_range over a half-open i64 range: the result lies
/// in [lo, hi); the call panics only when the range is empty, which the
/// precondition rules out.
#[verifier::external_body]
pub(crate) fn random_in_range(lo: i64, hi: i64) -> (r: i64)
    requires
        lo < hi,
    ensures
        lo <= r < hi,
{
    rand::random_range(lo..hi)
}

/// A random offset `(dx, dy)` whose Euclidean length is close to `mag`:
/// `mag^2 - 2*mag <= dx^2 + dy^2 <= mag^2`. The horizontal part is drawn
/// uniformly, the vertical part is the matching floor square root with a
/// random sign.
pub fn random_offset_with_magnitude(mag: i64) -> (r: (i64, i64))
    requires
        1 <= mag <= 1_000_000,
    ensures
        mag * mag - 2 * mag <= r.0 * r.0 + r.1 * r.1 <= mag * mag,
        -mag <= r.0 <= mag,
        -mag <= r.1 <= mag,
{
    let dx: i64 = random_in_range(-mag, mag + 1);
    proof {
        assert(0 <= dx * dx <= mag * mag && 0 <= mag * mag <= 1_000_000_000_000)
            by (nonlinear_arith)
            requires -mag <= dx <= mag, 1 <= mag <= 1_000_000;
    }
    let rest: u64 = (mag * mag - dx * dx) as u64;
    let v: u64 = isqrt(rest);
    proof {
        lemma_sqrt_floor_bounds(rest as nat);
        let vv = sqrt_floor(rest as nat);
        // v * v <= rest, and v <= mag since rest <= mag^2.
        assert(vv <= mag) by (nonlinear_arith)
            requires vv * vv <= mag * mag, 0 <= vv, 0 <= mag;
        // rest < (v+1)^2 = v^2 + 2v + 1, so v^2 >= rest - 2v >= rest - 2*mag.
        assert(vv * vv >= rest - 2 * mag) by (nonlinear_arith)
            requires rest < (vv + 1) * (vv + 1), vv <= mag, 0 <= vv;
    }
    let dy_mag: i64 = v as i64;
    let sign: i64 = random_in_range(0, 2);
    let dy: i64 = if sign == 0 { dy_mag } else { -dy_mag };
    proof {
        assert(dy * dy == dy_mag * dy_mag) by (nonlinear_arith)
            requires dy == dy_mag || dy == -dy_mag;
    }
    (dx, dy)
}

/// A uniformly random point in the axis-aligned rectangle
/// `[min_x, max_x) x [min_y, max_y)`.
pub fn random_point_in_rect(min_x: i64, max_x: i64, min_y: i64, max_y: i64) -> (r: (i64, i64))
    requires
        min_x < max_x,
        min_y < max_y,
    ensures
        min_x <= r.0 < max_x,
        min_y <= r.1 < max_y,
{
    let x: i64 = random_in_range(min_x, max_x);
    let y: i64 = random_in_range(min_y, max_y);
    (x, y)
}

/// A uniformly random index below `n`.
pub fn random_index(n: usize) -> (r: usize)
    requires
        1 <= n <= 0x7fff_ffff,
    ensures
        r < n,
{
    let i: i64 = random_in_range(0, n as i64);
    i as usize
}

} // verus!
