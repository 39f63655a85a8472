//! Exact integer geometry on world positions.
//!
//! Positions are whole world units; radii come in tenths of a unit. A
//! distance test `dist <= r/10` is decided exactly as
//! `100 * dist_sq <= r * r`, so no square root or floating point is ever
//! needed. Coordinates are kept within `POS_LIMIT` so every comparison fits
//! comfortably in 128-bit intermediates.

use vstd::prelude::*;

verus! {

/// Largest coordinate magnitude the simulation admits.
pub const POS_LIMIT: i32 = 1_000_000;

/// Largest radius (in tenths of a unit) the simulation admits.
pub const RADIUS_LIMIT: u32 = 1_000_000;

/// Whether a coordinate pair lies inside the admissible world square.
pub open spec fn in_world(x: int, y: int) -> bool {
    -(POS_LIMIT as int) <= x <= POS_LIMIT as int && -(POS_LIMIT as int) <= y <= POS_LIMIT as int
}

/// Squared Euclidean distance between two points, in square units.
pub open spec fn dist_sq(x1: int, y1: int, x2: int, y2: int) -> int {
    (x1 - x2) * (x1 - x2) + (y1 - y2) * (y1 - y2)
}

/// Whether the distance between the two points is at most `r_tenths / 10`
/// units.
pub open spec fn within_dist(x1: int, y1: int, x2: int, y2: int, r_tenths: int) -> bool {
    100 * dist_sq(x1, y1, x2, y2) <= r_tenths * r_tenths
}

/// Squares of in-world differences stay below 4e12.
pub proof fn lemma_diff_sq_bound(a: int, b: int)
    requires
        -(POS_LIMIT as int) <= a <= POS_LIMIT as int,
        -(POS_LIMIT as int) <= b <= POS_LIMIT as int,
    ensures
        0 <= (a - b) * (a - b) <= 4_000_000_000_000,
{
    let d = a - b;
    assert(0 <= d * d <= 4_000_000_000_000) by (nonlinear_arith)
        requires -2_000_000 <= d <= 2_000_000;
}

/// Squared distance of two in-world points, exactly.
pub fn dist_sq_exec(x1: i32, y1: i32, x2: i32, y2: i32) -> (r: i64)
    requires
        in_world(x1 as int, y1 as int),
        in_world(x2 as int, y2 as int),
    ensures
        r == dist_sq(x1 as int, y1 as int, x2 as int, y2 as int),
        0 <= r <= 8_000_000_000_000,
{
    proof {
        lemma_diff_sq_bound(x1 as int, x2 as int);
        lemma_diff_sq_bound(y1 as int, y2 as int);
    }
    let dx: i64 = x1 as i64 - x2 as i64;
    let dy: i64 = y1 as i64 - y2 as i64;
    dx * dx + dy * dy
}

/// Decide `dist((x1,y1),(x2,y2)) <= r_tenths/10` exactly.
pub fn within_dist_exec(x1: i32, y1: i32, x2: i32, y2: i32, r_tenths: u32) -> (b: bool)
    requires
        in_world(x1 as int, y1 as int),
        in_world(x2 as int, y2 as int),
        r_tenths <= RADIUS_LIMIT,
    ensures
        b == within_dist(x1 as int, y1 as int, x2 as int, y2 as int, r_tenths as int),
{
    let d2: i64 = dist_sq_exec(x1, y1, x2, y2);
    proof {
        assert((r_tenths as int) * (r_tenths as int) <= 1_000_000_000_000) by (nonlinear_arith)
            requires 0 <= r_tenths as int <= 1_000_000;
    }
    let r: i64 = r_tenths as i64;
    100 * d2 <= r * r
}

/// Whether the point `(px,py)` lies within `r_tenths/10` units of the
/// segment from `(ax,ay)` to `(bx,by)`: the minimum over the segment of the
/// distance to the point, compared exactly by clearing the rational
/// projection parameter.
pub open spec fn segment_within_dist(
    px: int, py: int,
    ax: int, ay: int,
    bx: int, by: int,
    r_tenths: int,
) -> bool {
    let dx = bx - ax;
    let dy = by - ay;
    let wx = px - ax;
    let wy = py - ay;
    let s = wx * dx + wy * dy;
    let l2 = dx * dx + dy * dy;
    if l2 == 0 || s <= 0 {
        within_dist(px, py, ax, ay, r_tenths)
    } else if s >= l2 {
        within_dist(px, py, bx, by, r_tenths)
    } else {
        100 * (dist_sq(px, py, ax, ay) * l2 - s * s) <= r_tenths * r_tenths * l2
    }
}

/// Decide `segment_within_dist` exactly with 128-bit intermediates.
pub fn segment_within_dist_exec(
    px: i32, py: i32,
    ax: i32, ay: i32,
    bx: i32, by: i32,
    r_tenths: u32,
) -> (b: bool)
    requires
        in_world(px as int, py as int),
        in_world(ax as int, ay as int),
        in_world(bx as int, by as int),
        r_tenths <= RADIUS_LIMIT,
    ensures
        b == segment_within_dist(
            px as int, py as int,
            ax as int, ay as int,
            bx as int, by as int,
            r_tenths as int,
        ),
{
    proof {
        lemma_diff_sq_bound(bx as int, ax as int);
        lemma_diff_sq_bound(by as int, ay as int);
        lemma_diff_sq_bound(px as int, ax as int);
        lemma_diff_sq_bound(py as int, ay as int);
    }
    let dx: i128 = bx as i128 - ax as i128;
    let dy: i128 = by as i128 - ay as i128;
    let wx: i128 = px as i128 - ax as i128;
    let wy: i128 = py as i128 - ay as i128;
    proof {
        assert(-4_000_000_000_000 <= wx * dx <= 4_000_000_000_000
            && -4_000_000_000_000 <= wy * dy <= 4_000_000_000_000) by (nonlinear_arith)
            requires
                -2_000_000 <= wx <= 2_000_000,
                -2_000_000 <= dx <= 2_000_000,
                -2_000_000 <= wy <= 2_000_000,
                -2_000_000 <= dy <= 2_000_000;
    }
    let s: i128 = wx * dx + wy * dy;
    let l2: i128 = dx * dx + dy * dy;
    if l2 == 0 || s <= 0 {
        within_dist_exec(px, py, ax, ay, r_tenths)
    } else if s >= l2 {
        within_dist_exec(px, py, bx, by, r_tenths)
    } else {
        let w2: i128 = wx * wx + wy * wy;
        let r: i128 = r_tenths as i128;
        proof {
            assert(0 <= w2 * l2 <= 64_000_000_000_000_000_000_000_000
                && 0 <= s * s <= 64_000_000_000_000_000_000_000_000) by (nonlinear_arith)
                requires
                    0 <= w2 <= 8_000_000_000_000,
                    0 <= l2 <= 8_000_000_000_000,
                    -8_000_000_000_000 <= s <= 8_000_000_000_000;
            assert(0 <= r * r <= 1_000_000_000_000
                && 0 <= r * r * l2 <= 8_000_000_000_000_000_000_000_000)
                by (nonlinear_arith)
                requires
                    0 <= r <= 1_000_000,
                    0 <= l2 <= 8_000_000_000_000;
        }
        100 * (w2 * l2 - s * s) <= r * r * l2
    }
}

/// Integer half rounded toward zero, mirroring hardware signed division.
pub open spec fn half_toward_zero(a: int) -> int {
    if a >= 0 {
        a / 2
    } else {
        -((-a) / 2)
    }
}

/// Midpoint coordinate of two in-world coordinates, rounded toward zero.
pub fn midpoint_coord(a: i32, b: i32) -> (r: i32)
    requires
        -(POS_LIMIT as int) <= a as int <= POS_LIMIT as int,
        -(POS_LIMIT as int) <= b as int <= POS_LIMIT as int,
    ensures
        r == half_toward_zero(a as int + b as int),
        -(POS_LIMIT as int) <= r as int <= POS_LIMIT as int,
{
    let s: i64 = a as i64 + b as i64;
    if s >= 0 {
        ((s as u64 / 2) as i64) as i32
    } else {
        (-(((-s) as u64 / 2) as i64)) as i32
    }
}

/// Integer division rounded toward zero, mirroring hardware signed
/// division.
pub open spec fn trunc_div(a: int, b: int) -> int
    recommends
        b >= 1,
{
    if a >= 0 {
        a / b
    } else {
        -((-a) / b)
    }
}

/// Truncating division of a 64-bit value by a positive divisor.
pub fn trunc_div_i64(a: i64, b: i64) -> (r: i64)
    requires
        1 <= b,
        -0x2000_0000_0000_0000 <= a <= 0x2000_0000_0000_0000,
    ensures
        r == trunc_div(a as int, b as int),
        a >= 0 ==> 0 <= r <= a,
        a < 0 ==> a <= r <= 0,
{
    proof {
        if a >= 0 {
            vstd::arithmetic::div_mod::lemma_div_nonincreasing(a as int, b as int);
            vstd::arithmetic::div_mod::lemma_div_pos_is_pos(a as int, b as int);
        } else {
            vstd::arithmetic::div_mod::lemma_div_nonincreasing(-(a as int), b as int);
            vstd::arithmetic::div_mod::lemma_div_pos_is_pos(-(a as int), b as int);
        }
    }
    if a >= 0 {
        ((a as u64) / (b as u64)) as i64
    } else {
        -((((-a) as u64) / (b as u64)) as i64)
    }
}

/// Clamping at the specification level.
pub open spec fn clamp_int(v: int, lo: int, hi: int) -> int {
    if v < lo {
        lo
    } else if v > hi {
        hi
    } else {
        v
    }
}

/// Clamp a coordinate into `[lo, hi]`.
pub fn clamp_coord(v: i32, lo: i32, hi: i32) -> (r: i32)
    requires
        lo <= hi,
    ensures
        r == if v < lo { lo } else if v > hi { hi } else { v },
        lo <= r <= hi,
{
    if v < lo {
        lo
    } else if v > hi {
        hi
    } else {
        v
    }
}

} // verus!
