//! Integer helpers shared by the geometry and scoring code: a floor square
//! root and a floor base-two logarithm, each with an exact specification.

use vstd::prelude::*;

verus! {

/// Floor of the square root of `n`, as a recursive mathematical definition.
pub open spec fn sqrt_floor(n: nat) -> nat
    decreases n,
{
    if n == 0 {
        0
    } else {
        let r = sqrt_floor((n - 1) as nat);
        if (r + 1) * (r + 1) <= n {
            r + 1
        } else {
            r
        }
    }
}

/// `sqrt_floor(n)` is the unique `r` with `r * r <= n < (r + 1) * (r + 1)`.
pub proof fn lemma_sqrt_floor_bounds(n: nat)
    ensures
        sqrt_floor(n) * sqrt_floor(n) <= n,
        n < (sqrt_floor(n) + 1) * (sqrt_floor(n) + 1),
    decreases n,
{
    if n == 0 {
        assert(n < (sqrt_floor(n) + 1) * (sqrt_floor(n) + 1)) by (nonlinear_arith)
            requires n == 0 && sqrt_floor(n) == 0;
    } else {
        lemma_sqrt_floor_bounds((n - 1) as nat);
        let r = sqrt_floor((n - 1) as nat);
        assert(r * r <= n - 1 < (r + 1) * (r + 1));
        if (r + 1) * (r + 1) <= n {
            assert(sqrt_floor(n) == r + 1);
            assert((r + 1) * (r + 1) < (r + 2) * (r + 2)) by (nonlinear_arith);
            assert(n < (sqrt_floor(n) + 1) * (sqrt_floor(n) + 1));
        } else {
            assert(sqrt_floor(n) == r);
            assert(n < (sqrt_floor(n) + 1) * (sqrt_floor(n) + 1));
        }
    }
}

/// Any `r` that brackets `n` between consecutive squares is `sqrt_floor(n)`.
pub proof fn lemma_sqrt_floor_unique(n: nat, r: nat)
    requires
        r * r <= n,
        n < (r + 1) * (r + 1),
    ensures
        r == sqrt_floor(n),
{
    lemma_sqrt_floor_bounds(n);
    let s = sqrt_floor(n);
    if r < s {
        assert((r + 1) * (r + 1) <= s * s) by (nonlinear_arith)
            requires r + 1 <= s;
    }
    if s < r {
        assert((s + 1) * (s + 1) <= r * r) by (nonlinear_arith)
            requires s + 1 <= r;
    }
}

/// Floor integer square root, by binary search.
pub fn isqrt(n: u64) -> (r: u64)
    ensures
        r == sqrt_floor(n as nat),
{
    let mut lo: u64 = 0;
    let mut hi: u64 = if n < 0xFFFF_FFFF { n + 1 } else { 0x1_0000_0000 };
    // Invariant: lo * lo <= n < hi * hi, answer in [lo, hi).
    proof {
        if n >= 0xFFFF_FFFF {
            assert((0x1_0000_0000u64 as nat) * (0x1_0000_0000u64 as nat) > n as nat);
        } else {
            assert((n as nat + 1) * (n as nat + 1) > n as nat) by (nonlinear_arith);
        }
    }
    while lo + 1 < hi
        invariant
            lo < hi,
            hi <= 0x1_0000_0000,
            (lo as nat) * (lo as nat) <= n as nat,
            (n as nat) < (hi as nat) * (hi as nat),
        decreases hi - lo,
    {
        let mid: u64 = lo + (hi - lo) / 2;
        proof {
            assert(mid < 0x1_0000_0000);
            assert((mid as nat) * (mid as nat) < 0x1_0000_0000 * 0x1_0000_0000) by (nonlinear_arith)
                requires mid < 0x1_0000_0000;
        }
        if mid * mid <= n {
            lo = mid;
        } else {
            hi = mid;
        }
    }
    proof {
        lemma_sqrt_floor_unique(n as nat, lo as nat);
    }
    lo
}

/// `sqrt_floor` is monotone.
pub proof fn lemma_sqrt_floor_monotone(a: nat, b: nat)
    requires
        a <= b,
    ensures
        sqrt_floor(a) <= sqrt_floor(b),
{
    lemma_sqrt_floor_bounds(a);
    lemma_sqrt_floor_bounds(b);
    let ra = sqrt_floor(a);
    let rb = sqrt_floor(b);
    if rb < ra {
        assert((rb + 1) * (rb + 1) <= ra * ra) by (nonlinear_arith)
            requires rb + 1 <= ra;
    }
}

/// Floor of the base-two logarithm, as a recursive mathematical definition;
/// `log2_floor(0)` is defined as 0.
pub open spec fn log2_floor(n: nat) -> nat
    decreases n,
{
    if n < 2 {
        0
    } else {
        log2_floor(n / 2) + 1
    }
}

/// `log2_floor` is monotone.
pub proof fn lemma_log2_floor_monotone(a: nat, b: nat)
    requires
        a <= b,
    ensures
        log2_floor(a) <= log2_floor(b),
    decreases b,
{
    if a >= 2 && b >= 2 {
        lemma_log2_floor_monotone(a / 2, b / 2);
    }
}

/// `log2_floor(n)` never exceeds `n` itself.
pub proof fn lemma_log2_floor_le(n: nat)
    ensures
        log2_floor(n) <= n,
    decreases n,
{
    if n >= 2 {
        lemma_log2_floor_le(n / 2);
    }
}

/// Powers of two.
pub open spec fn pow2(k: nat) -> nat
    decreases k,
{
    if k == 0 {
        1
    } else {
        2 * pow2((k - 1) as nat)
    }
}

/// Powers of two are positive.
pub proof fn lemma_pow2_pos(k: nat)
    ensures
        pow2(k) >= 1,
    decreases k,
{
    if k > 0 {
        lemma_pow2_pos((k - 1) as nat);
    }
}

/// `pow2` is monotone.
pub proof fn lemma_pow2_monotone(a: nat, b: nat)
    requires
        a <= b,
    ensures
        pow2(a) <= pow2(b),
    decreases b,
{
    lemma_pow2_pos(a);
    if a < b {
        lemma_pow2_monotone(a, (b - 1) as nat);
    }
}

/// For positive `n`, `log2_floor(n)` brackets `n` between consecutive
/// powers of two.
pub proof fn lemma_log2_floor_bracket(n: nat)
    requires
        n >= 1,
    ensures
        pow2(log2_floor(n)) <= n,
        n < pow2(log2_floor(n) + 1),
    decreases n,
{
    if n < 2 {
        assert(pow2(0) == 1);
        assert(pow2(1) == 2);
    } else {
        lemma_log2_floor_bracket(n / 2);
        let k = log2_floor(n / 2);
        assert(log2_floor(n) == k + 1);
        assert(pow2(k + 1) == 2 * pow2(k));
        assert(pow2(k + 2) == 2 * pow2(k + 1));
        assert(2 * (n / 2) <= n < 2 * (n / 2) + 2);
    }
}

/// Fixed-point natural logarithm in milli-nats, piecewise linear between
/// powers of two: at `n == 2^k` the value is `693 * k` (693 being a
/// thousandth of a thousand times ln 2), and between powers the value is
/// interpolated linearly. Monotone in `n`.
pub open spec fn ln_milli(n: nat) -> nat
    recommends
        n >= 1,
{
    let k = log2_floor(n);
    693 * k + (n - pow2(k)) as nat * 693 / pow2(k)
}

/// Between consecutive powers of two the interpolated fraction stays below
/// one whole step.
proof fn lemma_ln_milli_frac_bound(n: nat)
    requires
        n >= 1,
    ensures
        (n - pow2(log2_floor(n))) as nat * 693 / pow2(log2_floor(n)) <= 692,
{
    let k = log2_floor(n);
    let p = pow2(k);
    lemma_log2_floor_bracket(n);
    lemma_pow2_pos(k);
    assert(pow2(k + 1) == 2 * p);
    let num = (n - p) as nat * 693;
    assert(num <= 693 * p - 1) by (nonlinear_arith)
        requires
            num == (n - p) as nat * 693,
            n - p <= p - 1,
            0 <= n - p,
            p >= 1;
    assert((p * 692 + (p - 1)) == 693 * p - 1) by (nonlinear_arith);
    vstd::arithmetic::div_mod::lemma_div_multiples_vanish_fancy(692, (p - 1) as int, p as int);
    assert((p * 692 + (p - 1)) / (p as int) == 692);
    vstd::arithmetic::div_mod::lemma_div_is_ordered(num as int, 693 * p - 1, p as int);
}

/// `ln_milli` is monotone.
pub proof fn lemma_ln_milli_monotone(a: nat, b: nat)
    requires
        1 <= a <= b,
    ensures
        ln_milli(a) <= ln_milli(b),
{
    let ka = log2_floor(a);
    let kb = log2_floor(b);
    lemma_log2_floor_monotone(a, b);
    lemma_log2_floor_bracket(a);
    lemma_log2_floor_bracket(b);
    lemma_pow2_pos(ka);
    lemma_pow2_pos(kb);
    if ka == kb {
        let p = pow2(ka);
        assert((a - p) as nat * 693 <= (b - p) as nat * 693) by (nonlinear_arith)
            requires 0 <= a - p <= b - p;
        vstd::arithmetic::div_mod::lemma_div_is_ordered(
            ((a - p) as nat * 693) as int,
            ((b - p) as nat * 693) as int,
            p as int,
        );
    } else {
        lemma_ln_milli_frac_bound(a);
        assert(ka + 1 <= kb);
        assert(693 * ka + 693 <= 693 * kb) by (nonlinear_arith)
            requires ka + 1 <= kb;
        vstd::arithmetic::div_mod::lemma_div_pos_is_pos(
            ((b - pow2(kb)) as nat * 693) as int,
            pow2(kb) as int,
        );
    }
}

/// Floor base-two logarithm of a positive number.
pub fn log2_floor_exec(n: u32) -> (r: u32)
    requires
        n >= 1,
    ensures
        r == log2_floor(n as nat),
{
    proof {
        lemma_log2_floor_le(n as nat);
    }
    let mut v: u32 = n;
    let mut r: u32 = 0;
    while v >= 2
        invariant
            v >= 1,
            log2_floor(n as nat) == log2_floor(v as nat) + r,
            log2_floor(n as nat) <= n,
        decreases v,
    {
        proof {
            lemma_log2_floor_le(v as nat / 2);
        }
        v = v / 2;
        r = r + 1;
    }
    r
}

/// Fixed-point natural logarithm of a positive number, in milli-nats.
pub fn ln_milli_exec(n: u32) -> (r: u64)
    requires
        n >= 1,
    ensures
        r == ln_milli(n as nat),
        r <= 693 * (n as nat) + 692,
{
    proof {
        lemma_log2_floor_bracket(n as nat);
        lemma_log2_floor_le(n as nat);
        lemma_ln_milli_frac_bound(n as nat);
        assert(693 * log2_floor(n as nat) <= 693 * (n as nat)) by (nonlinear_arith)
            requires log2_floor(n as nat) <= n as nat;
    }
    let k: u32 = log2_floor_exec(n);
    let mut p: u64 = 1;
    let mut i: u32 = 0;
    while i < k
        invariant
            i <= k,
            p == pow2(i as nat),
            k == log2_floor(n as nat),
            pow2(k as nat) <= n as nat,
        decreases k - i,
    {
        proof {
            lemma_pow2_monotone((i + 1) as nat, k as nat);
            assert(pow2((i + 1) as nat) == 2 * pow2(i as nat));
        }
        p = p * 2;
        i = i + 1;
    }
    let frac: u64 = ((n as u64 - p) * 693) / p;
    693 * (k as u64) + frac
}

} // verus!
