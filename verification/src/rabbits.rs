//! Rabbit agent subsystem: seek-and-consume agents with exclusive target
//! claims, reproduction after two meals, and lifetime expiry.
//!
//! Claims live in a registry keyed by dandelion id. The registry is a map:
//! at any instant at most one rabbit holds a claim on a given dandelion.
//! Each tick sweeps stale claims (whose dandelion has died) before any
//! target is re-selected.

use vstd::prelude::*;
use crate::field::{
    Field, Dandelion, contains_id, index_of_id, ids_distinct, spec_after_one_kill,
    kills_applied, lemma_kills_applied_fields, lemma_contains_after_remove,
    lemma_contains_remove_rev, lemma_not_contains_after_remove, lemma_lookup_after_remove,
};
use crate::geom::{in_world, within_dist, within_dist_exec, dist_sq, dist_sq_exec, trunc_div,
    trunc_div_i64, POS_LIMIT};
use crate::math::{isqrt, sqrt_floor, lemma_sqrt_floor_bounds};
use crate::rng::random_index;
use crate::score::GameData;
use crate::tiers::DandelionSize;
use crate::timer::Countdown;

verus! {

/// How long a rabbit lives, in milliseconds.
pub const RABBIT_LIFETIME_MS: u32 = 3000;

/// Rabbit travel speed, in units per second.
pub const RABBIT_SPEED: u32 = 120;

/// Within this many tenths of a unit a rabbit eats its target.
pub const RABBIT_EAT_DISTANCE_TENTHS: u32 = 250;

/// Fallback targeting radius in tenths of a unit (200 units).
pub const FALLBACK_RADIUS_TENTHS: u32 = 2000;

/// How many dandelions a rabbit eats before it reproduces.
pub const RABBIT_MEALS_TO_REPRODUCE: u32 = 2;

/// Whether the rabbit stands within eating distance of the live dandelion
/// with id `t` (distances taken at the positions recorded in `ds`).
pub open spec fn target_in_reach(r: Rabbit, ds: Seq<Dandelion>, t: u64) -> bool
    recommends
        contains_id(ds, t),
{
    within_dist(r.x as int, r.y as int,
        ds[index_of_id(ds, t)].x as int, ds[index_of_id(ds, t)].y as int,
        RABBIT_EAT_DISTANCE_TENTHS as int)
}

/// How far a rabbit can travel in one tick, in whole units.
pub open spec fn spec_rabbit_step(speed: u32, dt_ms: u32) -> int {
    speed * dt_ms / 1000
}

/// Rabbit `q` holds the live dandelion `t` within eating reach, and no
/// other rabbit stands within eating reach of it.
pub open spec fn sole_feeder(rs: Seq<Rabbit>, ds: Seq<Dandelion>, q: int, t: u64) -> bool {
    &&& 0 <= q < rs.len()
    &&& rs[q].target == Some(t)
    &&& contains_id(ds, t)
    &&& target_in_reach(rs[q], ds, t)
    &&& forall|j: int|
        0 <= j < rs.len() && j != q
            ==> !target_in_reach(#[trigger] rs[j], ds, t)
}

/// Each coordinate difference is bounded by the floored Euclidean
/// distance.
proof fn lemma_component_le_dist(dx: int, dy: int, dist: int)
    requires
        0 <= dist,
        dist == sqrt_floor((dx * dx + dy * dy) as nat),
    ensures
        -dist <= dx <= dist,
        -dist <= dy <= dist,
{
    let d2 = dx * dx + dy * dy;
    assert(0 <= dx * dx && 0 <= dy * dy) by (nonlinear_arith);
    let ax = if dx >= 0 { dx } else { -dx };
    let ay = if dy >= 0 { dy } else { -dy };
    assert(ax * ax == dx * dx && ay * ay == dy * dy) by (nonlinear_arith)
        requires (ax == dx || ax == -dx) && (ay == dy || ay == -dy);
    assert(ax * ax < (ax + 1) * (ax + 1) && ay * ay < (ay + 1) * (ay + 1))
        by (nonlinear_arith)
        requires 0 <= ax, 0 <= ay;
    crate::math::lemma_sqrt_floor_unique((dx * dx) as nat, ax as nat);
    crate::math::lemma_sqrt_floor_unique((dy * dy) as nat, ay as nat);
    crate::math::lemma_sqrt_floor_monotone((dx * dx) as nat, d2 as nat);
    crate::math::lemma_sqrt_floor_monotone((dy * dy) as nat, d2 as nat);
}

/// Stepping `v * step / dist` toward a target never exceeds `step` when
/// `|v| <= dist`.
proof fn lemma_trunc_div_step_bound(v: int, step: int, dist: int)
    requires
        1 <= dist,
        0 <= step,
        -dist <= v <= dist,
    ensures
        -step <= trunc_div(v * step, dist) <= step,
{
    if v >= 0 {
        assert(0 <= v * step <= dist * step) by (nonlinear_arith)
            requires 0 <= v <= dist, 0 <= step;
        vstd::arithmetic::div_mod::lemma_div_is_ordered(v * step, dist * step, dist);
        assert(dist * step == step * dist) by (nonlinear_arith);
        vstd::arithmetic::div_mod::lemma_div_by_multiple(step, dist);
        vstd::arithmetic::div_mod::lemma_div_pos_is_pos(v * step, dist);
    } else {
        assert(0 <= (-v) * step <= dist * step) by (nonlinear_arith)
            requires 0 < -v <= dist, 0 <= step;
        vstd::arithmetic::div_mod::lemma_div_is_ordered((-v) * step, dist * step, dist);
        assert(dist * step == step * dist) by (nonlinear_arith);
        vstd::arithmetic::div_mod::lemma_div_by_multiple(step, dist);
        vstd::arithmetic::div_mod::lemma_div_pos_is_pos((-v) * step, dist);
        assert(-(v * step) == (-v) * step) by (nonlinear_arith);
    }
}

/// The first claim recorded for a dandelion id, if any.
pub open spec fn claim_of(s: Seq<(u64, u64)>, dandelion: u64) -> Option<u64>
    decreases s.len(),
{
    if s.len() == 0 {
        None
    } else if s[0].0 == dandelion {
        Some(s[0].1)
    } else {
        claim_of(s.drop_first(), dandelion)
    }
}

/// Target arbitration registry: maps a dandelion id to the single rabbit
/// id that holds a claim on it.
pub struct RabbitTargeting {
    pub targets: Vec<(u64, u64)>,
}

impl RabbitTargeting {
    /// The registry is a map: dandelion keys are pairwise distinct.
    pub open spec fn wf(self) -> bool {
        forall|i: int, j: int|
            0 <= i < j < self.targets@.len() ==> self.targets@[i].0 != self.targets@[j].0
    }

    /// An empty registry.
    pub fn new() -> (r: RabbitTargeting)
        ensures
            r.wf(),
            r.targets@.len() == 0,
    {
        RabbitTargeting { targets: Vec::new() }
    }

    /// Reserve a dandelion for a specific rabbit, replacing any existing
    /// claim on it.
    pub fn claim_target(&mut self, rabbit: u64, dandelion: u64)
        requires
            old(self).wf(),
        ensures
            final(self).wf(),
            claim_of(final(self).targets@, dandelion) == Some(rabbit),
            forall|d: u64|
                d != dandelion ==> #[trigger] claim_of(final(self).targets@, d)
                    == claim_of(old(self).targets@, d),
            forall|i: int|
                0 <= i < final(self).targets@.len()
                    ==> contains_pair(old(self).targets@, #[trigger] final(self).targets@[i])
                        || final(self).targets@[i] == (dandelion, rabbit),
    {
        self.release_target(dandelion);
        let ghost mid = self.targets@;
        self.targets.push((dandelion, rabbit));
        proof {
            let t = self.targets@;
            assert(t.drop_last() =~= mid);
            lemma_claim_of_push(mid, dandelion, rabbit, dandelion);
            assert forall|d: u64| d != dandelion
                implies #[trigger] claim_of(t, d) == claim_of(old(self).targets@, d) by {
                lemma_claim_of_push(mid, dandelion, rabbit, d);
            }
            assert forall|i: int, j: int| 0 <= i < j < t.len()
                implies t[i].0 != t[j].0 by {
                if j == t.len() - 1 {
                    lemma_claim_of_absent(mid, dandelion, i);
                }
            }
        }
    }

    /// Whether a dandelion is already claimed.
    pub fn is_targeted(&self, dandelion: u64) -> (r: bool)
        ensures
            r == (claim_of(self.targets@, dandelion) is Some),
    {
        let n = self.targets.len();
        let mut k: usize = 0;
        proof {
            assert(self.targets@.skip(0) =~= self.targets@);
        }
        while k < n
            invariant
                n == self.targets@.len(),
                k <= n,
                claim_of(self.targets@, dandelion)
                    == claim_of(self.targets@.skip(k as int), dandelion),
            decreases n - k,
        {
            proof {
                lemma_claim_of_skip_step(self.targets@, k as int, dandelion);
            }
            if self.targets[k].0 == dandelion {
                return true;
            }
            k = k + 1;
        }
        proof {
            assert(self.targets@.skip(n as int) =~= Seq::<(u64, u64)>::empty());
        }
        false
    }

    /// The rabbit holding a claim on a dandelion, if any.
    pub fn get_targeting_rabbit(&self, dandelion: u64) -> (r: Option<u64>)
        ensures
            r == claim_of(self.targets@, dandelion),
    {
        let n = self.targets.len();
        let mut k: usize = 0;
        proof {
            assert(self.targets@.skip(0) =~= self.targets@);
        }
        while k < n
            invariant
                n == self.targets@.len(),
                k <= n,
                claim_of(self.targets@, dandelion)
                    == claim_of(self.targets@.skip(k as int), dandelion),
            decreases n - k,
        {
            proof {
                lemma_claim_of_skip_step(self.targets@, k as int, dandelion);
            }
            let e = self.targets[k];
            if e.0 == dandelion {
                return Some(e.1);
            }
            k = k + 1;
        }
        proof {
            assert(self.targets@.skip(n as int) =~= Seq::<(u64, u64)>::empty());
        }
        None
    }

    /// Drop the claim on a dandelion, if any.
    pub fn release_target(&mut self, dandelion: u64)
        requires
            old(self).wf(),
        ensures
            final(self).wf(),
            claim_of(final(self).targets@, dandelion) is None,
            forall|d: u64|
                d != dandelion ==> #[trigger] claim_of(final(self).targets@, d)
                    == claim_of(old(self).targets@, d),
            forall|i: int|
                0 <= i < final(self).targets@.len()
                    ==> contains_pair(old(self).targets@, #[trigger] final(self).targets@[i])
                        && final(self).targets@[i].0 != dandelion,
    {
        let ghost s = old(self).targets@;
        let n = self.targets.len();
        let mut kept: Vec<(u64, u64)> = Vec::new();
        let mut k: usize = 0;
        proof {
            assert(s.skip(0) =~= s);
            lemma_claim_of_filter_base(dandelion);
        }
        while k < n
            invariant
                old(self).wf(),
                s == old(self).targets@,
                self.targets@ == s,
                n == s.len(),
                k <= n,
                forall|a: int, b: int|
                    0 <= a < b < kept@.len() ==> kept@[a].0 != kept@[b].0,
                forall|a: int|
                    0 <= a < kept@.len() ==> (#[trigger] kept@[a]).0 != dandelion,
                forall|a: int| 0 <= a < kept@.len() ==> contains_pair(s, #[trigger] kept@[a]),
                forall|a: int, j: int|
                    0 <= a < kept@.len() && k <= j < n
                        ==> (#[trigger] kept@[a]).0 != (#[trigger] s[j]).0,
                forall|d: u64|
                    d != dandelion ==> #[trigger] claim_of(kept@ + s.skip(k as int), d)
                        == claim_of(s, d),
            decreases n - k,
        {
            let e = self.targets[k];
            proof {
                assert(s.skip(k as int).len() > 0);
                assert(s.skip(k as int)[0] == s[k as int]);
                assert(s.skip(k as int).drop_first() =~= s.skip(k as int + 1));
            }
            if e.0 != dandelion {
                proof {
                    assert(contains_pair(s, s[k as int]));
                    assert forall|d: u64| d != dandelion
                        implies #[trigger] claim_of(kept@.push(e) + s.skip(k as int + 1), d)
                            == claim_of(s, d) by {
                        lemma_claim_of_concat_push(kept@, s.skip(k as int + 1), e, d);
                        assert(kept@ + s.skip(k as int)
                            =~= kept@ + (seq![e] + s.skip(k as int + 1)));
                    }
                }
                kept.push(e);
            } else {
                proof {
                    assert forall|d: u64| d != dandelion
                        implies #[trigger] claim_of(kept@ + s.skip(k as int + 1), d)
                            == claim_of(s, d) by {
                        assert(kept@ + s.skip(k as int)
                            =~= kept@ + (seq![e] + s.skip(k as int + 1)));
                        lemma_claim_of_concat_mid(kept@, e, s.skip(k as int + 1), d);
                        lemma_claim_of_concat(kept@, s.skip(k as int + 1), d);
                    }
                }
            }
            k = k + 1;
        }
        proof {
            assert(s.skip(n as int) =~= Seq::<(u64, u64)>::empty());
            assert(kept@ + s.skip(n as int) =~= kept@);
            lemma_claim_of_no_key(kept@, dandelion);
        }
        self.targets = kept;
    }

    /// Drop every claim held by the given rabbit (used when it despawns);
    /// every other rabbit's claims are kept.
    pub fn clear_rabbit_targets(&mut self, rabbit: u64)
        requires
            old(self).wf(),
        ensures
            final(self).wf(),
            forall|i: int|
                0 <= i < final(self).targets@.len()
                    ==> (#[trigger] final(self).targets@[i]).1 != rabbit,
            forall|i: int|
                0 <= i < final(self).targets@.len()
                    ==> contains_pair(old(self).targets@, final(self).targets@[i]),
            forall|i: int|
                0 <= i < old(self).targets@.len()
                    && (#[trigger] old(self).targets@[i]).1 != rabbit
                    ==> contains_pair(final(self).targets@, old(self).targets@[i]),
    {
        let ghost s = old(self).targets@;
        let n = self.targets.len();
        let mut kept: Vec<(u64, u64)> = Vec::new();
        let mut k: usize = 0;
        while k < n
            invariant
                old(self).wf(),
                s == old(self).targets@,
                self.targets@ == s,
                n == s.len(),
                k <= n,
                forall|a: int, b: int|
                    0 <= a < b < kept@.len() ==> kept@[a].0 != kept@[b].0,
                forall|a: int|
                    0 <= a < kept@.len() ==> (#[trigger] kept@[a]).1 != rabbit,
                forall|a: int|
                    0 <= a < kept@.len() ==> contains_pair(s, #[trigger] kept@[a]),
                forall|j: int|
                    0 <= j < k && (#[trigger] s[j]).1 != rabbit
                        ==> contains_pair(kept@, s[j]),
                forall|a: int, j: int|
                    0 <= a < kept@.len() && k <= j < n
                        ==> (#[trigger] kept@[a]).0 != (#[trigger] s[j]).0,
            decreases n - k,
        {
            let e = self.targets[k];
            if e.1 != rabbit {
                let ghost before = kept@;
                proof {
                    assert(contains_pair(s, s[k as int]));
                }
                kept.push(e);
                proof {
                    assert(kept@[kept@.len() - 1] == s[k as int]);
                    assert forall|j: int| 0 <= j < k + 1 && (#[trigger] s[j]).1 != rabbit
                        implies contains_pair(kept@, s[j]) by {
                        if j < k as int {
                            lemma_contains_pair_push(before, e, s[j]);
                        }
                    }
                }
            }
            k = k + 1;
        }
        self.targets = kept;
    }

    /// Drop every claim (used during teardown).
    pub fn clear(&mut self)
        ensures
            final(self).wf(),
            final(self).targets@.len() == 0,
    {
        self.targets = Vec::new();
    }
}

/// A seeking rabbit agent.
#[derive(Clone, Copy, Debug)]
pub struct Rabbit {
    /// Stable id, unique among live rabbits.
    pub id: u64,
    pub x: i32,
    pub y: i32,
    /// Claimed target dandelion, if any.
    pub target: Option<u64>,
    pub dandelions_eaten: u32,
    /// One-shot lifetime timer; the rabbit expires when it runs out.
    pub lifetime: Countdown,
    /// Travel speed in units per second.
    pub speed: u32,
    /// Facing flag kept from the horizontal velocity sign (visual only).
    pub facing_right: bool,
}

impl Rabbit {
    pub open spec fn wf(self) -> bool {
        &&& in_world(self.x as int, self.y as int)
        &&& !self.lifetime.repeating
        &&& 1 <= self.speed <= 1000
    }
}

/// The rabbit subsystem: live agents plus the claim registry.
pub struct RabbitSystem {
    pub rabbits: Vec<Rabbit>,
    pub targeting: RabbitTargeting,
    /// Next rabbit id to hand out.
    pub next_id: u64,
}

impl RabbitSystem {
    pub open spec fn wf(self) -> bool {
        &&& self.targeting.wf()
        &&& forall|i: int| 0 <= i < self.rabbits@.len() ==> (#[trigger] self.rabbits@[i]).wf()
        &&& forall|i: int|
            0 <= i < self.rabbits@.len() ==> (#[trigger] self.rabbits@[i]).id < self.next_id
        &&& forall|i: int, j: int|
            0 <= i < j < self.rabbits@.len() ==> self.rabbits@[i].id != self.rabbits@[j].id
    }

    /// An empty subsystem.
    pub fn new() -> (r: RabbitSystem)
        ensures
            r.wf(),
            r.rabbits@.len() == 0,
            r.targeting.targets@.len() == 0,
            r.next_id == 0,
    {
        RabbitSystem { rabbits: Vec::new(), targeting: RabbitTargeting::new(), next_id: 0 }
    }

    /// Tear down: all rabbits despawn and every claim is dropped.
    pub fn cleanup_powerups(&mut self)
        ensures
            final(self).wf(),
            final(self).rabbits@.len() == 0,
            final(self).targeting.targets@.len() == 0,
    {
        self.rabbits = Vec::new();
        self.targeting.clear();
    }

    /// Place three rabbits in a radial fan around the origin point (one
    /// hundred and twenty degrees apart, twenty units out).
    pub fn spawn_rabbits(&mut self, x: i32, y: i32)
        requires
            old(self).wf(),
            -(POS_LIMIT as int - 20) <= x as int <= POS_LIMIT as int - 20,
            -(POS_LIMIT as int - 20) <= y as int <= POS_LIMIT as int - 20,
            old(self).next_id + 3 <= u64::MAX,
        ensures
            final(self).wf(),
            final(self).targeting == old(self).targeting,
            final(self).next_id == old(self).next_id + 3,
            final(self).rabbits@.len() == old(self).rabbits@.len() + 3,
            final(self).rabbits@.subrange(0, old(self).rabbits@.len() as int)
                == old(self).rabbits@,
            forall|m: int|
                0 <= m < 3 ==> {
                    let r = #[trigger] final(self).rabbits@[old(self).rabbits@.len() + m];
                    &&& r.id == old(self).next_id + m
                    &&& r.x as int == x + spec_fan_offset(m).0
                    &&& r.y as int == y + spec_fan_offset(m).1
                    &&& r.target is None
                    &&& r.dandelions_eaten == 0
                    &&& r.lifetime == (Countdown {
                        remaining_ms: RABBIT_LIFETIME_MS,
                        duration_ms: RABBIT_LIFETIME_MS,
                        repeating: false,
                    })
                    &&& r.speed == RABBIT_SPEED
                    &&& !r.facing_right
                },
    {
        let mut m: usize = 0;
        while m < 3
            invariant
                old(self).wf(),
                self.targeting == old(self).targeting,
                -(POS_LIMIT as int - 20) <= x as int <= POS_LIMIT as int - 20,
                -(POS_LIMIT as int - 20) <= y as int <= POS_LIMIT as int - 20,
                old(self).next_id + 3 <= u64::MAX,
                m <= 3,
                self.wf(),
                self.next_id == old(self).next_id + m,
                self.rabbits@.len() == old(self).rabbits@.len() + m,
                self.rabbits@.subrange(0, old(self).rabbits@.len() as int) == old(self).rabbits@,
                forall|q: int|
                    0 <= q < m ==> {
                        let r = #[trigger] self.rabbits@[old(self).rabbits@.len() + q];
                        &&& r.id == old(self).next_id + q
                        &&& r.x as int == x + spec_fan_offset(q).0
                        &&& r.y as int == y + spec_fan_offset(q).1
                        &&& r.target is None
                        &&& r.dandelions_eaten == 0
                        &&& r.lifetime == (Countdown {
                            remaining_ms: RABBIT_LIFETIME_MS,
                            duration_ms: RABBIT_LIFETIME_MS,
                            repeating: false,
                        })
                        &&& r.speed == RABBIT_SPEED
                        &&& !r.facing_right
                    },
            decreases 3 - m,
        {
            let off = fan_offset(m);
            let r = Rabbit {
                id: self.next_id,
                x: x + off.0,
                y: y + off.1,
                target: None,
                dandelions_eaten: 0,
                lifetime: Countdown::new_once(RABBIT_LIFETIME_MS),
                speed: RABBIT_SPEED,
                facing_right: false,
            };
            proof {
                assert(self.rabbits@.push(r).subrange(0, old(self).rabbits@.len() as int)
                    =~= self.rabbits@.subrange(0, old(self).rabbits@.len() as int));
            }
            self.rabbits.push(r);
            self.next_id = self.next_id + 1;
            m = m + 1;
        }
    }

    /// Despawn every rabbit whose lifetime has run out: exactly the
    /// rabbits with time left survive, in order, untouched; every claim
    /// held by an expired rabbit is dropped and every other claim is kept.
    pub fn cleanup_expired_rabbits(&mut self)
        requires
            old(self).wf(),
        ensures
            final(self).wf(),
            final(self).next_id == old(self).next_id,
            final(self).rabbits@ == live_rabbits(old(self).rabbits@),
            forall|i: int|
                0 <= i < final(self).rabbits@.len()
                    ==> (#[trigger] final(self).rabbits@[i]).lifetime.remaining_ms > 0,
            // No expired rabbit's claim survives.
            forall|i: int, j: int|
                0 <= i < final(self).targeting.targets@.len()
                    && 0 <= j < old(self).rabbits@.len()
                    && (#[trigger] old(self).rabbits@[j]).lifetime.remaining_ms == 0
                    ==> (#[trigger] final(self).targeting.targets@[i]).1
                        != old(self).rabbits@[j].id,
            // Every claim of a rabbit that did not expire is kept.
            forall|i: int|
                0 <= i < old(self).targeting.targets@.len()
                    && (forall|j: int|
                        0 <= j < old(self).rabbits@.len()
                            && (#[trigger] old(self).rabbits@[j]).lifetime.remaining_ms == 0
                            ==> old(self).targeting.targets@[i].1 != old(self).rabbits@[j].id)
                    ==> contains_pair(final(self).targeting.targets@,
                        #[trigger] old(self).targeting.targets@[i]),
            // Surviving claims come from the old registry.
            forall|i: int|
                0 <= i < final(self).targeting.targets@.len()
                    ==> contains_pair(old(self).targeting.targets@,
                        #[trigger] final(self).targeting.targets@[i]),
    {
        let ghost rs = old(self).rabbits@;
        let ghost t0 = old(self).targeting.targets@;
        let n = self.rabbits.len();
        let mut kept: Vec<Rabbit> = Vec::new();
        let mut k: usize = 0;
        proof {
            assert(rs.take(0) =~= Seq::<Rabbit>::empty());
        }
        while k < n
            invariant
                old(self).wf(),
                rs == old(self).rabbits@,
                t0 == old(self).targeting.targets@,
                self.rabbits@ == rs,
                self.next_id == old(self).next_id,
                self.targeting.wf(),
                n == rs.len(),
                k <= n,
                kept@ == live_rabbits(rs.take(k as int)),
                forall|a: int| 0 <= a < kept@.len() ==> (#[trigger] kept@[a]).wf(),
                forall|a: int|
                    0 <= a < kept@.len() ==> (#[trigger] kept@[a]).id < self.next_id,
                forall|a: int, b: int|
                    0 <= a < b < kept@.len() ==> kept@[a].id != kept@[b].id,
                forall|a: int|
                    0 <= a < kept@.len()
                        ==> (#[trigger] kept@[a]).lifetime.remaining_ms > 0,
                forall|a: int, j: int|
                    0 <= a < kept@.len() && k <= j < n
                        ==> (#[trigger] kept@[a]).id != (#[trigger] rs[j]).id,
                forall|i: int, j: int|
                    0 <= i < self.targeting.targets@.len() && 0 <= j < k
                        && (#[trigger] rs[j]).lifetime.remaining_ms == 0
                        ==> (#[trigger] self.targeting.targets@[i]).1 != rs[j].id,
                forall|i: int|
                    0 <= i < t0.len()
                        && (forall|j: int|
                            0 <= j < k && (#[trigger] rs[j]).lifetime.remaining_ms == 0
                                ==> t0[i].1 != rs[j].id)
                        ==> contains_pair(self.targeting.targets@, #[trigger] t0[i]),
                forall|i: int|
                    0 <= i < self.targeting.targets@.len()
                        ==> contains_pair(t0, #[trigger] self.targeting.targets@[i]),
            decreases n - k,
        {
            proof {
                assert(rs.take(k as int + 1).drop_last() =~= rs.take(k as int));
                assert(rs.take(k as int + 1).last() == rs[k as int]);
            }
            let r = self.rabbits[k];
            if r.lifetime.remaining_ms == 0 {
                let ghost pre = self.targeting.targets@;
                self.targeting.clear_rabbit_targets(r.id);
                proof {
                    let cur = self.targeting.targets@;
                    // Surviving entries come from before the clear, hence
                    // from the old registry, and avoid all cleared owners.
                    assert forall|i: int| 0 <= i < cur.len()
                        implies contains_pair(t0, #[trigger] cur[i]) by {
                        assert(contains_pair(pre, cur[i]));
                        let w = choose|w: int| 0 <= w < pre.len() && pre[w] == cur[i];
                        assert(contains_pair(t0, pre[w]));
                    }
                    assert forall|i: int, j: int|
                        0 <= i < cur.len() && 0 <= j < k + 1
                            && (#[trigger] rs[j]).lifetime.remaining_ms == 0
                        implies (#[trigger] cur[i]).1 != rs[j].id by {
                        if j < k as int {
                            assert(contains_pair(pre, cur[i]));
                            let w = choose|w: int| 0 <= w < pre.len() && pre[w] == cur[i];
                            assert(pre[w].1 != rs[j].id);
                        }
                    }
                    // Claims of owners that expire nowhere in the prefix
                    // survive the clear.
                    assert forall|i: int|
                        0 <= i < t0.len()
                            && (forall|j: int|
                                0 <= j < k + 1
                                    && (#[trigger] rs[j]).lifetime.remaining_ms == 0
                                    ==> t0[i].1 != rs[j].id)
                        implies contains_pair(cur, #[trigger] t0[i]) by {
                        assert(contains_pair(pre, t0[i]));
                        let w = choose|w: int| 0 <= w < pre.len() && pre[w] == t0[i];
                        assert(pre[w].1 != r.id);
                        assert(contains_pair(cur, pre[w]));
                    }
                }
            } else {
                proof {
                    assert(kept@.push(r).drop_last() =~= kept@);
                }
                kept.push(r);
            }
            k = k + 1;
        }
        proof {
            assert(rs.take(n as int) =~= rs);
        }
        self.rabbits = kept;
    }
}

/// The rabbits with lifetime left, in order.
pub open spec fn live_rabbits(s: Seq<Rabbit>) -> Seq<Rabbit>
    decreases s.len(),
{
    if s.len() == 0 {
        s
    } else if s.last().lifetime.remaining_ms > 0 {
        live_rabbits(s.drop_last()).push(s.last())
    } else {
        live_rabbits(s.drop_last())
    }
}

impl RabbitSystem {
    /// Drop every claim whose dandelion has died (the stale-claim sweep
    /// that must run before target re-selection); claims on live
    /// dandelions are kept.
    pub fn sweep_stale_claims(&mut self, field: &Field)
        requires
            old(self).wf(),
        ensures
            final(self).wf(),
            final(self).rabbits@ == old(self).rabbits@,
            final(self).next_id == old(self).next_id,
            forall|i: int|
                0 <= i < final(self).targeting.targets@.len()
                    ==> contains_id(field.dandelions@,
                        (#[trigger] final(self).targeting.targets@[i]).0)
                        && contains_pair(old(self).targeting.targets@,
                            final(self).targeting.targets@[i]),
            forall|i: int|
                0 <= i < old(self).targeting.targets@.len()
                    && contains_id(field.dandelions@,
                        (#[trigger] old(self).targeting.targets@[i]).0)
                    ==> contains_pair(final(self).targeting.targets@,
                        old(self).targeting.targets@[i]),
    {
        let ghost s = old(self).targeting.targets@;
        let n = self.targeting.targets.len();
        let mut kept: Vec<(u64, u64)> = Vec::new();
        let mut k: usize = 0;
        while k < n
            invariant
                old(self).wf(),
                s == old(self).targeting.targets@,
                self.targeting.targets@ == s,
                self.rabbits@ == old(self).rabbits@,
                self.next_id == old(self).next_id,
                n == s.len(),
                k <= n,
                forall|a: int, b: int|
                    0 <= a < b < kept@.len() ==> kept@[a].0 != kept@[b].0,
                forall|a: int|
                    0 <= a < kept@.len()
                        ==> contains_id(field.dandelions@, (#[trigger] kept@[a]).0),
                forall|a: int| 0 <= a < kept@.len() ==> contains_pair(s, #[trigger] kept@[a]),
                forall|j: int|
                    0 <= j < k && contains_id(field.dandelions@, (#[trigger] s[j]).0)
                        ==> contains_pair(kept@, s[j]),
                forall|a: int, j: int|
                    0 <= a < kept@.len() && k <= j < n
                        ==> (#[trigger] kept@[a]).0 != (#[trigger] s[j]).0,
            decreases n - k,
        {
            let e = self.targeting.targets[k];
            if field.contains_dandelion(e.0) {
                let ghost before = kept@;
                proof {
                    assert(contains_pair(s, s[k as int]));
                }
                kept.push(e);
                proof {
                    assert(kept@[kept@.len() - 1] == s[k as int]);
                    assert forall|j: int|
                        0 <= j < k + 1 && contains_id(field.dandelions@, (#[trigger] s[j]).0)
                        implies contains_pair(kept@, s[j]) by {
                        if j < k as int {
                            lemma_contains_pair_push(before, e, s[j]);
                        }
                    }
                }
            }
            k = k + 1;
        }
        self.targeting.targets = kept;
    }

    /// One rabbit's tick against the shared field: age by `dt_ms`,
    /// re-select and claim a target when the held one is gone, run toward
    /// the target without overshooting the speed allowance, and eat it when
    /// it already lay within reach (despawning it and scoring the kill).
    /// Returns the advanced rabbit, whether it now reproduces (its meal
    /// count reached the threshold on this bite), and the id eaten, if any.
    #[verifier::rlimit(100)]
    fn update_one_rabbit(
        &mut self,
        field: &mut Field,
        game: &mut GameData,
        dt_ms: u32,
        rb_in: Rabbit,
        Ghost(d0): Ghost<Seq<Dandelion>>,
    ) -> (out: (Rabbit, bool, Option<u64>))
        requires
            old(self).targeting.wf(),
            old(field).wf(),
            old(game).wf(),
            rb_in.wf(),
            // Records of live dandelions agree with the tick-start snapshot.
            forall|t: u64|
                #[trigger] contains_id(old(field).dandelions@, t) ==> contains_id(d0, t)
                    && old(field).dandelions@[index_of_id(old(field).dandelions@, t)]
                        == d0[index_of_id(d0, t)],
            forall|i: int|
                0 <= i < old(self).targeting.targets@.len()
                    ==> contains_id(old(field).dandelions@,
                        (#[trigger] old(self).targeting.targets@[i]).0),
        ensures
            final(self).targeting.wf(),
            final(self).rabbits@ == old(self).rabbits@,
            final(self).next_id == old(self).next_id,
            final(field).wf(),
            final(game).wf(),
            final(field).seed_orbs@ == old(field).seed_orbs@,
            final(field).next_id == old(field).next_id,
            forall|i: int|
                0 <= i < final(self).targeting.targets@.len()
                    ==> contains_id(final(field).dandelions@,
                        (#[trigger] final(self).targeting.targets@[i]).0),
            // The only field change is the meal, and only a target already
            // within reach is ever eaten.
            (match out.2 {
                None => final(field).dandelions@ == old(field).dandelions@
                    && *final(game) == *old(game),
                Some(t) => {
                    &&& contains_id(old(field).dandelions@, t)
                    &&& final(field).dandelions@ == old(field).dandelions@.remove(
                        index_of_id(old(field).dandelions@, t))
                    &&& target_in_reach(rb_in, d0, t)
                    &&& *final(game) == spec_after_one_kill(*old(game))
                },
            }),
            // A live held target within reach is always eaten.
            forall|t: u64|
                rb_in.target == Some(t) && #[trigger] contains_id(old(field).dandelions@, t)
                    && target_in_reach(rb_in, d0, t)
                    ==> out.2 == Some(t),
            // The advanced rabbit: aged one tick, same identity and speed,
            // moved at most the speed allowance, meal count up by exactly
            // the bite taken.
            ({
                let b = out.0;
                &&& b.id == rb_in.id
                &&& b.speed == rb_in.speed
                &&& b.wf()
                &&& b.lifetime == rb_in.lifetime.spec_tick(dt_ms)
                &&& b.x - rb_in.x <= spec_rabbit_step(rb_in.speed, dt_ms)
                &&& rb_in.x - b.x <= spec_rabbit_step(rb_in.speed, dt_ms)
                &&& b.y - rb_in.y <= spec_rabbit_step(rb_in.speed, dt_ms)
                &&& rb_in.y - b.y <= spec_rabbit_step(rb_in.speed, dt_ms)
                &&& b.dandelions_eaten == (if out.2 is Some {
                    if rb_in.dandelions_eaten < u32::MAX {
                        (rb_in.dandelions_eaten + 1) as u32
                    } else {
                        u32::MAX
                    }
                } else {
                    rb_in.dandelions_eaten
                })
            }),
            out.1 == (out.2 is Some
                && out.0.dandelions_eaten >= RABBIT_MEALS_TO_REPRODUCE),
            // With no prey the rabbit only ages and drops any stale target.
            old(field).dandelions@.len() == 0 ==> out.0 == (Rabbit {
                target: None,
                lifetime: rb_in.lifetime.spec_tick(dt_ms),
                ..rb_in
            }) && final(self).targeting.targets@.len()
                == old(self).targeting.targets@.len(),
    {
        let mut rb = rb_in;
        let _expired = rb.lifetime.tick(dt_ms);
        let mut ate: Option<u64> = None;
        let mut reproduced = false;

        // Re-select a target when none is held or it is no longer live.
        let target_live = match rb.target {
            Some(t) => field.contains_dandelion(t),
            None => false,
        };
        if !target_live {
            let ghost pre_targets = self.targeting.targets@;
            match rb.target {
                Some(old_target) => {
                    self.targeting.release_target(old_target);
                    proof {
                        assert forall|i: int| 0 <= i < self.targeting.targets@.len()
                            implies contains_id(field.dandelions@,
                                (#[trigger] self.targeting.targets@[i]).0) by {
                            let e = self.targeting.targets@[i];
                            assert(contains_pair(pre_targets, e));
                            let w = choose|w: int|
                                0 <= w < pre_targets.len() && pre_targets[w] == e;
                            assert(contains_id(field.dandelions@, pre_targets[w].0));
                        }
                    }
                },
                None => {},
            }
            let ghost mid_targets = self.targeting.targets@;
            let new_target = find_best_dandelion_target(
                rb.id, rb.x, rb.y, &field.dandelions, &self.targeting,
            );
            match new_target {
                Some(tid) => {
                    // A freshly selected target is live: both selection
                    // paths return the id of some live dandelion.
                    proof {
                        let s = field.dandelions@;
                        let has = exists|i: int|
                            0 <= i < s.len()
                                && eligible_target(self.targeting, rb.id, s, i);
                        if has {
                            let c = choose|c: int|
                                {
                                    &&& 0 <= c < s.len()
                                    &&& #[trigger] s[c].id == tid
                                    &&& eligible_target(self.targeting, rb.id, s, c)
                                    &&& forall|j: int|
                                        0 <= j < c
                                            && eligible_target(self.targeting, rb.id, s, j)
                                            ==> better_target(
                                                rb.x as int, rb.y as int, s[c],
                                                #[trigger] s[j])
                                    &&& forall|j: int|
                                        0 <= j < s.len()
                                            && eligible_target(self.targeting, rb.id, s, j)
                                            ==> !better_target(
                                                rb.x as int, rb.y as int,
                                                #[trigger] s[j], s[c])
                                };
                            assert(contains_id(s, tid));
                        } else {
                            let i = choose|i: int|
                                0 <= i < s.len() && (#[trigger] s[i]).id == tid
                                    && within_dist(rb.x as int, rb.y as int,
                                        s[i].x as int, s[i].y as int,
                                        FALLBACK_RADIUS_TENTHS as int);
                            assert(contains_id(s, tid));
                        }
                    }
                    self.targeting.claim_target(rb.id, tid);
                    proof {
                        assert forall|i: int| 0 <= i < self.targeting.targets@.len()
                            implies contains_id(field.dandelions@,
                                (#[trigger] self.targeting.targets@[i]).0) by {
                            let e = self.targeting.targets@[i];
                            if e == (tid, rb.id) {
                                assert(contains_id(field.dandelions@, tid));
                            } else {
                                assert(contains_pair(mid_targets, e));
                                let w = choose|w: int|
                                    0 <= w < mid_targets.len() && mid_targets[w] == e;
                                assert(contains_id(field.dandelions@, mid_targets[w].0));
                            }
                        }
                    }
                    rb.target = Some(tid);
                },
                None => {
                    rb.target = None;
                },
            }
        }

        // Run toward the target; eat it when it was already within reach.
        match rb.target {
            None => {},
            Some(tid) => {
                match field.lookup_dandelion(tid) {
                    None => {},
                    Some(tpos) => {
                        let (tx, ty, _tsize) = tpos;
                        let px = rb.x;
                        let py = rb.y;
                        proof {
                            let s = field.dandelions@;
                            let i = index_of_id(s, tid);
                            assert(s[i].wf());
                            crate::geom::lemma_diff_sq_bound(tx as int, px as int);
                            crate::geom::lemma_diff_sq_bound(ty as int, py as int);
                        }
                        // Advance toward the target at `speed` units per
                        // second, never overshooting.
                        let dx: i64 = tx as i64 - px as i64;
                        let dy: i64 = ty as i64 - py as i64;
                        let d2: i64 = dx * dx + dy * dy;
                        let dist: u64 = isqrt(d2 as u64);
                        proof {
                            lemma_sqrt_floor_bounds(d2 as nat);
                            lemma_component_le_dist(dx as int, dy as int, dist as int);
                            assert(0 <= (rb.speed as int) * (dt_ms as int)
                                <= 4_294_967_295_000) by (nonlinear_arith)
                                requires
                                    1 <= rb.speed as int <= 1000,
                                    0 <= dt_ms as int <= 0xFFFF_FFFF;
                            vstd::arithmetic::div_mod::lemma_div_is_ordered(
                                (rb.speed as int) * (dt_ms as int),
                                4_294_967_295_000,
                                1000,
                            );
                            vstd::arithmetic::div_mod::lemma_div_pos_is_pos(
                                (rb.speed as int) * (dt_ms as int), 1000,
                            );
                        }
                        let step: u64 = (rb.speed as u64) * (dt_ms as u64) / 1000;
                        if dist <= step {
                            rb.x = tx;
                            rb.y = ty;
                        } else {
                            proof {
                                assert(dist >= 1);
                                assert(dist <= 3_000_000) by (nonlinear_arith)
                                    requires
                                        0 <= dist as int,
                                        dist as int * dist as int <= 8_000_000_000_000;
                                assert(-0x2000_0000_0000_0000
                                    <= dx as int * step as int <= 0x2000_0000_0000_0000
                                    && -0x2000_0000_0000_0000
                                        <= dy as int * step as int
                                        <= 0x2000_0000_0000_0000) by (nonlinear_arith)
                                    requires
                                        -2_000_000 <= dx as int <= 2_000_000,
                                        -2_000_000 <= dy as int <= 2_000_000,
                                        0 <= step as int <= 0x1_0000_0000;
                                lemma_trunc_div_step_bound(
                                    dx as int, step as int, dist as int);
                                lemma_trunc_div_step_bound(
                                    dy as int, step as int, dist as int);
                            }
                            let step_i: i64 = step as i64;
                            let dist_i: i64 = dist as i64;
                            let sx: i64 = trunc_div_i64(dx * step_i, dist_i);
                            let sy: i64 = trunc_div_i64(dy * step_i, dist_i);
                            // Facing follows the horizontal heading.
                            if sx > 0 {
                                rb.facing_right = true;
                            } else if sx < 0 {
                                rb.facing_right = false;
                            }
                            let raw_x: i64 = px as i64 + sx;
                            let raw_y: i64 = py as i64 + sy;
                            rb.x = if raw_x < -(POS_LIMIT as i64) {
                                -POS_LIMIT
                            } else if raw_x > POS_LIMIT as i64 {
                                POS_LIMIT
                            } else {
                                raw_x as i32
                            };
                            rb.y = if raw_y < -(POS_LIMIT as i64) {
                                -POS_LIMIT
                            } else if raw_y > POS_LIMIT as i64 {
                                POS_LIMIT
                            } else {
                                raw_y as i32
                            };
                        }
                        // Eat when the pre-move distance was in reach.
                        if within_dist_exec(px, py, tx, ty, RABBIT_EAT_DISTANCE_TENTHS) {
                            let ghost pre_eat = self.targeting.targets@;
                            self.targeting.release_target(tid);
                            let ghost pre_field = *field;
                            let removed = field.remove_dandelion(tid);
                            proof {
                                assert(removed is Some);
                                let s = pre_field.dandelions@;
                                let i = index_of_id(s, tid);
                                assert forall|q: int|
                                    0 <= q < self.targeting.targets@.len()
                                    implies contains_id(field.dandelions@,
                                        (#[trigger] self.targeting.targets@[q]).0) by {
                                    let e = self.targeting.targets@[q];
                                    assert(contains_pair(pre_eat, e));
                                    let w = choose|w: int|
                                        0 <= w < pre_eat.len() && pre_eat[w] == e;
                                    assert(contains_id(s, pre_eat[w].0));
                                    assert(e.0 != tid) by {
                                        if e.0 == tid {
                                            lemma_claim_of_some(
                                                self.targeting.targets@, q, tid);
                                        }
                                    }
                                    lemma_contains_after_remove(s, i, e.0);
                                }
                            }
                            game.add_dandelion_kill();
                            ate = Some(tid);
                            rb.dandelions_eaten = if rb.dandelions_eaten < u32::MAX {
                                rb.dandelions_eaten + 1
                            } else {
                                u32::MAX
                            };
                            rb.target = None;
                            if rb.dandelions_eaten >= RABBIT_MEALS_TO_REPRODUCE {
                                reproduced = true;
                            }
                        }
                    },
                }
            },
        }
        (rb, reproduced, ate)
    }

    /// One tick of the rabbit subsystem over the live dandelion field:
    /// sweep stale claims, then let every rabbit re-select a target when
    /// needed (claiming it), run toward it, and eat it when already within
    /// reach — each meal despawns the dandelion (no seed orbs) and scores
    /// one kill; a rabbit whose meal count reaches two reproduces into
    /// three new rabbits at its position and despawns, dropping its
    /// claims. Lifetimes tick down; expired rabbits are collected
    /// separately. Returns how many dandelions were eaten.
    pub fn update_rabbits(&mut self, field: &mut Field, game: &mut GameData, dt_ms: u32)
        -> (eaten: usize)
        requires
            old(self).wf(),
            old(field).wf(),
            old(game).wf(),
            old(self).rabbits@.len() <= 1_000_000,
            old(self).next_id <= u64::MAX - 3_000_000,
        ensures
            final(self).wf(),
            final(field).wf(),
            final(game).wf(),
            *final(game) == kills_applied(*old(game), eaten as nat),
            final(field).dandelions@.len() + eaten == old(field).dandelions@.len(),
            final(field).seed_orbs@ == old(field).seed_orbs@,
            final(field).next_id == old(field).next_id,
            final(self).next_id >= old(self).next_id,
            // Every claim left in the registry points at a live dandelion.
            forall|i: int|
                0 <= i < final(self).targeting.targets@.len()
                    ==> contains_id(final(field).dandelions@,
                        (#[trigger] final(self).targeting.targets@[i]).0),
            // With no prey at all, rabbits only age: targets end unset,
            // nothing moves, nothing is claimed, eaten or scored.
            old(field).dandelions@.len() == 0 ==> {
                &&& eaten == 0
                &&& final(self).targeting.targets@.len() == 0
                &&& final(self).rabbits@.len() == old(self).rabbits@.len()
                &&& forall|q: int|
                    0 <= q < old(self).rabbits@.len()
                        ==> #[trigger] final(self).rabbits@[q] == (Rabbit {
                            target: None,
                            lifetime: old(self).rabbits@[q].lifetime.spec_tick(dt_ms),
                            ..old(self).rabbits@[q]
                        })
            },
            // Every dandelion some rabbit already held within eating reach
            // at tick start is consumed this tick.
            forall|q: int, t: u64|
                0 <= q < old(self).rabbits@.len()
                    && (#[trigger] old(self).rabbits@[q]).target == Some(t)
                    && #[trigger] contains_id(old(field).dandelions@, t)
                    && target_in_reach(old(self).rabbits@[q], old(field).dandelions@, t)
                    ==> !contains_id(final(field).dandelions@, t),
            // A rabbit surviving under its old id aged exactly one tick,
            // moved at most its speed allowance, and its meal count grew
            // only by a bite that stayed below the reproduction threshold.
            forall|p: int, q: int|
                0 <= p < final(self).rabbits@.len() && 0 <= q < old(self).rabbits@.len()
                    && (#[trigger] final(self).rabbits@[p]).id
                        == (#[trigger] old(self).rabbits@[q]).id
                    ==> ({
                        let a = old(self).rabbits@[q];
                        let b = final(self).rabbits@[p];
                        &&& b.lifetime == a.lifetime.spec_tick(dt_ms)
                        &&& b.speed == a.speed
                        &&& b.x - a.x <= spec_rabbit_step(a.speed, dt_ms)
                        &&& a.x - b.x <= spec_rabbit_step(a.speed, dt_ms)
                        &&& b.y - a.y <= spec_rabbit_step(a.speed, dt_ms)
                        &&& a.y - b.y <= spec_rabbit_step(a.speed, dt_ms)
                        &&& (b.dandelions_eaten == a.dandelions_eaten
                            || (b.dandelions_eaten == a.dandelions_eaten + 1
                                && b.dandelions_eaten < RABBIT_MEALS_TO_REPRODUCE))
                    }),
            // A rabbit one meal short of reproduction that alone holds its
            // live target within reach eats it and despawns into offspring:
            // its id does not survive the tick.
            forall|q: int, t: u64|
                #[trigger] sole_feeder(old(self).rabbits@, old(field).dandelions@, q, t)
                    && old(self).rabbits@[q].dandelions_eaten + 1
                        >= RABBIT_MEALS_TO_REPRODUCE
                    ==> forall|p: int|
                        0 <= p < final(self).rabbits@.len()
                            ==> (#[trigger] final(self).rabbits@[p]).id
                                != old(self).rabbits@[q].id,
    {
        self.sweep_stale_claims(field);
        let ghost rs = self.rabbits@;
        let ghost d0 = old(field).dandelions@;
        proof {
            // An empty field forces an empty registry: every surviving
            // claim would need a live dandelion.
            if d0.len() == 0 && self.targeting.targets@.len() > 0 {
                assert(contains_id(field.dandelions@, self.targeting.targets@[0].0));
            }
        }
        let n = self.rabbits.len();
        let mut new_rabbits: Vec<Rabbit> = Vec::new();
        let mut eaten: usize = 0;
        let mut k: usize = 0;
        while k < n
            invariant
                old(self).wf(),
                old(field).wf(),
                old(game).wf(),
                rs == old(self).rabbits@,
                d0 == old(field).dandelions@,
                self.rabbits@ == rs,
                n == rs.len(),
                n <= 1_000_000,
                k <= n,
                eaten <= k,
                self.targeting.wf(),
                field.wf(),
                old(self).next_id <= self.next_id,
                self.next_id <= old(self).next_id + 3 * k,
                old(self).next_id <= u64::MAX - 3_000_000,
                *game == kills_applied(*old(game), eaten as nat),
                field.dandelions@.len() + eaten == old(field).dandelions@.len(),
                field.seed_orbs@ == old(field).seed_orbs@,
                field.next_id == old(field).next_id,
                forall|i: int|
                    0 <= i < self.targeting.targets@.len()
                        ==> contains_id(field.dandelions@,
                            (#[trigger] self.targeting.targets@[i]).0),
                // Live records never change during the tick.
                forall|t: u64|
                    #[trigger] contains_id(field.dandelions@, t) ==> contains_id(d0, t)
                        && field.dandelions@[index_of_id(field.dandelions@, t)]
                            == d0[index_of_id(d0, t)],
                // Every removal so far was a meal taken within reach.
                forall|t: u64|
                    #[trigger] contains_id(d0, t) && !contains_id(field.dandelions@, t)
                        ==> exists|j: int|
                            0 <= j < k && target_in_reach(#[trigger] rs[j], d0, t),
                // Targets already held in reach by processed rabbits are gone.
                forall|q: int, t: u64|
                    0 <= q < k && (#[trigger] rs[q]).target == Some(t)
                        && #[trigger] contains_id(d0, t) && target_in_reach(rs[q], d0, t)
                        ==> !contains_id(field.dandelions@, t),
                // Sole feeders at the threshold leave no record behind.
                forall|q: int, t: u64, p: int|
                    #[trigger] sole_feeder(rs, d0, q, t) && q < k
                        && rs[q].dandelions_eaten + 1 >= RABBIT_MEALS_TO_REPRODUCE
                        && 0 <= p < new_rabbits@.len()
                        ==> (#[trigger] new_rabbits@[p]).id != rs[q].id,
                // Kept rabbits relate to their origin record.
                forall|p: int, q: int|
                    0 <= p < new_rabbits@.len() && 0 <= q < n
                        && (#[trigger] new_rabbits@[p]).id == (#[trigger] rs[q]).id
                        ==> ({
                            let a = rs[q];
                            let b = new_rabbits@[p];
                            &&& b.lifetime == a.lifetime.spec_tick(dt_ms)
                            &&& b.speed == a.speed
                            &&& b.x - a.x <= spec_rabbit_step(a.speed, dt_ms)
                            &&& a.x - b.x <= spec_rabbit_step(a.speed, dt_ms)
                            &&& b.y - a.y <= spec_rabbit_step(a.speed, dt_ms)
                            &&& a.y - b.y <= spec_rabbit_step(a.speed, dt_ms)
                            &&& (b.dandelions_eaten == a.dandelions_eaten
                                || (b.dandelions_eaten == a.dandelions_eaten + 1
                                    && b.dandelions_eaten < RABBIT_MEALS_TO_REPRODUCE))
                        }),
                d0.len() == 0 ==> {
                    &&& eaten == 0
                    &&& self.targeting.targets@.len() == 0
                    &&& field.dandelions@.len() == 0
                    &&& new_rabbits@.len() == k
                    &&& forall|q: int|
                        0 <= q < k ==> #[trigger] new_rabbits@[q] == (Rabbit {
                            target: None,
                            lifetime: rs[q].lifetime.spec_tick(dt_ms),
                            ..rs[q]
                        })
                },
                forall|a: int| 0 <= a < new_rabbits@.len() ==> (#[trigger] new_rabbits@[a]).wf(),
                forall|a: int|
                    0 <= a < new_rabbits@.len()
                        ==> (#[trigger] new_rabbits@[a]).id < self.next_id,
                forall|a: int, b: int|
                    0 <= a < b < new_rabbits@.len()
                        ==> new_rabbits@[a].id != new_rabbits@[b].id,
                forall|a: int, j: int|
                    0 <= a < new_rabbits@.len() && k <= j < n
                        ==> (#[trigger] new_rabbits@[a]).id != (#[trigger] rs[j]).id,
            decreases n - k,
        {
            let rb_in = self.rabbits[k];
            proof {
                assert(rb_in.wf());
            }
            let ghost f_entry = field.dandelions@;
            proof {
                assert(ids_distinct(f_entry));
            }
            let stepped = self.update_one_rabbit(field, game, dt_ms, rb_in, Ghost(d0));
            let rb = stepped.0;
            let reproduced = stepped.1;
            let ate = stepped.2;
            if ate.is_some() {
                eaten = eaten + 1;
            }
            proof {
                let cur = field.dandelions@;
                // One removal at most; stability of absence and of live
                // records across it.
                if ate is Some {
                    let tid = ate->0;
                    let i = index_of_id(f_entry, tid);
                    assert(f_entry[i].id == tid);
                    assert(cur == f_entry.remove(i));
                    lemma_not_contains_after_remove(f_entry, i);
                    assert forall|t: u64| #[trigger] contains_id(cur, t)
                        implies contains_id(d0, t)
                            && cur[index_of_id(cur, t)] == d0[index_of_id(d0, t)] by {
                        lemma_contains_remove_rev(f_entry, i, t);
                        assert(t != tid) by {
                            if t == tid {
                                assert(!contains_id(cur, tid));
                            }
                        }
                        lemma_lookup_after_remove(f_entry, i, t);
                    }
                    assert forall|t: u64|
                        #[trigger] contains_id(d0, t) && !contains_id(cur, t)
                        implies exists|j: int|
                            0 <= j < k + 1 && target_in_reach(#[trigger] rs[j], d0, t) by {
                        if contains_id(f_entry, t) {
                            assert(t == tid) by {
                                if t != tid {
                                    lemma_contains_after_remove(f_entry, i, t);
                                }
                            }
                            assert(target_in_reach(rs[k as int], d0, tid));
                        } else {
                            let j = choose|j: int|
                                0 <= j < k && target_in_reach(#[trigger] rs[j], d0, t);
                            assert(target_in_reach(rs[j], d0, t));
                        }
                    }
                } else {
                    assert(cur == f_entry);
                }
                // Absence is stable, so earlier guarantees carry over; the
                // current rabbit's held-in-reach target is gone too.
                assert forall|q: int, t: u64|
                    0 <= q < k + 1 && (#[trigger] rs[q]).target == Some(t)
                        && #[trigger] contains_id(d0, t) && target_in_reach(rs[q], d0, t)
                    implies !contains_id(cur, t) by {
                    if q < k {
                        assert(!contains_id(f_entry, t));
                        if contains_id(cur, t) {
                            let i = index_of_id(f_entry, ate->0);
                            lemma_contains_remove_rev(f_entry, i, t);
                        }
                    } else {
                        if contains_id(f_entry, t) {
                            assert(ate == Some(t));
                            let i = index_of_id(f_entry, t);
                            assert(!contains_id(cur, t));
                        } else {
                            if contains_id(cur, t) {
                                let i = index_of_id(f_entry, ate->0);
                                lemma_contains_remove_rev(f_entry, i, t);
                            }
                        }
                    }
                }
            }
            if reproduced {
                // The parent despawns: clear its claims and fan out three
                // offspring around its position.
                let ghost pre_clear = self.targeting.targets@;
                self.targeting.clear_rabbit_targets(rb.id);
                proof {
                    assert forall|i: int| 0 <= i < self.targeting.targets@.len()
                        implies contains_id(field.dandelions@,
                            (#[trigger] self.targeting.targets@[i]).0) by {
                        let e = self.targeting.targets@[i];
                        assert(contains_pair(pre_clear, e));
                        let w = choose|w: int|
                            0 <= w < pre_clear.len() && pre_clear[w] == e;
                        assert(contains_id(field.dandelions@, pre_clear[w].0));
                    }
                }
                let cx = crate::geom::clamp_coord(rb.x, -(POS_LIMIT - 20), POS_LIMIT - 20);
                let cy = crate::geom::clamp_coord(rb.y, -(POS_LIMIT - 20), POS_LIMIT - 20);
                let mut m: usize = 0;
                while m < 3
                    invariant
                        m <= 3,
                        self.next_id <= old(self).next_id + 3 * k + m,
                        old(self).next_id <= self.next_id,
                        old(self).next_id <= u64::MAX - 3_000_000,
                        k < n,
                        n <= 1_000_000,
                        -(POS_LIMIT as int - 20) <= cx as int <= POS_LIMIT as int - 20,
                        -(POS_LIMIT as int - 20) <= cy as int <= POS_LIMIT as int - 20,
                        rs == old(self).rabbits@,
                        self.rabbits@ == rs,
                        self.targeting.wf(),
                        forall|i: int|
                            0 <= i < self.targeting.targets@.len()
                                ==> contains_id(field.dandelions@,
                                    (#[trigger] self.targeting.targets@[i]).0),
                        forall|a: int|
                            0 <= a < new_rabbits@.len()
                                ==> (#[trigger] new_rabbits@[a]).wf(),
                        forall|a: int|
                            0 <= a < new_rabbits@.len()
                                ==> (#[trigger] new_rabbits@[a]).id < self.next_id,
                        forall|a: int, b: int|
                            0 <= a < b < new_rabbits@.len()
                                ==> new_rabbits@[a].id != new_rabbits@[b].id,
                        forall|a: int, j: int|
                            0 <= a < new_rabbits@.len() && k <= j < n
                                ==> (#[trigger] new_rabbits@[a]).id
                                    != (#[trigger] rs[j]).id,
                        forall|j: int|
                            0 <= j < n ==> (#[trigger] rs[j]).id < old(self).next_id,
                        forall|a: int, j: int|
                            0 <= a < new_rabbits@.len() && 0 <= j < n
                                && m > 0 && a >= new_rabbits@.len() - m
                                ==> (#[trigger] new_rabbits@[a]).id
                                    != (#[trigger] rs[j]).id,
                        forall|q2: int, t2: u64, p2: int|
                            #[trigger] sole_feeder(rs, d0, q2, t2) && q2 < k
                                && rs[q2].dandelions_eaten + 1 >= RABBIT_MEALS_TO_REPRODUCE
                                && 0 <= p2 < new_rabbits@.len()
                                ==> (#[trigger] new_rabbits@[p2]).id != rs[q2].id,
                        forall|p2: int, q2: int|
                            0 <= p2 < new_rabbits@.len() && 0 <= q2 < n
                                && (#[trigger] new_rabbits@[p2]).id
                                    == (#[trigger] rs[q2]).id
                                ==> ({
                                    let a = rs[q2];
                                    let b = new_rabbits@[p2];
                                    &&& b.lifetime == a.lifetime.spec_tick(dt_ms)
                                    &&& b.speed == a.speed
                                    &&& b.x - a.x <= spec_rabbit_step(a.speed, dt_ms)
                                    &&& a.x - b.x <= spec_rabbit_step(a.speed, dt_ms)
                                    &&& b.y - a.y <= spec_rabbit_step(a.speed, dt_ms)
                                    &&& a.y - b.y <= spec_rabbit_step(a.speed, dt_ms)
                                    &&& (b.dandelions_eaten == a.dandelions_eaten
                                        || (b.dandelions_eaten
                                                == a.dandelions_eaten + 1
                                            && b.dandelions_eaten
                                                < RABBIT_MEALS_TO_REPRODUCE))
                                }),
                    decreases 3 - m,
                {
                    let off = fan_offset(m);
                    new_rabbits.push(Rabbit {
                        id: self.next_id,
                        x: cx + off.0,
                        y: cy + off.1,
                        target: None,
                        dandelions_eaten: 0,
                        lifetime: Countdown::new_once(RABBIT_LIFETIME_MS),
                        speed: RABBIT_SPEED,
                        facing_right: false,
                    });
                    self.next_id = self.next_id + 1;
                    m = m + 1;
                }
            } else {
                proof {
                    assert(rs[k as int].id == rb.id);
                }
                new_rabbits.push(rb);
            }
            proof {
                // A sole feeder at the threshold cannot end up kept: its
                // target was still live when its turn came, so it ate and
                // reproduced.
                assert forall|q: int, t: u64, p: int|
                    #[trigger] sole_feeder(rs, d0, q, t) && q < k + 1
                        && rs[q].dandelions_eaten + 1 >= RABBIT_MEALS_TO_REPRODUCE
                        && 0 <= p < new_rabbits@.len()
                    implies (#[trigger] new_rabbits@[p]).id != rs[q].id by {
                    if q == k as int {
                        assert(contains_id(f_entry, t)) by {
                            if !contains_id(f_entry, t) {
                                let j = choose|j: int|
                                    0 <= j < k && target_in_reach(#[trigger] rs[j], d0, t);
                                assert(!target_in_reach(rs[j], d0, t));
                            }
                        }
                        assert(ate == Some(t));
                        assert(reproduced);
                    }
                }
            }
            k = k + 1;
        }
        self.rabbits = new_rabbits;
        eaten
    }
}

/// An entry with the key makes the lookup hit.
proof fn lemma_claim_of_some(s: Seq<(u64, u64)>, i: int, d: u64)
    requires
        0 <= i < s.len(),
        s[i].0 == d,
    ensures
        claim_of(s, d) is Some,
    decreases s.len(),
{
    if i > 0 && s[0].0 != d {
        lemma_claim_of_some(s.drop_first(), i - 1, d);
    }
}

/// Offsets of the three fan positions around a spawn origin: one hundred
/// and twenty degrees apart at twenty units, rounded to whole units.
pub open spec fn spec_fan_offset(m: int) -> (int, int) {
    if m == 0 {
        (20, 0)
    } else if m == 1 {
        (-10, 17)
    } else {
        (-10, -17)
    }
}

/// Offsets of the three fan positions.
fn fan_offset(m: usize) -> (r: (i32, i32))
    requires
        m < 3,
    ensures
        r.0 as int == spec_fan_offset(m as int).0,
        r.1 as int == spec_fan_offset(m as int).1,
        -20 <= r.0 <= 20,
        -20 <= r.1 <= 20,
{
    if m == 0 {
        (20, 0)
    } else if m == 1 {
        (-10, 17)
    } else {
        (-10, -17)
    }
}

/// Size bonus used by target scoring, in tenths (Huge is worth three
/// times Tiny).
pub open spec fn spec_dandelion_size_bonus(size: DandelionSize) -> u32 {
    match size {
        DandelionSize::Tiny => 10,
        DandelionSize::Small => 12,
        DandelionSize::Medium => 15,
        DandelionSize::Large => 20,
        DandelionSize::Huge => 30,
    }
}

/// Get size bonus multiplier for targeting priority, in tenths.
pub fn get_dandelion_size_bonus(size: DandelionSize) -> (r: u32)
    ensures
        r == spec_dandelion_size_bonus(size),
        10 <= r <= 30,
{
    match size {
        DandelionSize::Tiny => 10,
        DandelionSize::Small => 12,
        DandelionSize::Medium => 15,
        DandelionSize::Large => 20,
        DandelionSize::Huge => 30,
    }
}

/// The floored Euclidean distance from `(x, y)` to a dandelion.
pub open spec fn target_dist(x: int, y: int, d: Dandelion) -> int {
    sqrt_floor(dist_sq(x, y, d.x as int, d.y as int) as nat) as int
}

/// Whether `a` scores strictly higher than `b` as a target seen from
/// `(x, y)`: the score is the size bonus over the distance, compared
/// exactly by cross-multiplication.
pub open spec fn better_target(x: int, y: int, a: Dandelion, b: Dandelion) -> bool {
    spec_dandelion_size_bonus(a.size) * (target_dist(x, y, b) + 1)
        > spec_dandelion_size_bonus(b.size) * (target_dist(x, y, a) + 1)
}

/// Whether the dandelion may be targeted by this rabbit: unclaimed, or
/// already claimed by the rabbit itself.
pub open spec fn eligible_target(
    targeting: RabbitTargeting, rabbit: u64, s: Seq<Dandelion>, i: int,
) -> bool {
    claim_of(targeting.targets@, s[i].id) is None
        || claim_of(targeting.targets@, s[i].id) == Some(rabbit)
}

/// Rational score comparison is transitive across the current best: a
/// strictly better challenger also beats everything the best already beat.
proof fn lemma_score_trans(bc: int, dc: int, bo: int, do_: int, bj: int, dj: int)
    requires
        bc * (do_ + 1) > bo * (dc + 1),
        !(bj * (do_ + 1) > bo * (dj + 1)),
        1 <= bc && 1 <= bo && 1 <= bj,
        0 <= dc && 0 <= do_ && 0 <= dj,
    ensures
        bc * (dj + 1) > bj * (dc + 1),
{
    assert(bc * (dj + 1) > bj * (dc + 1)) by (nonlinear_arith)
        requires
            bc * (do_ + 1) > bo * (dc + 1),
            bj * (do_ + 1) <= bo * (dj + 1),
            1 <= bc && 1 <= bo && 1 <= bj,
            0 <= dc && 0 <= do_ && 0 <= dj;
}

/// Find the best target for a rabbit: the highest-scoring dandelion that
/// is unclaimed (or already claimed by this rabbit), score being the size
/// bonus over the distance, earliest winner on ties; when every dandelion
/// is claimed by other rabbits, fall back to a uniformly random dandelion
/// within 200 units, regardless of claims (this prevents starvation).
pub fn find_best_dandelion_target(
    rabbit_id: u64,
    x: i32,
    y: i32,
    dandelions: &Vec<Dandelion>,
    targeting: &RabbitTargeting,
) -> (r: Option<u64>)
    requires
        in_world(x as int, y as int),
        forall|i: int| 0 <= i < dandelions@.len() ==> (#[trigger] dandelions@[i]).wf(),
        dandelions@.len() <= 1_000_000,
    ensures
        ({
            let s = dandelions@;
            let has = exists|i: int|
                0 <= i < s.len() && eligible_target(*targeting, rabbit_id, s, i);
            &&& has ==> (r matches Some(id) && exists|c: int|
                {
                    &&& 0 <= c < s.len()
                    &&& #[trigger] s[c].id == id
                    &&& eligible_target(*targeting, rabbit_id, s, c)
                    &&& forall|j: int|
                        0 <= j < c && eligible_target(*targeting, rabbit_id, s, j)
                            ==> better_target(x as int, y as int, s[c], #[trigger] s[j])
                    &&& forall|j: int|
                        0 <= j < s.len() && eligible_target(*targeting, rabbit_id, s, j)
                            ==> !better_target(x as int, y as int, #[trigger] s[j], s[c])
                })
            &&& (has == false && r is Some) ==> exists|i: int|
                0 <= i < s.len() && (#[trigger] s[i]).id == r->Some_0
                    && within_dist(x as int, y as int, s[i].x as int, s[i].y as int,
                        FALLBACK_RADIUS_TENTHS as int)
            &&& (has == false && r is None) ==> forall|i: int|
                0 <= i < s.len() ==> !within_dist(x as int, y as int,
                    (#[trigger] s[i]).x as int, s[i].y as int, FALLBACK_RADIUS_TENTHS as int)
        }),
{
    let ghost s = dandelions@;
    let n = dandelions.len();
    let mut best: Option<usize> = None;
    let mut best_dist: u64 = 0;
    let mut k: usize = 0;
    while k < n
        invariant
            s == dandelions@,
            in_world(x as int, y as int),
            forall|i: int| 0 <= i < s.len() ==> (#[trigger] s[i]).wf(),
            n == s.len(),
            k <= n,
            best is None ==> forall|j: int|
                0 <= j < k ==> !eligible_target(*targeting, rabbit_id, s, j),
            best matches Some(b) ==> {
                &&& 0 <= b < k
                &&& eligible_target(*targeting, rabbit_id, s, b as int)
                &&& best_dist == target_dist(x as int, y as int, s[b as int])
                &&& best_dist <= 3_000_000
                &&& forall|j: int|
                    0 <= j < b && eligible_target(*targeting, rabbit_id, s, j)
                        ==> better_target(x as int, y as int, s[b as int], #[trigger] s[j])
                &&& forall|j: int|
                    0 <= j < k && eligible_target(*targeting, rabbit_id, s, j)
                        ==> !better_target(x as int, y as int, #[trigger] s[j], s[b as int])
            },
        decreases n - k,
    {
        let d = dandelions[k];
        proof {
            assert(d.wf());
        }
        let claim = targeting.get_targeting_rabbit(d.id);
        let is_eligible = match claim {
            None => true,
            Some(rb) => rb == rabbit_id,
        };
        if is_eligible {
            let d2: i64 = dist_sq_exec(x, y, d.x, d.y);
            let dist: u64 = isqrt(d2 as u64);
            proof {
                assert(dist == target_dist(x as int, y as int, s[k as int]));
                lemma_sqrt_floor_bounds(d2 as nat);
                assert(dist <= 3_000_000) by (nonlinear_arith)
                    requires
                        0 <= dist as int,
                        dist as int * dist as int <= 8_000_000_000_000;
            }
            match best {
                None => {
                    best = Some(k);
                    best_dist = dist;
                },
                Some(b) => {
                    let db = dandelions[b];
                    let bonus_cur: u64 = get_dandelion_size_bonus(d.size) as u64;
                    let bonus_best: u64 = get_dandelion_size_bonus(db.size) as u64;
                    proof {
                        assert(0 <= bonus_cur as int * (best_dist as int + 1) <= 90_000_030
                            && 0 <= bonus_best as int * (dist as int + 1) <= 90_000_030)
                            by (nonlinear_arith)
                            requires
                                10 <= bonus_cur as int <= 30,
                                10 <= bonus_best as int <= 30,
                                0 <= best_dist as int <= 3_000_000,
                                0 <= dist as int <= 3_000_000;
                    }
                    if bonus_cur * (best_dist + 1) > bonus_best * (dist + 1) {
                        proof {
                            let ghost bi = b as int;
                            assert forall|j: int|
                                0 <= j < k && eligible_target(*targeting, rabbit_id, s, j)
                                    implies better_target(
                                        x as int, y as int, s[k as int], #[trigger] s[j],
                                    ) by {
                                if j != bi {
                                    lemma_score_trans(
                                        spec_dandelion_size_bonus(s[k as int].size) as int,
                                        target_dist(x as int, y as int, s[k as int]),
                                        spec_dandelion_size_bonus(s[bi].size) as int,
                                        target_dist(x as int, y as int, s[bi]),
                                        spec_dandelion_size_bonus(s[j].size) as int,
                                        target_dist(x as int, y as int, s[j]),
                                    );
                                }
                            }
                        }
                        best = Some(k);
                        best_dist = dist;
                    }
                },
            }
        }
        k = k + 1;
    }
    match best {
        Some(b) => Some(dandelions[b].id),
        None => find_fallback_dandelion_target(x, y, dandelions),
    }
}

/// Find a fallback target: a uniformly random dandelion within 200 units,
/// or nothing when none is that close.
pub fn find_fallback_dandelion_target(
    x: i32,
    y: i32,
    dandelions: &Vec<Dandelion>,
) -> (r: Option<u64>)
    requires
        in_world(x as int, y as int),
        forall|i: int| 0 <= i < dandelions@.len() ==> (#[trigger] dandelions@[i]).wf(),
        dandelions@.len() <= 1_000_000,
    ensures
        ({
            let s = dandelions@;
            &&& (r is None ==> forall|i: int|
                0 <= i < s.len() ==> !within_dist(x as int, y as int,
                    (#[trigger] s[i]).x as int, s[i].y as int, FALLBACK_RADIUS_TENTHS as int))
            &&& (r matches Some(id) ==> exists|i: int|
                0 <= i < s.len() && (#[trigger] s[i]).id == id
                    && within_dist(x as int, y as int, s[i].x as int, s[i].y as int,
                        FALLBACK_RADIUS_TENTHS as int))
        }),
{
    let ghost s = dandelions@;
    let n = dandelions.len();
    let mut close: Vec<u64> = Vec::new();
    let ghost mut srcs: Seq<int> = Seq::empty();
    let mut k: usize = 0;
    while k < n
        invariant
            s == dandelions@,
            in_world(x as int, y as int),
            forall|i: int| 0 <= i < s.len() ==> (#[trigger] s[i]).wf(),
            n == s.len(),
            k <= n,
            close@.len() <= k,
            srcs.len() == close@.len(),
            forall|p: int|
                0 <= p < close@.len() ==> {
                    let j = #[trigger] srcs[p];
                    &&& 0 <= j < n
                    &&& s[j].id == close@[p]
                    &&& within_dist(x as int, y as int, s[j].x as int, s[j].y as int,
                        FALLBACK_RADIUS_TENTHS as int)
                },
            forall|j: int|
                0 <= j < k && within_dist(x as int, y as int, (#[trigger] s[j]).x as int,
                    s[j].y as int, FALLBACK_RADIUS_TENTHS as int)
                    ==> close@.len() > 0,
        decreases n - k,
    {
        let d = dandelions[k];
        proof {
            assert(d.wf());
        }
        if within_dist_exec(x, y, d.x, d.y, FALLBACK_RADIUS_TENTHS) {
            close.push(d.id);
            proof {
                srcs = srcs.push(k as int);
            }
        }
        k = k + 1;
    }
    if close.len() > 0 {
        let idx = random_index(close.len());
        proof {
            let j = srcs[idx as int];
            assert(s[j].id == close@[idx as int]);
        }
        Some(close[idx])
    } else {
        None
    }
}

/// Whether the registry sequence holds the given entry.
pub open spec fn contains_pair(s: Seq<(u64, u64)>, e: (u64, u64)) -> bool {
    exists|i: int| 0 <= i < s.len() && s[i] == e
}

/// Pushing keeps every entry already present.
proof fn lemma_contains_pair_push(s: Seq<(u64, u64)>, e: (u64, u64), x: (u64, u64))
    requires
        contains_pair(s, x),
    ensures
        contains_pair(s.push(e), x),
{
    let w = choose|w: int| 0 <= w < s.len() && s[w] == x;
    assert(s.push(e)[w] == x);
}

/// The claim registry is injective as a map from dandelion to rabbit: two
/// simultaneous claims on the same dandelion cannot exist.
pub proof fn lemma_claims_exclusive(t: RabbitTargeting, i: int, j: int)
    requires
        t.wf(),
        0 <= i < t.targets@.len(),
        0 <= j < t.targets@.len(),
        i != j,
    ensures
        t.targets@[i].0 != t.targets@[j].0,
{
}

/// Pushing an entry for a fresh key resolves lookups: the new key maps to
/// the new rabbit, other keys are untouched.
proof fn lemma_claim_of_push(s: Seq<(u64, u64)>, key: u64, val: u64, d: u64)
    requires
        claim_of(s, key) is None,
    ensures
        claim_of(s.push((key, val)), d)
            == if d == key { Some(val) } else { claim_of(s, d) },
    decreases s.len(),
{
    if s.len() == 0 {
        assert(s.push((key, val)) =~= seq![(key, val)]);
        assert(s.push((key, val)).drop_first() =~= Seq::<(u64, u64)>::empty());
    } else {
        assert(s.push((key, val)).drop_first() =~= s.drop_first().push((key, val)));
        lemma_claim_of_push(s.drop_first(), key, val, d);
    }
}

/// If no entry carries the key, the lookup misses.
proof fn lemma_claim_of_no_key(s: Seq<(u64, u64)>, d: u64)
    requires
        forall|a: int| 0 <= a < s.len() ==> (#[trigger] s[a]).0 != d,
    ensures
        claim_of(s, d) is None,
    decreases s.len(),
{
    if s.len() > 0 {
        assert(forall|a: int|
            0 <= a < s.drop_first().len() ==> (#[trigger] s.drop_first()[a]).0 != d);
        lemma_claim_of_no_key(s.drop_first(), d);
    }
}

/// A missing key misses every entry.
proof fn lemma_claim_of_absent(s: Seq<(u64, u64)>, d: u64, i: int)
    requires
        claim_of(s, d) is None,
        0 <= i < s.len(),
    ensures
        s[i].0 != d,
    decreases s.len(),
{
    if i > 0 {
        lemma_claim_of_absent(s.drop_first(), d, i - 1);
    }
}

/// Base case helper: lookups in the empty registry miss.
proof fn lemma_claim_of_filter_base(d: u64)
    ensures
        claim_of(Seq::<(u64, u64)>::empty(), d) is None,
{
}

/// Looking a key up in `a + (e :: b)` where `e` does not carry it equals
/// looking it up in `a + b` when the key also misses all of `a`... more
/// precisely, lookups distribute over concatenation.
proof fn lemma_claim_of_concat(a: Seq<(u64, u64)>, b: Seq<(u64, u64)>, d: u64)
    ensures
        claim_of(a + b, d)
            == if claim_of(a, d) is Some { claim_of(a, d) } else { claim_of(b, d) },
    decreases a.len(),
{
    if a.len() == 0 {
        assert(a + b =~= b);
    } else {
        assert((a + b).drop_first() =~= a.drop_first() + b);
        assert((a + b)[0] == a[0]);
        lemma_claim_of_concat(a.drop_first(), b, d);
    }
}

/// Appending to the left block before concatenation, when lookups are
/// taken afterwards.
proof fn lemma_claim_of_concat_push(
    a: Seq<(u64, u64)>, b: Seq<(u64, u64)>, e: (u64, u64), d: u64,
)
    ensures
        claim_of(a.push(e) + b, d) == claim_of(a + (seq![e] + b), d),
{
    assert(a.push(e) + b =~= a + (seq![e] + b));
}

/// Lookup in `a + (e :: b)` seen as three blocks.
proof fn lemma_claim_of_concat_mid(
    a: Seq<(u64, u64)>, e: (u64, u64), b: Seq<(u64, u64)>, d: u64,
)
    ensures
        claim_of(a + (seq![e] + b), d) == if claim_of(a, d) is Some {
            claim_of(a, d)
        } else if e.0 == d {
            Some(e.1)
        } else {
            claim_of(b, d)
        },
{
    lemma_claim_of_concat(a, seq![e] + b, d);
    assert((seq![e] + b)[0] == e);
    assert((seq![e] + b).drop_first() =~= b);
}

/// Stepping a lookup across the element at index `k`.
proof fn lemma_claim_of_skip_step(s: Seq<(u64, u64)>, k: int, d: u64)
    requires
        0 <= k < s.len(),
    ensures
        claim_of(s.skip(k), d) == if s[k].0 == d {
            Some(s[k].1)
        } else {
            claim_of(s.skip(k + 1), d)
        },
{
    assert(s.skip(k).len() > 0);
    assert(s.skip(k)[0] == s[k]);
    assert(s.skip(k).drop_first() =~= s.skip(k + 1));
}

} // verus!
