//! Spawn systems: the repeating dandelion spawn timer, the score-gated
//! variety spawner, and a ring spawner used to exercise fire spread.
//!
//! Spawn positions are drawn uniformly from a safe sub-rectangle of the
//! play area that leaves out the top and bottom interface panels plus an
//! edge margin. Timers tick with the frame delta scaled by the level's
//! spawn-rate multiplier (in tenths).

use vstd::prelude::*;
use crate::field::{Field, MovingDandelion, MAX_DANDELIONS, calculate_max_health,
    spec_scaled_health};
use crate::geom::in_world;
use crate::rng::random_point_in_rect;
use crate::tiers::DandelionSize;
use crate::timer::Countdown;

verus! {

/// Seconds between ordinary spawns, as a millisecond period.
pub const DANDELION_SPAWN_PERIOD_MS: u32 = 2000;

/// Seconds between variety spawns, as a millisecond period.
pub const VARIETY_SPAWN_PERIOD_MS: u32 = 10_000;

/// Default score at which variety spawning switches on.
pub const DEFAULT_DIFFICULTY_THRESHOLD: u32 = 500;

/// Margin kept from the play-area edges when placing spawns, in units.
pub const SPAWN_EDGE_MARGIN: i32 = 30;

/// Timer resource for spawning dandelions.
pub struct DandelionSpawnTimer {
    pub timer: Countdown,
}

impl DandelionSpawnTimer {
    pub fn new() -> (r: DandelionSpawnTimer)
        ensures
            r.timer == (Countdown {
                remaining_ms: DANDELION_SPAWN_PERIOD_MS,
                duration_ms: DANDELION_SPAWN_PERIOD_MS,
                repeating: true,
            }),
            r.timer.wf(),
    {
        DandelionSpawnTimer { timer: Countdown::new_repeating(DANDELION_SPAWN_PERIOD_MS) }
    }
}

/// Timer resource for spawning a variety of dandelions once the score
/// crosses the difficulty threshold.
pub struct VarietySpawnTimer {
    pub timer: Countdown,
    pub enabled: bool,
    pub difficulty_threshold: u32,
}

impl VarietySpawnTimer {
    pub fn new() -> (r: VarietySpawnTimer)
        ensures
            r.timer == (Countdown {
                remaining_ms: VARIETY_SPAWN_PERIOD_MS,
                duration_ms: VARIETY_SPAWN_PERIOD_MS,
                repeating: true,
            }),
            r.timer.wf(),
            !r.enabled,
            r.difficulty_threshold == DEFAULT_DIFFICULTY_THRESHOLD,
    {
        VarietySpawnTimer {
            timer: Countdown::new_repeating(VARIETY_SPAWN_PERIOD_MS),
            enabled: false,
            difficulty_threshold: DEFAULT_DIFFICULTY_THRESHOLD,
        }
    }
}

/// The frame delta scaled by the spawn-rate multiplier in tenths, capped
/// at the timer range.
pub open spec fn spec_scaled_delta(dt_ms: u32, multiplier_tenths: u32) -> u32 {
    let raw = dt_ms * multiplier_tenths / 10;
    if raw <= u32::MAX as int {
        raw as u32
    } else {
        u32::MAX
    }
}

/// Scale the frame delta by the spawn-rate multiplier (tenths).
pub fn scaled_delta(dt_ms: u32, multiplier_tenths: u32) -> (r: u32)
    requires
        1 <= multiplier_tenths <= 1000,
    ensures
        r == spec_scaled_delta(dt_ms, multiplier_tenths),
{
    proof {
        assert(0 <= dt_ms as int * multiplier_tenths as int <= 0xFFFF_FFFF * 1000)
            by (nonlinear_arith)
            requires 0 <= dt_ms as int <= 0xFFFF_FFFF, 0 <= multiplier_tenths as int <= 1000;
        vstd::arithmetic::div_mod::lemma_div_pos_is_pos(
            dt_ms as int * multiplier_tenths as int, 10,
        );
    }
    let raw: u64 = dt_ms as u64 * multiplier_tenths as u64 / 10;
    if raw <= u32::MAX as u64 {
        raw as u32
    } else {
        u32::MAX
    }
}

/// The safe spawn rectangle for a window of the given size: the window is
/// centered on the origin, the top 12% and bottom 8% belong to interface
/// panels, and an edge margin is kept all around. Returns
/// `(min_x, min_y, max_x, max_y)`.
pub open spec fn spec_safe_rect(width: u32, height: u32) -> (int, int, int, int) {
    let min_x = -(width as int / 2) + SPAWN_EDGE_MARGIN as int;
    let max_x = width as int / 2 - SPAWN_EDGE_MARGIN as int;
    let min_y = -(height as int / 2) + height as int * 8 / 100 + SPAWN_EDGE_MARGIN as int;
    let max_y = height as int / 2 - height as int * 12 / 100 - SPAWN_EDGE_MARGIN as int;
    (min_x, min_y, max_x, max_y)
}

impl Field {
    /// Spawn one Tiny dandelion at a uniformly random point of the safe
    /// rectangle whenever the repeating spawn timer (scaled by the level's
    /// spawn-rate multiplier) fires. A window too small to hold the safe
    /// rectangle spawns nothing.
    pub fn spawn_dandelions(
        &mut self,
        spawn_timer: &mut DandelionSpawnTimer,
        dt_ms: u32,
        spawn_rate_multiplier_tenths: u32,
        health_multiplier_tenths: u32,
        width: u32,
        height: u32,
    ) -> (spawned: bool)
        requires
            old(self).wf(),
            old(spawn_timer).timer.wf(),
            1 <= spawn_rate_multiplier_tenths <= 1000,
            1 <= health_multiplier_tenths <= 1000,
            width <= 1_000_000,
            height <= 1_000_000,
            old(self).dandelions@.len() < MAX_DANDELIONS,
            old(self).next_id < u64::MAX,
        ensures
            final(self).wf(),
            final(spawn_timer).timer.wf(),
            final(spawn_timer).timer == old(spawn_timer).timer.spec_tick(
                spec_scaled_delta(dt_ms, spawn_rate_multiplier_tenths)),
            final(self).seed_orbs@ == old(self).seed_orbs@,
            ({
                let fired = old(spawn_timer).timer.spec_fires(
                    spec_scaled_delta(dt_ms, spawn_rate_multiplier_tenths));
                let rect = spec_safe_rect(width, height);
                &&& spawned == (fired && rect.0 < rect.2 && rect.1 < rect.3)
                &&& !spawned ==> final(self).dandelions@ == old(self).dandelions@
                    && final(self).next_id == old(self).next_id
                    && final(self).area_tracker == old(self).area_tracker
                &&& spawned ==> ({
                    let d = final(self).dandelions@.last();
                    &&& final(self).dandelions@
                        == old(self).dandelions@.push(final(self).dandelions@.last())
                    &&& d.id == old(self).next_id
                    &&& final(self).next_id == old(self).next_id + 1
                    &&& d.size == DandelionSize::Tiny
                    &&& d.health == spec_scaled_health(
                        DandelionSize::Tiny, health_multiplier_tenths)
                    &&& d.moving is None
                    &&& d.cooldown_ms == 0
                    &&& (rect.0 <= d.x as int) && ((d.x as int) < rect.2)
                    &&& (rect.1 <= d.y as int) && ((d.y as int) < rect.3)
                })
            }),
    {
        let adjusted = scaled_delta(dt_ms, spawn_rate_multiplier_tenths);
        let fired = spawn_timer.timer.tick(adjusted);
        if !fired {
            return false;
        }
        let min_x: i64 = -(width as i64 / 2) + SPAWN_EDGE_MARGIN as i64;
        let max_x: i64 = width as i64 / 2 - SPAWN_EDGE_MARGIN as i64;
        let min_y: i64 = -(height as i64 / 2) + (height as i64) * 8 / 100
            + SPAWN_EDGE_MARGIN as i64;
        let max_y: i64 = height as i64 / 2 - (height as i64) * 12 / 100
            - SPAWN_EDGE_MARGIN as i64;
        if !(min_x < max_x && min_y < max_y) {
            return false;
        }
        let p: (i64, i64) = random_point_in_rect(min_x, max_x, min_y, max_y);
        proof {
            vstd::arithmetic::div_mod::lemma_div_is_ordered(
                height as int * 8, 8_000_000, 100,
            );
            vstd::arithmetic::div_mod::lemma_div_is_ordered(
                height as int * 12, 12_000_000, 100,
            );
            vstd::arithmetic::div_mod::lemma_div_pos_is_pos(height as int * 8, 100);
            vstd::arithmetic::div_mod::lemma_div_pos_is_pos(height as int * 12, 100);
            assert(0 <= height as int * 8 <= 8_000_000
                && 0 <= height as int * 12 <= 12_000_000) by (nonlinear_arith)
                requires 0 <= height as int <= 1_000_000;
        }
        let x = p.0 as i32;
        let y = p.1 as i32;
        let health = calculate_max_health(DandelionSize::Tiny, health_multiplier_tenths);
        let ok = self.spawn_dandelion(x, y, health, DandelionSize::Tiny, None);
        proof {
            assert(ok);
        }
        true
    }

    /// Once the score crosses the difficulty threshold the variety spawner
    /// switches on; from then on, whenever its timer fires, it spawns one
    /// dandelion of every tier at random safe positions, the Huge one
    /// moving.
    pub fn spawn_variety_dandelions(
        &mut self,
        variety_timer: &mut VarietySpawnTimer,
        score: u32,
        dt_ms: u32,
        spawn_rate_multiplier_tenths: u32,
        health_multiplier_tenths: u32,
        width: u32,
        height: u32,
    ) -> (spawned: bool)
        requires
            old(self).wf(),
            old(variety_timer).timer.wf(),
            1 <= spawn_rate_multiplier_tenths <= 1000,
            1 <= health_multiplier_tenths <= 1000,
            width <= 1_000_000,
            height <= 1_000_000,
            old(self).dandelions@.len() + 5 <= MAX_DANDELIONS,
            old(self).next_id + 5 <= u64::MAX,
        ensures
            final(self).wf(),
            final(variety_timer).timer.wf(),
            final(self).seed_orbs@ == old(self).seed_orbs@,
            final(variety_timer).enabled
                == (old(variety_timer).enabled || score >= old(variety_timer).difficulty_threshold),
            final(variety_timer).difficulty_threshold
                == old(variety_timer).difficulty_threshold,
            !final(variety_timer).enabled ==> final(self).dandelions@ == old(self).dandelions@
                && final(self).next_id == old(self).next_id
                && final(variety_timer).timer == old(variety_timer).timer,
            ({
                let fired = old(variety_timer).timer.spec_fires(
                    spec_scaled_delta(dt_ms, spawn_rate_multiplier_tenths));
                let rect = spec_safe_rect(width, height);
                let on = old(variety_timer).enabled
                    || score >= old(variety_timer).difficulty_threshold;
                &&& spawned == (on && fired && rect.0 < rect.2 && rect.1 < rect.3)
                &&& !spawned ==> final(self).dandelions@ == old(self).dandelions@
                    && final(self).next_id == old(self).next_id
                &&& spawned ==> ({
                    &&& final(self).dandelions@.len() == old(self).dandelions@.len() + 5
                    &&& final(self).dandelions@.subrange(0, old(self).dandelions@.len() as int)
                        == old(self).dandelions@
                    &&& final(self).next_id == old(self).next_id + 5
                    &&& forall|m: int|
                        0 <= m < 5 ==> {
                            let d = #[trigger] final(self).dandelions@[
                                old(self).dandelions@.len() + m];
                            &&& d.id == old(self).next_id + m
                            &&& d.size == spec_variety_tier(m)
                            &&& d.health == spec_scaled_health(
                                spec_variety_tier(m), health_multiplier_tenths)
                            &&& (d.moving is Some <==> d.size == DandelionSize::Huge)
                            &&& (rect.0 <= d.x as int) && ((d.x as int) < rect.2)
                            &&& (rect.1 <= d.y as int) && ((d.y as int) < rect.3)
                        }
                })
            }),
    {
        if !variety_timer.enabled && score >= variety_timer.difficulty_threshold {
            variety_timer.enabled = true;
        }
        if !variety_timer.enabled {
            return false;
        }
        let adjusted = scaled_delta(dt_ms, spawn_rate_multiplier_tenths);
        let fired = variety_timer.timer.tick(adjusted);
        if !fired {
            return false;
        }
        let min_x: i64 = -(width as i64 / 2) + SPAWN_EDGE_MARGIN as i64;
        let max_x: i64 = width as i64 / 2 - SPAWN_EDGE_MARGIN as i64;
        let min_y: i64 = -(height as i64 / 2) + (height as i64) * 8 / 100
            + SPAWN_EDGE_MARGIN as i64;
        let max_y: i64 = height as i64 / 2 - (height as i64) * 12 / 100
            - SPAWN_EDGE_MARGIN as i64;
        if !(min_x < max_x && min_y < max_y) {
            return false;
        }
        proof {
            vstd::arithmetic::div_mod::lemma_div_is_ordered(
                height as int * 8, 8_000_000, 100,
            );
            vstd::arithmetic::div_mod::lemma_div_is_ordered(
                height as int * 12, 12_000_000, 100,
            );
            vstd::arithmetic::div_mod::lemma_div_pos_is_pos(height as int * 8, 100);
            vstd::arithmetic::div_mod::lemma_div_pos_is_pos(height as int * 12, 100);
            assert(0 <= height as int * 8 <= 8_000_000
                && 0 <= height as int * 12 <= 12_000_000) by (nonlinear_arith)
                requires 0 <= height as int <= 1_000_000;
        }
        let mut m: usize = 0;
        while m < 5
            invariant
                old(self).wf(),
                self.wf(),
                1 <= health_multiplier_tenths <= 1000,
                old(self).dandelions@.len() + 5 <= MAX_DANDELIONS,
                old(self).next_id + 5 <= u64::MAX,
                m <= 5,
                self.seed_orbs@ == old(self).seed_orbs@,
                self.dandelions@.len() == old(self).dandelions@.len() + m,
                self.dandelions@.subrange(0, old(self).dandelions@.len() as int)
                    == old(self).dandelions@,
                self.next_id == old(self).next_id + m,
                -(1_000_000 as int) <= min_x as int,
                (min_x as int) < max_x as int,
                max_x as int <= 1_000_000,
                -(1_000_000 as int) <= min_y as int,
                (min_y as int) < max_y as int,
                max_y as int <= 1_000_000,
                min_x as int == spec_safe_rect(width, height).0,
                min_y as int == spec_safe_rect(width, height).1,
                max_x as int == spec_safe_rect(width, height).2,
                max_y as int == spec_safe_rect(width, height).3,
                forall|q: int|
                    0 <= q < m ==> {
                        let d = #[trigger] self.dandelions@[old(self).dandelions@.len() + q];
                        &&& d.id == old(self).next_id + q
                        &&& d.size == spec_variety_tier(q)
                        &&& d.health == spec_scaled_health(
                            spec_variety_tier(q), health_multiplier_tenths)
                        &&& (d.moving is Some <==> d.size == DandelionSize::Huge)
                        &&& (min_x <= d.x as int) && ((d.x as int) < max_x)
                        &&& (min_y <= d.y as int) && ((d.y as int) < max_y)
                    },
            decreases 5 - m,
        {
            let size = variety_tier(m);
            let p: (i64, i64) = random_point_in_rect(min_x, max_x, min_y, max_y);
            let x = p.0 as i32;
            let y = p.1 as i32;
            let health = calculate_max_health(size, health_multiplier_tenths);
            let moving: Option<MovingDandelion> = if size == DandelionSize::Huge {
                Some(MovingDandelion::new_random(50))
            } else {
                None
            };
            let ghost before = self.dandelions@;
            let ok = self.spawn_dandelion(x, y, health, size, moving);
            proof {
                assert(ok);
                assert(self.dandelions@.subrange(0, old(self).dandelions@.len() as int)
                    =~= old(self).dandelions@);
            }
            m = m + 1;
        }
        true
    }

    /// Spawn a ring of twelve Tiny dandelions (health one) around a
    /// center, at roughly one hundred units' radius.
    pub fn spawn_dandelion_ring(&mut self, x: i32, y: i32)
        requires
            old(self).wf(),
            -(1_000_000 - 100 as int) <= x as int <= 1_000_000 - 100,
            -(1_000_000 - 100 as int) <= y as int <= 1_000_000 - 100,
            old(self).dandelions@.len() + 12 <= MAX_DANDELIONS,
            old(self).next_id + 12 <= u64::MAX,
        ensures
            final(self).wf(),
            final(self).seed_orbs@ == old(self).seed_orbs@,
            final(self).dandelions@.len() == old(self).dandelions@.len() + 12,
            final(self).dandelions@.subrange(0, old(self).dandelions@.len() as int)
                == old(self).dandelions@,
            final(self).next_id == old(self).next_id + 12,
            forall|m: int|
                0 <= m < 12 ==> {
                    let d = #[trigger] final(self).dandelions@[old(self).dandelions@.len() + m];
                    &&& d.id == old(self).next_id + m
                    &&& d.size == DandelionSize::Tiny
                    &&& d.health == 1
                    &&& d.x as int == x + spec_ring_offset(m).0
                    &&& d.y as int == y + spec_ring_offset(m).1
                },
    {
        let mut m: usize = 0;
        while m < 12
            invariant
                old(self).wf(),
                self.wf(),
                -(1_000_000 - 100 as int) <= x as int <= 1_000_000 - 100,
                -(1_000_000 - 100 as int) <= y as int <= 1_000_000 - 100,
                old(self).dandelions@.len() + 12 <= MAX_DANDELIONS,
                old(self).next_id + 12 <= u64::MAX,
                m <= 12,
                self.seed_orbs@ == old(self).seed_orbs@,
                self.dandelions@.len() == old(self).dandelions@.len() + m,
                self.dandelions@.subrange(0, old(self).dandelions@.len() as int)
                    == old(self).dandelions@,
                self.next_id == old(self).next_id + m,
                forall|q: int|
                    0 <= q < m ==> {
                        let d = #[trigger] self.dandelions@[old(self).dandelions@.len() + q];
                        &&& d.id == old(self).next_id + q
                        &&& d.size == DandelionSize::Tiny
                        &&& d.health == 1
                        &&& d.x as int == x + spec_ring_offset(q).0
                        &&& d.y as int == y + spec_ring_offset(q).1
                    },
            decreases 12 - m,
        {
            let off = ring_offset(m);
            let ok = self.spawn_dandelion(
                x + off.0, y + off.1, 1, DandelionSize::Tiny, None,
            );
            proof {
                assert(ok);
                assert(self.dandelions@.subrange(0, old(self).dandelions@.len() as int)
                    =~= old(self).dandelions@);
            }
            m = m + 1;
        }
    }
}

/// The tier spawned at position `m` of a variety pack.
pub open spec fn spec_variety_tier(m: int) -> DandelionSize {
    if m == 0 {
        DandelionSize::Tiny
    } else if m == 1 {
        DandelionSize::Small
    } else if m == 2 {
        DandelionSize::Medium
    } else if m == 3 {
        DandelionSize::Large
    } else {
        DandelionSize::Huge
    }
}

/// The tier spawned at position `m` of a variety pack.
fn variety_tier(m: usize) -> (r: DandelionSize)
    requires
        m < 5,
    ensures
        r == spec_variety_tier(m as int),
{
    if m == 0 {
        DandelionSize::Tiny
    } else if m == 1 {
        DandelionSize::Small
    } else if m == 2 {
        DandelionSize::Medium
    } else if m == 3 {
        DandelionSize::Large
    } else {
        DandelionSize::Huge
    }
}

/// Offsets of the twelve ring positions: every thirty degrees around a
/// hundred-unit circle, with the off-axis legs rounded to whole units.
pub open spec fn spec_ring_offset(m: int) -> (int, int) {
    if m == 0 {
        (100, 0)
    } else if m == 1 {
        (87, 50)
    } else if m == 2 {
        (50, 87)
    } else if m == 3 {
        (0, 100)
    } else if m == 4 {
        (-50, 87)
    } else if m == 5 {
        (-87, 50)
    } else if m == 6 {
        (-100, 0)
    } else if m == 7 {
        (-87, -50)
    } else if m == 8 {
        (-50, -87)
    } else if m == 9 {
        (0, -100)
    } else if m == 10 {
        (50, -87)
    } else {
        (87, -50)
    }
}

/// Offsets of the twelve ring positions.
fn ring_offset(m: usize) -> (r: (i32, i32))
    requires
        m < 12,
    ensures
        r.0 as int == spec_ring_offset(m as int).0,
        r.1 as int == spec_ring_offset(m as int).1,
        -100 <= r.0 <= 100,
        -100 <= r.1 <= 100,
{
    if m == 0 {
        (100, 0)
    } else if m == 1 {
        (87, 50)
    } else if m == 2 {
        (50, 87)
    } else if m == 3 {
        (0, 100)
    } else if m == 4 {
        (-50, 87)
    } else if m == 5 {
        (-87, 50)
    } else if m == 6 {
        (-100, 0)
    } else if m == 7 {
        (-87, -50)
    } else if m == 8 {
        (-50, -87)
    } else if m == 9 {
        (0, -100)
    } else if m == 10 {
        (50, -87)
    } else {
        (87, -50)
    }
}

} // verus!
