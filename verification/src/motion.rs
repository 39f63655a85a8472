//! Per-tick motion systems: upgrade cooldowns, moving Huge dandelions with
//! their bounce-and-clamp behaviour, collision upgrades, and seed orbs in
//! flight.

use vstd::prelude::*;
use crate::field::{
    Field, Dandelion, SeedOrb, MovingDandelion, MAX_DANDELIONS, lemma_area_sum_same_sizes,
    lemma_area_sum_bounds, spec_scaled_health, calculate_max_health,
};
use crate::geom::{in_world, within_dist, within_dist_exec, trunc_div, trunc_div_i64, POS_LIMIT};
use crate::math::sqrt_floor;
use crate::rng::random_offset_with_magnitude;
use crate::tiers::DandelionSize;
use crate::timer::Countdown;

verus! {

/// Upgrade cooldown applied after a collision upgrade, in milliseconds.
pub const UPGRADE_COOLDOWN_MS: u32 = 1000;

/// How many collision upgrades one tick may perform at most.
pub const MAX_UPGRADES_PER_TICK: usize = 10;

/// Seed orb flight speed, in world units per second.
pub const SEED_ORB_SPEED: u32 = 150;

/// The exact transition of a moving dandelion on a tick whose heading
/// timer does not fire: the heading-change timer ticks down, the position
/// advances by `velocity * dt / 1000` (truncated) and is clamped into the
/// walls, and a velocity component whose raw step crossed a wall has its
/// sign flipped (the bounce).
pub open spec fn spec_mover_advanced(
    d: Dandelion, dt: u32, min_x: int, min_y: int, max_x: int, max_y: int,
) -> Dandelion
    recommends
        d.moving is Some,
{
    let mv = d.moving->0;
    let raw_x = d.x + trunc_div(mv.vx * dt, 1000);
    let raw_y = d.y + trunc_div(mv.vy * dt, 1000);
    let vx2: i32 = if raw_x < min_x || raw_x > max_x { (-(mv.vx as int)) as i32 } else { mv.vx };
    let vy2: i32 = if raw_y < min_y || raw_y > max_y { (-(mv.vy as int)) as i32 } else { mv.vy };
    Dandelion {
        x: crate::geom::clamp_int(raw_x, min_x, max_x) as i32,
        y: crate::geom::clamp_int(raw_y, min_y, max_y) as i32,
        moving: Some(MovingDandelion {
            vx: vx2,
            vy: vy2,
            speed: mv.speed,
            direction_timer: mv.direction_timer.spec_tick(dt),
        }),
        ..d
    }
}

impl Field {
    /// Tick down every dandelion's upgrade cooldown.
    pub fn update_upgrade_cooldowns(&mut self, dt_ms: u32)
        requires
            old(self).wf(),
        ensures
            final(self).wf(),
            final(self).seed_orbs@ == old(self).seed_orbs@,
            final(self).area_tracker == old(self).area_tracker,
            final(self).next_id == old(self).next_id,
            final(self).dandelions@.len() == old(self).dandelions@.len(),
            forall|i: int|
                0 <= i < old(self).dandelions@.len()
                    ==> #[trigger] final(self).dandelions@[i] == (Dandelion {
                        cooldown_ms: if old(self).dandelions@[i].cooldown_ms >= dt_ms {
                            (old(self).dandelions@[i].cooldown_ms - dt_ms) as u32
                        } else {
                            0
                        },
                        ..old(self).dandelions@[i]
                    }),
    {
        let ghost s = old(self).dandelions@;
        let n = self.dandelions.len();
        let mut k: usize = 0;
        while k < n
            invariant
                old(self).wf(),
                s == old(self).dandelions@,
                self.seed_orbs@ == old(self).seed_orbs@,
                self.area_tracker == old(self).area_tracker,
                self.next_id == old(self).next_id,
                n == s.len(),
                k <= n,
                self.dandelions@.len() == n,
                forall|i: int|
                    0 <= i < k ==> #[trigger] self.dandelions@[i] == (Dandelion {
                        cooldown_ms: if s[i].cooldown_ms >= dt_ms {
                            (s[i].cooldown_ms - dt_ms) as u32
                        } else {
                            0
                        },
                        ..s[i]
                    }),
                forall|i: int| k <= i < n ==> #[trigger] self.dandelions@[i] == s[i],
            decreases n - k,
        {
            let d = self.dandelions[k];
            let nc: u32 = if d.cooldown_ms >= dt_ms { d.cooldown_ms - dt_ms } else { 0 };
            self.dandelions.set(k, Dandelion { cooldown_ms: nc, ..d });
            k = k + 1;
        }
        proof {
            lemma_area_sum_same_sizes(self.dandelions@, s);
        }
    }

    /// Move every moving (Huge) dandelion: tick its heading-change timer
    /// (drawing a fresh random heading when it fires), advance by its
    /// velocity, flip the velocity on the play-area walls and clamp the
    /// position inside them. Everything but position and movement state is
    /// untouched.
    pub fn update_moving_dandelions(
        &mut self, dt_ms: u32, min_x: i32, min_y: i32, max_x: i32, max_y: i32,
    )
        requires
            old(self).wf(),
            -(POS_LIMIT as int) <= min_x as int <= max_x as int <= POS_LIMIT as int,
            -(POS_LIMIT as int) <= min_y as int <= max_y as int <= POS_LIMIT as int,
        ensures
            final(self).wf(),
            final(self).seed_orbs@ == old(self).seed_orbs@,
            final(self).area_tracker == old(self).area_tracker,
            final(self).next_id == old(self).next_id,
            final(self).dandelions@.len() == old(self).dandelions@.len(),
            forall|i: int|
                0 <= i < old(self).dandelions@.len() ==> {
                    let a = old(self).dandelions@[i];
                    let b = #[trigger] final(self).dandelions@[i];
                    &&& b.id == a.id
                    &&& b.size == a.size
                    &&& b.health == a.health
                    &&& b.cooldown_ms == a.cooldown_ms
                    &&& (a.moving is None ==> b == a)
                    &&& (a.moving is Some && !a.moving->0.direction_timer.spec_fires(dt_ms)
                        ==> b == spec_mover_advanced(
                            a, dt_ms, min_x as int, min_y as int, max_x as int, max_y as int))
                    &&& (a.moving is Some && a.moving->0.direction_timer.spec_fires(dt_ms)
                        ==> b.moving is Some && ({
                            let w = b.moving->0;
                            &&& min_x <= b.x <= max_x && min_y <= b.y <= max_y
                            &&& w.speed == a.moving->0.speed
                            &&& w.direction_timer == a.moving->0.direction_timer.spec_tick(dt_ms)
                            &&& w.vx * w.vx + w.vy * w.vy <= w.speed * w.speed
                            &&& w.vx * w.vx + w.vy * w.vy
                                >= w.speed * w.speed - 2 * w.speed
                        }))
                },
    {
        let ghost s = old(self).dandelions@;
        let n = self.dandelions.len();
        let mut k: usize = 0;
        while k < n
            invariant
                old(self).wf(),
                s == old(self).dandelions@,
                self.seed_orbs@ == old(self).seed_orbs@,
                self.area_tracker == old(self).area_tracker,
                self.next_id == old(self).next_id,
                -(POS_LIMIT as int) <= min_x as int <= max_x as int <= POS_LIMIT as int,
                -(POS_LIMIT as int) <= min_y as int <= max_y as int <= POS_LIMIT as int,
                n == s.len(),
                k <= n,
                self.dandelions@.len() == n,
                forall|i: int|
                    0 <= i < self.dandelions@.len() ==> (#[trigger] self.dandelions@[i]).wf(),
                forall|i: int|
                    0 <= i < k ==> {
                        let a = s[i];
                        let b = #[trigger] self.dandelions@[i];
                        &&& b.id == a.id
                        &&& b.size == a.size
                        &&& b.health == a.health
                        &&& b.cooldown_ms == a.cooldown_ms
                        &&& (a.moving is None ==> b == a)
                        &&& (a.moving is Some && !a.moving->0.direction_timer.spec_fires(dt_ms)
                            ==> b == spec_mover_advanced(
                                a, dt_ms, min_x as int, min_y as int,
                                max_x as int, max_y as int))
                        &&& (a.moving is Some && a.moving->0.direction_timer.spec_fires(dt_ms)
                            ==> b.moving is Some && ({
                                let w = b.moving->0;
                                &&& min_x <= b.x <= max_x && min_y <= b.y <= max_y
                                &&& w.speed == a.moving->0.speed
                                &&& w.direction_timer
                                    == a.moving->0.direction_timer.spec_tick(dt_ms)
                                &&& w.vx * w.vx + w.vy * w.vy <= w.speed * w.speed
                                &&& w.vx * w.vx + w.vy * w.vy
                                    >= w.speed * w.speed - 2 * w.speed
                            }))
                    },
                forall|i: int| k <= i < n ==> #[trigger] self.dandelions@[i] == s[i],
            decreases n - k,
        {
            let d = self.dandelions[k];
            match d.moving {
                None => {},
                Some(mv) => {
                    proof {
                        assert(d.wf());
                        assert(mv.wf());
                    }
                    let mut moving = mv;
                    let fired = moving.direction_timer.tick(dt_ms);
                    let ghost mut drawn: (i64, i64) = (0, 0);
                    if fired {
                        let v: (i64, i64) = random_offset_with_magnitude(moving.speed as i64);
                        proof {
                            drawn = v;
                        }
                        moving.vx = v.0 as i32;
                        moving.vy = v.1 as i32;
                    }
                    // Advance: velocity is units per second, dt is ms.
                    proof {
                        assert(-1000 <= moving.vx <= 1000 && -1000 <= moving.vy <= 1000);
                        assert(-0x2000_0000_0000_0000 <= moving.vx as int * dt_ms as int
                            <= 0x2000_0000_0000_0000
                            && -0x2000_0000_0000_0000 <= moving.vy as int * dt_ms as int
                                <= 0x2000_0000_0000_0000) by (nonlinear_arith)
                            requires
                                -1000 <= moving.vx as int <= 1000,
                                -1000 <= moving.vy as int <= 1000,
                                0 <= dt_ms as int <= 0xFFFF_FFFF;
                    }
                    let step_x: i64 = trunc_div_i64(moving.vx as i64 * dt_ms as i64, 1000);
                    let step_y: i64 = trunc_div_i64(moving.vy as i64 * dt_ms as i64, 1000);
                    let raw_x: i64 = d.x as i64 + step_x;
                    let raw_y: i64 = d.y as i64 + step_y;
                    // Bounce off the walls, then clamp inside them.
                    if raw_x < min_x as i64 || raw_x > max_x as i64 {
                        moving.vx = -moving.vx;
                    }
                    if raw_y < min_y as i64 || raw_y > max_y as i64 {
                        moving.vy = -moving.vy;
                    }
                    let nx: i32 = if raw_x < min_x as i64 {
                        min_x
                    } else if raw_x > max_x as i64 {
                        max_x
                    } else {
                        raw_x as i32
                    };
                    let ny: i32 = if raw_y < min_y as i64 {
                        min_y
                    } else if raw_y > max_y as i64 {
                        max_y
                    } else {
                        raw_y as i32
                    };
                    let nd = Dandelion { x: nx, y: ny, moving: Some(moving), ..d };
                    proof {
                        if !fired {
                            assert(nd == spec_mover_advanced(
                                s[k as int], dt_ms,
                                min_x as int, min_y as int, max_x as int, max_y as int,
                            ));
                        } else {
                            let w = nd.moving->0;
                            assert(w.vx * w.vx + w.vy * w.vy <= w.speed * w.speed
                                && w.vx * w.vx + w.vy * w.vy
                                    >= w.speed * w.speed - 2 * w.speed) by (nonlinear_arith)
                                requires
                                    w.vx as int == drawn.0 || w.vx as int == -drawn.0,
                                    w.vy as int == drawn.1 || w.vy as int == -drawn.1,
                                    drawn.0 * drawn.0 + drawn.1 * drawn.1
                                        <= w.speed * w.speed,
                                    drawn.0 * drawn.0 + drawn.1 * drawn.1
                                        >= w.speed * w.speed - 2 * w.speed;
                        }
                        lemma_area_sum_same_sizes(
                            self.dandelions@.update(k as int, nd), self.dandelions@,
                        );
                    }
                    self.dandelions.set(k, nd);
                },
            }
            k = k + 1;
        }
        proof {
            lemma_area_sum_same_sizes(self.dandelions@, s);
        }
    }

    /// Upgrade every stationary dandelion that a moving Huge dandelion
    /// overlaps: one tier up (health untouched), an upgrade cooldown is
    /// applied, and a dandelion that reaches Huge starts moving. Movers are
    /// snapshotted before any upgrade, and at most
    /// `MAX_UPGRADES_PER_TICK` upgrades are performed per call.
    pub fn check_moving_dandelion_collisions(&mut self) -> (upgrades: usize)
        requires
            old(self).wf(),
        ensures
            final(self).wf(),
            final(self).seed_orbs@ == old(self).seed_orbs@,
            final(self).next_id == old(self).next_id,
            final(self).dandelions@.len() == old(self).dandelions@.len(),
            upgrades <= MAX_UPGRADES_PER_TICK,
            // The counter is exact: exactly `upgrades` entries changed.
            count_changed(old(self).dandelions@, final(self).dandelions@,
                old(self).dandelions@.len() as int) == upgrades,
            // Completeness: unless the per-tick cap cut the pass short,
            // every overlapped, cooldown-free candidate was upgraded.
            upgrades < MAX_UPGRADES_PER_TICK ==> forall|i: int, j: int|
                0 <= i < old(self).dandelions@.len()
                    && 0 <= j < old(self).dandelions@.len()
                    && is_huge_mover(#[trigger] old(self).dandelions@[j])
                    && mover_candidate(old(self).dandelions@, i,
                        old(self).dandelions@[j].x as int, old(self).dandelions@[j].y as int)
                    ==> #[trigger] final(self).dandelions@[i] != old(self).dandelions@[i],
            forall|i: int|
                0 <= i < old(self).dandelions@.len() ==> {
                    let a = old(self).dandelions@[i];
                    let b = #[trigger] final(self).dandelions@[i];
                    &&& b.id == a.id
                    &&& b.x == a.x && b.y == a.y
                    &&& b.health == a.health
                    &&& (b == a || {
                        &&& a.size.spec_next_size() matches Some(ns)
                        &&& b.size == a.size.spec_next_size()->Some_0
                        &&& b.cooldown_ms == UPGRADE_COOLDOWN_MS
                        &&& a.moving is None
                        &&& a.cooldown_ms == 0
                        &&& (b.moving is Some <==> b.size == DandelionSize::Huge)
                        &&& exists|j: int|
                            0 <= j < old(self).dandelions@.len()
                                && is_huge_mover(#[trigger] old(self).dandelions@[j])
                                && within_dist(
                                    old(self).dandelions@[j].x as int,
                                    old(self).dandelions@[j].y as int,
                                    a.x as int,
                                    a.y as int,
                                    440 + a.size.spec_collision_radius(),
                                )
                    })
                },
    {
        let ghost s = old(self).dandelions@;
        let n = self.dandelions.len();

        // Snapshot the moving Huge dandelions before any upgrade.
        let mut movers: Vec<(i32, i32)> = Vec::new();
        let ghost mut msrc: Seq<int> = Seq::empty();
        let ghost mut midx: Map<int, int> = Map::empty();
        let mut k: usize = 0;
        while k < n
            invariant
                old(self).wf(),
                s == old(self).dandelions@,
                self.dandelions@ == s,
                n == s.len(),
                k <= n,
                msrc.len() == movers@.len(),
                forall|p: int|
                    0 <= p < movers@.len() ==> {
                        let j = #[trigger] msrc[p];
                        &&& 0 <= j < n
                        &&& is_huge_mover(s[j])
                        &&& s[j].x == movers@[p].0
                        &&& s[j].y == movers@[p].1
                    },
                forall|j: int|
                    0 <= j < k && is_huge_mover(#[trigger] s[j]) ==> {
                        &&& midx.dom().contains(j)
                        &&& 0 <= midx[j] < movers@.len()
                        &&& movers@[midx[j]].0 == s[j].x
                        &&& movers@[midx[j]].1 == s[j].y
                    },
            decreases n - k,
        {
            let ghost movers_before = movers@;
            let d = self.dandelions[k];
            let is_mover = match d.moving {
                Some(_) => true,
                None => false,
            };
            if is_mover && d.size == DandelionSize::Huge {
                movers.push((d.x, d.y));
                proof {
                    msrc = msrc.push(k as int);
                    midx = midx.insert(k as int, movers@.len() - 1);
                    assert(msrc[msrc.len() - 1] == k as int);
                    assert(movers@[movers@.len() - 1] == (d.x, d.y));
                    assert forall|j: int| 0 <= j < k + 1 && is_huge_mover(#[trigger] s[j])
                        implies {
                            &&& midx.dom().contains(j)
                            &&& 0 <= midx[j] < movers@.len()
                            &&& movers@[midx[j]].0 == s[j].x
                            &&& movers@[midx[j]].1 == s[j].y
                        } by {
                        if j < k as int {
                            assert(movers@[midx[j]] == movers_before[midx[j]]);
                        }
                    }
                }
            }
            k = k + 1;
        }

        let mut upgrades: usize = 0;
        let nm = movers.len();
        let mut mi: usize = 0;
        proof {
            lemma_count_changed_refl(s, n as int);
        }
        while mi < nm
            invariant
                old(self).wf(),
                s == old(self).dandelions@,
                self.seed_orbs@ == old(self).seed_orbs@,
                self.next_id == old(self).next_id,
                self.wf(),
                n == s.len(),
                nm == movers@.len(),
                mi <= nm,
                upgrades <= MAX_UPGRADES_PER_TICK,
                self.dandelions@.len() == n,
                msrc.len() == movers@.len(),
                count_changed(s, self.dandelions@, n as int) == upgrades,
                forall|j: int|
                    0 <= j < n && is_huge_mover(#[trigger] s[j]) ==> {
                        &&& midx.dom().contains(j)
                        &&& 0 <= midx[j] < movers@.len()
                        &&& movers@[midx[j]].0 == s[j].x
                        &&& movers@[midx[j]].1 == s[j].y
                    },
                upgrades < MAX_UPGRADES_PER_TICK ==> forall|p: int, i: int|
                    0 <= p < mi && 0 <= i < n
                        && mover_candidate(s, i,
                            (#[trigger] movers@[p]).0 as int, movers@[p].1 as int)
                        ==> #[trigger] self.dandelions@[i] != s[i],
                forall|p: int|
                    0 <= p < movers@.len() ==> {
                        let j = #[trigger] msrc[p];
                        &&& 0 <= j < n
                        &&& is_huge_mover(s[j])
                        &&& s[j].x == movers@[p].0
                        &&& s[j].y == movers@[p].1
                    },
                forall|i: int|
                    0 <= i < n ==> {
                        let a = s[i];
                        let b = #[trigger] self.dandelions@[i];
                        &&& b.id == a.id
                        &&& b.x == a.x && b.y == a.y
                        &&& b.health == a.health
                        &&& (b == a || {
                            &&& a.size.spec_next_size() matches Some(ns)
                            &&& b.size == a.size.spec_next_size()->Some_0
                            &&& b.cooldown_ms == UPGRADE_COOLDOWN_MS
                            &&& a.moving is None
                            &&& a.cooldown_ms == 0
                            &&& (b.moving is Some <==> b.size == DandelionSize::Huge)
                            &&& exists|j: int|
                                0 <= j < n && is_huge_mover(#[trigger] s[j])
                                    && within_dist(
                                        s[j].x as int, s[j].y as int,
                                        a.x as int, a.y as int,
                                        440 + a.size.spec_collision_radius(),
                                    )
                        })
                    },
            decreases nm - mi,
        {
            let mover = movers[mi];
            proof {
                let j = msrc[mi as int];
                assert(s[j].wf());
                assert(in_world(mover.0 as int, mover.1 as int));
            }
            let mut si: usize = 0;
            while si < n
                invariant
                    old(self).wf(),
                    s == old(self).dandelions@,
                    self.seed_orbs@ == old(self).seed_orbs@,
                    self.next_id == old(self).next_id,
                    self.wf(),
                    n == s.len(),
                    nm == movers@.len(),
                    mi < nm,
                    si <= n,
                    upgrades <= MAX_UPGRADES_PER_TICK,
                    self.dandelions@.len() == n,
                    in_world(mover.0 as int, mover.1 as int),
                    mover == movers@[mi as int],
                    0 <= msrc[mi as int] < n,
                    is_huge_mover(s[msrc[mi as int]]),
                    s[msrc[mi as int]].x == mover.0 && s[msrc[mi as int]].y == mover.1,
                    count_changed(s, self.dandelions@, n as int) == upgrades,
                    upgrades < MAX_UPGRADES_PER_TICK ==> forall|p: int, i: int|
                        0 <= p < mi && 0 <= i < n
                            && mover_candidate(s, i,
                                (#[trigger] movers@[p]).0 as int, movers@[p].1 as int)
                            ==> #[trigger] self.dandelions@[i] != s[i],
                    upgrades < MAX_UPGRADES_PER_TICK ==> forall|i: int|
                        0 <= i < si
                            && mover_candidate(s, i, mover.0 as int, mover.1 as int)
                            ==> #[trigger] self.dandelions@[i] != s[i],
                    forall|i: int|
                        0 <= i < n ==> {
                            let a = s[i];
                            let b = #[trigger] self.dandelions@[i];
                            &&& b.id == a.id
                            &&& b.x == a.x && b.y == a.y
                            &&& b.health == a.health
                            &&& (b == a || {
                                &&& a.size.spec_next_size() matches Some(ns)
                                &&& b.size == a.size.spec_next_size()->Some_0
                                &&& b.cooldown_ms == UPGRADE_COOLDOWN_MS
                                &&& a.moving is None
                                &&& a.cooldown_ms == 0
                                &&& (b.moving is Some <==> b.size == DandelionSize::Huge)
                                &&& exists|j: int|
                                    0 <= j < n && is_huge_mover(#[trigger] s[j])
                                        && within_dist(
                                            s[j].x as int, s[j].y as int,
                                            a.x as int, a.y as int,
                                            440 + a.size.spec_collision_radius(),
                                        )
                            })
                        },
                ensures
                    upgrades < MAX_UPGRADES_PER_TICK ==> forall|i: int|
                        0 <= i < n
                            && mover_candidate(s, i, mover.0 as int, mover.1 as int)
                            ==> #[trigger] self.dandelions@[i] != s[i],
                decreases n - si,
            {
                if upgrades >= MAX_UPGRADES_PER_TICK {
                    break;
                }
                let t = self.dandelions[si];
                let is_stationary = match t.moving {
                    Some(_) => false,
                    None => true,
                };
                if is_stationary && t.cooldown_ms == 0 {
                    proof {
                        assert(t.wf());
                        assert(self.dandelions@[si as int] == s[si as int]);
                    }
                    if within_dist_exec(
                        mover.0, mover.1, t.x, t.y, 440 + t.size.collision_radius(),
                    ) {
                        match t.size.next_size() {
                            None => {},
                            Some(ns) => {
                                let moving: Option<MovingDandelion> =
                                    if ns == DandelionSize::Huge {
                                        Some(MovingDandelion::new_random(50))
                                    } else {
                                        None
                                    };
                                let nd = Dandelion {
                                    size: ns,
                                    cooldown_ms: UPGRADE_COOLDOWN_MS,
                                    moving,
                                    ..t
                                };
                                proof {
                                    crate::field::lemma_area_sum_update(
                                        self.dandelions@, si as int, nd,
                                    );
                                    lemma_area_sum_bounds(self.dandelions@);
                                    lemma_area_sum_bounds(
                                        self.dandelions@.update(si as int, nd),
                                    );
                                    assert(self.dandelions@.update(si as int, nd).len()
                                        * crate::tiers::MAX_VISUAL_AREA
                                        <= MAX_DANDELIONS as int * crate::tiers::MAX_VISUAL_AREA)
                                        by (nonlinear_arith)
                                        requires self.dandelions@.update(si as int, nd).len()
                                            <= MAX_DANDELIONS;
                                }
                                proof {
                                    crate::field::lemma_area_sum_remove(
                                        self.dandelions@, si as int,
                                    );
                                    lemma_area_sum_bounds(self.dandelions@.remove(si as int));
                                    assert(self.dandelions@.len() * crate::tiers::MAX_VISUAL_AREA
                                        <= MAX_DANDELIONS as int * crate::tiers::MAX_VISUAL_AREA)
                                        by (nonlinear_arith)
                                        requires self.dandelions@.len() <= MAX_DANDELIONS;
                                }
                                proof {
                                    assert(self.dandelions@[si as int] == s[si as int]);
                                    assert(nd.cooldown_ms != s[si as int].cooldown_ms);
                                    lemma_count_changed_update(
                                        s, self.dandelions@, si as int, nd, n as int,
                                    );
                                }
                                let old_area = t.size.visual_area();
                                let new_area = ns.visual_area();
                                self.area_tracker.total_area =
                                    self.area_tracker.total_area - old_area + new_area;
                                self.dandelions.set(si, nd);
                                upgrades = upgrades + 1;
                            },
                        }
                    }
                }
                si = si + 1;
            }
            mi = mi + 1;
        }
        proof {
            if upgrades < MAX_UPGRADES_PER_TICK {
                assert forall|i: int, j: int|
                    0 <= i < n && 0 <= j < n && is_huge_mover(#[trigger] s[j])
                        && mover_candidate(s, i, s[j].x as int, s[j].y as int)
                    implies #[trigger] self.dandelions@[i] != s[i] by {
                    let p = midx[j];
                    assert(movers@[p].0 == s[j].x && movers@[p].1 == s[j].y);
                    assert(mover_candidate(s, i, movers@[p].0 as int, movers@[p].1 as int));
                }
            }
        }
        upgrades
    }
}

/// A dandelion that roams the field: Huge tier with movement state.
pub open spec fn is_huge_mover(d: Dandelion) -> bool {
    d.moving is Some && d.size == DandelionSize::Huge
}

/// Whether the snapshot dandelion at `i` is an upgrade candidate for a
/// mover standing at `(mx, my)`: stationary, cooldown-free, with a tier
/// above it, and overlapped by the mover (distance at most the Huge
/// collision radius plus its own).
pub open spec fn mover_candidate(s: Seq<Dandelion>, i: int, mx: int, my: int) -> bool {
    &&& s[i].moving is None
    &&& s[i].cooldown_ms == 0
    &&& s[i].size.spec_next_size() is Some
    &&& within_dist(mx, my, s[i].x as int, s[i].y as int,
        440 + s[i].size.spec_collision_radius())
}

/// Number of entries in the first `k` that differ between two snapshots.
pub open spec fn count_changed(a: Seq<Dandelion>, b: Seq<Dandelion>, k: int) -> int
    decreases k,
{
    if k <= 0 || k > a.len() || a.len() != b.len() {
        0
    } else {
        count_changed(a, b, k - 1) + if a[k - 1] == b[k - 1] { 0int } else { 1int }
    }
}

/// A snapshot differs from itself nowhere.
proof fn lemma_count_changed_refl(a: Seq<Dandelion>, k: int)
    ensures
        count_changed(a, a, k) == 0,
    decreases k,
{
    if k > 0 {
        lemma_count_changed_refl(a, k - 1);
    }
}

/// The count only reads entries below `k`.
proof fn lemma_count_changed_congruent(
    a: Seq<Dandelion>, b: Seq<Dandelion>, b2: Seq<Dandelion>, k: int,
)
    requires
        b.len() == a.len(),
        b2.len() == a.len(),
        forall|i: int| 0 <= i < k ==> b[i] == b2[i],
    ensures
        count_changed(a, b, k) == count_changed(a, b2, k),
    decreases k,
{
    if k > 0 {
        lemma_count_changed_congruent(a, b, b2, k - 1);
    }
}

/// Overwriting one so-far-unchanged entry with a different record raises
/// the count by one.
proof fn lemma_count_changed_update(
    a: Seq<Dandelion>, b: Seq<Dandelion>, si: int, nd: Dandelion, k: int,
)
    requires
        a.len() == b.len(),
        0 <= si < k <= a.len(),
        b[si] == a[si],
        nd != a[si],
    ensures
        count_changed(a, b.update(si, nd), k) == count_changed(a, b, k) + 1,
    decreases k,
{
    if k - 1 == si {
        lemma_count_changed_congruent(a, b, b.update(si, nd), si);
    } else {
        lemma_count_changed_update(a, b, si, nd, k - 1);
    }
}

/// One tick of flight for a surviving seed orb: it advances up to
/// `150 * dt / 1000` units along the straight line toward its target
/// (snapping onto the target once within reach), clamped to the world
/// square, and its timer ticks down.
pub open spec fn orb_moved(o: SeedOrb, dt: u32) -> SeedOrb {
    let dx = o.target_x - o.x;
    let dy = o.target_y - o.y;
    let d2 = dx * dx + dy * dy;
    let dist = sqrt_floor(d2 as nat) as int;
    let step = (SEED_ORB_SPEED * dt / 1000) as int;
    let timer = o.spawn_timer.spec_tick(dt);
    if dist <= step {
        SeedOrb { x: o.target_x, y: o.target_y, spawn_timer: timer, ..o }
    } else {
        SeedOrb {
            x: crate::geom::clamp_int(
                o.x + trunc_div(dx * step, dist), -(POS_LIMIT as int), POS_LIMIT as int,
            ) as i32,
            y: crate::geom::clamp_int(
                o.y + trunc_div(dy * step, dist), -(POS_LIMIT as int), POS_LIMIT as int,
            ) as i32,
            spawn_timer: timer,
            ..o
        }
    }
}

/// Whether the orb matures on this tick.
pub open spec fn orb_fires(o: SeedOrb, dt: u32) -> bool {
    o.spawn_timer.spec_fires(dt)
}

/// The orbs still in flight after a tick, each moved one step.
pub open spec fn orbs_after(os: Seq<SeedOrb>, dt: u32) -> Seq<SeedOrb>
    decreases os.len(),
{
    if os.len() == 0 {
        os
    } else {
        let rest = orbs_after(os.drop_first(), dt);
        if orb_fires(os[0], dt) {
            rest
        } else {
            seq![orb_moved(os[0], dt)] + rest
        }
    }
}

/// The orbs that mature on this tick, in order.
pub open spec fn matured_orbs(os: Seq<SeedOrb>, dt: u32) -> Seq<SeedOrb>
    decreases os.len(),
{
    if os.len() == 0 {
        os
    } else {
        let rest = matured_orbs(os.drop_first(), dt);
        if orb_fires(os[0], dt) {
            seq![os[0]] + rest
        } else {
            rest
        }
    }
}

impl Field {
    /// Advance every seed orb: surviving orbs fly toward their targets;
    /// each orb whose timer runs out despawns and plants one Tiny
    /// dandelion (with level-scaled health) at its target.
    pub fn update_seed_orbs(&mut self, dt_ms: u32, health_multiplier_tenths: u32)
        requires
            old(self).wf(),
            1 <= health_multiplier_tenths <= 1000,
            old(self).dandelions@.len() + old(self).seed_orbs@.len() <= MAX_DANDELIONS,
            old(self).next_id + old(self).seed_orbs@.len() <= u64::MAX,
        ensures
            final(self).wf(),
            final(self).seed_orbs@ == orbs_after(old(self).seed_orbs@, dt_ms),
            ({
                let matured = matured_orbs(old(self).seed_orbs@, dt_ms);
                &&& final(self).dandelions@.len()
                    == old(self).dandelions@.len() + matured.len()
                &&& final(self).dandelions@.subrange(0, old(self).dandelions@.len() as int)
                    == old(self).dandelions@
                &&& final(self).next_id == old(self).next_id + matured.len()
                &&& forall|m: int|
                    0 <= m < matured.len() ==> {
                        let d = #[trigger] final(self).dandelions@[
                            old(self).dandelions@.len() + m];
                        &&& d.id == old(self).next_id + m
                        &&& d.x == matured[m].target_x
                        &&& d.y == matured[m].target_y
                        &&& d.size == DandelionSize::Tiny
                        &&& d.health == spec_scaled_health(
                            DandelionSize::Tiny, health_multiplier_tenths)
                        &&& d.moving is None
                        &&& d.cooldown_ms == 0
                    }
            }),
    {
        let ghost os = old(self).seed_orbs@;
        let ghost d0 = old(self).dandelions@;
        let n = self.seed_orbs.len();
        let mut new_orbs: Vec<SeedOrb> = Vec::new();
        let ghost mut matured_count: int = 0;
        let mut k: usize = 0;
        proof {
            assert(os.skip(0) =~= os);
        }
        while k < n
            invariant
                old(self).wf(),
                os == old(self).seed_orbs@,
                d0 == old(self).dandelions@,
                1 <= health_multiplier_tenths <= 1000,
                d0.len() + os.len() <= MAX_DANDELIONS,
                old(self).next_id + os.len() <= u64::MAX,
                self.wf(),
                self.seed_orbs@ == os,
                n == os.len(),
                k <= n,
                orbs_after(os, dt_ms) == new_orbs@ + orbs_after(os.skip(k as int), dt_ms),
                matured_orbs(os, dt_ms).len()
                    == matured_count + matured_orbs(os.skip(k as int), dt_ms).len(),
                0 <= matured_count <= k,
                self.dandelions@.len() == d0.len() + matured_count,
                self.dandelions@.subrange(0, d0.len() as int) == d0,
                self.next_id == old(self).next_id + matured_count,
                forall|m: int|
                    0 <= m < matured_count ==> {
                        let d = #[trigger] self.dandelions@[d0.len() + m];
                        &&& d.id == old(self).next_id + m
                        &&& d.x == matured_orbs(os, dt_ms)[m].target_x
                        &&& d.y == matured_orbs(os, dt_ms)[m].target_y
                        &&& d.size == DandelionSize::Tiny
                        &&& d.health == spec_scaled_health(
                            DandelionSize::Tiny, health_multiplier_tenths)
                        &&& d.moving is None
                        &&& d.cooldown_ms == 0
                    },
                matured_orbs(os, dt_ms)
                    =~= matured_orbs(os, dt_ms).take(matured_count)
                        + matured_orbs(os.skip(k as int), dt_ms),
                forall|j: int|
                    0 <= j < new_orbs@.len() ==> (#[trigger] new_orbs@[j]).wf(),
            decreases n - k,
        {
            let o = self.seed_orbs[k];
            proof {
                assert(o.wf());
                assert(os.skip(k as int).len() > 0);
                assert(os.skip(k as int)[0] == os[k as int]);
                assert(os.skip(k as int).drop_first() =~= os.skip(k as int + 1));
            }
            let mut timer = o.spawn_timer;
            let fired = timer.tick(dt_ms);
            if fired {
                // The orb matures: plant a Tiny dandelion at its target.
                let health = calculate_max_health(
                    DandelionSize::Tiny, health_multiplier_tenths,
                );
                let ghost mat = matured_orbs(os, dt_ms);
                proof {
                    assert(mat.take(matured_count + 1).drop_last()
                        =~= mat.take(matured_count));
                    assert(mat =~= mat.take(matured_count)
                        + (seq![os[k as int]] + matured_orbs(os.skip(k as int + 1), dt_ms)));
                    assert(mat[matured_count] == os[k as int]);
                }
                let spawned = self.spawn_dandelion(
                    o.target_x, o.target_y, health, DandelionSize::Tiny, None,
                );
                proof {
                    assert(spawned);
                    matured_count = matured_count + 1;
                    assert(self.dandelions@.subrange(0, d0.len() as int)
                        =~= old(self).dandelions@);
                    assert(mat =~= mat.take(matured_count)
                        + matured_orbs(os.skip(k as int + 1), dt_ms));
                }
            } else {
                // The orb flies on toward its target.
                let dx: i64 = o.target_x as i64 - o.x as i64;
                let dy: i64 = o.target_y as i64 - o.y as i64;
                proof {
                    crate::geom::lemma_diff_sq_bound(o.target_x as int, o.x as int);
                    crate::geom::lemma_diff_sq_bound(o.target_y as int, o.y as int);
                }
                let d2: i64 = dx * dx + dy * dy;
                let dist: u64 = crate::math::isqrt(d2 as u64);
                let step: u64 = (SEED_ORB_SPEED as u64) * (dt_ms as u64) / 1000;
                let moved: SeedOrb;
                if dist <= step {
                    moved = SeedOrb {
                        x: o.target_x,
                        y: o.target_y,
                        spawn_timer: timer,
                        ..o
                    };
                } else {
                    proof {
                        crate::math::lemma_sqrt_floor_bounds(d2 as nat);
                        assert(dist >= 1);
                        vstd::arithmetic::div_mod::lemma_div_is_ordered(
                            (SEED_ORB_SPEED as int) * (dt_ms as int), 644_245_094_250, 1000,
                        );
                        assert(step <= 644_245_095);
                        assert(dist <= 3_000_000) by (nonlinear_arith)
                            requires
                                0 <= dist as int,
                                dist as int * dist as int <= 8_000_000_000_000;
                    }
                    let step_i: i64 = step as i64;
                    let dist_i: i64 = dist as i64;
                    proof {
                        assert(-0x2000_0000_0000_0000 <= dx as int * step_i as int
                            <= 0x2000_0000_0000_0000
                            && -0x2000_0000_0000_0000 <= dy as int * step_i as int
                                <= 0x2000_0000_0000_0000) by (nonlinear_arith)
                            requires
                                -2_000_000 <= dx as int <= 2_000_000,
                                -2_000_000 <= dy as int <= 2_000_000,
                                0 <= step_i as int <= 0x1_0000_0000;
                    }
                    let sx: i64 = trunc_div_i64(dx * step_i, dist_i);
                    let sy: i64 = trunc_div_i64(dy * step_i, dist_i);
                    let raw_x: i64 = o.x as i64 + sx;
                    let raw_y: i64 = o.y as i64 + sy;
                    let nx: i32 = if raw_x < -(POS_LIMIT as i64) {
                        -POS_LIMIT
                    } else if raw_x > POS_LIMIT as i64 {
                        POS_LIMIT
                    } else {
                        raw_x as i32
                    };
                    let ny: i32 = if raw_y < -(POS_LIMIT as i64) {
                        -POS_LIMIT
                    } else if raw_y > POS_LIMIT as i64 {
                        POS_LIMIT
                    } else {
                        raw_y as i32
                    };
                    moved = SeedOrb { x: nx, y: ny, spawn_timer: timer, ..o };
                }
                proof {
                    assert(moved == orb_moved(os[k as int], dt_ms));
                    assert(new_orbs@.push(moved) =~= new_orbs@ + seq![moved]);
                    assert((new_orbs@ + seq![moved]) + orbs_after(os.skip(k as int + 1), dt_ms)
                        =~= new_orbs@ + (seq![moved]
                            + orbs_after(os.skip(k as int + 1), dt_ms)));
                }
                new_orbs.push(moved);
            }
            k = k + 1;
        }
        proof {
            assert(os.skip(n as int) =~= Seq::<SeedOrb>::empty());
            assert(orbs_after(os, dt_ms) =~= new_orbs@);
            assert(matured_orbs(os, dt_ms).take(matured_count) =~= matured_orbs(os, dt_ms));
        }
        self.seed_orbs = new_orbs;
    }
}

} // verus!
