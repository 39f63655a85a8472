//! Powerup pickups: bunny and flamethrower tokens that spawn on a timer,
//! wait to be clicked, and trigger their subsystem when used.

use vstd::prelude::*;
use crate::field::Field;
use crate::fire::FireSystem;
use crate::geom::{in_world, within_dist, within_dist_exec, POS_LIMIT};
use crate::rabbits::RabbitSystem;
use crate::rng::random_index;
use crate::timer::Countdown;

verus! {

/// Milliseconds between powerup spawns.
pub const POWERUP_SPAWN_INTERVAL_MS: u32 = 10_000;

/// Click radius of a powerup token, in tenths of a unit (30 units).
pub const POWERUP_CLICK_RADIUS_TENTHS: u32 = 300;

/// Types of powerups available.
#[derive(Clone, Copy, Debug, PartialEq, Eq, Structural)]
pub enum PowerupType {
    Bunny,
    Flamethrower,
}

impl PowerupType {
    /// Get all available powerup types.
    pub fn all() -> (r: Vec<PowerupType>)
        ensures
            r@.len() == 2,
            r@[0] == PowerupType::Bunny,
            r@[1] == PowerupType::Flamethrower,
    {
        let mut v: Vec<PowerupType> = Vec::new();
        v.push(PowerupType::Bunny);
        v.push(PowerupType::Flamethrower);
        v
    }

    /// Get a uniformly random powerup type.
    pub fn random() -> (r: PowerupType)
        ensures
            r == PowerupType::Bunny || r == PowerupType::Flamethrower,
    {
        let all = Self::all();
        let idx = random_index(all.len());
        all[idx]
    }
}

/// A powerup token waiting on the field.
#[derive(Clone, Copy, Debug)]
pub struct Powerup {
    pub id: u64,
    pub x: i32,
    pub y: i32,
    pub powerup_type: PowerupType,
}

impl Powerup {
    pub open spec fn wf(self) -> bool {
        in_world(self.x as int, self.y as int)
    }
}

/// Timer resource for spawning powerups.
pub struct PowerupSpawnTimer {
    pub timer: Countdown,
}

impl PowerupSpawnTimer {
    pub fn new() -> (r: PowerupSpawnTimer)
        ensures
            r.timer == (Countdown {
                remaining_ms: POWERUP_SPAWN_INTERVAL_MS,
                duration_ms: POWERUP_SPAWN_INTERVAL_MS,
                repeating: true,
            }),
            r.timer.wf(),
    {
        PowerupSpawnTimer { timer: Countdown::new_repeating(POWERUP_SPAWN_INTERVAL_MS) }
    }
}

/// Execute a powerup's effect at its position: a bunny token fans out
/// three rabbits, a flamethrower token ignites a generation-zero fire.
pub fn use_powerup(
    powerup_type: PowerupType,
    x: i32,
    y: i32,
    rabbits: &mut RabbitSystem,
    fires: &mut FireSystem,
)
    requires
        old(rabbits).wf(),
        old(fires).wf(),
        -(POS_LIMIT as int - 20) <= x as int <= POS_LIMIT as int - 20,
        -(POS_LIMIT as int - 20) <= y as int <= POS_LIMIT as int - 20,
        old(rabbits).next_id + 3 <= u64::MAX,
    ensures
        final(rabbits).wf(),
        final(fires).wf(),
        powerup_type == PowerupType::Bunny ==> {
            &&& final(rabbits).rabbits@.len() == old(rabbits).rabbits@.len() + 3
            &&& final(rabbits).rabbits@.subrange(0, old(rabbits).rabbits@.len() as int)
                == old(rabbits).rabbits@
            &&& final(rabbits).targeting == old(rabbits).targeting
            &&& final(rabbits).next_id == old(rabbits).next_id + 3
            &&& forall|m: int|
                0 <= m < 3 ==> {
                    let r = #[trigger] final(rabbits).rabbits@[
                        old(rabbits).rabbits@.len() + m];
                    &&& r.id == old(rabbits).next_id + m
                    &&& r.x as int == x + crate::rabbits::spec_fan_offset(m).0
                    &&& r.y as int == y + crate::rabbits::spec_fan_offset(m).1
                    &&& r.target is None
                    &&& r.dandelions_eaten == 0
                    &&& r.lifetime == (Countdown {
                        remaining_ms: crate::rabbits::RABBIT_LIFETIME_MS,
                        duration_ms: crate::rabbits::RABBIT_LIFETIME_MS,
                        repeating: false,
                    })
                    &&& r.speed == crate::rabbits::RABBIT_SPEED
                    &&& !r.facing_right
                }
            &&& final(fires).fires@ == old(fires).fires@
        },
        powerup_type == PowerupType::Flamethrower ==> {
            &&& final(fires).fires@ == old(fires).fires@.push(
                crate::fire::spec_ignition(x, y, 0))
            &&& final(rabbits).rabbits@ == old(rabbits).rabbits@
        },
{
    match powerup_type {
        PowerupType::Bunny => {
            rabbits.spawn_rabbits(x, y);
        },
        PowerupType::Flamethrower => {
            fires.spawn_fire_ignition(x, y);
        },
    }
}

/// Index of the first powerup token a click lands on.
pub open spec fn first_powerup_hit(s: Seq<Powerup>, x: int, y: int) -> Option<int>
    decreases s.len(),
{
    if s.len() == 0 {
        None
    } else if within_dist(x, y, s[0].x as int, s[0].y as int,
        POWERUP_CLICK_RADIUS_TENTHS as int) {
        Some(0)
    } else {
        match first_powerup_hit(s.drop_first(), x, y) {
            Some(i) => Some(i + 1),
            None => None,
        }
    }
}

/// Resolve a click on the powerup layer: the first token within click
/// radius is consumed and its effect triggered; at most one per click.
pub fn handle_powerup_clicks(
    powerups: &mut Vec<Powerup>,
    x: i32,
    y: i32,
    rabbits: &mut RabbitSystem,
    fires: &mut FireSystem,
) -> (used: Option<PowerupType>)
    requires
        forall|i: int| 0 <= i < old(powerups)@.len() ==> (#[trigger] old(powerups)@[i]).wf(),
        in_world(x as int, y as int),
        old(rabbits).wf(),
        old(fires).wf(),
        old(rabbits).next_id + 3 <= u64::MAX,
    ensures
        final(rabbits).wf(),
        final(fires).wf(),
        forall|i: int|
            0 <= i < final(powerups)@.len() ==> (#[trigger] final(powerups)@[i]).wf(),
        ({
            let hit = first_powerup_hit(old(powerups)@, x as int, y as int);
            &&& (used is Some <==> hit is Some)
            &&& hit matches Some(i) ==> {
                &&& used == Some(old(powerups)@[i].powerup_type)
                &&& final(powerups)@ == old(powerups)@.remove(i)
            }
            &&& hit is None ==> final(powerups)@ == old(powerups)@
                && final(rabbits).rabbits@ == old(rabbits).rabbits@
                && final(fires).fires@ == old(fires).fires@
        }),
{
    proof {
        lemma_first_powerup_hit(old(powerups)@, x as int, y as int);
    }
    let n = powerups.len();
    let mut k: usize = 0;
    while k < n
        invariant
            powerups@ == old(powerups)@,
            rabbits == old(rabbits),
            fires == old(fires),
            old(rabbits).wf(),
            old(fires).wf(),
            old(rabbits).next_id + 3 <= u64::MAX,
            in_world(x as int, y as int),
            forall|i: int| 0 <= i < powerups@.len() ==> (#[trigger] powerups@[i]).wf(),
            n == powerups@.len(),
            k <= n,
            forall|j: int|
                0 <= j < k ==> !within_dist(x as int, y as int,
                    (#[trigger] powerups@[j]).x as int, powerups@[j].y as int,
                    POWERUP_CLICK_RADIUS_TENTHS as int),
        decreases n - k,
    {
        let p = powerups[k];
        if within_dist_exec(x, y, p.x, p.y, POWERUP_CLICK_RADIUS_TENTHS) {
            proof {
                lemma_first_powerup_hit(old(powerups)@, x as int, y as int);
                let s = old(powerups)@;
                let hit = first_powerup_hit(s, x as int, y as int);
                if hit is None {
                    assert(!within_dist(x as int, y as int, s[k as int].x as int,
                        s[k as int].y as int, POWERUP_CLICK_RADIUS_TENTHS as int));
                }
                let i = hit->Some_0;
                if i < k as int {
                    assert(!within_dist(x as int, y as int, s[i].x as int, s[i].y as int,
                        POWERUP_CLICK_RADIUS_TENTHS as int));
                }
                if i > k as int {
                    assert(!within_dist(x as int, y as int, s[k as int].x as int,
                        s[k as int].y as int, POWERUP_CLICK_RADIUS_TENTHS as int));
                }
            }
            let cx = crate::geom::clamp_coord(p.x, -(POS_LIMIT - 20), POS_LIMIT - 20);
            let cy = crate::geom::clamp_coord(p.y, -(POS_LIMIT - 20), POS_LIMIT - 20);
            use_powerup(p.powerup_type, cx, cy, rabbits, fires);
            let _removed = powerups.remove(k);
            proof {
                let s = old(powerups)@;
                assert forall|i: int| 0 <= i < powerups@.len()
                    implies (#[trigger] powerups@[i]).wf() by {
                    assert(powerups@[i] == if i < k as int { s[i] } else { s[i + 1] });
                }
            }
            return Some(p.powerup_type);
        }
        k = k + 1;
    }
    None
}

/// The first powerup hit, when there is one, is a real hit and everything
/// before it is a miss.
proof fn lemma_first_powerup_hit(s: Seq<Powerup>, x: int, y: int)
    ensures
        match first_powerup_hit(s, x, y) {
            Some(i) => 0 <= i < s.len()
                && within_dist(x, y, s[i].x as int, s[i].y as int,
                    POWERUP_CLICK_RADIUS_TENTHS as int)
                && forall|j: int|
                    0 <= j < i ==> !within_dist(x, y, (#[trigger] s[j]).x as int,
                        s[j].y as int, POWERUP_CLICK_RADIUS_TENTHS as int),
            None => forall|j: int|
                0 <= j < s.len() ==> !within_dist(x, y, (#[trigger] s[j]).x as int,
                    s[j].y as int, POWERUP_CLICK_RADIUS_TENTHS as int),
        },
    decreases s.len(),
{
    if s.len() > 0
        && !within_dist(x, y, s[0].x as int, s[0].y as int,
            POWERUP_CLICK_RADIUS_TENTHS as int) {
        lemma_first_powerup_hit(s.drop_first(), x, y);
        let t = s.drop_first();
        match first_powerup_hit(t, x, y) {
            Some(i) => {
                assert(s[i + 1] == t[i]);
                assert forall|j: int| 0 <= j < i + 1 implies !within_dist(x, y,
                    (#[trigger] s[j]).x as int, s[j].y as int,
                    POWERUP_CLICK_RADIUS_TENTHS as int) by {
                    if j > 0 {
                        assert(t[j - 1] == s[j]);
                    }
                }
            },
            None => {
                assert forall|j: int| 0 <= j < s.len() implies !within_dist(x, y,
                    (#[trigger] s[j]).x as int, s[j].y as int,
                    POWERUP_CLICK_RADIUS_TENTHS as int) by {
                    if j > 0 {
                        assert(t[j - 1] == s[j]);
                    }
                }
            },
        }
    }
}

/// Despawn expired rabbits (dropping their claims, keeping everyone
/// else's) and expired fires; the survivors are exactly the agents with
/// lifetime left, untouched and in order.
pub fn cleanup_expired_entities(rabbits: &mut RabbitSystem, fires: &mut FireSystem)
    requires
        old(rabbits).wf(),
        old(fires).wf(),
    ensures
        final(rabbits).wf(),
        final(fires).wf(),
        final(rabbits).rabbits@ == crate::rabbits::live_rabbits(old(rabbits).rabbits@),
        final(fires).fires@ == crate::fire::live_fires(old(fires).fires@),
        final(fires).manager.pending_fires@ == old(fires).manager.pending_fires@,
        forall|i: int, j: int|
            0 <= i < final(rabbits).targeting.targets@.len()
                && 0 <= j < old(rabbits).rabbits@.len()
                && (#[trigger] old(rabbits).rabbits@[j]).lifetime.remaining_ms == 0
                ==> (#[trigger] final(rabbits).targeting.targets@[i]).1
                    != old(rabbits).rabbits@[j].id,
        forall|i: int|
            0 <= i < old(rabbits).targeting.targets@.len()
                && (forall|j: int|
                    0 <= j < old(rabbits).rabbits@.len()
                        && (#[trigger] old(rabbits).rabbits@[j]).lifetime.remaining_ms == 0
                        ==> old(rabbits).targeting.targets@[i].1
                            != old(rabbits).rabbits@[j].id)
                ==> crate::rabbits::contains_pair(final(rabbits).targeting.targets@,
                    #[trigger] old(rabbits).targeting.targets@[i]),
{
    rabbits.cleanup_expired_rabbits();
    fires.cleanup_expired_fires();
}

} // verus!
