//! Dandelion lifecycle engine: the set of live dandelions and in-flight
//! seed orbs, together with the running visual-area tracker.
//!
//! The central invariant, kept by every operation, is that the tracker
//! equals the sum of the visual areas of all live dandelions. Entities are
//! addressed by stable numeric ids handed out in spawn order, so iteration
//! order — and with it first-match click resolution and greedy merge
//! pairing — is deterministic.

use vstd::prelude::*;
use crate::geom::{in_world, within_dist, within_dist_exec, dist_sq, POS_LIMIT, clamp_coord};
use crate::rng::{random_in_range, random_offset_with_magnitude};
use crate::score::{GameData, spec_combo_window_ms};
use crate::tiers::{DandelionSize, MAX_VISUAL_AREA};
use crate::timer::Countdown;

verus! {

/// Cap on simultaneously live dandelions, so the area sum fits far inside
/// a 64-bit tracker.
pub const MAX_DANDELIONS: usize = 1_000_000;

/// How long a seed orb flies before it matures, in milliseconds.
pub const SEED_ORB_FLIGHT_MS: u32 = 400;

/// Movement state carried by Huge dandelions, with a heading-change timer.
#[derive(Clone, Copy, Debug)]
pub struct MovingDandelion {
    /// Velocity in world units per second.
    pub vx: i32,
    pub vy: i32,
    /// Speed magnitude the velocity is re-drawn with, in units per second.
    pub speed: u32,
    /// Repeating timer that triggers a random heading change.
    pub direction_timer: Countdown,
}

/// A live dandelion enemy.
#[derive(Clone, Copy, Debug)]
pub struct Dandelion {
    /// Stable id, unique among live dandelions, handed out in spawn order.
    pub id: u64,
    pub x: i32,
    pub y: i32,
    /// Remaining health; a live dandelion always has at least one.
    pub health: u32,
    pub size: DandelionSize,
    /// Present on moving (Huge) dandelions only.
    pub moving: Option<MovingDandelion>,
    /// Remaining upgrade cooldown; zero when the dandelion may be upgraded.
    pub cooldown_ms: u32,
}

/// A seed orb in flight toward the spot where a new Tiny dandelion will
/// appear.
#[derive(Clone, Copy, Debug)]
pub struct SeedOrb {
    pub x: i32,
    pub y: i32,
    pub target_x: i32,
    pub target_y: i32,
    /// One-shot timer; the orb matures when it runs out.
    pub spawn_timer: Countdown,
}

/// Running total of the visual area of all live dandelions.
pub struct DandelionAreaTracker {
    pub total_area: u64,
}

/// The lifecycle engine state.
pub struct Field {
    pub dandelions: Vec<Dandelion>,
    pub seed_orbs: Vec<SeedOrb>,
    pub area_tracker: DandelionAreaTracker,
    /// Next id to hand out; every live id is below it.
    pub next_id: u64,
}

impl MovingDandelion {
    pub open spec fn wf(self) -> bool {
        &&& self.direction_timer.wf()
        &&& -1_000 <= self.vx <= 1_000
        &&& -1_000 <= self.vy <= 1_000
        &&& 1 <= self.speed <= 1_000
    }
}

impl Dandelion {
    pub open spec fn wf(self) -> bool {
        &&& self.health >= 1
        &&& in_world(self.x as int, self.y as int)
        &&& (self.moving matches Some(m) ==> m.wf())
    }
}

impl SeedOrb {
    pub open spec fn wf(self) -> bool {
        &&& in_world(self.x as int, self.y as int)
        &&& in_world(self.target_x as int, self.target_y as int)
        &&& !self.spawn_timer.repeating
    }
}

/// Sum of the visual areas of a sequence of dandelions.
pub open spec fn area_sum(s: Seq<Dandelion>) -> int
    decreases s.len(),
{
    if s.len() == 0 {
        0
    } else {
        area_sum(s.drop_last()) + s.last().size.spec_visual_area()
    }
}

/// The area sum lies between zero and the length times the largest tier
/// area.
pub proof fn lemma_area_sum_bounds(s: Seq<Dandelion>)
    ensures
        0 <= area_sum(s) <= s.len() * MAX_VISUAL_AREA,
    decreases s.len(),
{
    if s.len() > 0 {
        lemma_area_sum_bounds(s.drop_last());
        assert((s.len() - 1) * MAX_VISUAL_AREA + MAX_VISUAL_AREA == s.len() * MAX_VISUAL_AREA)
            by (nonlinear_arith);
    }
}

/// Removing one element lowers the area sum by exactly its area.
pub proof fn lemma_area_sum_remove(s: Seq<Dandelion>, i: int)
    requires
        0 <= i < s.len(),
    ensures
        area_sum(s.remove(i)) == area_sum(s) - s[i].size.spec_visual_area(),
    decreases s.len(),
{
    if i == s.len() - 1 {
        assert(s.remove(i) =~= s.drop_last());
    } else {
        assert(s.remove(i).drop_last() =~= s.drop_last().remove(i));
        assert(s.remove(i).last() == s.last());
        lemma_area_sum_remove(s.drop_last(), i);
    }
}

/// Updating one element shifts the area sum by the difference in areas.
pub proof fn lemma_area_sum_update(s: Seq<Dandelion>, i: int, d: Dandelion)
    requires
        0 <= i < s.len(),
    ensures
        area_sum(s.update(i, d)) == area_sum(s) - s[i].size.spec_visual_area()
            + d.size.spec_visual_area(),
    decreases s.len(),
{
    if i == s.len() - 1 {
        assert(s.update(i, d).drop_last() =~= s.drop_last());
        assert(s.update(i, d).last() == d);
    } else {
        assert(s.update(i, d).drop_last() =~= s.drop_last().update(i, d));
        assert(s.update(i, d).last() == s.last());
        lemma_area_sum_update(s.drop_last(), i, d);
    }
}

/// Peeling the first element off the area sum.
pub proof fn lemma_area_sum_first(s: Seq<Dandelion>)
    requires
        s.len() > 0,
    ensures
        area_sum(s) == s[0].size.spec_visual_area() + area_sum(s.drop_first()),
    decreases s.len(),
{
    if s.len() == 1 {
        assert(s.drop_first() =~= Seq::<Dandelion>::empty());
        assert(s.drop_last() =~= Seq::<Dandelion>::empty());
    } else {
        lemma_area_sum_first(s.drop_last());
        assert(s.drop_last()[0] == s[0]);
        assert(s.drop_last().drop_first() =~= s.drop_first().drop_last());
        assert(s.drop_first().last() == s.last());
    }
}

/// Two sequences whose tiers agree pointwise cover the same area.
pub proof fn lemma_area_sum_same_sizes(a: Seq<Dandelion>, b: Seq<Dandelion>)
    requires
        a.len() == b.len(),
        forall|i: int| 0 <= i < a.len() ==> a[i].size == b[i].size,
    ensures
        area_sum(a) == area_sum(b),
    decreases a.len(),
{
    if a.len() > 0 {
        assert(forall|i: int|
            0 <= i < a.drop_last().len() ==> a.drop_last()[i].size == b.drop_last()[i].size);
        lemma_area_sum_same_sizes(a.drop_last(), b.drop_last());
    }
}

/// All ids in the sequence are pairwise distinct.
pub open spec fn ids_distinct(s: Seq<Dandelion>) -> bool {
    forall|i: int, j: int| 0 <= i < j < s.len() ==> s[i].id != s[j].id
}

/// Whether some live dandelion carries the id.
pub open spec fn contains_id(s: Seq<Dandelion>, id: u64) -> bool {
    exists|i: int| 0 <= i < s.len() && s[i].id == id
}

/// The index of the dandelion with the id (unique when ids are distinct).
pub open spec fn index_of_id(s: Seq<Dandelion>, id: u64) -> int {
    choose|i: int| 0 <= i < s.len() && s[i].id == id
}

/// The area tracker of a well-formed field equals the sum of the visual
/// areas of all live dandelions — the invariant every spawn, destroy,
/// merge and upgrade path preserves.
pub proof fn lemma_area_tracker_exact(f: Field)
    requires
        f.wf(),
    ensures
        f.area_tracker.total_area == area_sum(f.dandelions@),
{
}

/// Removing one element keeps every other id in the sequence.
pub proof fn lemma_contains_after_remove(s: Seq<Dandelion>, i: int, id: u64)
    requires
        0 <= i < s.len(),
        contains_id(s, id),
        s[i].id != id,
    ensures
        contains_id(s.remove(i), id),
{
    let w = choose|w: int| 0 <= w < s.len() && s[w].id == id;
    if w < i {
        assert(s.remove(i)[w].id == id);
    } else {
        assert(s.remove(i)[w - 1].id == id);
    }
}

/// Removing a dandelion removes its id for good.
pub proof fn lemma_not_contains_after_remove(s: Seq<Dandelion>, i: int)
    requires
        ids_distinct(s),
        0 <= i < s.len(),
    ensures
        !contains_id(s.remove(i), s[i].id),
{
    if contains_id(s.remove(i), s[i].id) {
        let w = choose|w: int| 0 <= w < s.remove(i).len() && s.remove(i)[w].id == s[i].id;
        let pre = if w < i { w } else { w + 1 };
        assert(s[pre].id == s[i].id);
        if pre < i {
            assert(s[pre].id != s[i].id);
        } else {
            assert(s[i].id != s[pre].id);
        }
    }
}

/// An id present after a removal was present before it.
pub proof fn lemma_contains_remove_rev(s: Seq<Dandelion>, i: int, id: u64)
    requires
        0 <= i < s.len(),
        contains_id(s.remove(i), id),
    ensures
        contains_id(s, id),
{
    let w = choose|w: int| 0 <= w < s.remove(i).len() && s.remove(i)[w].id == id;
    if w < i {
        assert(s[w].id == id);
    } else {
        assert(s[w + 1].id == id);
    }
}

/// Removing one dandelion leaves every other live record untouched: the
/// record found under any other id is the same before and after.
pub proof fn lemma_lookup_after_remove(s: Seq<Dandelion>, i: int, id: u64)
    requires
        ids_distinct(s),
        0 <= i < s.len(),
        s[i].id != id,
        contains_id(s, id),
    ensures
        contains_id(s.remove(i), id),
        s.remove(i)[index_of_id(s.remove(i), id)] == s[index_of_id(s, id)],
{
    lemma_contains_after_remove(s, i, id);
    let r = s.remove(i);
    let a = index_of_id(s, id);
    let b = index_of_id(r, id);
    assert(s[a].id == id);
    assert(r[b].id == id);
    let pre = if b < i { b } else { b + 1 };
    assert(r[b] == s[pre]);
    assert(s[pre].id == id);
    if pre != a {
        if pre < a {
            assert(s[pre].id != s[a].id);
        } else {
            assert(s[a].id != s[pre].id);
        }
    }
}

/// What holds of a seed orb freshly emitted from `(x, y)`: it starts
/// there, flies for `SEED_ORB_FLIGHT_MS`, and its target lies at most 150
/// units away — and at least 50 units away whenever the origin is far
/// enough from the world border that no clamping happened.
pub open spec fn fresh_orb_from(o: SeedOrb, x: int, y: int) -> bool {
    &&& o.x == x && o.y == y
    &&& o.spawn_timer == (Countdown {
        remaining_ms: SEED_ORB_FLIGHT_MS,
        duration_ms: SEED_ORB_FLIGHT_MS,
        repeating: false,
    })
    &&& o.wf()
    &&& dist_sq(o.target_x as int, o.target_y as int, x, y) <= 22500
    &&& (-(POS_LIMIT as int - 150) <= x <= POS_LIMIT as int - 150
        && -(POS_LIMIT as int - 150) <= y <= POS_LIMIT as int - 150)
        ==> dist_sq(o.target_x as int, o.target_y as int, x, y) >= 2500
}

/// The score ledger after recording one dandelion kill: combo and score
/// advance and the grace window is re-armed.
pub open spec fn spec_after_one_kill(g: GameData) -> GameData {
    GameData {
        combo: g.spec_combo_after_kill(),
        score: g.spec_score_after_kill(),
        combo_timer: Countdown {
            remaining_ms: spec_combo_window_ms(g.spec_combo_after_kill() as nat) as u32,
            duration_ms: spec_combo_window_ms(g.spec_combo_after_kill() as nat) as u32,
            repeating: false,
        },
        ..g
    }
}

/// The ledger after `k` consecutive kills.
pub open spec fn kills_applied(g: GameData, k: nat) -> GameData
    decreases k,
{
    if k == 0 {
        g
    } else {
        spec_after_one_kill(kills_applied(g, (k - 1) as nat))
    }
}

/// Scoring kills never touches the session toggles and keeps the ledger
/// well-formed.
pub proof fn lemma_kills_applied_fields(g: GameData, k: nat)
    ensures
        g.wf() ==> kills_applied(g, k).wf(),
        kills_applied(g, k).slash_mode == g.slash_mode,
        kills_applied(g, k).slash_offset == g.slash_offset,
        kills_applied(g, k).music_enabled == g.music_enabled,
    decreases k,
{
    if k > 0 {
        lemma_kills_applied_fields(g, (k - 1) as nat);
    }
}

/// What destroying the dandelion at index `i` does to the field and the
/// ledger: the dandelion leaves, the tracker drops by its visual area, its
/// seed orbs are appended, and one kill is scored.
pub open spec fn destroyed_at(
    pre_f: Field, pre_g: GameData, post_f: Field, post_g: GameData, i: int,
) -> bool {
    let d = pre_f.dandelions@[i];
    &&& post_f.dandelions@ == pre_f.dandelions@.remove(i)
    &&& post_f.next_id == pre_f.next_id
    &&& post_f.area_tracker.total_area == pre_f.area_tracker.total_area
        - d.size.spec_visual_area()
    &&& post_f.seed_orbs@.len() == pre_f.seed_orbs@.len() + d.size.spec_spawn_count()
    &&& post_f.seed_orbs@.subrange(0, pre_f.seed_orbs@.len() as int) == pre_f.seed_orbs@
    &&& forall|j: int|
        pre_f.seed_orbs@.len() <= j < post_f.seed_orbs@.len()
            ==> fresh_orb_from(#[trigger] post_f.seed_orbs@[j], d.x as int, d.y as int)
    &&& post_g == spec_after_one_kill(pre_g)
}

/// What one point of damage at index `i` does: a dandelion with spare
/// health just loses one point; one at a single health point is destroyed.
pub open spec fn damaged_at(
    pre_f: Field, pre_g: GameData, post_f: Field, post_g: GameData, i: int,
) -> bool {
    let d = pre_f.dandelions@[i];
    if d.health > 1 {
        &&& post_f.dandelions@ == pre_f.dandelions@.update(i, Dandelion {
            health: (d.health - 1) as u32,
            ..d
        })
        &&& post_f.seed_orbs@ == pre_f.seed_orbs@
        &&& post_f.area_tracker == pre_f.area_tracker
        &&& post_f.next_id == pre_f.next_id
        &&& post_g == pre_g
    } else {
        destroyed_at(pre_f, pre_g, post_f, post_g, i)
    }
}

/// Whether the slash segment from `(ax, ay)` to `(bx, by)` reaches the
/// dandelion's collision circle.
pub open spec fn slash_hits(d: Dandelion, ax: int, ay: int, bx: int, by: int) -> bool {
    crate::geom::segment_within_dist(
        d.x as int, d.y as int, ax, ay, bx, by, d.size.spec_collision_radius() as int,
    )
}

/// The dandelions left after a slash sweeps the sequence in order: missed
/// ones are untouched, hit ones with spare health lose one point, hit ones
/// at one health are gone.
pub open spec fn slash_survivors(
    s: Seq<Dandelion>, ax: int, ay: int, bx: int, by: int,
) -> Seq<Dandelion>
    decreases s.len(),
{
    if s.len() == 0 {
        s
    } else {
        let d = s[0];
        let rest = slash_survivors(s.drop_first(), ax, ay, bx, by);
        if !slash_hits(d, ax, ay, bx, by) {
            seq![d] + rest
        } else if d.health > 1 {
            seq![Dandelion { health: (d.health - 1) as u32, ..d }] + rest
        } else {
            rest
        }
    }
}

/// The dandelions a slash destroys, in iteration order.
pub open spec fn slash_destroyed(
    s: Seq<Dandelion>, ax: int, ay: int, bx: int, by: int,
) -> Seq<Dandelion>
    decreases s.len(),
{
    if s.len() == 0 {
        s
    } else {
        let d = s[0];
        let rest = slash_destroyed(s.drop_first(), ax, ay, bx, by);
        if slash_hits(d, ax, ay, bx, by) && d.health == 1 {
            seq![d] + rest
        } else {
            rest
        }
    }
}

/// How many dandelions a slash damages (destroyed ones included).
pub open spec fn slash_hit_count(s: Seq<Dandelion>, ax: int, ay: int, bx: int, by: int) -> nat
    decreases s.len(),
{
    if s.len() == 0 {
        0
    } else {
        (if slash_hits(s[0], ax, ay, bx, by) { 1 as nat } else { 0 as nat })
            + slash_hit_count(s.drop_first(), ax, ay, bx, by)
    }
}

/// Total number of seed orbs a set of destroyed dandelions releases.
pub open spec fn total_spawn_count(s: Seq<Dandelion>) -> nat
    decreases s.len(),
{
    if s.len() == 0 {
        0
    } else {
        (total_spawn_count(s.drop_last()) + s.last().size.spec_spawn_count()) as nat
    }
}

/// Whether a click at `(x, y)` lands on the dandelion.
pub open spec fn click_hits(d: Dandelion, x: int, y: int) -> bool {
    within_dist(x, y, d.x as int, d.y as int, d.size.spec_collision_radius() as int)
}

/// Index of the first dandelion (in iteration order) a click lands on.
pub open spec fn first_click_hit(s: Seq<Dandelion>, x: int, y: int) -> Option<int>
    decreases s.len(),
{
    if s.len() == 0 {
        None
    } else if click_hits(s[0], x, y) {
        Some(0)
    } else {
        match first_click_hit(s.drop_first(), x, y) {
            Some(i) => Some(i + 1),
            None => None,
        }
    }
}

/// The first hit, when there is one, is a real hit and everything before
/// it is a miss.
pub proof fn lemma_first_click_hit(s: Seq<Dandelion>, x: int, y: int)
    ensures
        match first_click_hit(s, x, y) {
            Some(i) => 0 <= i < s.len() && click_hits(s[i], x, y)
                && forall|j: int| 0 <= j < i ==> !click_hits(s[j], x, y),
            None => forall|j: int| 0 <= j < s.len() ==> !click_hits(s[j], x, y),
        },
    decreases s.len(),
{
    if s.len() > 0 && !click_hits(s[0], x, y) {
        lemma_first_click_hit(s.drop_first(), x, y);
        let t = s.drop_first();
        match first_click_hit(t, x, y) {
            Some(i) => {
                assert(s[i + 1] == t[i]);
                assert forall|j: int| 0 <= j < i + 1 implies !click_hits(s[j], x, y) by {
                    if j > 0 {
                        assert(t[j - 1] == s[j]);
                    }
                }
            },
            None => {
                assert forall|j: int| 0 <= j < s.len() implies !click_hits(s[j], x, y) by {
                    if j > 0 {
                        assert(t[j - 1] == s[j]);
                    }
                }
            },
        }
    }
}

impl Field {
    /// Well-formedness: the area tracker is exact, ids are distinct and
    /// below `next_id`, every entity is internally sound, and the
    /// population respects the cap.
    pub open spec fn wf(self) -> bool {
        &&& self.area_tracker.total_area == area_sum(self.dandelions@)
        &&& ids_distinct(self.dandelions@)
        &&& forall|i: int|
            0 <= i < self.dandelions@.len() ==> (#[trigger] self.dandelions@[i]).wf()
        &&& forall|i: int|
            0 <= i < self.dandelions@.len() ==> (#[trigger] self.dandelions@[i]).id < self.next_id
        &&& forall|i: int| 0 <= i < self.seed_orbs@.len() ==> (#[trigger] self.seed_orbs@[i]).wf()
        &&& self.dandelions@.len() <= MAX_DANDELIONS
    }

    /// An empty field.
    pub fn new() -> (r: Field)
        ensures
            r.wf(),
            r.dandelions@.len() == 0,
            r.seed_orbs@.len() == 0,
            r.area_tracker.total_area == 0,
            r.next_id == 0,
    {
        Field {
            dandelions: Vec::new(),
            seed_orbs: Vec::new(),
            area_tracker: DandelionAreaTracker { total_area: 0 },
            next_id: 0,
        }
    }

    /// Tear down all tracked entities; the tracker returns to zero.
    pub fn cleanup_enemies(&mut self)
        ensures
            final(self).wf(),
            final(self).dandelions@.len() == 0,
            final(self).seed_orbs@.len() == 0,
            final(self).area_tracker.total_area == 0,
            final(self).next_id == old(self).next_id,
    {
        self.dandelions = Vec::new();
        self.seed_orbs = Vec::new();
        self.area_tracker.total_area = 0;
    }

    /// Append one dandelion with a fresh id, keeping the tracker exact.
    /// Refuses (returns false, changing nothing) only when the population
    /// cap is reached or the id space is exhausted.
    pub fn spawn_dandelion(
        &mut self,
        x: i32,
        y: i32,
        health: u32,
        size: DandelionSize,
        moving: Option<MovingDandelion>,
    ) -> (spawned: bool)
        requires
            old(self).wf(),
            in_world(x as int, y as int),
            health >= 1,
            moving matches Some(m) ==> m.wf(),
        ensures
            final(self).wf(),
            final(self).seed_orbs@ == old(self).seed_orbs@,
            spawned == (old(self).dandelions@.len() < MAX_DANDELIONS
                && old(self).next_id < u64::MAX),
            spawned ==> {
                &&& final(self).dandelions@ == old(self).dandelions@.push(Dandelion {
                    id: old(self).next_id,
                    x, y, health, size,
                    moving,
                    cooldown_ms: 0,
                })
                &&& final(self).next_id == old(self).next_id + 1
                &&& final(self).area_tracker.total_area == old(self).area_tracker.total_area
                    + size.spec_visual_area()
            },
            !spawned ==> final(self).dandelions@ == old(self).dandelions@
                && final(self).area_tracker == old(self).area_tracker
                && final(self).next_id == old(self).next_id,
    {
        if self.dandelions.len() >= MAX_DANDELIONS || self.next_id == u64::MAX {
            return false;
        }
        let d = Dandelion { id: self.next_id, x, y, health, size, moving, cooldown_ms: 0 };
        proof {
            lemma_area_sum_bounds(self.dandelions@);
            assert(self.dandelions@.len() * MAX_VISUAL_AREA
                <= MAX_DANDELIONS * MAX_VISUAL_AREA) by (nonlinear_arith)
                requires self.dandelions@.len() <= MAX_DANDELIONS;
            assert(self.dandelions@.push(d).drop_last() =~= self.dandelions@);
        }
        let area = d.size.visual_area();
        self.area_tracker.total_area = self.area_tracker.total_area + area;
        self.dandelions.push(d);
        self.next_id = self.next_id + 1;
        true
    }

    /// Remove the dandelion with the given id, if it is live. Removing an
    /// id that is not present changes nothing.
    pub fn remove_dandelion(&mut self, id: u64) -> (removed: Option<Dandelion>)
        requires
            old(self).wf(),
        ensures
            final(self).wf(),
            final(self).seed_orbs@ == old(self).seed_orbs@,
            final(self).next_id == old(self).next_id,
            !contains_id(old(self).dandelions@, id) ==> {
                &&& removed is None
                &&& final(self).dandelions@ == old(self).dandelions@
                &&& final(self).area_tracker == old(self).area_tracker
            },
            contains_id(old(self).dandelions@, id) ==> {
                let i = index_of_id(old(self).dandelions@, id);
                &&& removed == Some(old(self).dandelions@[i])
                &&& final(self).dandelions@ == old(self).dandelions@.remove(i)
                &&& final(self).area_tracker.total_area == old(self).area_tracker.total_area
                    - old(self).dandelions@[i].size.spec_visual_area()
            },
    {
        let n = self.dandelions.len();
        let mut k: usize = 0;
        while k < n
            invariant
                self.wf(),
                self.dandelions@ == old(self).dandelions@,
                self.seed_orbs@ == old(self).seed_orbs@,
                self.area_tracker == old(self).area_tracker,
                self.next_id == old(self).next_id,
                n == self.dandelions@.len(),
                k <= n,
                forall|j: int| 0 <= j < k ==> self.dandelions@[j].id != id,
            decreases n - k,
        {
            if self.dandelions[k].id == id {
                proof {
                    let s = self.dandelions@;
                    assert(contains_id(s, id));
                    let i = index_of_id(s, id);
                    assert(s[i].id == id);
                    if i < k as int {
                        assert(s[i].id != s[k as int].id);
                    }
                    if i > k as int {
                        assert(s[k as int].id != s[i].id);
                    }
                    assert(i == k as int);
                    lemma_area_sum_remove(s, k as int);
                    lemma_area_sum_bounds(s.remove(k as int));
                }
                let d = self.dandelions.remove(k);
                proof {
                    let s = old(self).dandelions@;
                    let r = self.dandelions@;
                    assert(r == s.remove(k as int));
                    assert forall|a: int, b: int| 0 <= a < b < r.len()
                        implies r[a].id != r[b].id by {
                        assert(r[a] == if a < k as int { s[a] } else { s[a + 1] });
                        assert(r[b] == if b < k as int { s[b] } else { s[b + 1] });
                    }
                    assert forall|a: int| 0 <= a < r.len()
                        implies (#[trigger] r[a]).wf() && r[a].id < self.next_id by {
                        assert(r[a] == if a < k as int { s[a] } else { s[a + 1] });
                    }
                }
                self.area_tracker.total_area = self.area_tracker.total_area
                    - d.size.visual_area();
                return Some(d);
            }
            k = k + 1;
        }
        proof {
            assert(!contains_id(self.dandelions@, id));
        }
        None
    }

    /// Emit `count` seed orbs radiating out from `(x, y)`: each flies to a
    /// random target 50 to 150 units away (clamped to the world square) and
    /// matures after `SEED_ORB_FLIGHT_MS`.
    pub fn spawn_seed_orbs(&mut self, x: i32, y: i32, count: u32)
        requires
            in_world(x as int, y as int),
            forall|i: int|
                0 <= i < old(self).seed_orbs@.len() ==> (#[trigger] old(self).seed_orbs@[i]).wf(),
        ensures
            forall|i: int|
                0 <= i < final(self).seed_orbs@.len()
                    ==> (#[trigger] final(self).seed_orbs@[i]).wf(),
            final(self).dandelions@ == old(self).dandelions@,
            final(self).area_tracker == old(self).area_tracker,
            final(self).next_id == old(self).next_id,
            final(self).seed_orbs@.len() == old(self).seed_orbs@.len() + count,
            final(self).seed_orbs@.subrange(0, old(self).seed_orbs@.len() as int)
                == old(self).seed_orbs@,
            forall|j: int|
                old(self).seed_orbs@.len() <= j < final(self).seed_orbs@.len()
                    ==> fresh_orb_from(#[trigger] final(self).seed_orbs@[j], x as int, y as int),
    {
        let ghost orig = self.seed_orbs@;
        let mut k: u32 = 0;
        while k < count
            invariant
                forall|i: int|
                    0 <= i < self.seed_orbs@.len() ==> (#[trigger] self.seed_orbs@[i]).wf(),
                in_world(x as int, y as int),
                self.dandelions@ == old(self).dandelions@,
                self.area_tracker == old(self).area_tracker,
                self.next_id == old(self).next_id,
                k <= count,
                self.seed_orbs@.len() == orig.len() + k,
                self.seed_orbs@.subrange(0, orig.len() as int) == orig,
                forall|j: int|
                    orig.len() <= j < self.seed_orbs@.len()
                        ==> fresh_orb_from(#[trigger] self.seed_orbs@[j], x as int, y as int),
            decreases count - k,
        {
            let mag: i64 = random_in_range(52, 151);
            let off: (i64, i64) = random_offset_with_magnitude(mag);
            proof {
                assert(off.0 * off.0 + off.1 * off.1 >= 52 * 52 - 2 * 52) by (nonlinear_arith)
                    requires
                        off.0 * off.0 + off.1 * off.1 >= mag * mag - 2 * mag,
                        52 <= mag <= 150;
                assert(off.0 * off.0 + off.1 * off.1 <= 150 * 150) by (nonlinear_arith)
                    requires
                        off.0 * off.0 + off.1 * off.1 <= mag * mag,
                        52 <= mag <= 150;
            }
            let raw_tx: i64 = x as i64 + off.0;
            let raw_ty: i64 = y as i64 + off.1;
            let tx: i32 = clamp_coord(raw_tx as i32, -POS_LIMIT, POS_LIMIT);
            let ty: i32 = clamp_coord(raw_ty as i32, -POS_LIMIT, POS_LIMIT);
            let orb = SeedOrb {
                x, y,
                target_x: tx,
                target_y: ty,
                spawn_timer: Countdown::new_once(SEED_ORB_FLIGHT_MS),
            };
            proof {
                let dx = tx as int - x as int;
                let dy = ty as int - y as int;
                assert(dx == off.0 || (off.0 <= dx <= 0) || (0 <= dx <= off.0));
                assert(dy == off.1 || (off.1 <= dy <= 0) || (0 <= dy <= off.1));
                assert(dx * dx <= off.0 * off.0) by (nonlinear_arith)
                    requires dx == off.0 || (off.0 <= dx <= 0) || (0 <= dx <= off.0);
                assert(dy * dy <= off.1 * off.1) by (nonlinear_arith)
                    requires dy == off.1 || (off.1 <= dy <= 0) || (0 <= dy <= off.1);
                if -(POS_LIMIT - 150) <= x && x <= POS_LIMIT - 150
                    && -(POS_LIMIT - 150) <= y && y <= POS_LIMIT - 150 {
                    assert(tx as int == raw_tx as int && ty as int == raw_ty as int);
                    assert(dx == off.0 && dy == off.1);
                }
                assert(self.seed_orbs@.push(orb).subrange(0, orig.len() as int)
                    =~= self.seed_orbs@.subrange(0, orig.len() as int));
            }
            self.seed_orbs.push(orb);
            k = k + 1;
        }
    }

    /// Whether a dandelion with the given id is live.
    pub fn contains_dandelion(&self, id: u64) -> (r: bool)
        ensures
            r == contains_id(self.dandelions@, id),
    {
        let n = self.dandelions.len();
        let mut k: usize = 0;
        while k < n
            invariant
                n == self.dandelions@.len(),
                k <= n,
                forall|j: int| 0 <= j < k ==> self.dandelions@[j].id != id,
            decreases n - k,
        {
            if self.dandelions[k].id == id {
                return true;
            }
            k = k + 1;
        }
        false
    }

    /// Position and tier of the live dandelion with the given id.
    pub fn lookup_dandelion(&self, id: u64) -> (r: Option<(i32, i32, DandelionSize)>)
        requires
            self.wf(),
        ensures
            r is Some <==> contains_id(self.dandelions@, id),
            r matches Some(t) ==> ({
                let i = index_of_id(self.dandelions@, id);
                t.0 == self.dandelions@[i].x && t.1 == self.dandelions@[i].y
                    && t.2 == self.dandelions@[i].size
            }),
    {
        let n = self.dandelions.len();
        let mut k: usize = 0;
        while k < n
            invariant
                self.wf(),
                n == self.dandelions@.len(),
                k <= n,
                forall|j: int| 0 <= j < k ==> self.dandelions@[j].id != id,
            decreases n - k,
        {
            let d = self.dandelions[k];
            if d.id == id {
                proof {
                    let s = self.dandelions@;
                    assert(contains_id(s, id));
                    let i = index_of_id(s, id);
                    assert(s[i].id == id);
                    if i < k as int {
                        assert(s[i].id != s[k as int].id);
                    }
                    if i > k as int {
                        assert(s[k as int].id != s[i].id);
                    }
                    assert(i == k as int);
                }
                return Some((d.x, d.y, d.size));
            }
            k = k + 1;
        }
        None
    }

    /// Destroy the dandelion with the given id: it despawns, its seed orbs
    /// fly out, the tracker drops by its visual area, and one kill is
    /// scored. Destroying an id that is not live is a no-op.
    pub fn destroy_dandelion(&mut self, id: u64, game: &mut GameData) -> (destroyed: bool)
        requires
            old(self).wf(),
            old(game).wf(),
        ensures
            final(self).wf(),
            final(game).wf(),
            destroyed == contains_id(old(self).dandelions@, id),
            !destroyed ==> {
                &&& final(self).dandelions@ == old(self).dandelions@
                &&& final(self).seed_orbs@ == old(self).seed_orbs@
                &&& final(self).area_tracker == old(self).area_tracker
                &&& final(self).next_id == old(self).next_id
                &&& *final(game) == *old(game)
            },
            destroyed ==> destroyed_at(
                *old(self), *old(game), *final(self), *final(game),
                index_of_id(old(self).dandelions@, id),
            ),
    {
        let removed = self.remove_dandelion(id);
        match removed {
            None => false,
            Some(d) => {
                proof {
                    let i = index_of_id(old(self).dandelions@, id);
                    assert(old(self).dandelions@[i].wf());
                }
                let count = d.size.spawn_count();
                self.spawn_seed_orbs(d.x, d.y, count);
                game.add_dandelion_kill();
                true
            },
        }
    }

    /// Apply one point of damage to the dandelion with the given id; at
    /// zero health it is destroyed. Damaging an id that is not live is a
    /// no-op.
    pub fn damage_dandelion(&mut self, id: u64, game: &mut GameData) -> (hit: bool)
        requires
            old(self).wf(),
            old(game).wf(),
        ensures
            final(self).wf(),
            final(game).wf(),
            hit == contains_id(old(self).dandelions@, id),
            !hit ==> {
                &&& final(self).dandelions@ == old(self).dandelions@
                &&& final(self).seed_orbs@ == old(self).seed_orbs@
                &&& final(self).area_tracker == old(self).area_tracker
                &&& final(self).next_id == old(self).next_id
                &&& *final(game) == *old(game)
            },
            hit ==> damaged_at(
                *old(self), *old(game), *final(self), *final(game),
                index_of_id(old(self).dandelions@, id),
            ),
    {
        let n = self.dandelions.len();
        let mut k: usize = 0;
        while k < n
            invariant
                self.wf(),
                self.dandelions@ == old(self).dandelions@,
                self.seed_orbs@ == old(self).seed_orbs@,
                self.area_tracker == old(self).area_tracker,
                self.next_id == old(self).next_id,
                old(game).wf(),
                *game == *old(game),
                n == self.dandelions@.len(),
                k <= n,
                forall|j: int| 0 <= j < k ==> self.dandelions@[j].id != id,
            decreases n - k,
        {
            if self.dandelions[k].id == id {
                proof {
                    let s = self.dandelions@;
                    assert(contains_id(s, id));
                    let i = index_of_id(s, id);
                    assert(s[i].id == id);
                    if i < k as int {
                        assert(s[i].id != s[k as int].id);
                    }
                    if i > k as int {
                        assert(s[k as int].id != s[i].id);
                    }
                    assert(i == k as int);
                }
                let d = self.dandelions[k];
                if d.health > 1 {
                    let nd = Dandelion { health: d.health - 1, ..d };
                    proof {
                        lemma_area_sum_update(self.dandelions@, k as int, nd);
                        let s = self.dandelions@;
                        let r = s.update(k as int, nd);
                        assert forall|a: int, b: int| 0 <= a < b < r.len()
                            implies r[a].id != r[b].id by {
                            assert(s[a].id != s[b].id);
                        }
                    }
                    self.dandelions.set(k, nd);
                    return true;
                } else {
                    let destroyed = self.destroy_dandelion(id, game);
                    proof {
                        assert(destroyed);
                    }
                    return true;
                }
            }
            k = k + 1;
        }
        proof {
            assert(!contains_id(self.dandelions@, id));
        }
        false
    }

    /// Resolve a click at `(x, y)`: the first dandelion (in spawn order)
    /// whose collision circle contains the point takes one point of
    /// damage; at most one dandelion is hit per click.
    pub fn process_dandelion_hit(&mut self, x: i32, y: i32, game: &mut GameData) -> (hit: bool)
        requires
            old(self).wf(),
            old(game).wf(),
            in_world(x as int, y as int),
        ensures
            final(self).wf(),
            final(game).wf(),
            hit == (first_click_hit(old(self).dandelions@, x as int, y as int) is Some),
            !hit ==> {
                &&& final(self).dandelions@ == old(self).dandelions@
                &&& final(self).seed_orbs@ == old(self).seed_orbs@
                &&& final(self).area_tracker == old(self).area_tracker
                &&& final(self).next_id == old(self).next_id
                &&& *final(game) == *old(game)
            },
            hit ==> damaged_at(
                *old(self), *old(game), *final(self), *final(game),
                first_click_hit(old(self).dandelions@, x as int, y as int)->Some_0,
            ),
    {
        proof {
            lemma_first_click_hit(old(self).dandelions@, x as int, y as int);
        }
        let n = self.dandelions.len();
        let mut k: usize = 0;
        while k < n
            invariant
                self.wf(),
                self.dandelions@ == old(self).dandelions@,
                self.seed_orbs@ == old(self).seed_orbs@,
                self.area_tracker == old(self).area_tracker,
                self.next_id == old(self).next_id,
                old(game).wf(),
                *game == *old(game),
                in_world(x as int, y as int),
                n == self.dandelions@.len(),
                k <= n,
                forall|j: int|
                    0 <= j < k ==> !click_hits(#[trigger] self.dandelions@[j], x as int, y as int),
            decreases n - k,
        {
            let d = self.dandelions[k];
            proof {
                assert(d.wf());
            }
            if within_dist_exec(x, y, d.x, d.y, d.size.collision_radius()) {
                proof {
                    let s = old(self).dandelions@;
                    assert(click_hits(s[k as int], x as int, y as int));
                    lemma_first_click_hit(s, x as int, y as int);
                    let hit_idx = first_click_hit(s, x as int, y as int);
                    assert(hit_idx matches Some(i) && i == k as int) by {
                        if hit_idx is None {
                            assert(!click_hits(s[k as int], x as int, y as int));
                        }
                        let i = hit_idx->Some_0;
                        if i < k as int {
                            assert(!click_hits(s[i], x as int, y as int));
                        }
                        if i > k as int {
                            assert(!click_hits(s[k as int], x as int, y as int));
                        }
                    }
                    let i = index_of_id(s, d.id);
                    assert(s[k as int].id == d.id);
                    assert(contains_id(s, d.id));
                    assert(s[i].id == d.id);
                    if i < k as int {
                        assert(s[i].id != s[k as int].id);
                    }
                    if i > k as int {
                        assert(s[k as int].id != s[i].id);
                    }
                    assert(i == k as int);
                }
                let _ = self.damage_dandelion(d.id, game);
                return true;
            }
            k = k + 1;
        }
        false
    }
}

impl Field {
    /// Resolve a slash attack: a diagonal segment of half-length
    /// `game.slash_offset` centered on the click runs from top-right to
    /// bottom-left, and every dandelion whose collision circle it reaches
    /// takes one point of damage; those at one health are destroyed, their
    /// seed orbs fly out and their kills are scored in order.
    pub fn process_slash_attack(&mut self, x: i32, y: i32, game: &mut GameData) -> (hits: usize)
        requires
            old(self).wf(),
            old(game).wf(),
            0 <= old(game).slash_offset <= 1000,
            -(POS_LIMIT as int - 1000) <= x as int <= POS_LIMIT as int - 1000,
            -(POS_LIMIT as int - 1000) <= y as int <= POS_LIMIT as int - 1000,
        ensures
            final(self).wf(),
            final(game).wf(),
            ({
                let ax = x as int + old(game).slash_offset as int;
                let ay = y as int + old(game).slash_offset as int;
                let bx = x as int - old(game).slash_offset as int;
                let by = y as int - old(game).slash_offset as int;
                let destroyed = slash_destroyed(old(self).dandelions@, ax, ay, bx, by);
                &&& final(self).dandelions@
                    == slash_survivors(old(self).dandelions@, ax, ay, bx, by)
                &&& hits == slash_hit_count(old(self).dandelions@, ax, ay, bx, by)
                &&& final(self).next_id == old(self).next_id
                &&& *final(game) == kills_applied(*old(game), destroyed.len())
                &&& final(self).seed_orbs@.len()
                    == old(self).seed_orbs@.len() + total_spawn_count(destroyed)
                &&& final(self).seed_orbs@.subrange(0, old(self).seed_orbs@.len() as int)
                    == old(self).seed_orbs@
                &&& forall|j: int|
                    old(self).seed_orbs@.len() <= j < final(self).seed_orbs@.len()
                        ==> exists|m: int|
                            0 <= m < destroyed.len() && fresh_orb_from(
                                #[trigger] final(self).seed_orbs@[j],
                                destroyed[m].x as int,
                                destroyed[m].y as int,
                            )
            }),
    {
        let ghost s = old(self).dandelions@;
        let off: i32 = game.slash_offset;
        let ax: i32 = x + off;
        let ay: i32 = y + off;
        let bx: i32 = x - off;
        let by: i32 = y - off;
        let ghost axi = ax as int;
        let ghost ayi = ay as int;
        let ghost bxi = bx as int;
        let ghost byi = by as int;
        let n = self.dandelions.len();
        let mut survivors: Vec<Dandelion> = Vec::new();
        let mut hits: usize = 0;
        let ghost mut dg: Seq<Dandelion> = Seq::empty();
        let ghost orig_orbs = old(self).seed_orbs@;
        let mut k: usize = 0;
        proof {
            assert(s.skip(0) =~= s);
        }
        while k < n
            invariant
                old(self).wf(),
                old(game).wf(),
                s == old(self).dandelions@,
                orig_orbs == old(self).seed_orbs@,
                axi == ax as int && ayi == ay as int && bxi == bx as int && byi == by as int,
                in_world(axi, ayi) && in_world(bxi, byi),
                n == s.len(),
                k <= n,
                hits <= k,
                self.dandelions@ == s,
                self.next_id == old(self).next_id,
                slash_survivors(s, axi, ayi, bxi, byi)
                    == survivors@ + slash_survivors(s.skip(k as int), axi, ayi, bxi, byi),
                slash_destroyed(s, axi, ayi, bxi, byi)
                    == dg + slash_destroyed(s.skip(k as int), axi, ayi, bxi, byi),
                slash_hit_count(s, axi, ayi, bxi, byi)
                    == hits + slash_hit_count(s.skip(k as int), axi, ayi, bxi, byi),
                *game == kills_applied(*old(game), dg.len()),
                self.area_tracker.total_area as int
                    == area_sum(survivors@) + area_sum(s.skip(k as int)),
                self.seed_orbs@.len() == orig_orbs.len() + total_spawn_count(dg),
                self.seed_orbs@.subrange(0, orig_orbs.len() as int) == orig_orbs,
                forall|j: int|
                    0 <= j < self.seed_orbs@.len() ==> (#[trigger] self.seed_orbs@[j]).wf(),
                forall|j: int|
                    orig_orbs.len() <= j < self.seed_orbs@.len()
                        ==> exists|m: int|
                            0 <= m < dg.len() && fresh_orb_from(
                                #[trigger] self.seed_orbs@[j],
                                dg[m].x as int,
                                dg[m].y as int,
                            ),
                survivors@.len() <= k,
                forall|a: int|
                    0 <= a < survivors@.len() ==> (#[trigger] survivors@[a]).wf(),
                forall|a: int|
                    0 <= a < survivors@.len()
                        ==> (#[trigger] survivors@[a]).id < old(self).next_id,
                forall|a: int, b: int|
                    0 <= a < b < survivors@.len() ==> survivors@[a].id != survivors@[b].id,
                forall|a: int, j: int|
                    0 <= a < survivors@.len() && k <= j < n
                        ==> (#[trigger] survivors@[a]).id != (#[trigger] s[j]).id,
            decreases n - k,
        {
            let d = self.dandelions[k];
            proof {
                assert(d.wf());
                assert(s.skip(k as int).len() > 0);
                assert(s.skip(k as int)[0] == s[k as int]);
                assert(s.skip(k as int).drop_first() =~= s.skip(k as int + 1));
                lemma_area_sum_first(s.skip(k as int));
                lemma_area_sum_bounds(survivors@);
                lemma_area_sum_bounds(s.skip(k as int + 1));
            }
            let is_hit = crate::geom::segment_within_dist_exec(
                d.x, d.y, ax, ay, bx, by, d.size.collision_radius(),
            );
            if is_hit {
                hits = hits + 1;
                if d.health > 1 {
                    let nd = Dandelion { health: d.health - 1, ..d };
                    proof {
                        assert(survivors@.push(nd) =~= survivors@ + seq![nd]);
                        assert((survivors@ + seq![nd])
                            + slash_survivors(s.skip(k as int + 1), axi, ayi, bxi, byi)
                            =~= survivors@ + (seq![nd]
                                + slash_survivors(s.skip(k as int + 1), axi, ayi, bxi, byi)));
                        assert(survivors@.push(nd).drop_last() =~= survivors@);
                    }
                    survivors.push(nd);
                } else {
                    // Destroyed: tracker down, orbs out, kill scored.
                    proof {
                        assert(self.area_tracker.total_area >= d.size.spec_visual_area());
                    }
                    self.area_tracker.total_area =
                        self.area_tracker.total_area - d.size.visual_area();
                    let count = d.size.spawn_count();
                    let ghost orbs_before = self.seed_orbs@;
                    self.spawn_seed_orbs(d.x, d.y, count);
                    game.add_dandelion_kill();
                    proof {
                        let dg2 = dg + seq![d];
                        assert(dg2.drop_last() =~= dg);
                        assert(dg2.last() == d);
                        assert(dg2 + slash_destroyed(s.skip(k as int + 1), axi, ayi, bxi, byi)
                            =~= dg + (seq![d]
                                + slash_destroyed(s.skip(k as int + 1), axi, ayi, bxi, byi)));
                        assert(self.seed_orbs@.subrange(0, orig_orbs.len() as int)
                            =~= orbs_before.subrange(0, orig_orbs.len() as int));
                        assert forall|j: int|
                            orig_orbs.len() <= j < self.seed_orbs@.len()
                                implies exists|m: int|
                                    0 <= m < dg2.len() && fresh_orb_from(
                                        #[trigger] self.seed_orbs@[j],
                                        dg2[m].x as int,
                                        dg2[m].y as int,
                                    ) by {
                            if j < orbs_before.len() {
                                assert(self.seed_orbs@[j] == orbs_before[j]);
                                let m = choose|m: int|
                                    0 <= m < dg.len() && fresh_orb_from(
                                        orbs_before[j], dg[m].x as int, dg[m].y as int,
                                    );
                                assert(dg2[m] == dg[m]);
                                assert(fresh_orb_from(
                                    self.seed_orbs@[j], dg2[m].x as int, dg2[m].y as int,
                                ));
                            } else {
                                assert(fresh_orb_from(
                                    self.seed_orbs@[j], d.x as int, d.y as int,
                                ));
                                assert(dg2[dg.len() as int] == d);
                                assert(fresh_orb_from(
                                    self.seed_orbs@[j],
                                    dg2[dg.len() as int].x as int,
                                    dg2[dg.len() as int].y as int,
                                ));
                            }
                        }
                        dg = dg2;
                    }
                }
            } else {
                proof {
                    assert(survivors@.push(d) =~= survivors@ + seq![d]);
                    assert((survivors@ + seq![d])
                        + slash_survivors(s.skip(k as int + 1), axi, ayi, bxi, byi)
                        =~= survivors@ + (seq![d]
                            + slash_survivors(s.skip(k as int + 1), axi, ayi, bxi, byi)));
                    assert(survivors@.push(d).drop_last() =~= survivors@);
                }
                survivors.push(d);
            }
            k = k + 1;
        }
        proof {
            assert(s.skip(n as int) =~= Seq::<Dandelion>::empty());
            assert(slash_survivors(s, axi, ayi, bxi, byi) =~= survivors@);
            assert(slash_destroyed(s, axi, ayi, bxi, byi) =~= dg);
            lemma_kills_applied_fields(*old(game), dg.len());
        }
        self.dandelions = survivors;
        hits
    }
}

/// Whether the two dandelions at indices `a` and `b` can merge: same tier,
/// a next tier exists (Huge cannot grow further), and their centers lie
/// within the tier's merge radius.
pub open spec fn mergeable(s: Seq<Dandelion>, a: int, b: int) -> bool {
    &&& s[a].size == s[b].size
    &&& s[a].size.spec_next_size() is Some
    &&& within_dist(
        s[a].x as int, s[a].y as int, s[b].x as int, s[b].y as int,
        s[a].size.spec_merge_radius() as int,
    )
}

/// Whether index `k` belongs to one of the recorded merge pairs.
pub open spec fn index_used(pairs: Seq<(usize, usize)>, k: int) -> bool {
    exists|p: int| 0 <= p < pairs.len() && ((#[trigger] pairs[p]).0 == k || pairs[p].1 == k)
}

/// A single recorded pair is valid for the snapshot `s`.
pub open spec fn pair_valid(s: Seq<Dandelion>, pr: (usize, usize)) -> bool {
    pr.0 < pr.1 < s.len() && mergeable(s, pr.0 as int, pr.1 as int)
}

/// All recorded pairs are valid and pairwise disjoint.
pub open spec fn pairs_ok(s: Seq<Dandelion>, pairs: Seq<(usize, usize)>) -> bool {
    &&& forall|p: int| 0 <= p < pairs.len() ==> pair_valid(s, #[trigger] pairs[p])
    &&& forall|p: int, q: int|
        0 <= p < q < pairs.len() ==> {
            let a = #[trigger] pairs[p];
            let b = #[trigger] pairs[q];
            a.0 != b.0 && a.0 != b.1 && a.1 != b.0 && a.1 != b.1
        }
}

/// One row of the greedy first-come scan: pairing partner search for
/// index `i` over `j, j+1, ...`, claiming both indices of the first
/// eligible pair; once `i` is claimed the rest of the row is skipped.
/// Returns the pairs found in the row and the claimed-index set after it.
pub open spec fn greedy_row(
    s: Seq<Dandelion>, i: int, j: int, used: Set<int>,
) -> (Seq<(usize, usize)>, Set<int>)
    decreases s.len() - j,
{
    if j < 0 || j >= s.len() || i < 0 {
        (Seq::empty(), used)
    } else if !used.contains(i) && !used.contains(j) && mergeable(s, i, j) {
        let rec = greedy_row(s, i, j + 1, used.insert(i).insert(j));
        (seq![(i as usize, j as usize)] + rec.0, rec.1)
    } else {
        greedy_row(s, i, j + 1, used)
    }
}

/// The greedy first-come pairing over all index pairs in iteration order:
/// row after row, threading the claimed-index set through.
pub open spec fn greedy_pairs_from(s: Seq<Dandelion>, i: int, used: Set<int>)
    -> Seq<(usize, usize)>
    decreases s.len() - i,
{
    if i < 0 || i >= s.len() {
        Seq::empty()
    } else {
        let row = greedy_row(s, i, i + 1, used);
        row.0 + greedy_pairs_from(s, i + 1, row.1)
    }
}

/// The deterministic first-come greedy merge pairing of a snapshot.
pub open spec fn greedy_pairs(s: Seq<Dandelion>) -> Seq<(usize, usize)> {
    greedy_pairs_from(s, 0, Set::empty())
}

/// The dandelions that survive a merge pass untouched: those whose index
/// is in no recorded pair, in their original order.
pub open spec fn merge_survivors_from(
    s: Seq<Dandelion>, pairs: Seq<(usize, usize)>, k: int,
) -> Seq<Dandelion>
    decreases s.len() - k,
{
    if k < 0 || k >= s.len() {
        Seq::empty()
    } else if index_used(pairs, k) {
        merge_survivors_from(s, pairs, k + 1)
    } else {
        seq![s[k]] + merge_survivors_from(s, pairs, k + 1)
    }
}

/// What holds of the dandelion created by merging the recorded pair `pr`:
/// it stands at the pair's midpoint, one tier up, with freshly scaled
/// health, and gains movement exactly when it became Huge.
pub open spec fn merge_result_ok(
    s: Seq<Dandelion>, pr: (usize, usize), d: Dandelion, id: u64, mult: u32,
) -> bool {
    let a = s[pr.0 as int];
    let b = s[pr.1 as int];
    let ns = a.size.spec_next_size()->Some_0;
    &&& d.id == id
    &&& d.x == crate::geom::half_toward_zero(a.x as int + b.x as int)
    &&& d.y == crate::geom::half_toward_zero(a.y as int + b.y as int)
    &&& d.size == ns
    &&& d.health == spec_scaled_health(ns, mult)
    &&& d.cooldown_ms == 0
    &&& (d.moving is Some <==> ns == DandelionSize::Huge)
    &&& (d.moving matches Some(w) ==> w.wf() && w.speed == 50)
}

/// Every Huge dandelion survives a merge pass unchanged: no pair can
/// contain it, so it reappears in the survivor sequence.
pub proof fn lemma_huge_dandelions_survive_merging(
    s: Seq<Dandelion>, pairs: Seq<(usize, usize)>, k: int,
)
    requires
        pairs_ok(s, pairs),
        0 <= k < s.len(),
        s[k].size == DandelionSize::Huge,
    ensures
        !index_used(pairs, k),
        merge_survivors_from(s, pairs, 0).contains(s[k]),
{
    assert(!index_used(pairs, k)) by {
        if index_used(pairs, k) {
            let p = choose|p: int|
                0 <= p < pairs.len() && ((#[trigger] pairs[p]).0 == k || pairs[p].1 == k);
            assert(pair_valid(s, pairs[p]));
            assert(s[pairs[p].0 as int].size == s[pairs[p].1 as int].size);
            assert(s[k].size.spec_next_size() is Some);
        }
    }
    lemma_merge_survivors_contains(s, pairs, 0, k);
}

/// An unused index below `s.len()` appears in the survivor suffix starting
/// at or before it.
proof fn lemma_merge_survivors_contains(
    s: Seq<Dandelion>, pairs: Seq<(usize, usize)>, from: int, k: int,
)
    requires
        0 <= from <= k < s.len(),
        !index_used(pairs, k),
    ensures
        merge_survivors_from(s, pairs, from).contains(s[k]),
    decreases k - from,
{
    if from == k {
        assert(merge_survivors_from(s, pairs, from)[0] == s[k]);
    } else {
        lemma_merge_survivors_contains(s, pairs, from + 1, k);
        let rest = merge_survivors_from(s, pairs, from + 1);
        let w = choose|w: int| 0 <= w < rest.len() && rest[w] == s[k];
        if index_used(pairs, from) {
        } else {
            assert((seq![s[from]] + rest)[w + 1] == s[k]);
        }
    }
}

impl MovingDandelion {
    /// Fresh movement state: a random heading at the given speed, with the
    /// two-second heading-change timer.
    pub fn new_random(speed: u32) -> (r: MovingDandelion)
        requires
            1 <= speed <= 1000,
        ensures
            r.wf(),
            r.speed == speed,
            r.direction_timer == (Countdown {
                remaining_ms: 2000,
                duration_ms: 2000,
                repeating: true,
            }),
    {
        let v: (i64, i64) = random_offset_with_magnitude(speed as i64);
        MovingDandelion {
            vx: v.0 as i32,
            vy: v.1 as i32,
            speed,
            direction_timer: Countdown::new_repeating(2000),
        }
    }
}

/// Number of set entries in a bitmap.
pub open spec fn count_used_bools(u: Seq<bool>) -> nat
    decreases u.len(),
{
    if u.len() == 0 {
        0
    } else {
        (count_used_bools(u.drop_last()) + if u.last() { 1 as nat } else { 0 as nat }) as nat
    }
}

/// Setting one entry to true raises the count by one when it was false.
proof fn lemma_count_bools_update(u: Seq<bool>, k: int)
    requires
        0 <= k < u.len(),
        !u[k],
    ensures
        count_used_bools(u.update(k, true)) == count_used_bools(u) + 1,
    decreases u.len(),
{
    if k == u.len() - 1 {
        assert(u.update(k, true).drop_last() =~= u.drop_last());
        assert(u.update(k, true).last());
    } else {
        assert(u.update(k, true).drop_last() =~= u.drop_last().update(k, true));
        assert(u.update(k, true).last() == u.last());
        lemma_count_bools_update(u.drop_last(), k);
    }
}

/// The count never exceeds the length.
proof fn lemma_count_bools_le_len(u: Seq<bool>)
    ensures
        count_used_bools(u) <= u.len(),
    decreases u.len(),
{
    if u.len() > 0 {
        lemma_count_bools_le_len(u.drop_last());
    }
}

/// Find the greedy first-come merge pairing over the current snapshot:
/// scan all index pairs in order and claim both indices of every mergeable
/// pair whose members are still unclaimed.
fn find_merge_pairs(dandelions: &Vec<Dandelion>) -> (r: (Vec<(usize, usize)>, Vec<bool>))
    requires
        forall|i: int| 0 <= i < dandelions@.len() ==> (#[trigger] dandelions@[i]).wf(),
    ensures
        ({
            let pairs = r.0;
            let used = r.1;
            &&& pairs_ok(dandelions@, pairs@)
            &&& forall|a: int, b: int|
                0 <= a < b < dandelions@.len() && !index_used(pairs@, a)
                    && !index_used(pairs@, b)
                    ==> !mergeable(dandelions@, a, b)
            &&& used@.len() == dandelions@.len()
            &&& forall|k: int| 0 <= k < used@.len() ==> used@[k] == index_used(pairs@, k)
            &&& 2 * pairs@.len() == count_used_bools(used@)
            &&& pairs@ == greedy_pairs(dandelions@)
        }),
{
    let ghost s = dandelions@;
    let n = dandelions.len();
    let mut pairs: Vec<(usize, usize)> = Vec::new();
    let mut used: Vec<bool> = Vec::new();
    let mut t: usize = 0;
    while t < n
        invariant
            t <= n,
            used@.len() == t,
            forall|k: int| 0 <= k < t ==> !used@[k],
            count_used_bools(used@) == 0,
        decreases n - t,
    {
        proof {
            assert(used@.push(false).drop_last() =~= used@);
        }
        used.push(false);
        t = t + 1;
    }
    let ghost mut uset: Set<int> = Set::empty();
    proof {
        assert(Seq::<(usize, usize)>::empty() + greedy_pairs_from(s, 0, uset)
            =~= greedy_pairs_from(s, 0, uset));
    }
    let mut i: usize = 0;
    while i < n
        invariant
            s == dandelions@,
            forall|k: int| 0 <= k < s.len() ==> (#[trigger] s[k]).wf(),
            n == s.len(),
            i <= n,
            used@.len() == n,
            pairs_ok(s, pairs@),
            2 * pairs@.len() == count_used_bools(used@),
            forall|k: int| 0 <= k < n ==> used@[k] == index_used(pairs@, k),
            forall|k: int| 0 <= k < n ==> used@[k] == uset.contains(k),
            greedy_pairs(s) == pairs@ + greedy_pairs_from(s, i as int, uset),
            forall|a: int, b: int|
                0 <= a < b < n && a < i && !index_used(pairs@, a) && !index_used(pairs@, b)
                    ==> !mergeable(s, a, b),
        decreases n - i,
    {
        let mut j: usize = i + 1;
        proof {
            assert(greedy_pairs_from(s, i as int, uset) == ({
                let row = greedy_row(s, i as int, i as int + 1, uset);
                row.0 + greedy_pairs_from(s, i as int + 1, row.1)
            }));
        }
        while j < n
            invariant
                s == dandelions@,
                forall|k: int| 0 <= k < s.len() ==> (#[trigger] s[k]).wf(),
                n == s.len(),
                i < n,
                i < j <= n,
                used@.len() == n,
                pairs_ok(s, pairs@),
                2 * pairs@.len() == count_used_bools(used@),
                forall|k: int| 0 <= k < n ==> used@[k] == index_used(pairs@, k),
                forall|k: int| 0 <= k < n ==> used@[k] == uset.contains(k),
                greedy_pairs(s) == pairs@ + ({
                    let row = greedy_row(s, i as int, j as int, uset);
                    row.0 + greedy_pairs_from(s, i as int + 1, row.1)
                }),
                forall|a: int, b: int|
                    0 <= a < b < n && a < i && !index_used(pairs@, a) && !index_used(pairs@, b)
                        ==> !mergeable(s, a, b),
                forall|b: int|
                    i < b < j && !index_used(pairs@, i as int) && !index_used(pairs@, b)
                        ==> !mergeable(s, i as int, b),
            decreases n - j,
        {
            if !used[i] && !used[j] {
                let di = dandelions[i];
                let dj = dandelions[j];
                if di.size == dj.size && di.size.next_size().is_some() {
                    if within_dist_exec(di.x, di.y, dj.x, dj.y, di.size.merge_radius()) {
                        proof {
                            assert(mergeable(s, i as int, j as int));
                        }
                        let pr = (i, j);
                        proof {
                            let ps = pairs@;
                            let ps2 = ps.push(pr);
                            assert(ps2[ps.len() as int] == pr);
                            assert forall|k: int| 0 <= k < n
                                implies (k == i as int || k == j as int
                                    || index_used(ps, k) == index_used(ps2, k)) by {
                                if index_used(ps, k) {
                                    let p = choose|p: int|
                                        0 <= p < ps.len()
                                            && ((#[trigger] ps[p]).0 == k || ps[p].1 == k);
                                    assert(ps2[p] == ps[p]);
                                }
                                if index_used(ps2, k) && k != i as int && k != j as int {
                                    let p = choose|p: int|
                                        0 <= p < ps2.len()
                                            && ((#[trigger] ps2[p]).0 == k || ps2[p].1 == k);
                                    assert(p < ps.len());
                                    assert(ps[p] == ps2[p]);
                                }
                            }
                            assert(index_used(ps2, i as int));
                            assert(index_used(ps2, j as int));
                            assert forall|p: int| 0 <= p < ps2.len()
                                implies pair_valid(s, #[trigger] ps2[p]) by {
                                if p < ps.len() {
                                    assert(ps2[p] == ps[p]);
                                }
                            }
                            assert forall|p: int, q: int| 0 <= p < q < ps2.len()
                                implies {
                                    let a = #[trigger] ps2[p];
                                    let b = #[trigger] ps2[q];
                                    a.0 != b.0 && a.0 != b.1 && a.1 != b.0 && a.1 != b.1
                                } by {
                                if q < ps.len() {
                                    assert(ps2[p] == ps[p] && ps2[q] == ps[q]);
                                } else {
                                    assert(ps2[q] == pr);
                                    assert(ps2[p] == ps[p]);
                                    assert(!index_used(ps, i as int));
                                    assert(!index_used(ps, j as int));
                                    assert(!(ps[p].0 == i as int || ps[p].1 == i as int));
                                    assert(!(ps[p].0 == j as int || ps[p].1 == j as int));
                                }
                            }
                        }
                        proof {
                            lemma_count_bools_update(used@, i as int);
                            assert(used@.update(i as int, true)[j as int] == used@[j as int]);
                            lemma_count_bools_update(used@.update(i as int, true), j as int);
                        }
                        pairs.push(pr);
                        used.set(i, true);
                        used.set(j, true);
                        proof {
                            // The greedy scan records exactly this pair
                            // here: advance the row spec in step.
                            let u0 = uset;
                            uset = u0.insert(i as int).insert(j as int);
                            let row0 = greedy_row(s, i as int, j as int, u0);
                            let rec = greedy_row(s, i as int, j as int + 1, uset);
                            assert(row0.0 == seq![pr] + rec.0 && row0.1 == rec.1);
                            assert(pairs@ =~= pairs@.subrange(0, pairs@.len() - 1).push(pr));
                            assert(pairs@.subrange(0, pairs@.len() - 1) + (row0.0
                                    + greedy_pairs_from(s, i as int + 1, row0.1))
                                =~= pairs@ + (rec.0
                                    + greedy_pairs_from(s, i as int + 1, rec.1)));
                            assert forall|k2: int| 0 <= k2 < n
                                implies used@[k2] == uset.contains(k2) by {
                            }
                        }
                    } else {
                        proof {
                            assert(!mergeable(s, i as int, j as int));
                        }
                    }
                } else {
                    proof {
                        assert(!mergeable(s, i as int, j as int));
                    }
                }
            } else {
                proof {
                    assert(uset.contains(i as int) || uset.contains(j as int));
                }
            }
            proof {
                let ps = pairs@;
                if !index_used(ps, i as int) && !index_used(ps, j as int) {
                    assert(used@[i as int] == index_used(ps, i as int));
                    assert(used@[j as int] == index_used(ps, j as int));
                }
            }
            j = j + 1;
        }
        proof {
            let row = greedy_row(s, i as int, n as int, uset);
            assert(row.0 =~= Seq::<(usize, usize)>::empty());
            assert(Seq::<(usize, usize)>::empty()
                    + greedy_pairs_from(s, i as int + 1, row.1)
                =~= greedy_pairs_from(s, i as int + 1, uset));
        }
        i = i + 1;
    }
    proof {
        assert(pairs@ + greedy_pairs_from(s, n as int, uset) =~= pairs@);
    }
    (pairs, used)
}

impl Field {
    /// One merge pass: pair up same-tier dandelions within merge radius by
    /// first-come greedy pairing over the stable iteration order, despawn
    /// each pair and spawn its one-tier-up replacement at the midpoint.
    /// Huge pairs never merge (no tier beyond Huge) and survive unchanged;
    /// a replacement that reaches Huge starts moving. Returns the pairs
    /// merged, as indices into the pre-merge sequence.
    pub fn check_dandelion_merging(&mut self, health_multiplier_tenths: u32)
        -> (pairs: Vec<(usize, usize)>)
        requires
            old(self).wf(),
            1 <= health_multiplier_tenths <= 1000,
            old(self).next_id <= u64::MAX - 1_000_000,
        ensures
            final(self).wf(),
            final(self).seed_orbs@ == old(self).seed_orbs@,
            pairs_ok(old(self).dandelions@, pairs@),
            // The pairs are exactly the deterministic first-come greedy
            // pairing over the stable iteration order.
            pairs@ == greedy_pairs(old(self).dandelions@),
            // Completeness: among the survivors no mergeable pair remains.
            forall|a: int, b: int|
                0 <= a < b < old(self).dandelions@.len()
                    && !index_used(pairs@, a) && !index_used(pairs@, b)
                    ==> !mergeable(old(self).dandelions@, a, b),
            final(self).next_id == old(self).next_id + pairs@.len(),
            ({
                let s = old(self).dandelions@;
                let surv = merge_survivors_from(s, pairs@, 0);
                &&& final(self).dandelions@.len() == surv.len() + pairs@.len()
                &&& final(self).dandelions@.subrange(0, surv.len() as int) == surv
                &&& forall|m: int|
                    0 <= m < pairs@.len() ==> merge_result_ok(
                        s,
                        pairs@[m],
                        #[trigger] final(self).dandelions@[surv.len() + m],
                        (old(self).next_id + m) as u64,
                        health_multiplier_tenths,
                    )
            }),
    {
        let ghost s = old(self).dandelions@;
        let found = find_merge_pairs(&self.dandelions);
        let pairs = found.0;
        let used = found.1;
        let n = self.dandelions.len();

        // Rebuild the survivor list, dropping both members of every pair.
        let mut survivors: Vec<Dandelion> = Vec::new();
        let mut k: usize = 0;
        proof {
            assert(used@.take(0) =~= Seq::<bool>::empty());
        }
        while k < n
            invariant
                old(self).wf(),
                s == old(self).dandelions@,
                self.dandelions@ == s,
                self.seed_orbs@ == old(self).seed_orbs@,
                self.area_tracker == old(self).area_tracker,
                self.next_id == old(self).next_id,
                n == s.len(),
                k <= n,
                pairs_ok(s, pairs@),
                used@.len() == n,
                forall|q: int| 0 <= q < n ==> used@[q] == index_used(pairs@, q),
                2 * pairs@.len() == count_used_bools(used@),
                merge_survivors_from(s, pairs@, 0)
                    == survivors@ + merge_survivors_from(s, pairs@, k as int),
                survivors@.len() + count_used_bools(used@.take(k as int)) == k,
                forall|a: int|
                    0 <= a < survivors@.len() ==> (#[trigger] survivors@[a]).wf(),
                forall|a: int|
                    0 <= a < survivors@.len()
                        ==> (#[trigger] survivors@[a]).id < old(self).next_id,
                forall|a: int, b: int|
                    0 <= a < b < survivors@.len() ==> survivors@[a].id != survivors@[b].id,
                forall|a: int, j: int|
                    0 <= a < survivors@.len() && k <= j < n
                        ==> (#[trigger] survivors@[a]).id != (#[trigger] s[j]).id,
            decreases n - k,
        {
            proof {
                assert(used@.take(k as int + 1).drop_last() =~= used@.take(k as int));
                assert(used@.take(k as int + 1).last() == used@[k as int]);
            }
            let d = self.dandelions[k];
            if !used[k] {
                proof {
                    assert(!index_used(pairs@, k as int));
                    assert(survivors@.push(d) =~= survivors@ + seq![d]);
                    assert((survivors@ + seq![d]) + merge_survivors_from(s, pairs@, k as int + 1)
                        =~= survivors@
                            + (seq![d] + merge_survivors_from(s, pairs@, k as int + 1)));
                }
                survivors.push(d);
            } else {
                proof {
                    assert(index_used(pairs@, k as int));
                }
            }
            k = k + 1;
        }
        proof {
            assert(used@.take(n as int) =~= used@);
            assert(merge_survivors_from(s, pairs@, n as int) =~= Seq::<Dandelion>::empty());
            assert(merge_survivors_from(s, pairs@, 0) =~= survivors@);
            lemma_count_bools_le_len(used@);
        }

        // Recompute the tracker for the survivors, then append the merge
        // results one pair at a time.
        let ghost surv = survivors@;
        let ghost np_ghost = pairs@.len();
        proof {
            assert(surv.len() + 2 * np_ghost == n);
        }
        let mut area: u64 = 0;
        let mut t: usize = 0;
        proof {
            assert(surv.take(0) =~= Seq::<Dandelion>::empty());
        }
        while t < survivors.len()
            invariant
                t <= survivors@.len(),
                surv == survivors@,
                survivors@.len() <= n,
                n == s.len(),
                s.len() <= MAX_DANDELIONS,
                area == area_sum(surv.take(t as int)),
            decreases survivors@.len() - t,
        {
            proof {
                assert(surv.take(t as int + 1).drop_last() =~= surv.take(t as int));
                assert(surv.take(t as int + 1).last() == surv[t as int]);
                lemma_area_sum_bounds(surv.take(t as int));
                assert(surv.take(t as int).len() * MAX_VISUAL_AREA
                    <= MAX_DANDELIONS * MAX_VISUAL_AREA) by (nonlinear_arith)
                    requires surv.take(t as int).len() <= MAX_DANDELIONS;
            }
            area = area + survivors[t].size.visual_area();
            t = t + 1;
        }
        proof {
            assert(surv.take(surv.len() as int) =~= surv);
        }

        let np = pairs.len();
        let mut m: usize = 0;
        let ghost base_id = old(self).next_id;
        while m < np
            invariant
                old(self).wf(),
                s == old(self).dandelions@,
                self.dandelions@ == s,
                self.seed_orbs@ == old(self).seed_orbs@,
                surv == merge_survivors_from(s, pairs@, 0),
                surv.len() + 2 * np == n,
                np == pairs@.len(),
                pairs_ok(s, pairs@),
                m <= np,
                n == s.len(),
                n <= MAX_DANDELIONS,
                base_id == old(self).next_id,
                base_id <= u64::MAX - 1_000_000,
                1 <= health_multiplier_tenths <= 1000,
                self.next_id == base_id + m,
                survivors@.len() == surv.len() + m,
                survivors@.subrange(0, surv.len() as int) == surv,
                area == area_sum(survivors@),
                forall|q: int|
                    0 <= q < m ==> merge_result_ok(
                        s,
                        pairs@[q],
                        #[trigger] survivors@[surv.len() + q],
                        (base_id + q) as u64,
                        health_multiplier_tenths,
                    ),
                forall|a: int|
                    0 <= a < survivors@.len() ==> (#[trigger] survivors@[a]).wf(),
                forall|a: int|
                    0 <= a < surv.len() ==> (#[trigger] survivors@[a]).id < base_id,
                forall|q: int|
                    surv.len() <= q < survivors@.len()
                        ==> (#[trigger] survivors@[q]).id == base_id + (q - surv.len()),
                forall|a: int, b: int|
                    0 <= a < b < survivors@.len() ==> survivors@[a].id != survivors@[b].id,
            decreases np - m,
        {
            let pr = pairs[m];
            proof {
                assert(pair_valid(s, pairs@[m as int]));
                assert(s[pr.0 as int].wf());
                assert(s[pr.1 as int].wf());
            }
            let a = self.dandelions[pr.0];
            let b = self.dandelions[pr.1];
            let mx = crate::geom::midpoint_coord(a.x, b.x);
            let my = crate::geom::midpoint_coord(a.y, b.y);
            let new_size = match a.size.next_size() {
                Some(ns) => ns,
                None => a.size,  // unreachable: recorded pairs always have a next tier
            };
            let health = calculate_max_health(new_size, health_multiplier_tenths);
            let moving: Option<MovingDandelion> = if new_size == DandelionSize::Huge {
                Some(MovingDandelion::new_random(50))
            } else {
                None
            };
            let nd = Dandelion {
                id: self.next_id,
                x: mx,
                y: my,
                health,
                size: new_size,
                moving,
                cooldown_ms: 0,
            };
            proof {
                lemma_area_sum_bounds(survivors@);
                assert(survivors@.len() * MAX_VISUAL_AREA <= MAX_DANDELIONS * MAX_VISUAL_AREA)
                    by (nonlinear_arith)
                    requires survivors@.len() <= MAX_DANDELIONS;
                assert(survivors@.push(nd).drop_last() =~= survivors@);
                assert(survivors@.push(nd).subrange(0, surv.len() as int)
                    =~= survivors@.subrange(0, surv.len() as int));
            }
            area = area + nd.size.visual_area();
            survivors.push(nd);
            self.next_id = self.next_id + 1;
            m = m + 1;
        }
        self.area_tracker.total_area = area;
        self.dandelions = survivors;
        pairs
    }
}

/// The scaled maximum health for a dandelion of the given size: the base
/// health times the level's health multiplier (in tenths), rounded up.
pub open spec fn spec_scaled_health(size: DandelionSize, health_multiplier_tenths: u32) -> u32 {
    ((size.spec_base_health() * health_multiplier_tenths + 9) / 10) as u32
}

/// Calculate the maximum health for a dandelion based on its size and the
/// current level scaling (multiplier in tenths, ceiling-rounded).
pub fn calculate_max_health(size: DandelionSize, health_multiplier_tenths: u32) -> (r: u32)
    requires
        1 <= health_multiplier_tenths <= 1000,
    ensures
        r == spec_scaled_health(size, health_multiplier_tenths),
        r >= 1,
{
    let base = size.base_health();
    proof {
        assert(1 <= base * health_multiplier_tenths <= 5000) by (nonlinear_arith)
            requires 1 <= base <= 5, 1 <= health_multiplier_tenths <= 1000;
    }
    (base * health_multiplier_tenths + 9) / 10
}

} // verus!
