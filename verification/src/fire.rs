//! Fire propagation subsystem: batched radius damage with
//! generation-limited chain reactions.
//!
//! Each tick the manager rebuilds its snapshot of active fires, then scans
//! every dandelion against that fixed snapshot; the first fire that reaches
//! a dandelion marks it. All marked dandelions are destroyed in a batch
//! after the scan, each queueing a pending chain ignition one generation
//! deeper — only while the killing fire is below `MAX_GENERATION` — and the
//! queue is drained into fresh fires immediately after the batch, never
//! during the scan. No chain can therefore exceed `MAX_GENERATION`
//! ignitions in depth.

use vstd::prelude::*;
use crate::field::{Field, Dandelion, kills_applied, lemma_kills_applied_fields,
    lemma_area_sum_first, lemma_area_sum_bounds, spec_after_one_kill};
use crate::geom::{in_world, within_dist, within_dist_exec, POS_LIMIT};
use crate::score::GameData;
use crate::timer::Countdown;

verus! {

/// Fire damage radius, in tenths of a unit (100 units).
pub const FIRE_RADIUS_TENTHS: u32 = 1000;

/// Fire lifetime, in milliseconds.
pub const FIRE_LIFETIME_MS: u32 = 3000;

/// Fire damage-pulse period, in milliseconds.
pub const FIRE_DAMAGE_PERIOD_MS: u32 = 200;

/// Batch-processing period of the fire manager, in milliseconds.
pub const FIRE_BATCH_INTERVAL_MS: u32 = 50;

/// Chain-reaction depth limit: no ignition ever exceeds this generation.
pub const MAX_GENERATION: u32 = 5;

/// A live fire ignition.
#[derive(Clone, Copy, Debug)]
pub struct FireIgnition {
    pub x: i32,
    pub y: i32,
    /// Damage radius in tenths of a unit.
    pub radius_tenths: u32,
    /// Repeating damage-pulse timer.
    pub damage_timer: Countdown,
    /// One-shot lifetime; the fire despawns when it runs out.
    pub lifetime: Countdown,
    /// Chain-reaction depth of this ignition.
    pub generation: u32,
}

/// Snapshot of one active fire taken at the start of a tick.
#[derive(Clone, Copy, Debug)]
pub struct FireData {
    pub x: i32,
    pub y: i32,
    pub radius_tenths: u32,
    pub generation: u32,
}

/// A chain ignition queued for the end of the current tick.
#[derive(Clone, Copy, Debug)]
pub struct PendingFire {
    pub x: i32,
    pub y: i32,
    pub generation: u32,
}

/// Resource that batches fire damage: the per-tick snapshot and the queue
/// of pending chain ignitions.
pub struct FireManager {
    pub active_fires: Vec<FireData>,
    pub pending_fires: Vec<PendingFire>,
    pub batch_timer: Countdown,
}

impl FireManager {
    pub fn new() -> (r: FireManager)
        ensures
            r.active_fires@.len() == 0,
            r.pending_fires@.len() == 0,
            r.batch_timer.wf(),
    {
        FireManager {
            active_fires: Vec::new(),
            pending_fires: Vec::new(),
            batch_timer: Countdown::new_repeating(FIRE_BATCH_INTERVAL_MS),
        }
    }
}

/// The fire subsystem: live ignitions plus the batching manager.
pub struct FireSystem {
    pub fires: Vec<FireIgnition>,
    pub manager: FireManager,
}

impl FireIgnition {
    pub open spec fn wf(self) -> bool {
        &&& in_world(self.x as int, self.y as int)
        &&& self.radius_tenths <= 1_000_000
        &&& self.generation <= MAX_GENERATION
        &&& self.damage_timer.wf()
        &&& !self.lifetime.repeating
    }
}

impl FireSystem {
    /// Well-formedness; in particular no live or pending ignition exceeds
    /// `MAX_GENERATION`.
    pub open spec fn wf(self) -> bool {
        &&& forall|i: int| 0 <= i < self.fires@.len() ==> (#[trigger] self.fires@[i]).wf()
        &&& forall|i: int|
            0 <= i < self.manager.pending_fires@.len()
                ==> (#[trigger] self.manager.pending_fires@[i]).generation <= MAX_GENERATION
                    && in_world(self.manager.pending_fires@[i].x as int,
                        self.manager.pending_fires@[i].y as int)
        &&& self.manager.batch_timer.wf()
    }

    /// An empty subsystem.
    pub fn new() -> (r: FireSystem)
        ensures
            r.wf(),
            r.fires@.len() == 0,
            r.manager.active_fires@.len() == 0,
            r.manager.pending_fires@.len() == 0,
    {
        FireSystem { fires: Vec::new(), manager: FireManager::new() }
    }

    /// Tear down: all fires and queued ignitions despawn.
    pub fn cleanup_powerups(&mut self)
        ensures
            final(self).wf(),
            final(self).fires@.len() == 0,
            final(self).manager.pending_fires@.len() == 0,
    {
        self.fires = Vec::new();
        self.manager = FireManager::new();
    }

    /// Ignite a fresh generation-zero fire.
    pub fn spawn_fire_ignition(&mut self, x: i32, y: i32)
        requires
            old(self).wf(),
            in_world(x as int, y as int),
        ensures
            final(self).wf(),
            final(self).fires@ == old(self).fires@.push(spec_ignition(x, y, 0)),
            final(self).manager.pending_fires@ == old(self).manager.pending_fires@,
    {
        self.spawn_fire_ignition_with_generation(x, y, 0);
    }

    /// Ignite a fire at a given chain depth; depths beyond the limit are
    /// never created.
    pub fn spawn_fire_ignition_with_generation(&mut self, x: i32, y: i32, generation: u32)
        requires
            old(self).wf(),
            in_world(x as int, y as int),
            generation <= MAX_GENERATION,
        ensures
            final(self).wf(),
            final(self).fires@ == old(self).fires@.push(spec_ignition(x, y, generation)),
            final(self).manager.pending_fires@ == old(self).manager.pending_fires@,
    {
        self.fires.push(FireIgnition {
            x, y,
            radius_tenths: FIRE_RADIUS_TENTHS,
            damage_timer: Countdown::new_repeating(FIRE_DAMAGE_PERIOD_MS),
            lifetime: Countdown::new_once(FIRE_LIFETIME_MS),
            generation,
        });
    }

    /// Despawn every fire whose lifetime has run out: exactly the fires
    /// with time left survive, in order, untouched.
    pub fn cleanup_expired_fires(&mut self)
        requires
            old(self).wf(),
        ensures
            final(self).wf(),
            final(self).manager.pending_fires@ == old(self).manager.pending_fires@,
            final(self).fires@ == live_fires(old(self).fires@),
            forall|i: int|
                0 <= i < final(self).fires@.len()
                    ==> (#[trigger] final(self).fires@[i]).lifetime.remaining_ms > 0,
    {
        let ghost s = old(self).fires@;
        let n = self.fires.len();
        let mut kept: Vec<FireIgnition> = Vec::new();
        let mut k: usize = 0;
        proof {
            assert(s.take(0) =~= Seq::<FireIgnition>::empty());
        }
        while k < n
            invariant
                old(self).wf(),
                s == old(self).fires@,
                self.fires@ == s,
                self.manager.pending_fires@ == old(self).manager.pending_fires@,
                self.manager.batch_timer == old(self).manager.batch_timer,
                n == s.len(),
                k <= n,
                kept@ == live_fires(s.take(k as int)),
                forall|a: int| 0 <= a < kept@.len() ==> (#[trigger] kept@[a]).wf(),
                forall|a: int|
                    0 <= a < kept@.len() ==> (#[trigger] kept@[a]).lifetime.remaining_ms > 0,
            decreases n - k,
        {
            proof {
                assert(s.take(k as int + 1).drop_last() =~= s.take(k as int));
                assert(s.take(k as int + 1).last() == s[k as int]);
            }
            let f = self.fires[k];
            if f.lifetime.remaining_ms > 0 {
                proof {
                    assert(kept@.push(f).drop_last() =~= kept@);
                }
                kept.push(f);
            }
            k = k + 1;
        }
        proof {
            assert(s.take(n as int) =~= s);
        }
        self.fires = kept;
    }
}

/// The fires with lifetime left, in order.
pub open spec fn live_fires(s: Seq<FireIgnition>) -> Seq<FireIgnition>
    decreases s.len(),
{
    if s.len() == 0 {
        s
    } else if s.last().lifetime.remaining_ms > 0 {
        live_fires(s.drop_last()).push(s.last())
    } else {
        live_fires(s.drop_last())
    }
}

/// The ignition created for a position and generation.
pub open spec fn spec_ignition(x: i32, y: i32, generation: u32) -> FireIgnition {
    FireIgnition {
        x, y,
        radius_tenths: FIRE_RADIUS_TENTHS,
        damage_timer: Countdown {
            remaining_ms: FIRE_DAMAGE_PERIOD_MS,
            duration_ms: FIRE_DAMAGE_PERIOD_MS,
            repeating: true,
        },
        lifetime: Countdown {
            remaining_ms: FIRE_LIFETIME_MS,
            duration_ms: FIRE_LIFETIME_MS,
            repeating: false,
        },
        generation,
    }
}

/// Whether a fire's damage radius reaches the dandelion's center.
pub open spec fn fire_hits(f: FireIgnition, d: Dandelion) -> bool {
    within_dist(f.x as int, f.y as int, d.x as int, d.y as int, f.radius_tenths as int)
}

/// Generation of the first fire (in snapshot order) whose radius covers
/// the dandelion; one hit suffices, no double counting.
pub open spec fn first_fire_gen(fs: Seq<FireIgnition>, d: Dandelion) -> Option<u32>
    decreases fs.len(),
{
    if fs.len() == 0 {
        None
    } else if fire_hits(fs[0], d) {
        Some(fs[0].generation)
    } else {
        first_fire_gen(fs.drop_first(), d)
    }
}

/// The dandelions no fire reaches, in order.
pub open spec fn fire_survivors(ds: Seq<Dandelion>, fs: Seq<FireIgnition>) -> Seq<Dandelion>
    decreases ds.len(),
{
    if ds.len() == 0 {
        ds
    } else {
        let rest = fire_survivors(ds.drop_first(), fs);
        if first_fire_gen(fs, ds[0]) is Some {
            rest
        } else {
            seq![ds[0]] + rest
        }
    }
}

/// The dandelions some fire reaches, in order.
pub open spec fn fire_victims(ds: Seq<Dandelion>, fs: Seq<FireIgnition>) -> Seq<Dandelion>
    decreases ds.len(),
{
    if ds.len() == 0 {
        ds
    } else {
        let rest = fire_victims(ds.drop_first(), fs);
        if first_fire_gen(fs, ds[0]) is Some {
            seq![ds[0]] + rest
        } else {
            rest
        }
    }
}

/// The chain ignitions queued by a batch of kills: one per victim whose
/// killing fire sat strictly below the generation limit, one generation
/// deeper, at the victim's position.
pub open spec fn chain_of(ds: Seq<Dandelion>, fs: Seq<FireIgnition>) -> Seq<PendingFire>
    decreases ds.len(),
{
    if ds.len() == 0 {
        Seq::empty()
    } else {
        let rest = chain_of(ds.drop_first(), fs);
        match first_fire_gen(fs, ds[0]) {
            Some(g) => if g < MAX_GENERATION {
                seq![PendingFire { x: ds[0].x, y: ds[0].y, generation: (g + 1) as u32 }] + rest
            } else {
                rest
            },
            None => rest,
        }
    }
}

/// A fire after one tick: both timers advance.
pub open spec fn spec_fire_ticked(f: FireIgnition, dt: u32) -> FireIgnition {
    FireIgnition {
        damage_timer: f.damage_timer.spec_tick(dt),
        lifetime: f.lifetime.spec_tick(dt),
        ..f
    }
}

/// The fires still alive after a tick.
pub open spec fn fires_after(fs: Seq<FireIgnition>, dt: u32) -> Seq<FireIgnition>
    decreases fs.len(),
{
    if fs.len() == 0 {
        fs
    } else {
        let rest = fires_after(fs.drop_first(), dt);
        if spec_fire_ticked(fs[0], dt).lifetime.remaining_ms == 0 {
            rest
        } else {
            seq![spec_fire_ticked(fs[0], dt)] + rest
        }
    }
}

/// When every fire before `i` misses and fire `i` hits, the first hit is
/// fire `i`.
proof fn lemma_first_fire_gen_at(fs: Seq<FireIgnition>, d: Dandelion, i: int)
    requires
        0 <= i < fs.len(),
        fire_hits(fs[i], d),
        forall|f: int| 0 <= f < i ==> !fire_hits(#[trigger] fs[f], d),
    ensures
        first_fire_gen(fs, d) == Some(fs[i].generation),
    decreases i,
{
    if i > 0 {
        assert(fs.drop_first()[i - 1] == fs[i]);
        assert(forall|f: int|
            0 <= f < i - 1 ==> !fire_hits(#[trigger] fs.drop_first()[f], d));
        lemma_first_fire_gen_at(fs.drop_first(), d, i - 1);
    }
}

/// When every fire misses, there is no first hit.
proof fn lemma_first_fire_gen_none(fs: Seq<FireIgnition>, d: Dandelion)
    requires
        forall|f: int| 0 <= f < fs.len() ==> !fire_hits(#[trigger] fs[f], d),
    ensures
        first_fire_gen(fs, d) is None,
    decreases fs.len(),
{
    if fs.len() > 0 {
        assert(forall|f: int|
            0 <= f < fs.drop_first().len() ==> !fire_hits(#[trigger] fs.drop_first()[f], d));
        lemma_first_fire_gen_none(fs.drop_first(), d);
    }
}

impl FireSystem {
    /// One tick of the fire subsystem over the live dandelion field:
    /// rebuild the snapshot of active fires, advance their timers and drop
    /// the expired ones, destroy every dandelion covered by some snapshot
    /// fire (scoring its kill), queue one chain ignition per kill whose
    /// fire sat below `MAX_GENERATION`, and finally spawn all queued
    /// ignitions. Returns the number of dandelions destroyed.
    pub fn update_fire_system(&mut self, field: &mut Field, game: &mut GameData, dt_ms: u32)
        -> (killed: usize)
        requires
            old(self).wf(),
            old(field).wf(),
            old(game).wf(),
        ensures
            final(self).wf(),
            final(field).wf(),
            final(game).wf(),
            final(self).manager.pending_fires@.len() == 0,
            final(self).manager.active_fires@.len() == old(self).fires@.len(),
            forall|i: int|
                0 <= i < old(self).fires@.len()
                    ==> #[trigger] final(self).manager.active_fires@[i] == (FireData {
                        x: old(self).fires@[i].x,
                        y: old(self).fires@[i].y,
                        radius_tenths: old(self).fires@[i].radius_tenths,
                        generation: old(self).fires@[i].generation,
                    }),
            final(field).dandelions@
                == fire_survivors(old(field).dandelions@, old(self).fires@),
            killed == fire_victims(old(field).dandelions@, old(self).fires@).len(),
            *final(game) == kills_applied(*old(game), killed as nat),
            final(field).seed_orbs@ == old(field).seed_orbs@,
            final(field).next_id == old(field).next_id,
            ({
                let alive = fires_after(old(self).fires@, dt_ms);
                let pend = old(self).manager.pending_fires@
                    + chain_of(old(field).dandelions@, old(self).fires@);
                &&& final(self).fires@.len() == alive.len() + pend.len()
                &&& final(self).fires@.subrange(0, alive.len() as int) == alive
                &&& forall|j: int|
                    0 <= j < pend.len()
                        ==> #[trigger] final(self).fires@[alive.len() + j]
                            == spec_ignition(pend[j].x, pend[j].y, (#[trigger] pend[j]).generation)
            }),
    {
        let ghost fs = old(self).fires@;
        let ghost ds = old(field).dandelions@;
        let ghost pend0 = old(self).manager.pending_fires@;
        let _ = self.manager.batch_timer.tick(dt_ms);

        // Rebuild the snapshot and advance the fires.
        let nf = self.fires.len();
        let mut active: Vec<FireData> = Vec::new();
        let mut alive: Vec<FireIgnition> = Vec::new();
        let mut k: usize = 0;
        proof {
            assert(fs.skip(0) =~= fs);
        }
        while k < nf
            invariant
                old(self).wf(),
                fs == old(self).fires@,
                self.fires@ == fs,
                self.manager.pending_fires@ == pend0,
                nf == fs.len(),
                k <= nf,
                active@.len() == k,
                forall|i: int|
                    0 <= i < k ==> #[trigger] active@[i] == (FireData {
                        x: fs[i].x,
                        y: fs[i].y,
                        radius_tenths: fs[i].radius_tenths,
                        generation: fs[i].generation,
                    }),
                fires_after(fs, dt_ms) == alive@ + fires_after(fs.skip(k as int), dt_ms),
                forall|a: int| 0 <= a < alive@.len() ==> (#[trigger] alive@[a]).wf(),
            decreases nf - k,
        {
            let f = self.fires[k];
            proof {
                assert(f.wf());
                assert(fs.skip(k as int).len() > 0);
                assert(fs.skip(k as int)[0] == fs[k as int]);
                assert(fs.skip(k as int).drop_first() =~= fs.skip(k as int + 1));
            }
            active.push(FireData {
                x: f.x,
                y: f.y,
                radius_tenths: f.radius_tenths,
                generation: f.generation,
            });
            let mut ticked = f;
            let _ = ticked.damage_timer.tick(dt_ms);
            let _ = ticked.lifetime.tick(dt_ms);
            proof {
                assert(ticked == spec_fire_ticked(fs[k as int], dt_ms));
            }
            if ticked.lifetime.remaining_ms > 0 {
                proof {
                    assert(alive@.push(ticked) =~= alive@ + seq![ticked]);
                    assert((alive@ + seq![ticked])
                        + fires_after(fs.skip(k as int + 1), dt_ms)
                        =~= alive@ + (seq![ticked]
                            + fires_after(fs.skip(k as int + 1), dt_ms)));
                }
                alive.push(ticked);
            }
            k = k + 1;
        }
        proof {
            assert(fs.skip(nf as int) =~= Seq::<FireIgnition>::empty());
            assert(fires_after(fs, dt_ms) =~= alive@);
        }

        // Scan every dandelion against the snapshot; destroy the covered
        // ones in a batch, queueing chain ignitions.
        let nd = field.dandelions.len();
        let mut survivors: Vec<Dandelion> = Vec::new();
        let mut killed: usize = 0;
        let ghost mut chain_so_far: Seq<PendingFire> = Seq::empty();
        let mut t: usize = 0;
        proof {
            assert(ds.skip(0) =~= ds);
            assert(self.manager.pending_fires@ =~= pend0 + chain_so_far);
        }
        while t < nd
            invariant
                old(self).wf(),
                old(field).wf(),
                old(game).wf(),
                fs == old(self).fires@,
                ds == old(field).dandelions@,
                pend0 == old(self).manager.pending_fires@,
                self.fires@ == fs,
                field.dandelions@ == ds,
                field.seed_orbs@ == old(field).seed_orbs@,
                field.next_id == old(field).next_id,
                nf == fs.len(),
                nd == ds.len(),
                t <= nd,
                killed <= t,
                active@.len() == nf,
                forall|i: int|
                    0 <= i < nf ==> #[trigger] active@[i] == (FireData {
                        x: fs[i].x,
                        y: fs[i].y,
                        radius_tenths: fs[i].radius_tenths,
                        generation: fs[i].generation,
                    }),
                fire_survivors(ds, fs) == survivors@ + fire_survivors(ds.skip(t as int), fs),
                fire_victims(ds, fs).len()
                    == killed + fire_victims(ds.skip(t as int), fs).len(),
                chain_of(ds, fs) == chain_so_far + chain_of(ds.skip(t as int), fs),
                self.manager.pending_fires@ == pend0 + chain_so_far,
                self.manager.batch_timer.wf(),
                *game == kills_applied(*old(game), killed as nat),
                field.area_tracker.total_area as int
                    == crate::field::area_sum(survivors@)
                        + crate::field::area_sum(ds.skip(t as int)),
                survivors@.len() <= t,
                forall|a: int|
                    0 <= a < survivors@.len() ==> (#[trigger] survivors@[a]).wf(),
                forall|a: int|
                    0 <= a < survivors@.len()
                        ==> (#[trigger] survivors@[a]).id < field.next_id,
                forall|a: int, b: int|
                    0 <= a < b < survivors@.len() ==> survivors@[a].id != survivors@[b].id,
                forall|a: int, j: int|
                    0 <= a < survivors@.len() && t <= j < nd
                        ==> (#[trigger] survivors@[a]).id != (#[trigger] ds[j]).id,
                forall|i: int|
                    0 <= i < self.manager.pending_fires@.len()
                        ==> (#[trigger] self.manager.pending_fires@[i]).generation
                            <= MAX_GENERATION
                            && in_world(self.manager.pending_fires@[i].x as int,
                                self.manager.pending_fires@[i].y as int),
            decreases nd - t,
        {
            let d = field.dandelions[t];
            proof {
                assert(d.wf());
                assert(ds.skip(t as int).len() > 0);
                assert(ds.skip(t as int)[0] == ds[t as int]);
                assert(ds.skip(t as int).drop_first() =~= ds.skip(t as int + 1));
                lemma_area_sum_first(ds.skip(t as int));
                lemma_area_sum_bounds(survivors@);
                lemma_area_sum_bounds(ds.skip(t as int + 1));
            }
            // Find the first fire covering this dandelion, if any.
            let mut hit_gen: Option<u32> = None;
            let mut fi: usize = 0;
            while fi < nf
                invariant_except_break
                    hit_gen is None,
                    forall|f: int| 0 <= f < fi ==> !fire_hits(#[trigger] fs[f], d),
                invariant
                    fs == old(self).fires@,
                    nf == fs.len(),
                    fi <= nf,
                    d.wf(),
                    active@.len() == nf,
                    forall|i: int|
                        0 <= i < nf ==> #[trigger] active@[i] == (FireData {
                            x: fs[i].x,
                            y: fs[i].y,
                            radius_tenths: fs[i].radius_tenths,
                            generation: fs[i].generation,
                        }),
                    old(self).wf(),
                ensures
                    match hit_gen {
                        None => forall|f: int|
                            0 <= f < fs.len() ==> !fire_hits(#[trigger] fs[f], d),
                        Some(g) => first_fire_gen(fs, d) == Some(g)
                            && g <= MAX_GENERATION,
                    },
                decreases nf - fi,
            {
                let fd = active[fi];
                proof {
                    assert(fs[fi as int].wf());
                }
                if within_dist_exec(fd.x, fd.y, d.x, d.y, fd.radius_tenths) {
                    proof {
                        assert(fire_hits(fs[fi as int], d));
                        lemma_first_fire_gen_at(fs, d, fi as int);
                    }
                    hit_gen = Some(fd.generation);
                    break;
                }
                proof {
                    assert(!fire_hits(fs[fi as int], d));
                }
                fi = fi + 1;
            }
            proof {
                if hit_gen is None {
                    lemma_first_fire_gen_none(fs, d);
                }
            }
            match hit_gen {
                None => {
                    proof {
                        lemma_area_sum_first(ds.skip(t as int));
                        lemma_area_sum_bounds(survivors@);
                        lemma_area_sum_bounds(ds.skip(t as int + 1));
                        assert(ds.skip(t as int).drop_first() =~= ds.skip(t as int + 1));
                        assert(survivors@.push(d).drop_last() =~= survivors@);
                        assert(survivors@.push(d) =~= survivors@ + seq![d]);
                        assert((survivors@ + seq![d])
                            + fire_survivors(ds.skip(t as int + 1), fs)
                            =~= survivors@ + (seq![d]
                                + fire_survivors(ds.skip(t as int + 1), fs)));
                    }
                    survivors.push(d);
                },
                Some(g) => {
                    // Destroyed: tracker down, kill scored, chain queued.
                    proof {
                        lemma_area_sum_first(ds.skip(t as int));
                        lemma_area_sum_bounds(survivors@);
                        lemma_area_sum_bounds(ds.skip(t as int + 1));
                        assert(field.area_tracker.total_area >= d.size.spec_visual_area());
                    }
                    field.area_tracker.total_area =
                        field.area_tracker.total_area - d.size.visual_area();
                    game.add_dandelion_kill();
                    killed = killed + 1;
                    if g < MAX_GENERATION {
                        let p = PendingFire { x: d.x, y: d.y, generation: g + 1 };
                        proof {
                            let c2 = chain_so_far + seq![p];
                            assert(self.manager.pending_fires@.push(p)
                                =~= pend0 + c2);
                            assert(c2 + chain_of(ds.skip(t as int + 1), fs)
                                =~= chain_so_far + (seq![p]
                                    + chain_of(ds.skip(t as int + 1), fs)));
                        }
                        self.manager.pending_fires.push(p);
                        proof {
                            chain_so_far = chain_so_far + seq![p];
                        }
                    }
                },
            }
            t = t + 1;
        }
        proof {
            assert(ds.skip(nd as int) =~= Seq::<Dandelion>::empty());
            assert(fire_survivors(ds, fs) =~= survivors@);
            assert(chain_of(ds, fs) =~= chain_so_far);
            lemma_kills_applied_fields(*old(game), killed as nat);
        }
        field.dandelions = survivors;
        let ghost alive_v = alive@;
        self.fires = alive;

        // Spawn the queued chain ignitions, after the whole batch.
        let ghost pend = pend0 + chain_of(ds, fs);
        let np = self.manager.pending_fires.len();
        let mut j: usize = 0;
        while j < np
            invariant
                self.manager.pending_fires@ == pend,
                np == pend.len(),
                j <= np,
                forall|i: int|
                    0 <= i < pend.len()
                        ==> (#[trigger] pend[i]).generation <= MAX_GENERATION
                            && in_world(pend[i].x as int, pend[i].y as int),
                alive_v.len() + j == self.fires@.len(),
                alive_v == fires_after(fs, dt_ms),
                self.fires@.subrange(0, alive_v.len() as int) == alive_v,
                forall|a: int| 0 <= a < self.fires@.len() ==> (#[trigger] self.fires@[a]).wf(),
                forall|q: int|
                    0 <= q < j ==> #[trigger] self.fires@[alive_v.len() + q]
                        == spec_ignition(pend[q].x, pend[q].y, pend[q].generation),
                self.manager.batch_timer.wf(),
            decreases np - j,
        {
            let p = self.manager.pending_fires[j];
            proof {
                assert(self.fires@.push(spec_ignition(p.x, p.y, p.generation))
                    .subrange(0, alive_v.len() as int)
                    =~= self.fires@.subrange(0, alive_v.len() as int));
            }
            self.fires.push(FireIgnition {
                x: p.x,
                y: p.y,
                radius_tenths: FIRE_RADIUS_TENTHS,
                damage_timer: Countdown::new_repeating(FIRE_DAMAGE_PERIOD_MS),
                lifetime: Countdown::new_once(FIRE_LIFETIME_MS),
                generation: p.generation,
            });
            j = j + 1;
        }
        self.manager.pending_fires = Vec::new();
        self.manager.active_fires = active;
        killed
    }
}

/// No live fire exceeds the generation limit; this bounds every chain
/// reaction at `MAX_GENERATION` ignitions of depth.
pub proof fn lemma_fire_generation_bounded(sys: FireSystem, i: int)
    requires
        sys.wf(),
        0 <= i < sys.fires@.len(),
    ensures
        sys.fires@[i].generation <= MAX_GENERATION,
{
}

} // verus!
