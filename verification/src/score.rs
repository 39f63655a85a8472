//! Score and combo ledger.
//!
//! Every kill raises the combo by one and pays out `10 * combo` points
//! (linear combo multiplier). The combo grace window grows logarithmically
//! with the combo and is capped: on each kill the one-shot combo timer is
//! re-armed to `min(3000 + (ln_milli(combo) + 1000) * 8 / 10, 6000)`
//! milliseconds. When the timer runs out, the combo resets to zero and the
//! window returns to its initial three seconds.

use vstd::prelude::*;
use crate::math::{ln_milli, ln_milli_exec, lemma_ln_milli_monotone, sqrt_floor, isqrt};
use crate::timer::Countdown;

verus! {

/// Points paid per kill, before the combo multiplier.
pub const DANDELION_POINTS: u32 = 10;

/// Grace window at combo one's base, in milliseconds.
pub const INITIAL_COMBO_TIME_MS: u32 = 3000;

/// Largest grace window the combo can earn, in milliseconds.
pub const MAX_COMBO_TIME_MS: u32 = 6000;

/// Half-length of the slash segment, in world units.
pub const DEFAULT_SLASH_OFFSET: i32 = 30;

/// The grace window granted right after a kill that raised the combo to
/// `combo`, in milliseconds.
pub open spec fn spec_combo_window_ms(combo: nat) -> nat
    recommends
        combo >= 1,
{
    let raw: nat = (INITIAL_COMBO_TIME_MS + (ln_milli(combo) + 1000) * 8 / 10) as nat;
    if raw < MAX_COMBO_TIME_MS as nat {
        raw
    } else {
        MAX_COMBO_TIME_MS as nat
    }
}

/// The combo window grows monotonically with the combo and stays between
/// its initial value and its cap.
pub proof fn lemma_combo_window_monotone(a: nat, b: nat)
    requires
        1 <= a <= b,
    ensures
        spec_combo_window_ms(a) <= spec_combo_window_ms(b),
        INITIAL_COMBO_TIME_MS <= spec_combo_window_ms(a) <= MAX_COMBO_TIME_MS,
{
    lemma_ln_milli_monotone(a, b);
    vstd::arithmetic::div_mod::lemma_div_is_ordered(
        ((ln_milli(a) + 1000) * 8) as int,
        ((ln_milli(b) + 1000) * 8) as int,
        10,
    );
    vstd::arithmetic::div_mod::lemma_div_pos_is_pos(((ln_milli(a) + 1000) * 8) as int, 10);
}

/// The grace window for a given positive combo, in milliseconds.
pub fn combo_window_ms(combo: u32) -> (r: u32)
    requires
        combo >= 1,
    ensures
        r == spec_combo_window_ms(combo as nat),
        INITIAL_COMBO_TIME_MS <= r <= MAX_COMBO_TIME_MS,
{
    let ln: u64 = ln_milli_exec(combo);
    let raw: u64 = INITIAL_COMBO_TIME_MS as u64 + (ln + 1000) * 8 / 10;
    proof {
        vstd::arithmetic::div_mod::lemma_div_pos_is_pos(((ln + 1000) * 8) as int, 10);
    }
    if raw < MAX_COMBO_TIME_MS as u64 {
        raw as u32
    } else {
        MAX_COMBO_TIME_MS
    }
}

/// Game state resource: score, combo and the per-session toggles.
pub struct GameData {
    pub score: u32,
    pub combo: u32,
    pub combo_timer: Countdown,
    pub slash_mode: bool,
    pub slash_offset: i32,
    pub music_enabled: bool,
}

impl GameData {
    /// The combo timer is a one-shot countdown.
    pub open spec fn wf(self) -> bool {
        !self.combo_timer.repeating
    }

    /// Fresh session state: no score, no combo, slash mode on.
    pub fn new() -> (r: GameData)
        ensures
            r.score == 0,
            r.combo == 0,
            r.combo_timer == (Countdown {
                remaining_ms: INITIAL_COMBO_TIME_MS,
                duration_ms: INITIAL_COMBO_TIME_MS,
                repeating: false,
            }),
            r.slash_mode,
            r.slash_offset == DEFAULT_SLASH_OFFSET,
            r.music_enabled,
            r.wf(),
    {
        GameData {
            score: 0,
            combo: 0,
            combo_timer: Countdown::new_once(INITIAL_COMBO_TIME_MS),
            slash_mode: true,
            slash_offset: DEFAULT_SLASH_OFFSET,
            music_enabled: true,
        }
    }

    /// The combo after one more kill, saturating.
    pub open spec fn spec_combo_after_kill(self) -> u32 {
        if self.combo < u32::MAX {
            (self.combo + 1) as u32
        } else {
            u32::MAX
        }
    }

    /// The score after one more kill: `10 * combo` more points, saturating
    /// in both the multiplication and the addition.
    pub open spec fn spec_score_after_kill(self) -> u32 {
        let c = self.spec_combo_after_kill();
        let points = if DANDELION_POINTS * c <= u32::MAX as int {
            (DANDELION_POINTS * c) as u32
        } else {
            u32::MAX
        };
        if self.score + points <= u32::MAX as int {
            (self.score + points) as u32
        } else {
            u32::MAX
        }
    }

    /// Record one dandelion kill: combo up by one, `10 * combo` points, and
    /// the grace window re-armed to its combo-dependent duration.
    pub fn add_dandelion_kill(&mut self)
        requires
            old(self).wf(),
        ensures
            final(self).combo == old(self).spec_combo_after_kill(),
            final(self).score == old(self).spec_score_after_kill(),
            final(self).combo_timer == (Countdown {
                remaining_ms: spec_combo_window_ms(final(self).combo as nat) as u32,
                duration_ms: spec_combo_window_ms(final(self).combo as nat) as u32,
                repeating: false,
            }),
            final(self).slash_mode == old(self).slash_mode,
            final(self).slash_offset == old(self).slash_offset,
            final(self).music_enabled == old(self).music_enabled,
            final(self).wf(),
    {
        self.combo = if self.combo < u32::MAX { self.combo + 1 } else { u32::MAX };
        let points: u32 = if self.combo <= u32::MAX / DANDELION_POINTS {
            DANDELION_POINTS * self.combo
        } else {
            u32::MAX
        };
        self.score = if self.score <= u32::MAX - points { self.score + points } else { u32::MAX };
        let window: u32 = combo_window_ms(self.combo);
        self.combo_timer.set_duration_and_reset(window);
    }

    /// Reset the combo to zero and the grace window to its initial length.
    pub fn reset_combo(&mut self)
        ensures
            final(self).combo == 0,
            final(self).combo_timer == (Countdown {
                remaining_ms: INITIAL_COMBO_TIME_MS,
                duration_ms: INITIAL_COMBO_TIME_MS,
                repeating: old(self).combo_timer.repeating,
            }),
            final(self).score == old(self).score,
            final(self).slash_mode == old(self).slash_mode,
            final(self).slash_offset == old(self).slash_offset,
            final(self).music_enabled == old(self).music_enabled,
    {
        self.combo = 0;
        self.combo_timer.set_duration_and_reset(INITIAL_COMBO_TIME_MS);
    }

    /// Switch between click mode and slash mode.
    pub fn toggle_slash_mode(&mut self)
        ensures
            final(self).slash_mode == !old(self).slash_mode,
            *final(self) == (GameData { slash_mode: !old(self).slash_mode, ..*old(self) }),
    {
        self.slash_mode = !self.slash_mode;
    }

    /// Switch the music on or off.
    pub fn toggle_music(&mut self)
        ensures
            final(self).music_enabled == !old(self).music_enabled,
            *final(self) == (GameData { music_enabled: !old(self).music_enabled, ..*old(self) }),
    {
        self.music_enabled = !self.music_enabled;
    }

    /// Advance the combo grace timer; when it runs out with a live combo,
    /// the combo resets to zero.
    pub fn update_combo_timer(&mut self, dt_ms: u32)
        requires
            old(self).wf(),
        ensures
            final(self).wf(),
            final(self).score == old(self).score,
            final(self).slash_mode == old(self).slash_mode,
            final(self).slash_offset == old(self).slash_offset,
            final(self).music_enabled == old(self).music_enabled,
            old(self).combo == 0 ==> *final(self) == *old(self),
            old(self).combo > 0 && old(self).combo_timer.spec_tick(dt_ms).remaining_ms > 0
                ==> final(self).combo == old(self).combo
                    && final(self).combo_timer == old(self).combo_timer.spec_tick(dt_ms),
            old(self).combo > 0 && old(self).combo_timer.spec_tick(dt_ms).remaining_ms == 0
                ==> final(self).combo == 0
                    && final(self).combo_timer == (Countdown {
                        remaining_ms: INITIAL_COMBO_TIME_MS,
                        duration_ms: INITIAL_COMBO_TIME_MS,
                        repeating: false,
                    }),
    {
        if self.combo > 0 {
            let _fired = self.combo_timer.tick(dt_ms);
            if self.combo_timer.finished() {
                self.reset_combo();
            }
        }
    }
}

/// The curb-appeal weight of one dandelion tier, in halves (Tiny counts
/// one, Huge counts six).
pub open spec fn spec_curb_weight(size: crate::tiers::DandelionSize) -> u64 {
    match size {
        crate::tiers::DandelionSize::Tiny => 2,
        crate::tiers::DandelionSize::Small => 3,
        crate::tiers::DandelionSize::Medium => 5,
        crate::tiers::DandelionSize::Large => 8,
        crate::tiers::DandelionSize::Huge => 12,
    }
}

/// Total curb-appeal impact (in halves) of a set of dandelions.
pub open spec fn curb_impact_sum(s: Seq<crate::field::Dandelion>) -> int
    decreases s.len(),
{
    if s.len() == 0 {
        0
    } else {
        curb_impact_sum(s.drop_last()) + spec_curb_weight(s.last().size)
    }
}

/// Impact sums are small: at most twelve halves per dandelion.
pub proof fn lemma_curb_impact_bounds(s: Seq<crate::field::Dandelion>)
    ensures
        0 <= curb_impact_sum(s) <= 12 * s.len(),
    decreases s.len(),
{
    if s.len() > 0 {
        lemma_curb_impact_bounds(s.drop_last());
    }
}

/// Calculate curb appeal from the live dandelions: one hundred percent on
/// an empty lawn, reduced by eight times the square root of twice the
/// total impact (taken as a floor square root over the doubled integer
/// weights), floored at zero.
pub fn calculate_curb_appeal(dandelions: &Vec<crate::field::Dandelion>) -> (r: i32)
    requires
        dandelions@.len() <= 1_000_000,
    ensures
        r == ({
            let reduction = sqrt_floor((64 * curb_impact_sum(dandelions@)) as nat);
            if reduction >= 100 { 0int } else { 100 - reduction }
        }),
        0 <= r <= 100,
{
    let ghost s = dandelions@;
    let n = dandelions.len();
    let mut impact: u64 = 0;
    let mut k: usize = 0;
    proof {
        assert(s.take(0) =~= Seq::<crate::field::Dandelion>::empty());
    }
    while k < n
        invariant
            s == dandelions@,
            n == s.len(),
            n <= 1_000_000,
            k <= n,
            impact == curb_impact_sum(s.take(k as int)),
            impact <= 12 * k,
        decreases n - k,
    {
        proof {
            assert(s.take(k as int + 1).drop_last() =~= s.take(k as int));
            assert(s.take(k as int + 1).last() == s[k as int]);
        }
        let w: u64 = match dandelions[k].size {
            crate::tiers::DandelionSize::Tiny => 2,
            crate::tiers::DandelionSize::Small => 3,
            crate::tiers::DandelionSize::Medium => 5,
            crate::tiers::DandelionSize::Large => 8,
            crate::tiers::DandelionSize::Huge => 12,
        };
        impact = impact + w;
        k = k + 1;
    }
    proof {
        assert(s.take(n as int) =~= s);
    }
    let reduction: u64 = isqrt(64 * impact);
    if reduction >= 100 {
        0
    } else {
        100 - reduction as i32
    }
}

/// A slash scheduled to land after a short delay (the second stroke of a
/// double slash): once the delay runs out the stored segment is resolved
/// like an immediate slash.
pub struct DelayedSlashEffect {
    pub delay_timer: Countdown,
    pub x: i32,
    pub y: i32,
}

impl DelayedSlashEffect {
    /// Schedule a slash centered on `(x, y)` after `delay_ms`.
    pub fn new(x: i32, y: i32, delay_ms: u32) -> (r: DelayedSlashEffect)
        ensures
            r.x == x,
            r.y == y,
            r.delay_timer == (Countdown {
                remaining_ms: delay_ms,
                duration_ms: delay_ms,
                repeating: false,
            }),
    {
        DelayedSlashEffect { x, y, delay_timer: Countdown::new_once(delay_ms) }
    }

    /// Advance the delay; returns whether the slash lands this tick.
    pub fn tick(&mut self, dt_ms: u32) -> (fired: bool)
        requires
            !old(self).delay_timer.repeating,
        ensures
            fired == old(self).delay_timer.spec_fires(dt_ms),
            final(self).delay_timer == old(self).delay_timer.spec_tick(dt_ms),
            final(self).x == old(self).x,
            final(self).y == old(self).y,
    {
        self.delay_timer.tick(dt_ms)
    }
}

} // verus!
