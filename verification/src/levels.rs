//! Level configuration and progression: the fixed twelve-level table,
//! unlock rules over earned stars, star ratings from completion times, and
//! per-level best results.
//!
//! Durations are whole milliseconds; the enemy scaling multipliers are
//! tenths, exactly as the lifecycle engine consumes them.

use vstd::prelude::*;

verus! {

/// Time limits for star ratings, in milliseconds.
#[derive(Clone, Copy, Debug, PartialEq, Eq, Structural)]
pub struct TimeLimits {
    pub three_star: u64,
    pub two_star: u64,
    pub one_star: u64,
}

/// Enemy difficulty scaling for a level; multipliers in tenths.
#[derive(Clone, Copy, Debug, PartialEq, Eq, Structural)]
pub struct EnemyScaling {
    pub health_multiplier_tenths: u32,
    pub spawn_rate_multiplier_tenths: u32,
    /// Score at which variety spawning begins.
    pub difficulty_threshold: u32,
}

/// Requirements to unlock a level.
#[derive(Clone, Copy, Debug, PartialEq, Eq, Structural)]
pub struct UnlockRequirements {
    /// Previous level that must be completed (zero: always unlocked).
    pub required_level: u32,
    /// Total stars needed from the levels before it.
    pub required_stars: u32,
}

/// Individual level configuration.
pub struct Level {
    pub id: u32,
    pub name: String,
    pub target_points: u32,
    pub time_limits: TimeLimits,
    pub enemy_scaling: EnemyScaling,
    pub unlock_requirements: UnlockRequirements,
}

/// A player's progress on one level.
#[derive(Clone, Copy, Debug, PartialEq, Eq, Structural)]
pub struct LevelProgress {
    pub completed: bool,
    pub best_score: u32,
    pub best_time: u64,
    pub best_stars: u32,
}

impl LevelProgress {
    /// Fresh progress: nothing completed, a very high best time.
    pub fn new() -> (r: LevelProgress)
        ensures
            r == (LevelProgress {
                completed: false,
                best_score: 0,
                best_time: 999_000,
                best_stars: 0,
            }),
    {
        LevelProgress { completed: false, best_score: 0, best_time: 999_000, best_stars: 0 }
    }
}

/// Level configuration and progression state.
pub struct LevelData {
    pub current_level: u32,
    pub levels: Vec<Level>,
    pub level_progress: Vec<LevelProgress>,
}

/// Number of levels in the default table.
pub const LEVEL_COUNT: usize = 12;

/// The identity, target and scaling of the default level at index `i`
/// (identity, target points, three/two/one-star limits in ms, health and
/// spawn multipliers in tenths, difficulty threshold, required level,
/// required stars).
pub open spec fn spec_level_row(i: int) -> (u32, u32, u64, u64, u64, u32, u32, u32, u32, u32) {
    if i == 0 {
        (1, 500, 60_000, 90_000, 120_000, 10, 10, 200, 0, 0)
    } else if i == 1 {
        (2, 800, 90_000, 120_000, 180_000, 12, 11, 300, 1, 1)
    } else if i == 2 {
        (3, 1200, 120_000, 150_000, 240_000, 15, 12, 400, 2, 2)
    } else if i == 3 {
        (4, 1800, 150_000, 180_000, 300_000, 18, 13, 500, 3, 4)
    } else if i == 4 {
        (5, 2500, 180_000, 240_000, 360_000, 22, 14, 600, 4, 6)
    } else if i == 5 {
        (6, 3500, 210_000, 270_000, 420_000, 25, 15, 700, 5, 8)
    } else if i == 6 {
        (7, 5000, 240_000, 300_000, 480_000, 30, 16, 800, 6, 10)
    } else if i == 7 {
        (8, 7500, 300_000, 360_000, 600_000, 35, 18, 900, 7, 12)
    } else if i == 8 {
        (9, 10_000, 360_000, 420_000, 720_000, 40, 20, 1000, 8, 15)
    } else if i == 9 {
        (10, 15_000, 420_000, 480_000, 840_000, 50, 25, 1200, 9, 18)
    } else if i == 10 {
        (11, 20_000, 480_000, 540_000, 960_000, 60, 30, 1500, 10, 20)
    } else {
        (12, 30_000, 600_000, 720_000, 1_200_000, 70, 35, 2000, 11, 25)
    }
}

/// The name of the default level at index `i`.
pub open spec fn spec_level_name(i: int) -> Seq<char> {
    if i == 0 {
        "Weed Rising"@
    } else if i == 1 {
        "Golden Seed"@
    } else if i == 2 {
        "Morning Spore"@
    } else if i == 3 {
        "Weedborn"@
    } else if i == 4 {
        "Weed of Ascension"@
    } else if i == 5 {
        "Hero of HOAges"@
    } else if i == 6 {
        "The Weed of the Many"@
    } else if i == 7 {
        "Dungeon Crawler Crabcrass"@
    } else if i == 8 {
        "Thatch of the Emerald Lawn"@
    } else if i == 9 {
        "Moworrow and Moworrow and Moworrow"@
    } else if i == 10 {
        "Weed are Legion"@
    } else {
        "This is How You Lose the Weed War"@
    }
}

/// Whether a level record matches row `i` of the default table.
pub open spec fn level_matches_row(l: Level, i: int) -> bool {
    let row = spec_level_row(i);
    &&& l.id == row.0
    &&& l.name@ == spec_level_name(i)
    &&& l.target_points == row.1
    &&& l.time_limits == (TimeLimits { three_star: row.2, two_star: row.3, one_star: row.4 })
    &&& l.enemy_scaling == (EnemyScaling {
        health_multiplier_tenths: row.5,
        spawn_rate_multiplier_tenths: row.6,
        difficulty_threshold: row.7,
    })
    &&& l.unlock_requirements == (UnlockRequirements {
        required_level: row.8,
        required_stars: row.9,
    })
}

/// Index of the first level with the given id, if any.
pub open spec fn first_level_with(s: Seq<Level>, id: u32) -> Option<int>
    decreases s.len(),
{
    if s.len() == 0 {
        None
    } else if s[0].id == id {
        Some(0)
    } else {
        match first_level_with(s.drop_first(), id) {
            Some(i) => Some(i + 1),
            None => None,
        }
    }
}

/// The first match, when there is one, really carries the id.
pub proof fn lemma_first_level_with(s: Seq<Level>, id: u32)
    ensures
        match first_level_with(s, id) {
            Some(i) => 0 <= i < s.len() && s[i].id == id,
            None => forall|j: int| 0 <= j < s.len() ==> (#[trigger] s[j]).id != id,
        },
    decreases s.len(),
{
    if s.len() > 0 && s[0].id != id {
        lemma_first_level_with(s.drop_first(), id);
        let t = s.drop_first();
        if first_level_with(t, id) is None {
            assert forall|j: int| 0 <= j < s.len() implies (#[trigger] s[j]).id != id by {
                if j > 0 {
                    assert(t[j - 1] == s[j]);
                }
            }
        }
    }
}

/// Sum of the best stars over the first `upto` progress entries.
pub open spec fn stars_sum(s: Seq<LevelProgress>, upto: int) -> int
    decreases upto,
{
    if upto <= 0 || upto > s.len() {
        0
    } else {
        stars_sum(s, upto - 1) + s[upto - 1].best_stars
    }
}

/// Star sums of well-formed progress stay small.
pub proof fn lemma_stars_sum_bound(s: Seq<LevelProgress>, upto: int)
    requires
        forall|i: int| 0 <= i < s.len() ==> (#[trigger] s[i]).best_stars <= 3,
    ensures
        0 <= stars_sum(s, upto),
        upto >= 0 ==> stars_sum(s, upto) <= 3 * upto,
    decreases upto,
{
    if 0 < upto <= s.len() {
        lemma_stars_sum_bound(s, upto - 1);
    }
}

impl LevelData {
    /// Well-formedness: one progress entry per level, star counts at most
    /// three, a short table.
    pub open spec fn wf(self) -> bool {
        &&& self.level_progress@.len() == self.levels@.len()
        &&& self.levels@.len() <= 100
        &&& forall|i: int|
            0 <= i < self.level_progress@.len()
                ==> (#[trigger] self.level_progress@[i]).best_stars <= 3
    }

    /// The default set of levels with increasing difficulty, and fresh
    /// progress for each.
    pub fn new() -> (r: LevelData)
        ensures
            r.wf(),
            r.current_level == 1,
            r.levels@.len() == LEVEL_COUNT,
            r.level_progress@.len() == LEVEL_COUNT,
            forall|i: int|
                0 <= i < LEVEL_COUNT ==> level_matches_row(#[trigger] r.levels@[i], i),
            forall|i: int|
                0 <= i < LEVEL_COUNT
                    ==> #[trigger] r.level_progress@[i] == (LevelProgress {
                        completed: false,
                        best_score: 0,
                        best_time: 999_000,
                        best_stars: 0,
                    }),
    {
        let levels = Self::create_default_levels();
        let mut progress: Vec<LevelProgress> = Vec::new();
        let mut i: usize = 0;
        while i < LEVEL_COUNT
            invariant
                i <= LEVEL_COUNT,
                progress@.len() == i,
                forall|j: int|
                    0 <= j < i ==> #[trigger] progress@[j] == (LevelProgress {
                        completed: false,
                        best_score: 0,
                        best_time: 999_000,
                        best_stars: 0,
                    }),
            decreases LEVEL_COUNT - i,
        {
            progress.push(LevelProgress::new());
            i = i + 1;
        }
        LevelData { current_level: 1, levels, level_progress: progress }
    }

    /// Create the default set of levels with increasing difficulty.
    pub fn create_default_levels() -> (r: Vec<Level>)
        ensures
            r@.len() == LEVEL_COUNT,
            forall|i: int| 0 <= i < LEVEL_COUNT ==> level_matches_row(#[trigger] r@[i], i),
    {
        let mut v: Vec<Level> = Vec::new();
        v.push(Level {
            id: 1,
            name: String::from_str("Weed Rising"),
            target_points: 500,
            time_limits: TimeLimits { three_star: 60_000, two_star: 90_000, one_star: 120_000 },
            enemy_scaling: EnemyScaling {
                health_multiplier_tenths: 10,
                spawn_rate_multiplier_tenths: 10,
                difficulty_threshold: 200,
            },
            unlock_requirements: UnlockRequirements { required_level: 0, required_stars: 0 },
        });
        v.push(Level {
            id: 2,
            name: String::from_str("Golden Seed"),
            target_points: 800,
            time_limits: TimeLimits { three_star: 90_000, two_star: 120_000, one_star: 180_000 },
            enemy_scaling: EnemyScaling {
                health_multiplier_tenths: 12,
                spawn_rate_multiplier_tenths: 11,
                difficulty_threshold: 300,
            },
            unlock_requirements: UnlockRequirements { required_level: 1, required_stars: 1 },
        });
        v.push(Level {
            id: 3,
            name: String::from_str("Morning Spore"),
            target_points: 1200,
            time_limits: TimeLimits {
                three_star: 120_000,
                two_star: 150_000,
                one_star: 240_000,
            },
            enemy_scaling: EnemyScaling {
                health_multiplier_tenths: 15,
                spawn_rate_multiplier_tenths: 12,
                difficulty_threshold: 400,
            },
            unlock_requirements: UnlockRequirements { required_level: 2, required_stars: 2 },
        });
        v.push(Level {
            id: 4,
            name: String::from_str("Weedborn"),
            target_points: 1800,
            time_limits: TimeLimits {
                three_star: 150_000,
                two_star: 180_000,
                one_star: 300_000,
            },
            enemy_scaling: EnemyScaling {
                health_multiplier_tenths: 18,
                spawn_rate_multiplier_tenths: 13,
                difficulty_threshold: 500,
            },
            unlock_requirements: UnlockRequirements { required_level: 3, required_stars: 4 },
        });
        v.push(Level {
            id: 5,
            name: String::from_str("Weed of Ascension"),
            target_points: 2500,
            time_limits: TimeLimits {
                three_star: 180_000,
                two_star: 240_000,
                one_star: 360_000,
            },
            enemy_scaling: EnemyScaling {
                health_multiplier_tenths: 22,
                spawn_rate_multiplier_tenths: 14,
                difficulty_threshold: 600,
            },
            unlock_requirements: UnlockRequirements { required_level: 4, required_stars: 6 },
        });
        v.push(Level {
            id: 6,
            name: String::from_str("Hero of HOAges"),
            target_points: 3500,
            time_limits: TimeLimits {
                three_star: 210_000,
                two_star: 270_000,
                one_star: 420_000,
            },
            enemy_scaling: EnemyScaling {
                health_multiplier_tenths: 25,
                spawn_rate_multiplier_tenths: 15,
                difficulty_threshold: 700,
            },
            unlock_requirements: UnlockRequirements { required_level: 5, required_stars: 8 },
        });
        v.push(Level {
            id: 7,
            name: String::from_str("The Weed of the Many"),
            target_points: 5000,
            time_limits: TimeLimits {
                three_star: 240_000,
                two_star: 300_000,
                one_star: 480_000,
            },
            enemy_scaling: EnemyScaling {
                health_multiplier_tenths: 30,
                spawn_rate_multiplier_tenths: 16,
                difficulty_threshold: 800,
            },
            unlock_requirements: UnlockRequirements { required_level: 6, required_stars: 10 },
        });
        v.push(Level {
            id: 8,
            name: String::from_str("Dungeon Crawler Crabcrass"),
            target_points: 7500,
            time_limits: TimeLimits {
                three_star: 300_000,
                two_star: 360_000,
                one_star: 600_000,
            },
            enemy_scaling: EnemyScaling {
                health_multiplier_tenths: 35,
                spawn_rate_multiplier_tenths: 18,
                difficulty_threshold: 900,
            },
            unlock_requirements: UnlockRequirements { required_level: 7, required_stars: 12 },
        });
        v.push(Level {
            id: 9,
            name: String::from_str("Thatch of the Emerald Lawn"),
            target_points: 10_000,
            time_limits: TimeLimits {
                three_star: 360_000,
                two_star: 420_000,
                one_star: 720_000,
            },
            enemy_scaling: EnemyScaling {
                health_multiplier_tenths: 40,
                spawn_rate_multiplier_tenths: 20,
                difficulty_threshold: 1000,
            },
            unlock_requirements: UnlockRequirements { required_level: 8, required_stars: 15 },
        });
        v.push(Level {
            id: 10,
            name: String::from_str("Moworrow and Moworrow and Moworrow"),
            target_points: 15_000,
            time_limits: TimeLimits {
                three_star: 420_000,
                two_star: 480_000,
                one_star: 840_000,
            },
            enemy_scaling: EnemyScaling {
                health_multiplier_tenths: 50,
                spawn_rate_multiplier_tenths: 25,
                difficulty_threshold: 1200,
            },
            unlock_requirements: UnlockRequirements { required_level: 9, required_stars: 18 },
        });
        v.push(Level {
            id: 11,
            name: String::from_str("Weed are Legion"),
            target_points: 20_000,
            time_limits: TimeLimits {
                three_star: 480_000,
                two_star: 540_000,
                one_star: 960_000,
            },
            enemy_scaling: EnemyScaling {
                health_multiplier_tenths: 60,
                spawn_rate_multiplier_tenths: 30,
                difficulty_threshold: 1500,
            },
            unlock_requirements: UnlockRequirements { required_level: 10, required_stars: 20 },
        });
        v.push(Level {
            id: 12,
            name: String::from_str("This is How You Lose the Weed War"),
            target_points: 30_000,
            time_limits: TimeLimits {
                three_star: 600_000,
                two_star: 720_000,
                one_star: 1_200_000,
            },
            enemy_scaling: EnemyScaling {
                health_multiplier_tenths: 70,
                spawn_rate_multiplier_tenths: 35,
                difficulty_threshold: 2000,
            },
            unlock_requirements: UnlockRequirements { required_level: 11, required_stars: 25 },
        });
        v
    }

    /// Get the current level configuration.
    pub fn get_current_level(&self) -> (r: Option<&Level>)
        ensures
            r is Some <==> first_level_with(self.levels@, self.current_level) is Some,
            r matches Some(l) ==> *l == self.levels@[
                first_level_with(self.levels@, self.current_level)->Some_0],
    {
        self.get_level(self.current_level)
    }

    /// Get a level by id (first match in table order).
    pub fn get_level(&self, level_id: u32) -> (r: Option<&Level>)
        ensures
            r is Some <==> first_level_with(self.levels@, level_id) is Some,
            r matches Some(l) ==> *l == self.levels@[
                first_level_with(self.levels@, level_id)->Some_0],
    {
        proof {
            lemma_first_level_with(self.levels@, level_id);
        }
        let n = self.levels.len();
        let mut k: usize = 0;
        while k < n
            invariant
                n == self.levels@.len(),
                k <= n,
                forall|j: int| 0 <= j < k ==> (#[trigger] self.levels@[j]).id != level_id,
            decreases n - k,
        {
            if self.levels[k].id == level_id {
                proof {
                    lemma_first_level_with(self.levels@, level_id);
                    let s = self.levels@;
                    let hit = first_level_with(s, level_id);
                    if hit is None {
                        assert(s[k as int].id != level_id);
                    }
                    let i = hit->Some_0;
                    if i < k as int {
                        assert(s[i].id != level_id);
                    }
                    if i > k as int {
                        assert(forall|j: int| 0 <= j < i ==> (#[trigger] s[j]).id != level_id)
                            by {
                            lemma_first_level_with_prefix(s, level_id);
                        }
                    }
                }
                return Some(&self.levels[k]);
            }
            k = k + 1;
        }
        None
    }

    /// Get the progress recorded for a level id.
    pub fn get_level_progress(&self, level_id: u32) -> (r: Option<&LevelProgress>)
        ensures
            r is Some <==> 1 <= level_id <= self.level_progress@.len(),
            r matches Some(p) ==> *p == self.level_progress@[level_id - 1],
    {
        if level_id > 0 && (level_id as usize) <= self.level_progress.len() {
            Some(&self.level_progress[(level_id - 1) as usize])
        } else {
            None
        }
    }

    /// Overwrite the progress recorded for a level id; ids outside the
    /// table change nothing.
    pub fn set_level_progress(&mut self, level_id: u32, p: LevelProgress) -> (updated: bool)
        ensures
            updated == (1 <= level_id <= old(self).level_progress@.len()),
            updated ==> final(self).level_progress@
                == old(self).level_progress@.update(level_id - 1, p),
            !updated ==> final(self).level_progress@ == old(self).level_progress@,
            final(self).levels@ == old(self).levels@,
            final(self).current_level == old(self).current_level,
    {
        if level_id > 0 && (level_id as usize) <= self.level_progress.len() {
            self.level_progress.set((level_id - 1) as usize, p);
            true
        } else {
            false
        }
    }

    /// Check whether a level is unlocked: the first level always is, any
    /// other needs the configured number of stars gathered over the levels
    /// before its required one.
    pub fn is_level_unlocked(&self, level_id: u32) -> (r: bool)
        requires
            self.wf(),
        ensures
            r == ({
                match first_level_with(self.levels@, level_id) {
                    None => false,
                    Some(i) => {
                        let req = self.levels@[i].unlock_requirements;
                        if req.required_level == 0 {
                            true
                        } else if req.required_level > self.level_progress@.len() {
                            false
                        } else {
                            stars_sum(self.level_progress@, req.required_level as int)
                                >= req.required_stars
                        }
                    },
                }
            }),
    {
        let found = self.get_level(level_id);
        match found {
            None => false,
            Some(level) => {
                let req = level.unlock_requirements;
                if req.required_level == 0 {
                    return true;
                }
                if req.required_level as usize > self.level_progress.len() {
                    return false;
                }
                let upto = req.required_level as usize;
                let mut total: u32 = 0;
                let mut k: usize = 0;
                proof {
                    lemma_stars_sum_bound(self.level_progress@, upto as int);
                }
                while k < upto
                    invariant
                        self.wf(),
                        upto <= self.level_progress@.len(),
                        k <= upto,
                        total == stars_sum(self.level_progress@, k as int),
                        total <= 3 * k,
                    decreases upto - k,
                {
                    total = total + self.level_progress[k].best_stars;
                    k = k + 1;
                }
                total >= req.required_stars
            },
        }
    }

    /// Record a level completion: when it beats the stored best (higher
    /// score, or equal score in less time) the best score, time and star
    /// count are updated and the level is marked completed.
    pub fn complete_level(&mut self, level_id: u32, completion_time_ms: u64, final_score: u32)
        requires
            old(self).wf(),
        ensures
            final(self).wf(),
            final(self).levels@ == old(self).levels@,
            final(self).current_level == old(self).current_level,
            ({
                let hit = first_level_with(old(self).levels@, level_id);
                let in_range = 1 <= level_id <= old(self).level_progress@.len();
                if hit is Some && in_range {
                    let limits = old(self).levels@[hit->Some_0].time_limits;
                    let stars = spec_stars(limits, completion_time_ms);
                    let prev = old(self).level_progress@[level_id - 1];
                    let better = final_score > prev.best_score
                        || (final_score == prev.best_score
                            && completion_time_ms < prev.best_time);
                    if better {
                        final(self).level_progress@ == old(self).level_progress@.update(
                            level_id - 1,
                            LevelProgress {
                                completed: true,
                                best_score: final_score,
                                best_time: completion_time_ms,
                                best_stars: if stars > prev.best_stars {
                                    stars
                                } else {
                                    prev.best_stars
                                },
                            },
                        )
                    } else {
                        final(self).level_progress@ == old(self).level_progress@
                    }
                } else {
                    final(self).level_progress@ == old(self).level_progress@
                }
            }),
    {
        let limits: TimeLimits;
        match self.get_level(level_id) {
            Some(level) => {
                limits = level.time_limits;
            },
            None => {
                return;
            },
        }
        if !(level_id > 0 && (level_id as usize) <= self.level_progress.len()) {
            return;
        }
        let idx = (level_id - 1) as usize;
        let prev = self.level_progress[idx];
        let stars = calculate_stars(&limits, completion_time_ms);
        if final_score > prev.best_score
            || (final_score == prev.best_score && completion_time_ms < prev.best_time) {
            let np = LevelProgress {
                completed: true,
                best_score: final_score,
                best_time: completion_time_ms,
                best_stars: if stars > prev.best_stars { stars } else { prev.best_stars },
            };
            self.level_progress.set(idx, np);
        }
    }

    /// Total stars earned across all levels.
    pub fn get_total_stars(&self) -> (r: u32)
        requires
            self.wf(),
        ensures
            r == stars_sum(self.level_progress@, self.level_progress@.len() as int),
    {
        let n = self.level_progress.len();
        let mut total: u32 = 0;
        let mut k: usize = 0;
        proof {
            lemma_stars_sum_bound(self.level_progress@, n as int);
        }
        while k < n
            invariant
                self.wf(),
                n == self.level_progress@.len(),
                k <= n,
                total == stars_sum(self.level_progress@, k as int),
                total <= 3 * k,
            decreases n - k,
        {
            total = total + self.level_progress[k].best_stars;
            k = k + 1;
        }
        total
    }

    /// Select the current level; locked levels are refused.
    pub fn set_current_level(&mut self, level_id: u32)
        requires
            old(self).wf(),
        ensures
            final(self).wf(),
            final(self).levels@ == old(self).levels@,
            final(self).level_progress@ == old(self).level_progress@,
            final(self).current_level == if spec_level_unlocked(*old(self), level_id) {
                level_id
            } else {
                old(self).current_level
            },
    {
        if self.is_level_unlocked(level_id) {
            self.current_level = level_id;
        }
    }
}

/// Whether a level is unlocked, at the specification level.
pub open spec fn spec_level_unlocked(d: LevelData, level_id: u32) -> bool {
    match first_level_with(d.levels@, level_id) {
        None => false,
        Some(i) => {
            let req = d.levels@[i].unlock_requirements;
            if req.required_level == 0 {
                true
            } else if req.required_level > d.level_progress@.len() {
                false
            } else {
                stars_sum(d.level_progress@, req.required_level as int) >= req.required_stars
            }
        },
    }
}

/// A first match means nothing earlier carried the id.
proof fn lemma_first_level_with_prefix(s: Seq<Level>, id: u32)
    ensures
        first_level_with(s, id) matches Some(i)
            ==> forall|j: int| 0 <= j < i ==> (#[trigger] s[j]).id != id,
    decreases s.len(),
{
    if s.len() > 0 && s[0].id != id {
        lemma_first_level_with_prefix(s.drop_first(), id);
        let t = s.drop_first();
        if first_level_with(t, id) is Some {
            lemma_first_level_with(t, id);
            let i = first_level_with(t, id)->Some_0;
            assert forall|j: int| 0 <= j < i + 1 implies (#[trigger] s[j]).id != id by {
                if j > 0 {
                    assert(t[j - 1] == s[j]);
                }
            }
        }
    }
}

/// The star rating a completion time earns.
pub open spec fn spec_stars(limits: TimeLimits, completion_time_ms: u64) -> u32 {
    if completion_time_ms <= limits.three_star {
        3
    } else if completion_time_ms <= limits.two_star {
        2
    } else if completion_time_ms <= limits.one_star {
        1
    } else {
        0
    }
}

/// Calculate the star rating for a completion time.
pub fn calculate_stars(time_limits: &TimeLimits, completion_time_ms: u64) -> (r: u32)
    ensures
        r == spec_stars(*time_limits, completion_time_ms),
        r <= 3,
{
    if completion_time_ms <= time_limits.three_star {
        3
    } else if completion_time_ms <= time_limits.two_star {
        2
    } else if completion_time_ms <= time_limits.one_star {
        1
    } else {
        0
    }
}

/// Tracks the running level session.
#[derive(Clone, Copy, Debug, PartialEq, Eq, Structural)]
pub struct LevelSession {
    /// Timestamp the session started at, in milliseconds.
    pub start_time: Option<u64>,
    pub target_reached: bool,
}

impl LevelSession {
    /// A session that has not started.
    pub fn new() -> (r: LevelSession)
        ensures
            r.start_time is None,
            !r.target_reached,
    {
        LevelSession { start_time: None, target_reached: false }
    }

    /// Start (or restart) the session at the given timestamp.
    pub fn start(&mut self, current_time_ms: u64)
        ensures
            final(self).start_time == Some(current_time_ms),
            !final(self).target_reached,
    {
        self.start_time = Some(current_time_ms);
        self.target_reached = false;
    }

    /// Elapsed time since the session started, for a monotone clock.
    pub fn get_elapsed_time(&self, current_time_ms: u64) -> (r: Option<u64>)
        requires
            self.start_time matches Some(s) ==> s <= current_time_ms,
        ensures
            r == match self.start_time {
                Some(s) => Some((current_time_ms - s) as u64),
                None => None::<u64>,
            },
    {
        match self.start_time {
            Some(s) => Some(current_time_ms - s),
            None => None,
        }
    }

    /// Mark the session's score target as reached.
    pub fn complete(&mut self)
        ensures
            final(self).target_reached,
            final(self).start_time == old(self).start_time,
    {
        self.target_reached = true;
    }
}

/// Emitted when a level's score target is reached.
pub struct LevelCompleteEvent {
    pub level_id: u32,
    pub completion_time_ms: u64,
    pub final_score: u32,
    pub stars_earned: u32,
}

/// Emitted when a level starts.
pub struct LevelStartEvent {
    pub level_id: u32,
}

/// Why a level ended without being completed.
#[derive(Clone, Copy, Debug, PartialEq, Eq, Structural)]
pub enum FailureReason {
    TimeOut,
    PlayerQuit,
}

/// Emitted when a level is failed.
pub struct LevelFailedEvent {
    pub level_id: u32,
    pub reason: FailureReason,
}

/// Check whether the current level is completed: once the score reaches
/// the current level's target (and the session has not yet fired), the
/// session is marked complete and a completion event is produced.
pub fn check_level_completion(
    level_data: &LevelData,
    score: u32,
    session: &mut LevelSession,
    current_time_ms: u64,
) -> (r: Option<LevelCompleteEvent>)
    requires
        old(session).start_time matches Some(s) ==> s <= current_time_ms,
    ensures
        ({
            let hit = first_level_with(level_data.levels@, level_data.current_level);
            let fires = hit is Some && !old(session).target_reached
                && score >= level_data.levels@[hit->Some_0].target_points
                && old(session).start_time is Some;
            &&& (r is Some <==> fires)
            &&& r matches Some(ev) ==> ({
                let level = level_data.levels@[hit->Some_0];
                let elapsed = (current_time_ms - old(session).start_time->Some_0) as u64;
                &&& ev.level_id == level.id
                &&& ev.completion_time_ms == elapsed
                &&& ev.final_score == score
                &&& ev.stars_earned == spec_stars(level.time_limits, elapsed)
                &&& final(session).target_reached
            })
            &&& (hit is Some && !old(session).target_reached
                && score >= level_data.levels@[hit->Some_0].target_points)
                ==> final(session).target_reached
            &&& final(session).start_time == old(session).start_time
            &&& (r is None && !(hit is Some && !old(session).target_reached
                && score >= level_data.levels@[hit->Some_0].target_points))
                ==> *final(session) == *old(session)
        }),
{
    match level_data.get_current_level() {
        None => None,
        Some(level) => {
            if !session.target_reached && score >= level.target_points {
                let level_id = level.id;
                let target_limits = level.time_limits;
                session.complete();
                match session.get_elapsed_time(current_time_ms) {
                    Some(elapsed) => {
                        let stars = calculate_stars(&target_limits, elapsed);
                        Some(LevelCompleteEvent {
                            level_id,
                            completion_time_ms: elapsed,
                            final_score: score,
                            stars_earned: stars,
                        })
                    },
                    None => None,
                }
            } else {
                None
            }
        },
    }
}

} // verus!
