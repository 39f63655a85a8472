//! Score ledger, combo window, curb appeal, spawning and level
//! progression.

use dandelions::field::Field;
use dandelions::levels::{calculate_stars, LevelData, LevelProgress, LevelSession, TimeLimits,
    check_level_completion};
use dandelions::score::{calculate_curb_appeal, GameData};
use dandelions::spawning::{DandelionSpawnTimer, VarietySpawnTimer};
use dandelions::tiers::DandelionSize;
use dandelions::score::combo_window_ms;
use dandelions::score::DelayedSlashEffect;

#[test]
fn five_rapid_kills_pay_strictly_increasing_increments() {
    // Increments 10, 20, 30, 40, 50 and a monotone, capped grace window.
    let mut game = GameData::new();
    let mut last_score = 0u32;
    let mut last_increment = 0u32;
    let mut last_window = 0u32;
    for _ in 0..5 {
        game.add_dandelion_kill();
        let increment = game.score - last_score;
        assert!(increment > last_increment);
        let window = game.combo_timer.duration_ms;
        assert!(window >= last_window, "grace window shrank");
        assert!(window <= 6000, "grace window exceeded the cap");
        last_increment = increment;
        last_score = game.score;
        last_window = window;
    }
    assert_eq!(game.score, 10 + 20 + 30 + 40 + 50);
    assert_eq!(game.combo, 5);
}

#[test]
fn first_kill_grace_window_is_3800_ms() {
    // At combo one the logarithm vanishes: 3000 + (0 + 1000) * 8 / 10.
    let mut game = GameData::new();
    game.add_dandelion_kill();
    assert_eq!(game.combo_timer.duration_ms, 3800);
    assert_eq!(game.combo_timer.remaining_ms, 3800);
}

#[test]
fn combo_window_is_monotone_up_to_the_cap() {
    let mut last = 0u32;
    for c in 1..200u32 {
        let w = combo_window_ms(c);
        assert!(w >= last);
        assert!(w >= 3000 && w <= 6000);
        last = w;
    }
    assert_eq!(combo_window_ms(1), 3800);
    assert_eq!(combo_window_ms(2), 4354);
}

#[test]
fn combo_expiry_resets_to_zero() {
    let mut game = GameData::new();
    game.add_dandelion_kill();
    assert_eq!(game.combo, 1);
    game.update_combo_timer(1000);
    assert_eq!(game.combo, 1);
    game.update_combo_timer(2800);
    assert_eq!(game.combo, 0);
    assert_eq!(game.combo_timer.duration_ms, 3000);
}

#[test]
fn toggles_flip() {
    let mut game = GameData::new();
    assert!(game.slash_mode);
    game.toggle_slash_mode();
    assert!(!game.slash_mode);
    assert!(game.music_enabled);
    game.toggle_music();
    assert!(!game.music_enabled);
}

#[test]
fn curb_appeal_declines_with_coverage() {
    let mut field = Field::new();
    assert_eq!(calculate_curb_appeal(&field.dandelions), 100);
    assert!(field.spawn_dandelion(0, 0, 1, DandelionSize::Tiny, None));
    // One Tiny: impact two halves, reduction floor(sqrt(128)) = 11.
    assert_eq!(calculate_curb_appeal(&field.dandelions), 89);
    assert!(field.spawn_dandelion(500, 0, 5, DandelionSize::Huge, None));
    // Plus a Huge: impact 14 halves, reduction floor(sqrt(896)) = 29.
    assert_eq!(calculate_curb_appeal(&field.dandelions), 71);
}

#[test]
fn spawn_timer_places_a_tiny_in_the_safe_rect() {
    let mut field = Field::new();
    let mut timer = DandelionSpawnTimer::new();
    // 1999 ms: not yet.
    assert!(!field.spawn_dandelions(&mut timer, 1999, 10, 10, 800, 600));
    // One more millisecond fires the two-second timer.
    assert!(field.spawn_dandelions(&mut timer, 1, 10, 10, 800, 600));
    assert_eq!(field.dandelions.len(), 1);
    let d = &field.dandelions[0];
    assert_eq!(d.size, DandelionSize::Tiny);
    assert_eq!(d.health, 1);
    assert!(-370 <= d.x && d.x < 370);
    // Bottom inset 8% of 600 = 48, top inset 12% = 72, margin 30.
    assert!(-222 <= d.y && d.y < 198);
}

#[test]
fn variety_spawner_waits_for_the_threshold() {
    let mut field = Field::new();
    let mut timer = VarietySpawnTimer::new();
    assert!(!field.spawn_variety_dandelions(&mut timer, 499, 10_000, 10, 10, 800, 600));
    assert!(!timer.enabled);
    assert_eq!(field.dandelions.len(), 0);
    // Score 500 switches it on; the ten-second timer then fires.
    assert!(field.spawn_variety_dandelions(&mut timer, 500, 10_000, 10, 10, 800, 600));
    assert!(timer.enabled);
    assert_eq!(field.dandelions.len(), 5);
    let sizes: Vec<DandelionSize> = field.dandelions.iter().map(|d| d.size).collect();
    assert_eq!(sizes, vec![
        DandelionSize::Tiny,
        DandelionSize::Small,
        DandelionSize::Medium,
        DandelionSize::Large,
        DandelionSize::Huge,
    ]);
    assert!(field.dandelions[4].moving.is_some());
}

#[test]
fn dandelion_ring_has_twelve_tiny() {
    let mut field = Field::new();
    field.spawn_dandelion_ring(0, 0);
    assert_eq!(field.dandelions.len(), 12);
    for d in field.dandelions.iter() {
        assert_eq!(d.size, DandelionSize::Tiny);
        assert_eq!(d.health, 1);
        let d2 = (d.x as i64) * (d.x as i64) + (d.y as i64) * (d.y as i64);
        assert!(9_000 <= d2 && d2 <= 11_000, "ring radius off: {}", d2);
    }
}

#[test]
fn default_level_table() {
    let data = LevelData::new();
    assert_eq!(data.levels.len(), 12);
    assert_eq!(data.current_level, 1);
    let first = &data.levels[0];
    assert_eq!(first.id, 1);
    assert_eq!(first.name, "Weed Rising");
    assert_eq!(first.target_points, 500);
    assert_eq!(first.time_limits.three_star, 60_000);
    assert_eq!(first.enemy_scaling.health_multiplier_tenths, 10);
    assert_eq!(first.enemy_scaling.difficulty_threshold, 200);
    let last = &data.levels[11];
    assert_eq!(last.id, 12);
    assert_eq!(last.name, "This is How You Lose the Weed War");
    assert_eq!(last.target_points, 30_000);
    assert_eq!(last.enemy_scaling.health_multiplier_tenths, 70);
    assert_eq!(last.unlock_requirements.required_stars, 25);
}

#[test]
fn star_ratings_follow_the_limits() {
    let limits = TimeLimits { three_star: 60_000, two_star: 90_000, one_star: 120_000 };
    assert_eq!(calculate_stars(&limits, 59_999), 3);
    assert_eq!(calculate_stars(&limits, 60_000), 3);
    assert_eq!(calculate_stars(&limits, 60_001), 2);
    assert_eq!(calculate_stars(&limits, 90_001), 1);
    assert_eq!(calculate_stars(&limits, 120_001), 0);
}

#[test]
fn unlocks_follow_earned_stars() {
    let mut data = LevelData::new();
    assert!(data.is_level_unlocked(1));
    assert!(!data.is_level_unlocked(2));
    // A three-star run of the first level unlocks the second.
    data.complete_level(1, 50_000, 600);
    assert!(data.is_level_unlocked(2));
    assert_eq!(data.get_total_stars(), 3);
    let p = data.get_level_progress(1).unwrap();
    assert!(p.completed);
    assert_eq!(p.best_score, 600);
    assert_eq!(p.best_stars, 3);
    // A worse later run does not overwrite the best.
    data.complete_level(1, 200_000, 500);
    let p2 = data.get_level_progress(1).unwrap();
    assert_eq!(p2.best_score, 600);
    assert_eq!(p2.best_stars, 3);
    // Selecting a locked level is refused.
    data.set_current_level(5);
    assert_eq!(data.current_level, 1);
    data.set_current_level(2);
    assert_eq!(data.current_level, 2);
}

#[test]
fn level_completion_fires_once_at_the_target() {
    let data = LevelData::new();
    let mut session = LevelSession::new();
    session.start(1000);
    // Below the 500-point target: nothing.
    assert!(check_level_completion(&data, 499, &mut session, 31_000).is_none());
    let ev = check_level_completion(&data, 500, &mut session, 31_000).unwrap();
    assert_eq!(ev.level_id, 1);
    assert_eq!(ev.final_score, 500);
    assert_eq!(ev.completion_time_ms, 30_000);
    assert_eq!(ev.stars_earned, 3);
    // Already reached: it does not fire again.
    assert!(check_level_completion(&data, 700, &mut session, 40_000).is_none());
}

#[test]
fn session_elapsed_time() {
    let mut session = LevelSession::new();
    assert_eq!(session.get_elapsed_time(500), None);
    session.start(1000);
    assert_eq!(session.get_elapsed_time(4500), Some(3500));
    session.complete();
    assert!(session.target_reached);
}

#[test]
fn delayed_slash_lands_after_its_delay() {
    let mut field = Field::new();
    let mut game = GameData::new();
    assert!(field.spawn_dandelion(0, 0, 1, DandelionSize::Tiny, None));
    let mut delayed = DelayedSlashEffect::new(0, 0, 150);
    assert!(!delayed.tick(100));
    assert_eq!(field.dandelions.len(), 1);
    // The second stroke lands: resolve it like an immediate slash.
    assert!(delayed.tick(50));
    field.process_slash_attack(delayed.x, delayed.y, &mut game);
    assert_eq!(field.dandelions.len(), 0);
    assert_eq!(game.score, 10);
}

#[test]
fn progress_can_be_overwritten_in_range_only() {
    let mut data = LevelData::new();
    let p = LevelProgress { completed: true, best_score: 42, best_time: 5000, best_stars: 2 };
    assert!(data.set_level_progress(3, p));
    let got = data.get_level_progress(3).unwrap();
    assert_eq!(got.best_score, 42);
    assert_eq!(got.best_stars, 2);
    assert!(!data.set_level_progress(0, p));
    assert!(!data.set_level_progress(13, p));
    assert_eq!(data.get_total_stars(), 2);
}
