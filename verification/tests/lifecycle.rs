//! Lifecycle engine scenarios: clicks, slashes, destruction, merging,
//! seed orbs and the area tracker.

use dandelions::field::Field;
use dandelions::score::GameData;
use dandelions::tiers::DandelionSize;
use dandelions::field::MovingDandelion;
use dandelions::field::calculate_max_health;
use dandelions::timer::Countdown;

fn dist_sq(ax: i32, ay: i32, bx: i32, by: i32) -> i64 {
    let dx = (ax - bx) as i64;
    let dy = (ay - by) as i64;
    dx * dx + dy * dy
}

#[test]
fn click_kill_spawns_two_orbs_and_scores() {
    // One Tiny dandelion with health one at the origin; one click at the
    // origin destroys it.
    let mut field = Field::new();
    let mut game = GameData::new();
    assert!(field.spawn_dandelion(0, 0, 1, DandelionSize::Tiny, None));
    assert_eq!(field.area_tracker.total_area, 306_250);
    let hit = field.process_dandelion_hit(0, 0, &mut game);
    assert!(hit);
    assert_eq!(field.dandelions.len(), 0);
    // Exactly two seed orbs, each targeted 50 to 150 units from the origin.
    assert_eq!(field.seed_orbs.len(), 2);
    for orb in field.seed_orbs.iter() {
        let d2 = dist_sq(orb.target_x, orb.target_y, 0, 0);
        assert!(d2 >= 2500, "orb landed closer than 50 units: {}", d2);
        assert!(d2 <= 22500, "orb landed farther than 150 units: {}", d2);
    }
    // The tracker dropped by the Tiny visual area; score and combo moved.
    assert_eq!(field.area_tracker.total_area, 0);
    assert_eq!(game.score, 10);
    assert_eq!(game.combo, 1);
}

#[test]
fn click_misses_outside_collision_radius() {
    let mut field = Field::new();
    let mut game = GameData::new();
    assert!(field.spawn_dandelion(0, 0, 1, DandelionSize::Tiny, None));
    // 18 units away: outside the 17.5-unit Tiny collision radius.
    assert!(!field.process_dandelion_hit(18, 0, &mut game));
    assert_eq!(field.dandelions.len(), 1);
    assert_eq!(game.score, 0);
    // 17 units away: inside.
    assert!(field.process_dandelion_hit(17, 0, &mut game));
    assert_eq!(field.dandelions.len(), 0);
}

#[test]
fn click_hits_first_in_spawn_order() {
    let mut field = Field::new();
    let mut game = GameData::new();
    assert!(field.spawn_dandelion(0, 0, 2, DandelionSize::Tiny, None));
    assert!(field.spawn_dandelion(5, 0, 2, DandelionSize::Tiny, None));
    // Both circles contain the click; only the first takes damage.
    assert!(field.process_dandelion_hit(2, 0, &mut game));
    assert_eq!(field.dandelions[0].health, 1);
    assert_eq!(field.dandelions[1].health, 2);
}

#[test]
fn destroying_a_missing_id_is_a_no_op() {
    let mut field = Field::new();
    let mut game = GameData::new();
    assert!(field.spawn_dandelion(0, 0, 1, DandelionSize::Tiny, None));
    let destroyed = field.destroy_dandelion(42, &mut game);
    assert!(!destroyed);
    assert_eq!(field.dandelions.len(), 1);
    assert_eq!(field.area_tracker.total_area, 306_250);
    assert_eq!(game.score, 0);
    // A second destruction of an already-destroyed id is equally silent.
    let id = field.dandelions[0].id;
    assert!(field.destroy_dandelion(id, &mut game));
    assert!(!field.destroy_dandelion(id, &mut game));
    assert_eq!(game.score, 10);
}

#[test]
fn two_tiny_dandelions_merge_into_small_at_midpoint() {
    // Distance 10 is well inside the Tiny merge radius of 21 units.
    let mut field = Field::new();
    assert!(field.spawn_dandelion(0, 0, 1, DandelionSize::Tiny, None));
    assert!(field.spawn_dandelion(10, 0, 1, DandelionSize::Tiny, None));
    let before = field.area_tracker.total_area;
    let pairs = field.check_dandelion_merging(10);
    assert_eq!(pairs.len(), 1);
    assert_eq!(field.dandelions.len(), 1);
    let merged = &field.dandelions[0];
    assert_eq!(merged.size, DandelionSize::Small);
    assert_eq!(merged.x, 5);
    assert_eq!(merged.y, 0);
    assert_eq!(merged.health, 2);
    // Net area change: one Small in, two Tiny out.
    let after = field.area_tracker.total_area;
    assert_eq!(before, 2 * 306_250);
    assert_eq!(after, 634_800);
}

#[test]
fn tiny_dandelions_apart_do_not_merge() {
    // Distance 22 is just beyond the 21-unit Tiny merge radius.
    let mut field = Field::new();
    assert!(field.spawn_dandelion(0, 0, 1, DandelionSize::Tiny, None));
    assert!(field.spawn_dandelion(22, 0, 1, DandelionSize::Tiny, None));
    let pairs = field.check_dandelion_merging(10);
    assert_eq!(pairs.len(), 0);
    assert_eq!(field.dandelions.len(), 2);
}

#[test]
fn huge_pair_in_merge_range_never_merges() {
    // Two Huge dandelions at distance 10, far inside any merge radius:
    // there is no tier beyond Huge, so the pair stays unchanged.
    let mut field = Field::new();
    assert!(field.spawn_dandelion(0, 0, 5, DandelionSize::Huge, None));
    assert!(field.spawn_dandelion(10, 0, 5, DandelionSize::Huge, None));
    let before_area = field.area_tracker.total_area;
    let ids: Vec<u64> = field.dandelions.iter().map(|d| d.id).collect();
    let pairs = field.check_dandelion_merging(10);
    assert_eq!(pairs.len(), 0);
    assert_eq!(field.dandelions.len(), 2);
    assert_eq!(field.area_tracker.total_area, before_area);
    for (k, d) in field.dandelions.iter().enumerate() {
        assert_eq!(d.id, ids[k]);
        assert_eq!(d.size, DandelionSize::Huge);
    }
}

#[test]
fn merged_huge_starts_moving() {
    let mut field = Field::new();
    assert!(field.spawn_dandelion(0, 0, 4, DandelionSize::Large, None));
    assert!(field.spawn_dandelion(20, 0, 4, DandelionSize::Large, None));
    let pairs = field.check_dandelion_merging(10);
    assert_eq!(pairs.len(), 1);
    assert_eq!(field.dandelions.len(), 1);
    assert_eq!(field.dandelions[0].size, DandelionSize::Huge);
    assert!(field.dandelions[0].moving.is_some());
}

#[test]
fn slash_damages_every_dandelion_along_the_line() {
    let mut field = Field::new();
    let mut game = GameData::new();
    // Two on the diagonal slash through the origin, one far away.
    assert!(field.spawn_dandelion(0, 0, 1, DandelionSize::Tiny, None));
    assert!(field.spawn_dandelion(20, 20, 2, DandelionSize::Tiny, None));
    assert!(field.spawn_dandelion(300, -300, 1, DandelionSize::Tiny, None));
    let hits = field.process_slash_attack(0, 0, &mut game);
    assert_eq!(hits, 2);
    // The health-one dandelion died, the health-two one was damaged.
    assert_eq!(field.dandelions.len(), 2);
    assert_eq!(field.dandelions[0].health, 1);
    assert_eq!(field.dandelions[0].x, 20);
    assert_eq!(game.score, 10);
    assert_eq!(game.combo, 1);
}

#[test]
fn seed_orb_matures_into_a_tiny_dandelion() {
    let mut field = Field::new();
    let mut game = GameData::new();
    assert!(field.spawn_dandelion(0, 0, 1, DandelionSize::Tiny, None));
    let id = field.dandelions[0].id;
    assert!(field.destroy_dandelion(id, &mut game));
    assert_eq!(field.seed_orbs.len(), 2);
    let targets: Vec<(i32, i32)> =
        field.seed_orbs.iter().map(|o| (o.target_x, o.target_y)).collect();
    // Fly for the full 400 ms: both orbs mature into Tiny dandelions at
    // their targets.
    field.update_seed_orbs(400, 10);
    assert_eq!(field.seed_orbs.len(), 0);
    assert_eq!(field.dandelions.len(), 2);
    for (k, d) in field.dandelions.iter().enumerate() {
        assert_eq!((d.x, d.y), targets[k]);
        assert_eq!(d.size, DandelionSize::Tiny);
        assert_eq!(d.health, 1);
    }
    // The tracker follows: two fresh Tiny dandelions.
    assert_eq!(field.area_tracker.total_area, 2 * 306_250);
}

#[test]
fn upgrade_cooldowns_tick_down() {
    let mut field = Field::new();
    assert!(field.spawn_dandelion(0, 0, 1, DandelionSize::Tiny, None));
    let d = field.dandelions[0];
    field.dandelions[0] = dandelions::field::Dandelion { cooldown_ms: 600, ..d };
    field.update_upgrade_cooldowns(250);
    assert_eq!(field.dandelions[0].cooldown_ms, 350);
    field.update_upgrade_cooldowns(1000);
    assert_eq!(field.dandelions[0].cooldown_ms, 0);
}

#[test]
fn moving_huge_upgrades_stationary_neighbor() {
    let mut field = Field::new();
    let mover = MovingDandelion::new_random(50);
    assert!(field.spawn_dandelion(0, 0, 5, DandelionSize::Huge, Some(mover)));
    assert!(field.spawn_dandelion(30, 0, 1, DandelionSize::Tiny, None));
    let before = field.area_tracker.total_area;
    let upgrades = field.check_moving_dandelion_collisions();
    assert_eq!(upgrades, 1);
    assert_eq!(field.dandelions[1].size, DandelionSize::Small);
    assert_eq!(field.dandelions[1].cooldown_ms, 1000);
    let after = field.area_tracker.total_area;
    assert_eq!(after, before - 306_250 + 634_800);
    // On cooldown now: a second pass upgrades nothing.
    assert_eq!(field.check_moving_dandelion_collisions(), 0);
    assert_eq!(field.dandelions[1].size, DandelionSize::Small);
}

#[test]
fn moving_dandelions_stay_inside_bounds() {
    let mut field = Field::new();
    let mover = MovingDandelion::new_random(50);
    assert!(field.spawn_dandelion(95, 0, 5, DandelionSize::Huge, Some(mover)));
    for _ in 0..100 {
        field.update_moving_dandelions(100, -100, -100, 100, 100);
        let d = &field.dandelions[0];
        assert!(-100 <= d.x && d.x <= 100);
        assert!(-100 <= d.y && d.y <= 100);
    }
}

#[test]
fn area_tracker_follows_every_path() {
    // Spawn, merge, damage and destroy in sequence; the tracker always
    // equals the sum of the live visual areas.
    let mut field = Field::new();
    let mut game = GameData::new();
    let sum = |f: &Field| -> u64 {
        f.dandelions.iter().map(|d| d.size.visual_area()).sum()
    };
    assert!(field.spawn_dandelion(0, 0, 2, DandelionSize::Tiny, None));
    assert!(field.spawn_dandelion(10, 0, 2, DandelionSize::Tiny, None));
    assert!(field.spawn_dandelion(500, 500, 3, DandelionSize::Medium, None));
    assert_eq!(field.area_tracker.total_area, sum(&field));
    field.check_dandelion_merging(10);
    assert_eq!(field.area_tracker.total_area, sum(&field));
    field.process_dandelion_hit(500, 500, &mut game);
    assert_eq!(field.area_tracker.total_area, sum(&field));
    let id = field.dandelions[0].id;
    field.destroy_dandelion(id, &mut game);
    assert_eq!(field.area_tracker.total_area, sum(&field));
    field.cleanup_enemies();
    assert_eq!(field.area_tracker.total_area, 0);
}

#[test]
fn scaled_health_rounds_up() {
    assert_eq!(calculate_max_health(DandelionSize::Tiny, 10), 1);
    assert_eq!(calculate_max_health(DandelionSize::Tiny, 12), 2);
    assert_eq!(calculate_max_health(DandelionSize::Small, 15), 3);
    assert_eq!(calculate_max_health(DandelionSize::Huge, 22), 11);
    assert_eq!(calculate_max_health(DandelionSize::Huge, 70), 35);
}

#[test]
fn mover_advances_and_bounces_exactly() {
    let mut field = Field::new();
    // A hand-built mover with a known heading: no randomness until the
    // two-second heading timer fires.
    let mv = MovingDandelion {
        vx: 50,
        vy: 0,
        speed: 50,
        direction_timer: Countdown::new_repeating(2000),
    };
    assert!(field.spawn_dandelion(98, 0, 5, DandelionSize::Huge, Some(mv)));
    // 100 ms at 50 units/s: five units, crossing the wall at 100 — the
    // position clamps onto the wall and the velocity flips.
    field.update_moving_dandelions(100, -100, -100, 100, 100);
    let d = &field.dandelions[0];
    assert_eq!(d.x, 100);
    assert_eq!(d.y, 0);
    let w = d.moving.as_ref().unwrap();
    assert_eq!(w.vx, -50);
    assert_eq!(w.vy, 0);
    assert_eq!(w.direction_timer.remaining_ms, 1900);
    // The next tick walks back inside.
    field.update_moving_dandelions(100, -100, -100, 100, 100);
    assert_eq!(field.dandelions[0].x, 95);
}
