//! The fixed tier attribute table and the countdown timer behaviour.

use dandelions::tiers::DandelionSize;
use dandelions::timer::Countdown;

#[test]
fn tier_spawn_counts() {
    assert_eq!(DandelionSize::Tiny.spawn_count(), 2);
    assert_eq!(DandelionSize::Small.spawn_count(), 3);
    assert_eq!(DandelionSize::Medium.spawn_count(), 4);
    assert_eq!(DandelionSize::Large.spawn_count(), 5);
    assert_eq!(DandelionSize::Huge.spawn_count(), 6);
}

#[test]
fn tier_radii_and_merge_radii() {
    assert_eq!(DandelionSize::Tiny.collision_radius(), 175);
    assert_eq!(DandelionSize::Small.collision_radius(), 230);
    assert_eq!(DandelionSize::Medium.collision_radius(), 280);
    assert_eq!(DandelionSize::Large.collision_radius(), 350);
    assert_eq!(DandelionSize::Huge.collision_radius(), 440);
    // Merge radius is 1.2 times the collision radius, exactly in tenths.
    assert_eq!(DandelionSize::Tiny.merge_radius(), 210);
    assert_eq!(DandelionSize::Small.merge_radius(), 276);
    assert_eq!(DandelionSize::Medium.merge_radius(), 336);
    assert_eq!(DandelionSize::Large.merge_radius(), 420);
    assert_eq!(DandelionSize::Huge.merge_radius(), 528);
}

#[test]
fn tier_ladder() {
    assert_eq!(DandelionSize::Tiny.next_size(), Some(DandelionSize::Small));
    assert_eq!(DandelionSize::Small.next_size(), Some(DandelionSize::Medium));
    assert_eq!(DandelionSize::Medium.next_size(), Some(DandelionSize::Large));
    assert_eq!(DandelionSize::Large.next_size(), Some(DandelionSize::Huge));
    assert_eq!(DandelionSize::Huge.next_size(), None);
}

#[test]
fn tier_visual_areas_and_health() {
    assert_eq!(DandelionSize::Tiny.visual_area(), 306_250);
    assert_eq!(DandelionSize::Small.visual_area(), 634_800);
    assert_eq!(DandelionSize::Medium.visual_area(), 1_176_000);
    assert_eq!(DandelionSize::Large.visual_area(), 2_450_000);
    assert_eq!(DandelionSize::Huge.visual_area(), 5_808_000);
    assert_eq!(DandelionSize::Tiny.base_health(), 1);
    assert_eq!(DandelionSize::Huge.base_health(), 5);
    assert_eq!(DandelionSize::Tiny.scale(), 20);
    assert_eq!(DandelionSize::Huge.scale(), 50);
}

#[test]
fn tier_asset_paths() {
    assert_eq!(DandelionSize::Tiny.asset_path(), "dandelion_tiny.png");
    assert_eq!(DandelionSize::Small.asset_path(), "dandelion_small.png");
    assert_eq!(DandelionSize::Medium.asset_path(), "dandelion_medium.png");
    assert_eq!(DandelionSize::Large.asset_path(), "dandelion_large.png");
    assert_eq!(DandelionSize::Huge.asset_path(), "dandelion_huge.png");
}

#[test]
fn one_shot_timer_counts_down_and_stays_done() {
    let mut t = Countdown::new_once(1000);
    assert!(!t.tick(400));
    assert_eq!(t.remaining_ms, 600);
    assert!(t.tick(600));
    assert_eq!(t.remaining_ms, 0);
    assert!(t.finished());
    // A finished one-shot timer never fires again.
    assert!(!t.tick(1000));
    assert!(t.finished());
}

#[test]
fn repeating_timer_rearms() {
    let mut t = Countdown::new_repeating(500);
    assert!(!t.tick(499));
    assert!(t.tick(1));
    assert_eq!(t.remaining_ms, 500);
    assert!(t.tick(700));
    assert_eq!(t.remaining_ms, 500);
}

#[test]
fn isqrt_exact_values() {
    assert_eq!(dandelions::isqrt(0), 0);
    assert_eq!(dandelions::isqrt(1), 1);
    assert_eq!(dandelions::isqrt(3), 1);
    assert_eq!(dandelions::isqrt(4), 2);
    assert_eq!(dandelions::isqrt(128), 11);
    assert_eq!(dandelions::isqrt(1_000_000), 1000);
    assert_eq!(dandelions::isqrt(u64::MAX), 4_294_967_295);
}
