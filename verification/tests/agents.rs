//! Rabbit and fire subsystem scenarios.

use dandelions::field::Field;
use dandelions::fire::FireSystem;
use dandelions::rabbits::{RabbitSystem, find_fallback_dandelion_target};
use dandelions::powerups::{cleanup_expired_entities, handle_powerup_clicks, Powerup,
    PowerupType};
use dandelions::score::GameData;
use dandelions::tiers::DandelionSize;
use dandelions::rabbits::RabbitTargeting;

#[test]
fn rabbit_without_prey_expires_with_no_claims() {
    // A rabbit spawned with no dandelions present never acquires a target,
    // expires after three seconds and leaves no claim behind.
    let mut field = Field::new();
    let mut game = GameData::new();
    let mut rabbits = RabbitSystem::new();
    let mut fires = FireSystem::new();
    rabbits.spawn_rabbits(0, 0);
    assert_eq!(rabbits.rabbits.len(), 3);
    let eaten = rabbits.update_rabbits(&mut field, &mut game, 1000);
    assert_eq!(eaten, 0);
    for r in rabbits.rabbits.iter() {
        assert!(r.target.is_none());
    }
    // Two more seconds: the three-second lifetime runs out.
    rabbits.update_rabbits(&mut field, &mut game, 2000);
    cleanup_expired_entities(&mut rabbits, &mut fires);
    assert_eq!(rabbits.rabbits.len(), 0);
    assert_eq!(rabbits.targeting.targets.len(), 0);
    assert_eq!(game.score, 0);
}

#[test]
fn rabbit_eats_adjacent_dandelion() {
    let mut field = Field::new();
    let mut game = GameData::new();
    let mut rabbits = RabbitSystem::new();
    assert!(field.spawn_dandelion(0, 0, 1, DandelionSize::Tiny, None));
    rabbits.spawn_rabbits(0, 0);
    // Every fan position is within the 25-unit eat distance, so the first
    // tick already consumes the dandelion.
    let eaten = rabbits.update_rabbits(&mut field, &mut game, 16);
    assert_eq!(eaten, 1);
    assert_eq!(field.dandelions.len(), 0);
    assert_eq!(field.seed_orbs.len(), 0, "rabbit meals release no seed orbs");
    assert_eq!(game.score, 10);
    assert_eq!(game.combo, 1);
    assert_eq!(rabbits.targeting.targets.len(), 0);
}

#[test]
fn rabbit_reproduces_after_two_meals() {
    let mut field = Field::new();
    let mut game = GameData::new();
    let mut rabbits = RabbitSystem::new();
    // Two prey in reach of the rabbit fanned out to (20, 0) only: that
    // rabbit eats both, one per tick.
    assert!(field.spawn_dandelion(40, 0, 1, DandelionSize::Tiny, None));
    assert!(field.spawn_dandelion(45, 0, 1, DandelionSize::Tiny, None));
    rabbits.spawn_rabbits(0, 0);
    let mut total_eaten = 0;
    for _ in 0..4 {
        total_eaten += rabbits.update_rabbits(&mut field, &mut game, 16);
    }
    assert_eq!(total_eaten, 2);
    assert_eq!(field.dandelions.len(), 0);
    // One rabbit ate twice, despawned and fanned out three offspring:
    // three originals - 1 + 3 = 5 rabbits.
    assert_eq!(rabbits.rabbits.len(), 5);
}

#[test]
fn claims_are_exclusive_and_live() {
    let mut t = RabbitTargeting::new();
    t.claim_target(7, 100);
    t.claim_target(8, 100);
    // The registry is a map keyed by dandelion: the second claim replaced
    // the first, it never sits beside it.
    assert_eq!(t.targets.len(), 1);
    assert_eq!(t.get_targeting_rabbit(100), Some(8));
    assert!(t.is_targeted(100));
    t.claim_target(8, 101);
    t.clear_rabbit_targets(8);
    assert_eq!(t.targets.len(), 0);
    assert!(!t.is_targeted(100));
    t.claim_target(9, 100);
    t.release_target(100);
    assert!(!t.is_targeted(100));
}

#[test]
fn fallback_target_requires_two_hundred_units() {
    let mut field = Field::new();
    assert!(field.spawn_dandelion(100, 0, 1, DandelionSize::Tiny, None));
    let id = field.dandelions[0].id;
    assert_eq!(find_fallback_dandelion_target(0, 0, &field.dandelions), Some(id));
    let none = find_fallback_dandelion_target(0, 201, &field.dandelions);
    assert_eq!(none, None);
}

#[test]
fn fire_chain_stops_at_max_generation() {
    // A fire ignited at generation four kills one dandelion and spawns one
    // chain fire at generation five; that chain fire's kills spawn no
    // further ignitions.
    let mut field = Field::new();
    let mut game = GameData::new();
    let mut fires = FireSystem::new();
    assert!(field.spawn_dandelion(0, 0, 1, DandelionSize::Tiny, None));
    fires.spawn_fire_ignition_with_generation(0, 0, 4);
    // The generation-four fire kills on this tick and expires with it,
    // leaving only its generation-five chain fire.
    let killed = fires.update_fire_system(&mut field, &mut game, 3000);
    assert_eq!(killed, 1);
    assert_eq!(field.dandelions.len(), 0);
    assert_eq!(fires.fires.len(), 1);
    assert_eq!(fires.fires[0].generation, 5);
    // A new dandelion under the generation-five fire dies, but no deeper
    // ignition ever appears.
    assert!(field.spawn_dandelion(10, 0, 1, DandelionSize::Tiny, None));
    let killed2 = fires.update_fire_system(&mut field, &mut game, 16);
    assert_eq!(killed2, 1);
    assert_eq!(field.dandelions.len(), 0);
    assert_eq!(fires.fires.len(), 1);
    for f in fires.fires.iter() {
        assert!(f.generation <= dandelions::fire::MAX_GENERATION);
    }
    assert_eq!(fires.manager.pending_fires.len(), 0);
}

#[test]
fn fire_kills_are_batched_without_double_counting() {
    let mut field = Field::new();
    let mut game = GameData::new();
    let mut fires = FireSystem::new();
    // Two overlapping fires, one dandelion: a single kill.
    fires.spawn_fire_ignition(0, 0);
    fires.spawn_fire_ignition(5, 0);
    assert!(field.spawn_dandelion(10, 0, 3, DandelionSize::Medium, None));
    let killed = fires.update_fire_system(&mut field, &mut game, 16);
    assert_eq!(killed, 1);
    assert_eq!(game.combo, 1);
    assert_eq!(field.area_tracker.total_area, 0);
}

#[test]
fn fire_misses_distant_dandelions() {
    let mut field = Field::new();
    let mut game = GameData::new();
    let mut fires = FireSystem::new();
    fires.spawn_fire_ignition(0, 0);
    // 101 units away: outside the 100-unit fire radius.
    assert!(field.spawn_dandelion(101, 0, 1, DandelionSize::Tiny, None));
    let killed = fires.update_fire_system(&mut field, &mut game, 16);
    assert_eq!(killed, 0);
    assert_eq!(field.dandelions.len(), 1);
}

#[test]
fn fires_expire_after_their_lifetime() {
    let mut field = Field::new();
    let mut game = GameData::new();
    let mut fires = FireSystem::new();
    fires.spawn_fire_ignition(0, 0);
    fires.update_fire_system(&mut field, &mut game, 3000);
    // The lifetime elapsed exactly: the fire is dropped on this tick.
    assert_eq!(fires.fires.len(), 0);
}

#[test]
fn powerup_click_triggers_its_subsystem() {
    let mut rabbits = RabbitSystem::new();
    let mut fires = FireSystem::new();
    let mut tokens: Vec<Powerup> = vec![
        Powerup { id: 1, x: 0, y: 0, powerup_type: PowerupType::Bunny },
        Powerup { id: 2, x: 200, y: 0, powerup_type: PowerupType::Flamethrower },
    ];
    // A click between them within 30 units of the first only.
    let used = handle_powerup_clicks(&mut tokens, 20, 0, &mut rabbits, &mut fires);
    assert_eq!(used, Some(PowerupType::Bunny));
    assert_eq!(tokens.len(), 1);
    assert_eq!(rabbits.rabbits.len(), 3);
    assert_eq!(fires.fires.len(), 0);
    let used2 = handle_powerup_clicks(&mut tokens, 200, 10, &mut rabbits, &mut fires);
    assert_eq!(used2, Some(PowerupType::Flamethrower));
    assert_eq!(tokens.len(), 0);
    assert_eq!(fires.fires.len(), 1);
    assert_eq!(fires.fires[0].generation, 0);
    // A click in the void uses nothing.
    let used3 = handle_powerup_clicks(&mut tokens, 500, 500, &mut rabbits, &mut fires);
    assert_eq!(used3, None);
}

#[test]
fn random_powerup_type_is_valid() {
    for _ in 0..20 {
        let p = PowerupType::random();
        assert!(p == PowerupType::Bunny || p == PowerupType::Flamethrower);
    }
}
