//! Simulation behaviour: detection, movement clamping, gravity, grounding,
//! and an end-to-end falling scenario.
//!
//! Coordinates are fixed-point: 1_000_000 units per world unit; a velocity
//! is in units per second and a time delta in units of a second.

use platformer_core::collision::compute_movement;
use platformer_core::collision::simulate_collisions;
use platformer_core::collision::CollisionDirection;
use platformer_core::collision::CollisionEvent;
use platformer_core::entity::Entity;
use platformer_core::game::GameState;
use platformer_core::rect::Rect;

fn body(key: u32, x: i64, y: i64, w: i64, h: i64, vx: i64, vy: i64, falls: bool) -> Entity {
    Entity { key, aabb: Rect::new(x, y, w, h), vx, vy, obeys_gravity: falls, is_hazard: false }
}

#[test]
fn detector_reports_rightward_approach() {
    // Subject moving rightward at 2 units/s over a 1 s tick would overlap
    // the wall to its right; one directional event, none for the wall.
    let entities = vec![
        body(1, 0, 0, 1_000_000, 1_000_000, 2_000_000, 0, false),
        body(2, 2_500_000, 0, 1_000_000, 1_000_000, 0, 0, false),
    ];
    let mut collisions: Vec<CollisionEvent> = Vec::new();
    simulate_collisions(&entities, &mut collisions, 1_000_000);
    assert_eq!(collisions.len(), 1);
    assert_eq!(collisions[0].subject, 1);
    assert_eq!(collisions[0].object, 2);
    assert_eq!(collisions[0].dir, CollisionDirection::Left);
}

#[test]
fn movement_clamps_to_contact_distance() {
    // Subject at x=0, w=1; object at x=1.5, w=1; vx=10, dt=1: the raw
    // displacement 10 must clamp to exactly 0.5, the gap to the contact.
    let entities = vec![
        body(1, 0, 0, 1_000_000, 1_000_000, 10_000_000, 0, false),
        body(2, 1_500_000, 0, 1_000_000, 1_000_000, 0, 0, false),
    ];
    let collisions = vec![CollisionEvent {
        subject: 1,
        object: 2,
        dir: CollisionDirection::Left,
    }];
    let mut movements: Vec<(u32, i64, i64)> = Vec::new();
    compute_movement(&entities, &collisions, &mut movements, 1_000_000);
    assert_eq!(movements.len(), 1);
    assert_eq!(movements[0], (1, 500_000, 0));
}

#[test]
fn unobstructed_entity_moves_full_raw_displacement() {
    let entities = vec![body(7, 0, 0, 1_000_000, 1_000_000, 1_500_000, -250_000, false)];
    let collisions: Vec<CollisionEvent> = Vec::new();
    let mut movements: Vec<(u32, i64, i64)> = Vec::new();
    compute_movement(&entities, &collisions, &mut movements, 1_000_000);
    assert_eq!(movements, vec![(7, 1_500_000, -250_000)]);
}

#[test]
fn zero_velocity_produces_no_movement_record() {
    let entities = vec![
        body(1, 0, 0, 1_000_000, 1_000_000, 0, 0, false),
        body(2, 5_000_000, 0, 1_000_000, 1_000_000, 0, 0, false),
    ];
    let collisions: Vec<CollisionEvent> = Vec::new();
    let mut movements: Vec<(u32, i64, i64)> = Vec::new();
    compute_movement(&entities, &collisions, &mut movements, 1_000_000);
    assert!(movements.is_empty());
}

#[test]
fn gravity_accumulates_over_a_tick() {
    // gravity 3.5, dt of 1/60 (16_666 millionths): vy grows to 58_331,
    // which is 3.5/60 up to the fixed-point truncation.
    let mut state = GameState::new(3_500_000);
    let key = state.add_entity(body(0, 0, 0, 1_000_000, 1_000_000, 0, 0, true));
    state.update(16_666);
    let e = state.get_entity(key).unwrap();
    assert_eq!(e.vy, 58_331);
    assert!((e.vy - 58_333).abs() <= 2);
}

#[test]
fn landing_resets_vertical_velocity_on_the_same_tick() {
    // A falling entity reaches the platform this tick; however large the
    // accumulated vy, the Above contact consumes it.
    let mut state = GameState::new(1_000_000);
    let faller = state.add_entity(body(0, 0, 0, 1_000_000, 1_000_000, 0, 1_000_000, true));
    state.add_entity(body(0, -10_000_000, 1_050_000, 20_000_000, 1_000_000, 0, 0, false));
    state.update(1_000_000);
    let e = state.get_entity(faller).unwrap();
    // Movement stopped exactly at contact: bottom edge on the platform top.
    assert_eq!(e.aabb.y + e.aabb.h, 1_050_000);
    assert_eq!(e.vy, 0);
    assert!(state.is_grounded(faller));
}

#[test]
fn resting_entity_is_reported_grounded() {
    // Bottom edge exactly equal to the platform's top edge, moving downward
    // into it: the tick produces an Above contact and no movement.
    let mut state = GameState::new(1_000_000);
    let player = state.add_entity(body(0, 0, 0, 1_000_000, 1_000_000, 0, 0, true));
    state.add_entity(body(0, -5_000_000, 1_000_000, 10_000_000, 2_000_000, 0, 0, false));
    state.update(100_000);
    let e = state.get_entity(player).unwrap();
    assert!(state.is_grounded(player));
    assert_eq!(e.aabb.y, 0);
    assert_eq!(e.vy, 0);
}

#[test]
fn falling_entity_comes_to_rest_on_platform() {
    // Single dynamic entity {x:0,y:0,w:1,h:1,vy:0}, gravity 10, one static
    // platform {x:-1,y:5,w:10,h:1}, ticks of dt=0.1 until grounded: the
    // entity's bottom edge ends exactly on the platform's top edge (y=4)
    // with vy=0, and no tick overshoots past it.
    let mut state = GameState::new(10_000_000);
    let player = state.add_entity(body(0, 0, 0, 1_000_000, 1_000_000, 0, 0, true));
    state.add_entity(body(0, -1_000_000, 5_000_000, 10_000_000, 1_000_000, 0, 0, false));

    let mut grounded_at: Option<u32> = None;
    for tick in 0..50u32 {
        state.update(100_000);
        let e = state.get_entity(player).unwrap();
        assert!(e.aabb.y <= 4_000_000, "tick {} overshot: y={}", tick, e.aabb.y);
        if state.is_grounded(player) {
            grounded_at = Some(tick);
            break;
        }
    }
    assert!(grounded_at.is_some(), "never grounded");

    let e = state.get_entity(player).unwrap();
    assert_eq!(e.aabb.y, 4_000_000);
    assert_eq!(e.vy, 0);

    // The rest state is stable over further ticks.
    for _ in 0..10 {
        state.update(100_000);
        let e = state.get_entity(player).unwrap();
        assert_eq!(e.aabb.y, 4_000_000);
        assert_eq!(e.vy, 0);
        assert!(state.is_grounded(player));
    }
}

#[test]
fn culling_keeps_visible_entities_and_the_protected_key() {
    let mut state = GameState::new(1_000_000);
    let player = state.add_entity(body(0, 50_000_000, 0, 1_000_000, 1_000_000, 0, 0, true));
    let visible = state.add_entity(body(0, 1_000_000, 0, 1_000_000, 1_000_000, 0, 0, false));
    let offscreen = state.add_entity(body(0, 20_000_000, 0, 1_000_000, 1_000_000, 0, 0, false));
    let window = Rect::new(0, 0, 3_000_000, 2_000_000);
    state.cull_entities(window, player);
    assert!(state.get_entity(player).is_some());
    assert!(state.get_entity(visible).is_some());
    assert!(state.get_entity(offscreen).is_none());
    assert_eq!(state.entity_count(), 2);
}

#[test]
fn added_entities_get_fresh_sequential_keys() {
    let mut state = GameState::new(0);
    let a = state.add_entity(body(0, 0, 0, 1_000_000, 1_000_000, 0, 0, false));
    let b = state.add_entity(body(0, 3_000_000, 0, 1_000_000, 1_000_000, 0, 0, false));
    assert_ne!(a, b);
    assert_eq!(state.entity_count(), 2);
    let ea = state.get_entity(a).unwrap();
    assert_eq!(ea.key, a);
    assert_eq!(ea.aabb, Rect::new(0, 0, 1_000_000, 1_000_000));
}
