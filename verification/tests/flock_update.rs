use flock::boid::{
    Boid, DEFAULT_ROTATION_SPEED, DEFAULT_SEPARATION_DISTANCE, DEFAULT_SPEED,
    DEFAULT_VIEW_DISTANCE,
};
use flock::fixed::{MAX_COORD, MAX_RATE, ONE};
use flock::flock::{flock_is_valid, flock_update, heading_snapshot, spawn_boid};
use flock::index::SpatialIndex;
use flock::motion::{
    avoid_walls_system, move_boid_system, rotate_boid_manual_system, SteerInput,
};
use flock::rules::{boid_alignment_system, boid_cohesion_system, boid_separation_system};
use flock::vector::Vec2;

const UP: Vec2 = Vec2 { x: 0, y: ONE };
const WIDTH: i64 = 1_280 * ONE;
const HEIGHT: i64 = 720 * ONE;

fn small_flock() -> Vec<Boid> {
    let mut boids = Vec::new();
    for row in 0..5 {
        for column in 0..5 {
            let position = Vec2 { x: (600 + column * 13) * ONE, y: (300 + row * 11) * ONE };
            let heading = Vec2 { x: 2 * column - 3, y: row - 2 };
            spawn_boid(&mut boids, position, heading);
        }
    }
    boids
}

fn step_by_hand(boids: &mut Vec<Boid>, delta_time: i64, input: Option<SteerInput>) {
    let mut index = SpatialIndex::new();
    index.refresh(boids);
    let headings = heading_snapshot(boids);
    boid_separation_system(boids, &index, delta_time);
    boid_alignment_system(boids, &index, &headings, delta_time);
    boid_cohesion_system(boids, &index, delta_time);
    if let Some(input) = input {
        rotate_boid_manual_system(boids, input, delta_time);
    }
    move_boid_system(boids, delta_time);
    avoid_walls_system(boids, WIDTH, HEIGHT);
}

#[test]
fn spawn_gives_the_defaults_and_a_unit_heading() {
    let mut boids = Vec::new();
    let id = spawn_boid(&mut boids, Vec2 { x: 3 * ONE, y: 4 * ONE }, Vec2 { x: 0, y: -17 });
    assert_eq!(id, 0);
    assert_eq!(
        boids,
        vec![Boid {
            id: 0,
            position: Vec2 { x: 3 * ONE, y: 4 * ONE },
            speed: DEFAULT_SPEED,
            rotation_speed: DEFAULT_ROTATION_SPEED,
            direction: Vec2 { x: 0, y: -ONE },
            view_distance: DEFAULT_VIEW_DISTANCE,
            separation_distance: DEFAULT_SEPARATION_DISTANCE,
        }]
    );
}

#[test]
fn spawn_numbers_the_boids_in_order() {
    let mut boids = Vec::new();
    for k in 0..10 {
        let id = spawn_boid(&mut boids, Vec2 { x: k, y: -k }, Vec2 { x: 1 + k, y: k - 20 });
        assert_eq!(id, k as u64);
        assert_eq!(boids.len(), (k + 1) as usize);
        assert_eq!(boids[k as usize].id, k as u64);
        assert!(boids[k as usize].direction.is_unit());
        assert_eq!(boids[k as usize].direction, Vec2 { x: 1 + k, y: k - 20 }.normalize());
    }
    assert!(flock_is_valid(&boids));
}

#[test]
fn flock_is_valid_checks_handles_and_boids() {
    let mut boids = small_flock();
    assert!(flock_is_valid(&boids));
    assert!(flock_is_valid(&Vec::new()));
    boids[3].id = 4;
    assert!(!flock_is_valid(&boids));
    boids[3].id = 3;
    assert!(flock_is_valid(&boids));
    boids[24].direction = Vec2 { x: 1, y: 1 };
    assert!(!flock_is_valid(&boids));
}

#[test]
fn heading_snapshot_copies_the_headings() {
    let boids = small_flock();
    let headings = heading_snapshot(&boids);
    assert_eq!(headings.len(), boids.len());
    for (k, b) in boids.iter().enumerate() {
        assert_eq!(headings[k], b.direction);
    }
    assert!(heading_snapshot(&Vec::new()).is_empty());
}

#[test]
fn update_runs_the_rules_in_order() {
    let mut boids = small_flock();
    let mut by_hand = boids.clone();
    let mut index = SpatialIndex::new();
    for _ in 0..25 {
        flock_update(&mut boids, &mut index, 16_666, SteerInput::Left, WIDTH, HEIGHT);
        step_by_hand(&mut by_hand, 16_666, Some(SteerInput::Left));
        assert_eq!(boids, by_hand);
    }
    assert_ne!(boids, small_flock());
}

#[test]
fn update_with_idle_steering_is_update_without_steering() {
    let mut boids = small_flock();
    let mut without = boids.clone();
    for _ in 0..40 {
        flock_update(&mut boids, &mut SpatialIndex::new(), 33_333, SteerInput::Idle, WIDTH, HEIGHT);
        step_by_hand(&mut without, 33_333, None);
        assert_eq!(boids, without);
    }
}

#[test]
fn update_keeps_the_flock_valid_and_within_the_plane() {
    let mut boids = small_flock();
    for round in 0..200 {
        let input = match round % 3 {
            0 => SteerInput::Left,
            1 => SteerInput::Right,
            _ => SteerInput::Idle,
        };
        flock_update(&mut boids, &mut SpatialIndex::new(), 500_000, input, WIDTH, HEIGHT);
        assert!(flock_is_valid(&boids));
        for b in boids.iter() {
            assert!(0 <= b.position.x && b.position.x <= WIDTH);
            assert!(0 <= b.position.y && b.position.y <= HEIGHT);
            let len = (b.direction.x as i128).pow(2) + (b.direction.y as i128).pow(2);
            let unit = (ONE as i128).pow(2);
            assert!((len - unit).abs() * 100_000 < unit);
        }
    }
}

#[test]
fn update_skips_a_step_that_is_not_valid() {
    let mut boids = small_flock();
    let before = boids.clone();
    for delta_time in [0, -1, -16_666, MAX_RATE + 1, i64::MAX, i64::MIN] {
        flock_update(&mut boids, &mut SpatialIndex::new(), delta_time, SteerInput::Left, WIDTH, HEIGHT);
        assert_eq!(boids, before);
    }
}

#[test]
fn update_of_a_lone_boid_moves_it_straight() {
    let mut boids = Vec::new();
    spawn_boid(&mut boids, Vec2 { x: 10 * ONE, y: 10 * ONE }, UP);
    flock_update(&mut boids, &mut SpatialIndex::new(), ONE, SteerInput::Idle, WIDTH, HEIGHT);
    assert_eq!(boids[0].position, Vec2 { x: 10 * ONE, y: 30 * ONE });
    assert_eq!(boids[0].direction, UP);
}

#[test]
fn update_wraps_a_boid_that_leaves_the_plane() {
    let mut boids = Vec::new();
    spawn_boid(&mut boids, Vec2 { x: 10 * ONE, y: HEIGHT - ONE }, UP);
    spawn_boid(&mut boids, Vec2 { x: ONE, y: 300 * ONE }, Vec2 { x: -1, y: 0 });
    flock_update(&mut boids, &mut SpatialIndex::new(), ONE, SteerInput::Idle, WIDTH, HEIGHT);
    assert_eq!(boids[0].position, Vec2 { x: 10 * ONE, y: 0 });
    assert_eq!(boids[1].position, Vec2 { x: WIDTH, y: 300 * ONE });
}

#[test]
fn update_with_the_longest_step_and_the_widest_plane() {
    let mut boids = Vec::new();
    spawn_boid(&mut boids, Vec2 { x: MAX_COORD, y: 0 }, Vec2 { x: 1, y: 1 });
    boids[0].speed = MAX_RATE;
    boids[0].rotation_speed = MAX_RATE;
    spawn_boid(&mut boids, Vec2 { x: MAX_COORD - 1, y: 1 }, Vec2 { x: -1, y: 0 });
    assert!(flock_is_valid(&boids));
    flock_update(&mut boids, &mut SpatialIndex::new(), MAX_RATE, SteerInput::Right, MAX_COORD, MAX_COORD);
    assert!(flock_is_valid(&boids));
}

#[test]
fn update_of_an_empty_flock() {
    let mut boids = Vec::new();
    flock_update(&mut boids, &mut SpatialIndex::new(), 16_666, SteerInput::Left, WIDTH, HEIGHT);
    assert!(boids.is_empty());
}

#[test]
fn update_leaves_the_index_at_the_positions_it_began_from() {
    let mut boids = small_flock();
    let before = boids.clone();
    let mut index = SpatialIndex::new();
    flock_update(&mut boids, &mut index, ONE, SteerInput::Idle, WIDTH, HEIGHT);
    let mut found = index.query_within(Vec2 { x: 600 * ONE, y: 300 * ONE }, 2_000 * ONE);
    found.sort_by_key(|e| e.id);
    assert_eq!(found.len(), before.len());
    for (e, b) in found.iter().zip(before.iter()) {
        assert_eq!(e.id, b.id);
        assert_eq!(e.position, b.position);
    }
    assert_ne!(boids[0].position, before[0].position);
}

#[test]
fn update_that_is_skipped_leaves_the_index() {
    let mut boids = small_flock();
    let mut index = SpatialIndex::new();
    flock_update(&mut boids, &mut index, 0, SteerInput::Idle, WIDTH, HEIGHT);
    assert!(index.query_within(Vec2 { x: 600 * ONE, y: 300 * ONE }, 2_000 * ONE).is_empty());
}
