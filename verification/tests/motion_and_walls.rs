use flock::boid::{rotate_boid_direction, Boid};
use flock::fixed::{MAX_RATE, ONE};
use flock::motion::{
    avoid_walls_system, move_boid_system, rotate_boid_manual_system, SteerInput,
    MANUAL_ROTATION_STRENGTH,
};
use flock::vector::Vec2;

const UP: Vec2 = Vec2 { x: 0, y: ONE };
const WIDTH: i64 = 1_280 * ONE;
const HEIGHT: i64 = 720 * ONE;

fn boid_at(id: u64, x: i64, y: i64, direction: Vec2) -> Boid {
    Boid {
        id,
        position: Vec2 { x, y },
        speed: 20 * ONE,
        rotation_speed: 3 * ONE,
        direction,
        view_distance: 50 * ONE,
        separation_distance: 20 * ONE,
    }
}

fn wrap_one(x: i64, y: i64) -> Vec2 {
    let mut boids = vec![boid_at(0, x, y, UP)];
    avoid_walls_system(&mut boids, WIDTH, HEIGHT);
    assert_eq!(boids[0], boid_at(0, boids[0].position.x, boids[0].position.y, UP));
    boids[0].position
}

#[test]
fn manual_weight_is_one() {
    assert_eq!(MANUAL_ROTATION_STRENGTH, ONE);
}

#[test]
fn manual_left_turns_counter_clockwise() {
    let mut boids = vec![boid_at(0, 0, 0, UP), boid_at(1, 9, 9, Vec2 { x: ONE, y: 0 })];
    rotate_boid_manual_system(&mut boids, SteerInput::Left, 16_666);
    assert_eq!(boids[0].direction, Vec2 { x: -52_556, y: 998_617 });
    assert_eq!(boids[1].direction, Vec2 { x: 998_617, y: 52_556 });
    assert_eq!(boids[1].position, Vec2 { x: 9, y: 9 });
}

#[test]
fn manual_right_turns_clockwise() {
    let mut boids = vec![boid_at(0, 0, 0, UP)];
    rotate_boid_manual_system(&mut boids, SteerInput::Right, 16_666);
    assert_eq!(boids[0].direction, Vec2 { x: 52_556, y: 998_617 });
    let mut expected = boid_at(0, 0, 0, UP);
    rotate_boid_direction(&mut expected, Vec2 { x: ONE, y: 0 }, 49_998);
    assert_eq!(boids[0], expected);
}

#[test]
fn manual_idle_changes_nothing() {
    let mut boids = vec![boid_at(0, 0, 0, UP), boid_at(1, 1, 1, Vec2 { x: 600_000, y: 800_000 })];
    let before = boids.clone();
    rotate_boid_manual_system(&mut boids, SteerInput::Idle, 16_666);
    assert_eq!(boids, before);
}

#[test]
fn manual_skips_a_step_that_is_not_valid() {
    let mut boids = vec![boid_at(0, 0, 0, UP)];
    let before = boids.clone();
    rotate_boid_manual_system(&mut boids, SteerInput::Left, 0);
    rotate_boid_manual_system(&mut boids, SteerInput::Right, -16_666);
    rotate_boid_manual_system(&mut boids, SteerInput::Left, MAX_RATE + 1);
    assert_eq!(boids, before);
}

#[test]
fn move_advances_along_the_heading() {
    let mut boids = vec![
        boid_at(0, ONE, ONE, UP),
        boid_at(1, 0, 0, Vec2 { x: 600_000, y: 800_000 }),
        boid_at(2, 5, 5, Vec2 { x: 0, y: -ONE }),
    ];
    move_boid_system(&mut boids, ONE / 2);
    assert_eq!(boids[0], boid_at(0, ONE, 11 * ONE, UP));
    assert_eq!(boids[1], boid_at(1, 6 * ONE, 8 * ONE, Vec2 { x: 600_000, y: 800_000 }));
    assert_eq!(boids[2], boid_at(2, 5, 5 - 10 * ONE, Vec2 { x: 0, y: -ONE }));
}

#[test]
fn move_scales_with_speed_and_time() {
    let mut boids = vec![boid_at(0, 0, 0, Vec2 { x: ONE, y: 0 })];
    boids[0].speed = 3 * ONE;
    move_boid_system(&mut boids, 16_666);
    assert_eq!(boids[0].position, Vec2 { x: 49_998, y: 0 });
    boids[0].speed = -3 * ONE;
    move_boid_system(&mut boids, 16_666);
    assert_eq!(boids[0].position, Vec2 { x: 0, y: 0 });
    boids[0].speed = 0;
    move_boid_system(&mut boids, MAX_RATE);
    assert_eq!(boids[0].position, Vec2 { x: 0, y: 0 });
}

#[test]
fn move_skips_a_step_that_is_not_valid() {
    let mut boids = vec![boid_at(0, 3, 4, UP)];
    let before = boids.clone();
    move_boid_system(&mut boids, 0);
    move_boid_system(&mut boids, -ONE);
    move_boid_system(&mut boids, MAX_RATE + 1);
    assert_eq!(boids, before);
}

#[test]
fn wrap_leaves_a_boid_within_the_plane() {
    for (x, y) in [(0, 0), (WIDTH, HEIGHT), (WIDTH, 0), (0, HEIGHT), (WIDTH / 2, HEIGHT / 3)] {
        assert_eq!(wrap_one(x, y), Vec2 { x, y });
        let mut boids = vec![boid_at(0, x, y, UP)];
        avoid_walls_system(&mut boids, WIDTH, HEIGHT);
        avoid_walls_system(&mut boids, WIDTH, HEIGHT);
        assert_eq!(boids, vec![boid_at(0, x, y, UP)]);
    }
}

#[test]
fn wrap_past_the_right_edge_enters_at_the_left() {
    assert_eq!(wrap_one(WIDTH + 5 * ONE, HEIGHT / 2), Vec2 { x: 0, y: HEIGHT / 2 });
    assert_eq!(wrap_one(WIDTH + 1, HEIGHT / 2), Vec2 { x: 0, y: HEIGHT / 2 });
    // and stays there
    assert_eq!(wrap_one(0, HEIGHT / 2), Vec2 { x: 0, y: HEIGHT / 2 });
}

#[test]
fn wrap_past_the_left_edge_enters_at_the_right() {
    assert_eq!(wrap_one(-1, 7), Vec2 { x: WIDTH, y: 7 });
    assert_eq!(wrap_one(i64::MIN, 7), Vec2 { x: WIDTH, y: 7 });
}

#[test]
fn wrap_past_top_and_bottom() {
    assert_eq!(wrap_one(7, HEIGHT + 1), Vec2 { x: 7, y: 0 });
    assert_eq!(wrap_one(7, -1), Vec2 { x: 7, y: HEIGHT });
    assert_eq!(wrap_one(7, i64::MAX), Vec2 { x: 7, y: 0 });
}

#[test]
fn wrap_treats_each_axis_on_its_own() {
    assert_eq!(wrap_one(WIDTH + 1, HEIGHT + 1), Vec2 { x: 0, y: 0 });
    assert_eq!(wrap_one(-1, HEIGHT + 1), Vec2 { x: WIDTH, y: 0 });
    assert_eq!(wrap_one(WIDTH + 1, -1), Vec2 { x: 0, y: HEIGHT });
    assert_eq!(wrap_one(-1, -1), Vec2 { x: WIDTH, y: HEIGHT });
    assert_eq!(wrap_one(-1, HEIGHT), Vec2 { x: WIDTH, y: HEIGHT });
}

#[test]
fn wrap_on_the_right_edge_stays() {
    assert_eq!(wrap_one(WIDTH, 5 * ONE), Vec2 { x: WIDTH, y: 5 * ONE });
}

#[test]
fn wrap_on_a_plane_of_no_width() {
    let mut boids = vec![boid_at(0, 0, 5, UP), boid_at(1, 1, 5, UP), boid_at(2, -1, 5, UP)];
    avoid_walls_system(&mut boids, 0, HEIGHT);
    assert_eq!(boids[0].position, Vec2 { x: 0, y: 5 });
    assert_eq!(boids[1].position, Vec2 { x: 0, y: 5 });
    assert_eq!(boids[2].position, Vec2 { x: 0, y: 5 });
    avoid_walls_system(&mut boids, 0, HEIGHT);
    assert_eq!(boids[0].position, Vec2 { x: 0, y: 5 });
}
