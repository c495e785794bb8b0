use flock::boid::Boid;
use flock::fixed::ONE;
use flock::index::{Entry, SpatialIndex};
use flock::vector::Vec2;

fn boid_at(id: u64, x: i64, y: i64) -> Boid {
    Boid {
        id,
        position: Vec2 { x, y },
        speed: 20 * ONE,
        rotation_speed: 3 * ONE,
        direction: Vec2 { x: 0, y: ONE },
        view_distance: 50 * ONE,
        separation_distance: 20 * ONE,
    }
}

fn ids(mut found: Vec<Entry>) -> Vec<u64> {
    found.sort_by_key(|e| e.id);
    found.iter().map(|e| e.id).collect()
}

fn grid() -> Vec<Boid> {
    let mut boids = Vec::new();
    let mut id = 0;
    for row in 0..10 {
        for column in 0..10 {
            boids.push(boid_at(id, column * 10 * ONE, row * 10 * ONE));
            id += 1;
        }
    }
    boids
}

#[test]
fn new_index_finds_nothing() {
    let index = SpatialIndex::new();
    assert!(index.query_within(Vec2 { x: 0, y: 0 }, i64::MAX).is_empty());
}

#[test]
fn refresh_holds_every_boid() {
    let boids = grid();
    let mut index = SpatialIndex::new();
    index.refresh(&boids);
    let found = index.query_within(Vec2 { x: 45 * ONE, y: 45 * ONE }, 1_000 * ONE);
    assert_eq!(ids(found), (0..100).collect::<Vec<u64>>());
}

#[test]
fn refresh_replaces_what_the_index_held() {
    let mut index = SpatialIndex::new();
    index.refresh(&grid());
    index.refresh(&vec![boid_at(0, 3, 4)]);
    let found = index.query_within(Vec2 { x: 0, y: 0 }, 1_000 * ONE);
    assert_eq!(found, vec![Entry { position: Vec2 { x: 3, y: 4 }, id: 0 }]);
}

#[test]
fn query_returns_position_and_handle() {
    let mut index = SpatialIndex::new();
    index.refresh(&vec![boid_at(0, -7 * ONE, 2 * ONE), boid_at(1, 500 * ONE, 500 * ONE)]);
    let found = index.query_within(Vec2 { x: -6 * ONE, y: 2 * ONE }, 2 * ONE);
    assert_eq!(found, vec![Entry { position: Vec2 { x: -7 * ONE, y: 2 * ONE }, id: 0 }]);
}

#[test]
fn query_includes_the_point_asked_about() {
    let boids = grid();
    let mut index = SpatialIndex::new();
    index.refresh(&boids);
    let found = index.query_within(boids[55].position, 1);
    assert_eq!(ids(found), vec![55]);
}

#[test]
fn query_matches_a_scan_of_the_flock() {
    let boids = grid();
    let mut index = SpatialIndex::new();
    index.refresh(&boids);
    let point = Vec2 { x: 33 * ONE, y: 58 * ONE };
    for radius in [ONE, 7 * ONE, 15 * ONE, 28 * ONE, 64 * ONE] {
        let mut expected = Vec::new();
        for b in boids.iter() {
            let dx = (b.position.x - point.x) as i128;
            let dy = (b.position.y - point.y) as i128;
            if dx * dx + dy * dy < (radius as i128) * (radius as i128) {
                expected.push(b.id);
            }
        }
        assert_eq!(ids(index.query_within(point, radius)), expected);
    }
}

#[test]
fn query_leaves_the_boundary_out() {
    let mut index = SpatialIndex::new();
    index.refresh(&vec![boid_at(0, 3 * ONE, 4 * ONE), boid_at(1, 0, 0)]);
    let origin = Vec2 { x: 0, y: 0 };
    assert_eq!(ids(index.query_within(origin, 5 * ONE)), vec![1]);
    assert_eq!(ids(index.query_within(origin, 5 * ONE + 1)), vec![0, 1]);
}

#[test]
fn query_with_no_radius_finds_nothing() {
    let mut index = SpatialIndex::new();
    index.refresh(&vec![boid_at(0, 0, 0)]);
    let origin = Vec2 { x: 0, y: 0 };
    assert!(index.query_within(origin, 0).is_empty());
    assert!(index.query_within(origin, -5 * ONE).is_empty());
    assert!(index.query_within(origin, i64::MIN).is_empty());
}

#[test]
fn query_keeps_boids_at_one_place_apart() {
    let mut index = SpatialIndex::new();
    index.refresh(&vec![boid_at(0, ONE, ONE), boid_at(1, ONE, ONE), boid_at(2, ONE, ONE)]);
    assert_eq!(ids(index.query_within(Vec2 { x: ONE, y: ONE }, 1)), vec![0, 1, 2]);
}

#[test]
fn query_reaches_across_the_whole_range() {
    let mut index = SpatialIndex::new();
    index.refresh(&vec![boid_at(0, i64::MAX, i64::MAX), boid_at(1, i64::MIN, i64::MIN)]);
    assert_eq!(ids(index.query_within(Vec2 { x: 0, y: 0 }, i64::MAX)), Vec::<u64>::new());
    assert_eq!(ids(index.query_within(Vec2 { x: i64::MAX, y: i64::MAX - 5 }, 6)), vec![0]);
    assert_eq!(ids(index.query_within(Vec2 { x: i64::MIN, y: i64::MIN + 5 }, 5)), Vec::<u64>::new());
}
