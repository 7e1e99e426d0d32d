use boids::fixed::{LIMIT, ONE};
use boids::spawn::generate_units_in_circle;
use boids::unit::{is_flock_wf, Color};
use boids::vector::Vec2;
use rand::rngs::StdRng;
use rand::SeedableRng;

fn compass() -> Vec<Vec2> {
    vec![Vec2::new(ONE, 0), Vec2::new(0, ONE), Vec2::new(-ONE, 0), Vec2::new(0, -ONE)]
}

#[test]
fn units_are_set_on_the_circle() {
    let mut rng = StdRng::seed_from_u64(1);
    let center = Vec2::new(400 * ONE, 400 * ONE);
    let units = generate_units_in_circle(center, 200 * ONE, &compass(), &mut rng);
    assert_eq!(units.len(), 4);
    assert_eq!(units[0].position, Vec2::new(600 * ONE, 400 * ONE));
    assert_eq!(units[1].position, Vec2::new(400 * ONE, 600 * ONE));
    assert_eq!(units[2].position, Vec2::new(200 * ONE, 400 * ONE));
    assert_eq!(units[3].position, Vec2::new(400 * ONE, 200 * ONE));
    for unit in &units {
        assert_eq!(unit.color, Color::red());
    }
}

#[test]
fn directions_are_scaled_by_the_radius() {
    let mut rng = StdRng::seed_from_u64(2);
    let directions = vec![Vec2::new(600_000, -800_000), Vec2::new(707_106, 707_106)];
    let units = generate_units_in_circle(Vec2::new(0, 0), 10 * ONE, &directions, &mut rng);
    assert_eq!(units[0].position, Vec2::new(6 * ONE, -8 * ONE));
    assert_eq!(units[1].position, Vec2::new(7_071_060, 7_071_060));
    let units = generate_units_in_circle(Vec2::new(0, 0), 3, &directions, &mut rng);
    // 0.6 * 3 = 1.8 and -0.8 * 3 = -2.4 millionths, rounded toward zero.
    assert_eq!(units[0].position, Vec2::new(1, -2));
}

#[test]
fn velocities_lie_between_minus_one_and_one() {
    let mut rng = StdRng::seed_from_u64(3);
    let mut directions = Vec::new();
    for _ in 0..50 {
        directions.extend(compass());
    }
    let units = generate_units_in_circle(Vec2::new(0, 0), 100 * ONE, &directions, &mut rng);
    assert_eq!(units.len(), 200);
    assert!(is_flock_wf(&units));
    for unit in &units {
        assert!(-ONE <= unit.velocity.x && unit.velocity.x < ONE);
        assert!(-ONE <= unit.velocity.y && unit.velocity.y < ONE);
    }
}

#[test]
fn velocities_are_drawn_and_not_fixed() {
    let mut rng = StdRng::seed_from_u64(4);
    let units = generate_units_in_circle(Vec2::new(0, 0), 100 * ONE, &compass(), &mut rng);
    let first = units[0].velocity;
    assert!(units.iter().any(|u| u.velocity != first));
    assert!(units.iter().any(|u| u.velocity.x != -ONE));
    assert!(units.iter().any(|u| u.velocity.x != ONE));
    assert!(units.iter().any(|u| u.velocity.x != u.velocity.y));
}

#[test]
fn the_same_seed_gives_the_same_flock() {
    let center = Vec2::new(400 * ONE, 400 * ONE);
    let mut first = StdRng::seed_from_u64(5);
    let mut second = StdRng::seed_from_u64(5);
    let a = generate_units_in_circle(center, 200 * ONE, &compass(), &mut first);
    let b = generate_units_in_circle(center, 200 * ONE, &compass(), &mut second);
    assert_eq!(a, b);
    let mut other = StdRng::seed_from_u64(6);
    let c = generate_units_in_circle(center, 200 * ONE, &compass(), &mut other);
    assert_ne!(a, c);
}

#[test]
fn no_directions_no_units() {
    let mut rng = StdRng::seed_from_u64(7);
    let units = generate_units_in_circle(Vec2::new(0, 0), 100 * ONE, &Vec::new(), &mut rng);
    assert!(units.is_empty());
}

#[test]
fn units_off_the_plane_are_set_on_its_edge() {
    let mut rng = StdRng::seed_from_u64(8);
    let directions = vec![Vec2::new(i64::MAX, i64::MIN), Vec2::new(ONE, -ONE)];
    let units = generate_units_in_circle(Vec2::new(LIMIT, -LIMIT), i64::MAX, &directions, &mut rng);
    assert_eq!(units[0].position, Vec2::new(LIMIT, -LIMIT));
    assert_eq!(units[1].position, Vec2::new(LIMIT, -LIMIT));
    let units = generate_units_in_circle(Vec2::new(i64::MIN, i64::MAX), 0, &directions, &mut rng);
    assert_eq!(units[0].position, Vec2::new(-LIMIT, LIMIT));
    assert!(is_flock_wf(&units));
}
