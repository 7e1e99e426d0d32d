use boids::fixed::{LIMIT, ONE};
use boids::integrator::{
    advance, blend, forces_on, integrate, limit_speed, profile_for, tick, Forces, Profile,
    Weights, ALIGNMENT_RADIUS, COHESION_RADIUS, FORCE_LIMIT, MAX_SPEED, POSITION_SCALE,
    SEPARATION_RADIUS, THRESHOLD,
};
use boids::rules::{alignment, cohesion, separation};
use boids::steering::steer;
use boids::unit::{is_flock_wf, Color, Unit};
use boids::vector::Vec2;

const ZERO: Vec2 = Vec2 { x: 0, y: 0 };

fn still(x: i64, y: i64) -> Unit {
    Unit::new(Vec2::new(x * ONE, y * ONE), ZERO, Color::red())
}

fn only_separation(f: Vec2) -> Forces {
    Forces::new(f, ZERO, ZERO, ZERO)
}

fn only_alignment(f: Vec2) -> Forces {
    Forces::new(ZERO, f, ZERO, ZERO)
}

fn only_cohesion(f: Vec2) -> Forces {
    Forces::new(ZERO, ZERO, f, ZERO)
}

fn only_steer(f: Vec2) -> Forces {
    Forces::new(ZERO, ZERO, ZERO, f)
}

#[test]
fn constants_are_those_of_the_rules() {
    assert_eq!(SEPARATION_RADIUS, 100 * ONE);
    assert_eq!(ALIGNMENT_RADIUS, 50 * ONE);
    assert_eq!(COHESION_RADIUS, 40 * ONE);
    assert_eq!(THRESHOLD, 100 * ONE);
    assert_eq!(MAX_SPEED, 2 * ONE);
    assert_eq!(POSITION_SCALE, 50 * ONE);
    assert_eq!(FORCE_LIMIT, 2 * LIMIT);
}

#[test]
fn weights_of_the_two_profiles() {
    assert_eq!(
        Profile::Far.weights(),
        Weights { separation: 1_500_000, alignment: 1_000_000, cohesion: 500_000, steer: 1_000_000 }
    );
    assert_eq!(
        Profile::Near.weights(),
        Weights { separation: 5_500_000, alignment: 800_000, cohesion: 0, steer: 900_000 }
    );
}

#[test]
fn profile_switches_at_the_threshold() {
    let target = Vec2::new(0, 0);
    assert_eq!(profile_for(Vec2::new(150 * ONE, 0), target), Profile::Far);
    assert_eq!(profile_for(Vec2::new(50 * ONE, 0), target), Profile::Near);
    assert_eq!(profile_for(Vec2::new(100 * ONE, 0), target), Profile::Far);
    assert_eq!(profile_for(Vec2::new(100 * ONE - 1, 0), target), Profile::Near);
    assert_eq!(profile_for(Vec2::new(0, -100 * ONE), target), Profile::Far);
    assert_eq!(profile_for(Vec2::new(60 * ONE, 80 * ONE), target), Profile::Far);
    assert_eq!(profile_for(Vec2::new(60 * ONE, 80 * ONE - 1), target), Profile::Near);
    assert_eq!(profile_for(target, target), Profile::Near);
}

#[test]
fn far_unit_uses_the_far_weights() {
    let unit = still(150, 0);
    let target = Vec2::new(0, 0);
    let f = Vec2::new(100_000, -200_000);
    assert_eq!(
        integrate(&unit, &only_separation(f), target, 0).velocity,
        Vec2::new(150_000, -300_000)
    );
    assert_eq!(
        integrate(&unit, &only_alignment(f), target, 0).velocity,
        Vec2::new(100_000, -200_000)
    );
    assert_eq!(
        integrate(&unit, &only_cohesion(f), target, 0).velocity,
        Vec2::new(50_000, -100_000)
    );
    assert_eq!(integrate(&unit, &only_steer(f), target, 0).velocity, Vec2::new(100_000, -200_000));
}

#[test]
fn near_unit_uses_the_near_weights() {
    let unit = still(50, 0);
    let target = Vec2::new(0, 0);
    let f = Vec2::new(100_000, -200_000);
    assert_eq!(
        integrate(&unit, &only_separation(f), target, 0).velocity,
        Vec2::new(550_000, -1_100_000)
    );
    assert_eq!(
        integrate(&unit, &only_alignment(f), target, 0).velocity,
        Vec2::new(80_000, -160_000)
    );
    assert_eq!(integrate(&unit, &only_cohesion(f), target, 0).velocity, ZERO);
    assert_eq!(integrate(&unit, &only_steer(f), target, 0).velocity, Vec2::new(90_000, -180_000));
}

#[test]
fn blend_adds_the_weighted_forces_to_the_velocity() {
    let v = Vec2::new(10, -20);
    let forces = Forces::new(
        Vec2::new(100_000, 0),
        Vec2::new(0, 100_000),
        Vec2::new(200_000, 200_000),
        Vec2::new(-300_000, 0),
    );
    // 1.5 * 0.1 + 0.5 * 0.2 - 1.0 * 0.3 and 1.0 * 0.1 + 0.5 * 0.2.
    assert_eq!(blend(v, Profile::Far, &forces), Vec2::new(10 - 50_000, -20 + 200_000));
    // 5.5 * 0.1 - 0.9 * 0.3 and 0.8 * 0.1.
    assert_eq!(blend(v, Profile::Near, &forces), Vec2::new(10 + 280_000, -20 + 80_000));
}

#[test]
fn blend_rounds_the_weighted_sum_once_and_toward_zero() {
    // 1.5 * 1 + 0.5 * 1 millionths is 2 millionths; each alone would round to 1 and 0.
    let forces = Forces::new(Vec2::new(1, -1), ZERO, Vec2::new(1, -1), ZERO);
    assert_eq!(blend(ZERO, Profile::Far, &forces), Vec2::new(2, -2));
    // 0.8 of a millionth rounds to nothing, from either side.
    let forces = only_alignment(Vec2::new(1, -1));
    assert_eq!(blend(ZERO, Profile::Near, &forces), ZERO);
}

#[test]
fn blend_of_the_largest_forces() {
    let top = Vec2::new(FORCE_LIMIT, -FORCE_LIMIT);
    let forces = Forces::new(top, top, top, top);
    assert!(forces.is_wf());
    let v = Vec2::new(LIMIT, -LIMIT);
    assert_eq!(blend(v, Profile::Far, &forces), Vec2::new(9 * LIMIT, -9 * LIMIT));
    assert_eq!(
        blend(v, Profile::Near, &forces),
        Vec2::new(LIMIT + 14_400_000_000_000_000, -LIMIT - 14_400_000_000_000_000)
    );
    assert!(!Forces::new(Vec2::new(FORCE_LIMIT + 1, 0), ZERO, ZERO, ZERO).is_wf());
    assert!(!Forces::new(ZERO, ZERO, ZERO, Vec2::new(0, -FORCE_LIMIT - 1)).is_wf());
}

#[test]
fn speed_clamp_gives_exactly_the_greatest_speed() {
    assert_eq!(limit_speed(Vec2::new(10 * ONE, 0)), Vec2::new(2 * ONE, 0));
    assert_eq!(limit_speed(Vec2::new(0, -10 * ONE)), Vec2::new(0, -2 * ONE));
    assert_eq!(limit_speed(Vec2::new(6 * ONE, 8 * ONE)), Vec2::new(1_200_000, 1_600_000));
    assert_eq!(limit_speed(Vec2::new(-6 * ONE, 8 * ONE)), Vec2::new(-1_200_000, 1_600_000));
}

#[test]
fn speed_clamp_through_a_tick() {
    let unit = Unit::new(Vec2::new(0, 0), Vec2::new(10 * ONE, 0), Color::red());
    let forces = Forces::new(ZERO, ZERO, ZERO, ZERO);
    let next = integrate(&unit, &forces, Vec2::new(500 * ONE, 0), ONE);
    assert_eq!(next.velocity, Vec2::new(2 * ONE, 0));
    assert_eq!(next.position, Vec2::new(100 * ONE, 0));
}

#[test]
fn speed_clamp_leaves_slower_velocities_alone() {
    for v in [
        ZERO,
        Vec2::new(2 * ONE, 0),
        Vec2::new(0, -2 * ONE),
        Vec2::new(1_200_000, 1_600_000),
        Vec2::new(-ONE, ONE),
        Vec2::new(1, -1),
    ] {
        assert_eq!(limit_speed(v), v);
    }
}

#[test]
fn speed_clamp_takes_hold_just_above_the_greatest_speed() {
    let v = limit_speed(Vec2::new(2 * ONE, 1));
    assert_eq!(v, Vec2::new(1_999_998, 0));
    let v = limit_speed(Vec2::new(2 * ONE + 1, 0));
    assert_eq!(v, Vec2::new(2 * ONE, 0));
}

#[test]
fn speed_clamp_never_leaves_more_than_the_greatest_speed() {
    let vectors = [
        Vec2::new(i64::MAX, i64::MAX),
        Vec2::new(i64::MIN, i64::MIN),
        Vec2::new(i64::MIN, i64::MAX),
        Vec2::new(2 * ONE, 1),
        Vec2::new(1_414_214, 1_414_214),
        Vec2::new(-3 * ONE, 7),
        Vec2::new(123_456_789, -987_654_321),
    ];
    for v in vectors {
        let r = limit_speed(v);
        let speed_sq = (r.x as i128) * (r.x as i128) + (r.y as i128) * (r.y as i128);
        assert!(speed_sq <= (MAX_SPEED as i128) * (MAX_SPEED as i128));
        assert!(r.x == 0 || (r.x > 0) == (v.x > 0));
        assert!(r.y == 0 || (r.y > 0) == (v.y > 0));
    }
}

#[test]
fn advance_moves_by_velocity_times_time_times_fifty() {
    let p = Vec2::new(10 * ONE, -10 * ONE);
    assert_eq!(
        advance(p, Vec2::new(-350_000, 2 * ONE), ONE),
        Vec2::new(10 * ONE - 17_500_000, -10 * ONE + 100 * ONE)
    );
    // A sixtieth of a second, 0.016666: 2 * 0.016666 * 50 = 1.6666.
    assert_eq!(advance(p, Vec2::new(2 * ONE, 0), 16_666), Vec2::new(10 * ONE + 1_666_600, -10 * ONE));
    assert_eq!(advance(p, Vec2::new(2 * ONE, -ONE), 0), p);
    assert_eq!(advance(p, Vec2::new(ONE, 0), -ONE), Vec2::new(-40 * ONE, -10 * ONE));
}

#[test]
fn advance_rounds_toward_zero() {
    // 0.000003 * 0.01 * 50 = 0.0000015
    assert_eq!(advance(ZERO, Vec2::new(3, -3), 10_000), Vec2::new(1, -1));
    assert_eq!(advance(ZERO, Vec2::new(1, -1), 10_000), ZERO);
}

#[test]
fn advance_stops_at_the_edge_of_the_plane() {
    let p = Vec2::new(LIMIT - ONE, -LIMIT + ONE);
    assert_eq!(advance(p, Vec2::new(2 * ONE, -2 * ONE), ONE), Vec2::new(LIMIT, -LIMIT));
    assert_eq!(advance(p, Vec2::new(2 * ONE, -2 * ONE), i64::MAX), Vec2::new(LIMIT, -LIMIT));
    assert_eq!(advance(p, Vec2::new(2 * ONE, -2 * ONE), i64::MIN), Vec2::new(-LIMIT, LIMIT));
}

#[test]
fn forces_on_gathers_the_four_rules() {
    let flock = vec![
        Unit::new(Vec2::new(0, 0), Vec2::new(100_000, 0), Color::red()),
        Unit::new(Vec2::new(30 * ONE, 0), Vec2::new(0, -300_000), Color::red()),
        Unit::new(Vec2::new(0, 45 * ONE), Vec2::new(500_000, 500_000), Color::red()),
        Unit::new(Vec2::new(-80 * ONE, 0), Vec2::new(ONE, ONE), Color::red()),
    ];
    let target = Vec2::new(7 * ONE, 9 * ONE);
    for unit in &flock {
        let forces = forces_on(unit, &flock, target);
        assert_eq!(forces.separation, separation(unit, &flock, 100 * ONE));
        assert_eq!(forces.alignment, alignment(unit, &flock, 50 * ONE));
        assert_eq!(forces.cohesion, cohesion(unit, &flock, 40 * ONE));
        assert_eq!(forces.steer, steer(unit, target));
        assert!(forces.is_wf());
    }
    let forces = forces_on(&flock[0], &flock, target);
    // Neighbours at 30, 45 and 80: (-1/30, 0) + (0, -1/45) + (1/80, 0).
    assert_eq!(forces.separation, Vec2::new(-33_333 + 12_500, -22_222));
    // Within 50: the units at 30 and 45.
    assert_eq!(forces.alignment, Vec2::new(250_000, 100_000));
    // Within 40: the unit at 30.
    assert_eq!(forces.cohesion, Vec2::new(ONE, 0));
}

#[test]
fn end_to_end_two_units() {
    let flock = vec![still(0, 0), still(10, 0)];
    let next = tick(&flock, Vec2::new(0, 0), ONE);
    assert_eq!(next.len(), 2);
    assert_eq!(next[0].velocity, Vec2::new(-550_000, 0));
    assert_eq!(next[0].position, Vec2::new(-27_500_000, 0));
    assert_eq!(next[1].velocity, Vec2::new(-350_000, 0));
    assert_eq!(next[1].position, Vec2::new(-7_500_000, 0));
}

#[test]
fn tick_of_an_empty_flock_is_empty() {
    assert_eq!(tick(&Vec::new(), Vec2::new(0, 0), ONE), Vec::new());
}

#[test]
fn tick_keeps_colours_and_order() {
    let blue = Color::new(0, 0, 255, 255);
    let green = Color::new(0, 255, 0, 128);
    let flock = vec![
        Unit::new(Vec2::new(0, 0), ZERO, blue),
        Unit::new(Vec2::new(10 * ONE, 0), ZERO, Color::red()),
        Unit::new(Vec2::new(0, 10 * ONE), ZERO, green),
    ];
    let next = tick(&flock, Vec2::new(300 * ONE, 300 * ONE), 16_666);
    assert_eq!(next.len(), 3);
    assert_eq!(next[0].color, blue);
    assert_eq!(next[1].color, Color::red());
    assert_eq!(next[2].color, green);
    assert_eq!(Color::red(), Color::new(230, 41, 55, 255));
}

#[test]
fn tick_reads_the_flock_as_it_was_before() {
    let a = Unit::new(Vec2::new(0, 0), Vec2::new(100_000, 0), Color::red());
    let b = Unit::new(Vec2::new(10 * ONE, 0), Vec2::new(0, 200_000), Color::red());
    let c = Unit::new(Vec2::new(0, 20 * ONE), Vec2::new(-300_000, 0), Color::red());
    let target = Vec2::new(40 * ONE, 40 * ONE);
    let forward = tick(&vec![a, b, c], target, 20_000);
    let backward = tick(&vec![c, b, a], target, 20_000);
    assert_eq!(forward[0], backward[2]);
    assert_eq!(forward[1], backward[1]);
    assert_eq!(forward[2], backward[0]);
    // Each unit steps as it would alone against the old flock.
    let old = vec![a, b, c];
    for (i, unit) in old.iter().enumerate() {
        let forces = forces_on(unit, &old, target);
        assert_eq!(forward[i], integrate(unit, &forces, target, 20_000));
    }
}

#[test]
fn no_unit_is_faster_than_the_greatest_speed_after_any_tick() {
    let mut flock = Vec::new();
    for i in 0..12i64 {
        flock.push(Unit::new(
            Vec2::new(400 * ONE + (i % 4) * 7 * ONE, 400 * ONE + (i / 4) * 5 * ONE + i),
            Vec2::new((i - 6) * 900_000, (5 - i) * 700_000),
            Color::red(),
        ));
    }
    for step in 0..50i64 {
        let target = Vec2::new(400 * ONE + step * 3 * ONE, 380 * ONE);
        flock = tick(&flock, target, 16_666);
        assert!(is_flock_wf(&flock));
        for unit in &flock {
            let v = unit.velocity;
            let speed_sq = (v.x as i128) * (v.x as i128) + (v.y as i128) * (v.y as i128);
            assert!(speed_sq <= (MAX_SPEED as i128) * (MAX_SPEED as i128));
        }
    }
}

#[test]
fn tick_holds_the_flock_on_the_plane() {
    let corner = Unit::new(Vec2::new(LIMIT, -LIMIT), Vec2::new(LIMIT, -LIMIT), Color::red());
    let next = tick(&vec![corner], Vec2::new(-LIMIT, LIMIT), i64::MIN);
    assert!(is_flock_wf(&next));
    let next = tick(&vec![corner], Vec2::new(LIMIT, -LIMIT), i64::MAX);
    assert!(is_flock_wf(&next));
    assert_eq!(next[0].position, Vec2::new(LIMIT, -LIMIT));
}

#[test]
fn speed_clamp_reaches_the_greatest_speed_up_to_rounding() {
    let vectors = [
        Vec2::new(i64::MAX, i64::MAX),
        Vec2::new(i64::MIN, 1),
        Vec2::new(2 * ONE, 1),
        Vec2::new(1_414_214, 1_414_214),
        Vec2::new(-3 * ONE, 7),
        Vec2::new(123_456_789, -987_654_321),
        Vec2::new(2 * ONE + 1, -2 * ONE - 1),
    ];
    let floor = (MAX_SPEED as i128 - 6) * (MAX_SPEED as i128 - 6);
    for v in vectors {
        let r = limit_speed(v);
        let speed_sq = (r.x as i128) * (r.x as i128) + (r.y as i128) * (r.y as i128);
        assert!(speed_sq > floor);
        let cross = (r.x as i128) * (v.y as i128) - (r.y as i128) * (v.x as i128);
        let reach = 2 * ((v.x as i128).abs() + (v.y as i128).abs());
        assert!(cross.abs() <= reach);
    }
}
