use boids::fixed::{div_toward_zero, saturate, LIMIT, ONE};
use boids::root::{isqrt, isqrt_up};
use boids::direction::direction;
use boids::vector::{distance, Vec2};

fn units(x: i64, y: i64) -> Vec2 {
    Vec2::new(x * ONE, y * ONE)
}

#[test]
fn division_rounds_toward_zero() {
    assert_eq!(div_toward_zero(7, 2), 3);
    assert_eq!(div_toward_zero(-7, 2), -3);
    assert_eq!(div_toward_zero(-1, 2), 0);
    assert_eq!(div_toward_zero(0, 5), 0);
    assert_eq!(div_toward_zero(-6, 3), -2);
}

#[test]
fn saturate_holds_values_on_the_plane() {
    assert_eq!(saturate(0), 0);
    assert_eq!(saturate(LIMIT as i128), LIMIT);
    assert_eq!(saturate(LIMIT as i128 + 1), LIMIT);
    assert_eq!(saturate(-(LIMIT as i128) - 1), -LIMIT);
    assert_eq!(saturate(i128::MAX), LIMIT);
    assert_eq!(saturate(i128::MIN), -LIMIT);
    assert_eq!(saturate(-12345), -12345);
}

#[test]
fn square_root_rounds_down() {
    assert_eq!(isqrt(0), 0);
    assert_eq!(isqrt(1), 1);
    assert_eq!(isqrt(2), 1);
    assert_eq!(isqrt(3), 1);
    assert_eq!(isqrt(4), 2);
    assert_eq!(isqrt(15), 3);
    assert_eq!(isqrt(16), 4);
    assert_eq!(isqrt(17), 4);
    assert_eq!(isqrt(1_000_000_000_000), 1_000_000);
    assert_eq!(isqrt(999_999_999_999), 999_999);
    assert_eq!(isqrt(u128::MAX), u64::MAX);
}

#[test]
fn square_root_rounds_up() {
    assert_eq!(isqrt_up(0), 0);
    assert_eq!(isqrt_up(1), 1);
    assert_eq!(isqrt_up(2), 2);
    assert_eq!(isqrt_up(4), 2);
    assert_eq!(isqrt_up(5), 3);
    assert_eq!(isqrt_up(1_000_000_000_001), 1_000_001);
    assert_eq!(isqrt_up(u128::MAX), 1u128 << 64);
}

#[test]
fn distance_of_a_three_four_five_triangle() {
    assert_eq!(distance(units(0, 0), units(3, 4)), 5 * ONE);
    assert_eq!(distance(units(-3, -4), units(0, 0)), 5 * ONE);
    assert_eq!(distance(units(1, 1), units(4, 5)), 5 * ONE);
}

#[test]
fn distance_rounds_down() {
    // The diagonal of the unit square is 1.41421356...
    assert_eq!(distance(units(0, 0), units(1, 1)), 1_414_213);
    assert_eq!(distance(Vec2::new(0, 0), Vec2::new(1, 1)), 1);
    assert_eq!(distance(Vec2::new(0, 0), Vec2::new(1, 0)), 1);
}

#[test]
fn distance_is_symmetric() {
    let points = [
        units(0, 0),
        units(3, 4),
        units(-17, 250),
        Vec2::new(123_456_789, -987_654_321),
        Vec2::new(LIMIT, -LIMIT),
        Vec2::new(-LIMIT, LIMIT),
    ];
    for a in points {
        for b in points {
            assert_eq!(distance(a, b), distance(b, a));
        }
    }
}

#[test]
fn distance_to_self_is_zero() {
    for p in [units(0, 0), units(3, 4), Vec2::new(LIMIT, LIMIT), Vec2::new(-LIMIT, 7)] {
        assert_eq!(distance(p, p), 0);
    }
}

#[test]
fn distance_across_the_whole_plane() {
    // From one corner to the opposite one: 2 * sqrt(2) * LIMIT, rounded down.
    let d = distance(Vec2::new(-LIMIT, -LIMIT), Vec2::new(LIMIT, LIMIT));
    assert_eq!(d, 2_828_427_124_746_190);
}

#[test]
fn normalized_zero_vector_is_zero() {
    assert_eq!(Vec2::new(0, 0).normalized(), Vec2::new(0, 0));
}

#[test]
fn normalized_along_the_axes() {
    assert_eq!(units(10, 0).normalized(), Vec2::new(ONE, 0));
    assert_eq!(units(-10, 0).normalized(), Vec2::new(-ONE, 0));
    assert_eq!(units(0, 7).normalized(), Vec2::new(0, ONE));
    assert_eq!(Vec2::new(0, -1).normalized(), Vec2::new(0, -ONE));
}

#[test]
fn normalized_of_a_three_four_five_triangle() {
    assert_eq!(units(3, 4).normalized(), Vec2::new(600_000, 800_000));
    assert_eq!(units(-6, 8).normalized(), Vec2::new(-600_000, 800_000));
}

#[test]
fn normalized_rounds_each_coordinate_down() {
    // 1 / sqrt(2) = 0.70710678...
    assert_eq!(units(1, 1).normalized(), Vec2::new(707_106, 707_106));
    assert_eq!(units(-1, 1).normalized(), Vec2::new(-707_106, 707_106));
    // 3 / sqrt(13) = 0.83205029..., 2 / sqrt(13) = 0.55470019...
    assert_eq!(units(3, -2).normalized(), Vec2::new(832_050, -554_700));
}

#[test]
fn normalized_of_a_short_vector_is_as_exact_as_of_a_long_one() {
    assert_eq!(Vec2::new(1, 1).normalized(), Vec2::new(707_106, 707_106));
    assert_eq!(Vec2::new(-1, -1).normalized(), Vec2::new(-707_106, -707_106));
    assert_eq!(Vec2::new(3, 2).normalized(), Vec2::new(832_050, 554_700));
    assert_eq!(Vec2::new(2, 1).normalized(), Vec2::new(894_427, 447_213));
    assert_eq!(Vec2::new(3, 4).normalized(), Vec2::new(600_000, 800_000));
    assert_eq!(Vec2::new(1, 0).normalized(), Vec2::new(ONE, 0));
}

#[test]
fn normalized_is_one_long_for_every_vector_but_zero() {
    let floor = (ONE as i128) * (ONE as i128) - 5 * (ONE as i128);
    let mut vectors = Vec::new();
    for x in -6..=6i64 {
        for y in -6..=6i64 {
            vectors.push(Vec2::new(x, y));
            vectors.push(Vec2::new(x * 1_000_003, y * 999_983));
            vectors.push(Vec2::new(x * 0x7fff_ffff, y * 0x8000_0001));
        }
    }
    vectors.push(Vec2::new(i64::MAX, 1));
    vectors.push(Vec2::new(i64::MIN, i64::MIN));
    vectors.push(Vec2::new(0x7fff_ffff, 0x7fff_ffff));
    vectors.push(Vec2::new(0x8000_0000, 0));
    vectors.push(Vec2::new(1, -0x8000_0000));
    for v in vectors {
        if v == Vec2::new(0, 0) {
            continue;
        }
        let d = v.normalized();
        let length_sq = (d.x as i128) * (d.x as i128) + (d.y as i128) * (d.y as i128);
        assert!(floor <= length_sq && length_sq <= (ONE as i128) * (ONE as i128));
        assert!((d.x as i128) * (v.x as i128) + (d.y as i128) * (v.y as i128) > 0);
    }
}

#[test]
fn normalized_does_not_depend_on_the_length() {
    let vectors = [
        Vec2::new(1, 1),
        Vec2::new(3, 2),
        Vec2::new(-7, 1),
        Vec2::new(1, -1000),
        Vec2::new(123_457, 654_323),
        Vec2::new(-2_147_483_647, 5),
    ];
    for v in vectors {
        let d = v.normalized();
        for k in [2i64, 3, 1000, 1_000_000, 2_147_483_648, 4_294_967_291] {
            let e = Vec2::new(v.x * k, v.y * k).normalized();
            assert!((e.x - d.x).abs() <= 1 && (e.y - d.y).abs() <= 1);
        }
    }
}

#[test]
fn direction_of_a_vector_too_long_for_its_squares() {
    assert_eq!(direction(3 << 100, 4 << 100), Vec2::new(600_000, 800_000));
    assert_eq!(direction(-(3 << 100), 4 << 100), Vec2::new(-600_000, 800_000));
    assert_eq!(direction(i128::MAX, 0), Vec2::new(ONE, 0));
    assert_eq!(direction(0, i128::MIN), Vec2::new(0, -ONE));
    assert_eq!(direction(i128::MAX, i128::MIN), Vec2::new(707_106, -707_106));
    assert_eq!(direction(1 << 64, 1), Vec2::new(ONE, 0));
    assert_eq!(direction(0, 0), Vec2::new(0, 0));
    assert_eq!(direction(3, -4), Vec2::new(3, -4).normalized());
}

#[test]
fn normalized_is_never_longer_than_one() {
    let vectors = [
        Vec2::new(1, 1),
        Vec2::new(i64::MAX, i64::MAX),
        Vec2::new(i64::MIN, i64::MIN),
        Vec2::new(i64::MIN, 1),
        Vec2::new(123, -456_789),
        units(1, 1),
        units(-250, 3),
    ];
    for v in vectors {
        let d = v.normalized();
        let length_sq = (d.x as i128) * (d.x as i128) + (d.y as i128) * (d.y as i128);
        assert!(length_sq <= (ONE as i128) * (ONE as i128));
    }
}

#[test]
fn norm_sq_of_the_largest_vector() {
    assert_eq!(Vec2::new(i64::MIN, i64::MIN).norm_sq(), 1u128 << 127);
    assert_eq!(Vec2::new(3, -4).norm_sq(), 25);
}

#[test]
fn clamped_brings_coordinates_onto_the_plane() {
    assert_eq!(Vec2::clamped(i64::MAX, i64::MIN), Vec2::new(LIMIT, -LIMIT));
    assert_eq!(Vec2::clamped(5, -5), Vec2::new(5, -5));
    assert!(Vec2::clamped(i64::MAX, 0).is_on_plane());
    assert!(!Vec2::new(LIMIT + 1, 0).is_on_plane());
    assert!(!Vec2::new(0, -LIMIT - 1).is_on_plane());
    assert!(Vec2::new(LIMIT, -LIMIT).is_on_plane());
}

#[test]
fn plus_and_minus() {
    assert_eq!(units(1, 2).plus(units(3, -5)), units(4, -3));
    assert_eq!(units(1, 2).minus(units(3, -5)), units(-2, 7));
    assert_eq!(Vec2::zero(), Vec2::new(0, 0));
}
