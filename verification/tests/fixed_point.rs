use boids2d::fixed::{isqrt, isqrt_up, modulo, mul_div, mul_div_away, ONE};
use boids2d::vector::{magnitude_of, Vec2};

#[test]
fn one_is_a_million() {
    assert_eq!(ONE, 1_000_000);
}

#[test]
fn isqrt_rounds_down() {
    assert_eq!(isqrt(0), 0);
    assert_eq!(isqrt(1), 1);
    assert_eq!(isqrt(10), 3);
    assert_eq!(isqrt(15), 3);
    assert_eq!(isqrt(16), 4);
    assert_eq!(isqrt(1_000_000_000_000), 1_000_000);
    assert_eq!(isqrt(u128::MAX), u64::MAX);
}

#[test]
fn isqrt_up_rounds_up() {
    assert_eq!(isqrt_up(0), 0);
    assert_eq!(isqrt_up(10), 4);
    assert_eq!(isqrt_up(16), 4);
    assert_eq!(isqrt_up(17), 5);
    assert_eq!(isqrt_up(u128::MAX), 1u128 << 64);
}

#[test]
fn isqrt_brackets_its_argument() {
    let samples: [u128; 6] = [2, 99, 12_345_678_901_234_567_890, 1 << 100, (1 << 127) + 12345, 61_963_706_250_000_000];
    for n in samples {
        let r = isqrt(n) as u128;
        assert!(r * r <= n);
        assert!(r == u64::MAX as u128 || (r + 1) * (r + 1) > n);
    }
}

#[test]
fn mul_div_rounds_toward_zero() {
    assert_eq!(mul_div(7, 1, 2), 3);
    assert_eq!(mul_div(-7, 1, 2), -3);
    assert_eq!(mul_div(-1_500_000, 500_000, 1_000_000), -750_000);
    assert_eq!(mul_div(i64::MAX, i64::MAX, i64::MAX as i128), i64::MAX);
    assert_eq!(mul_div(0, 5, 3), 0);
}

#[test]
fn mul_div_away_rounds_away_from_zero() {
    assert_eq!(mul_div_away(7, 1, 2), 4);
    assert_eq!(mul_div_away(-7, 1, 2), -4);
    assert_eq!(mul_div_away(8, 1, 2), 4);
    assert_eq!(mul_div_away(-8, 1, 2), -4);
    assert_eq!(mul_div_away(0, 9, 2), 0);
}

#[test]
fn modulo_is_never_negative() {
    assert_eq!(modulo(7, 5), 2);
    assert_eq!(modulo(-7, 5), 3);
    assert_eq!(modulo(-10, 5), 0);
    assert_eq!(modulo(0, 5), 0);
    assert_eq!(modulo(-1, 360_000_000), 359_999_999);
}

#[test]
fn magnitude_of_extremes() {
    assert_eq!(magnitude_of(0), 0);
    assert_eq!(magnitude_of(-5), 5);
    assert_eq!(magnitude_of(i64::MIN), 1u128 << 63);
}

#[test]
fn vector_arithmetic() {
    let a = Vec2::new(3, -4);
    let b = Vec2::new(10, 20);
    assert_eq!(a.plus(b), Vec2::new(13, 16));
    assert_eq!(a.minus(b), Vec2::new(-7, -24));
    assert_eq!(a.dot(b), -50);
    assert_eq!(a.cross(b), 100);
    assert_eq!(a.norm_sq(), 25);
    assert_eq!(Vec2::new(i64::MIN, i64::MIN).norm_sq(), 1u128 << 127);
    assert!(Vec2::zero().is_zero());
    assert!(!a.is_zero());
}

#[test]
fn scaled_is_a_fixed_point_product() {
    let v = Vec2::new(3_000_000, -1_500_001);
    assert_eq!(v.scaled(500_000), Vec2::new(1_500_000, -750_000));
    assert_eq!(v.scaled(ONE), v);
    assert_eq!(v.scaled(0), Vec2::zero());
    assert_eq!(v.scaled(-2 * ONE), Vec2::new(-6_000_000, 3_000_002));
}

#[test]
fn normalising_zero_gives_zero() {
    assert_eq!(Vec2::zero().normalised(), Vec2::zero());
    assert_eq!(Vec2::zero().shrunk_to(450_000_000), Vec2::zero());
    assert_eq!(Vec2::zero().stretched_to(50_000_000), Vec2::zero());
}

#[test]
fn normalised_has_unit_length() {
    assert_eq!(Vec2::new(3, 4).normalised(), Vec2::new(600_000, 800_000));
    assert_eq!(Vec2::new(3_000_000, 4_000_000).normalised(), Vec2::new(600_000, 800_000));
    assert_eq!(Vec2::new(0, -7).normalised(), Vec2::new(0, -1_000_000));
    assert_eq!(Vec2::new(1, 1).normalised(), Vec2::new(500_000, 500_000));
}

#[test]
fn normalised_never_exceeds_unit_length() {
    let samples = [
        Vec2::new(1, 0),
        Vec2::new(-1, 1),
        Vec2::new(123_456_789, -987_654_321),
        Vec2::new(i64::MAX, i64::MAX),
        Vec2::new(i64::MIN, 1),
        Vec2::new(-225_000, 248_925_000),
    ];
    for v in samples {
        let n = v.normalised();
        assert!(n.norm_sq() <= 1_000_000_000_000);
        assert!(n.norm_sq() > 0);
    }
}

#[test]
fn stretched_reaches_the_target() {
    assert_eq!(Vec2::new(3_000_000, 4_000_000).stretched_to(50_000_000), Vec2::new(30_000_000, 40_000_000));
    assert_eq!(Vec2::new(1, 1).stretched_to(7), Vec2::new(7, 7));
    let w = Vec2::new(-225_000, 1_000).stretched_to(50_000_000);
    assert!(w.norm_sq() >= 2_500_000_000_000_000);
    assert!(w.norm_sq() <= 5_000_000_000_000_000);
    assert!(w.x < 0 && w.y > 0);
}

#[test]
fn shrunk_stays_within_the_target() {
    assert_eq!(
        Vec2::new(3_000_000_000, 4_000_000_000).shrunk_to(450_000_000),
        Vec2::new(270_000_000, 360_000_000)
    );
    let w = Vec2::new(-999_999_999_999, 777).shrunk_to(450_000_000);
    assert!(w.norm_sq() <= 202_500_000_000_000_000);
    assert!(w.norm_sq() >= 2_500_000_000_000_000);
}
