use boids2d::boid::{Boid, BoidDetails, Sprite};
use boids2d::flocking::{
    LAUNCH_SPEED, MAX_ACCELERATION, MAX_SPEED, MIN_SPEED, TURN_RATE, VISION_RADIUS,
};
use boids2d::vector::Vec2;

const WORLD: Vec2 = Vec2 { x: 1_280_000_000, y: 1_080_000_000 };

fn speed_is_clamped(b: &Boid) -> bool {
    let n = b.velocity().norm_sq();
    let low = (MIN_SPEED as u128) * (MIN_SPEED as u128);
    let high = (MAX_SPEED as u128) * (MAX_SPEED as u128);
    low <= n && n <= high
}

fn inside(b: &Boid, world: Vec2) -> bool {
    let p = b.pos();
    0 <= p.x && p.x < world.x && 0 <= p.y && p.y < world.y
}

#[test]
fn new_details_are_empty() {
    let d = BoidDetails::new();
    assert_eq!(d.len(), 0);
    assert_eq!(d.cneter(), Vec2::zero());
    assert_eq!(d.seperation(), Vec2::zero());
    assert_eq!(d.average_dir_heading(), Vec2::zero());
}

#[test]
fn details_getters_read_the_fields() {
    let d = BoidDetails {
        average_seperation_heading: Vec2::new(1, 2),
        average_dir_heading: Vec2::new(3, 4),
        center: Vec2::new(5, 6),
        num_boids: 7,
    };
    assert_eq!(d.len(), 7);
    assert_eq!(d.cneter(), Vec2::new(5, 6));
    assert_eq!(d.seperation(), Vec2::new(1, 2));
    assert_eq!(d.average_dir_heading(), Vec2::new(3, 4));
}

#[test]
fn from_zero_draws() {
    let b = Boid::from_draws(0, 0, 0, WORLD);
    assert_eq!(b.pos(), Vec2::zero());
    assert_eq!(b.angle(), 0);
    assert_eq!(b.direction(), Vec2::new(0, 1_000_000));
    assert_eq!(b.velocity(), Vec2::new(0, 250_000_000));
    assert_eq!(b.size(), Vec2::new(16_000_000, 24_000_000));
    assert_eq!(b.vision_radius(), 24_000_000);
    assert_eq!(b.avoid_radius(), 16_800_000);
    assert_eq!(b.local_boids().len(), 0);
}

#[test]
fn from_given_draws() {
    let b = Boid::from_draws(123_456_789, 987_654_321, 555_555_555, WORLD);
    assert_eq!(b.pos(), Vec2::new(294_343_872, 139_698_328));
    assert_eq!(b.angle(), 10_348_026);
    assert_eq!(b.direction(), Vec2::new(-179_626, 983_734));
    assert_eq!(b.velocity(), Vec2::new(-44_906_500, 245_933_500));
}

#[test]
fn a_new_agent_heads_a_quarter_turn_ahead_of_its_angle() {
    let draws: [u32; 6] = [0, 1, 123_456_789, 0x4000_0000, 0xdead_beef, u32::MAX];
    for bits in draws {
        let b = Boid::from_draws(bits, 0, 0, WORLD);
        let ahead = (b.angle() as f64 / 1_000_000.0 + 90.0).to_radians();
        assert!((b.direction().x as f64 - ahead.cos() * 1_000_000.0).abs() < 1.01);
        assert!((b.direction().y as f64 - ahead.sin() * 1_000_000.0).abs() < 1.01);
        assert_eq!(b.direction(), boids2d::angle::heading_of(b.angle() + 90_000_000));
    }
}

#[test]
fn from_largest_draws_stays_inside() {
    let b = Boid::from_draws(u32::MAX, u32::MAX, u32::MAX, WORLD);
    assert_eq!(b.pos(), Vec2::new(1_279_999_923, 1_079_999_935));
    assert_eq!(b.angle(), 359_999_978);
    assert!(inside(&b, WORLD));
    assert!(speed_is_clamped(&b));
}

#[test]
fn the_low_eight_bits_of_a_draw_do_not_count() {
    let a = Boid::from_draws(0x1234_5600, 0x8000_0000, 0x4000_0000, WORLD);
    let b = Boid::from_draws(0x1234_56ff, 0x8000_00ff, 0x4000_00ff, WORLD);
    assert_eq!(a.pos(), b.pos());
    assert_eq!(a.angle(), b.angle());
    assert_eq!(a.pos(), Vec2::new(640_000_000, 270_000_000));
}

#[test]
fn launch_speed_is_midway() {
    assert_eq!(LAUNCH_SPEED, (MIN_SPEED + MAX_SPEED) / 2);
    assert_eq!(VISION_RADIUS, 24_000_000);
    assert_eq!(TURN_RATE, 60_000_000);
}

#[test]
fn random_agents_are_valid() {
    let mut rng = rand::thread_rng();
    for _ in 0..200 {
        let b = Boid::new(&mut rng, WORLD);
        assert!(inside(&b, WORLD));
        assert!(speed_is_clamped(&b));
        assert!(0 <= b.angle() && b.angle() < 360_000_000);
        assert_eq!(b.velocity(), b.direction().scaled(LAUNCH_SPEED));
        assert_eq!(b.avoid_radius(), 16_800_000);
        assert_eq!(b.local_boids().len(), 0);
    }
}

#[test]
fn random_agents_differ() {
    let mut rng = rand::thread_rng();
    let first = Boid::new(&mut rng, WORLD);
    let mut all_same = true;
    for _ in 0..20 {
        let next = Boid::new(&mut rng, WORLD);
        if next.pos() != first.pos() || next.angle() != first.angle() {
            all_same = false;
        }
    }
    assert!(!all_same);
}

#[test]
fn clone_keeps_everything() {
    let b = Boid::from_draws(123_456_789, 987_654_321, 555_555_555, WORLD);
    let c = b.clone();
    assert_eq!(c.pos(), b.pos());
    assert_eq!(c.velocity(), b.velocity());
    assert_eq!(c.direction(), b.direction());
    assert_eq!(c.angle(), b.angle());
    assert_eq!(c.size(), b.size());
    assert_eq!(c.vision_radius(), b.vision_radius());
    assert_eq!(c.avoid_radius(), b.avoid_radius());
}

#[test]
fn turn_left_lowers_the_angle() {
    let mut b = Boid::from_draws(0, 0, 0, WORLD);
    b.turn_left(1_000);
    assert_eq!(b.angle(), -60_000);
    b.turn_left(1_000_000);
    assert_eq!(b.angle(), -60_060_000);
    assert_eq!(b.pos(), Vec2::zero());
    assert_eq!(b.velocity(), Vec2::new(0, 250_000_000));
}

#[test]
fn turn_right_raises_the_angle() {
    let mut b = Boid::from_draws(0, 0, 0, WORLD);
    b.turn_right(500_000);
    assert_eq!(b.angle(), 30_000_000);
    b.turn_right(6_000_000);
    assert_eq!(b.angle(), 390_000_000);
    b.turn_right(5_999_999);
    assert_eq!(b.angle(), 749_999_940);
    b.turn_right(0);
    assert_eq!(b.angle(), 749_999_940);
}

#[test]
fn half_a_second_to_the_left_is_thirty_degrees_down() {
    let mut b = Boid::from_draws(0, 0, 0, WORLD);
    b.turn_left(500_000);
    assert_eq!(b.angle(), -30_000_000);
    let mut c = Boid::from_draws(0x0800_0000, 0, 0, WORLD);
    assert_eq!(c.angle(), 11_250_000);
    c.turn_left(500_000);
    assert_eq!(c.angle(), -18_750_000);
}

#[test]
fn the_angle_stops_at_what_sixty_four_bits_hold() {
    let mut up = Boid::from_draws(0, 0, 0, WORLD);
    let mut down = Boid::from_draws(0, 0, 0, WORLD);
    // each turn is 257,698,037,700 millionths of a degree
    for n in 1..=36_000_000i128 {
        up.turn_right(u32::MAX);
        down.turn_left(u32::MAX);
        let plain = n * 257_698_037_700;
        assert_eq!(up.angle() as i128, plain.min(i64::MAX as i128));
        assert_eq!(down.angle() as i128, (-plain).max(i64::MIN as i128));
    }
    assert_eq!(up.angle(), i64::MAX);
    assert_eq!(down.angle(), i64::MIN);
    up.update(WORLD, 1_000);
    down.update(WORLD, 1_000);
    assert!(inside(&up, WORLD) && inside(&down, WORLD));
}

#[test]
fn turning_left_then_right_comes_back() {
    let mut b = Boid::from_draws(123_456_789, 1, 2, WORLD);
    let before = b.angle();
    b.turn_left(u32::MAX);
    b.turn_right(u32::MAX);
    assert_eq!(b.angle(), before);
}

#[test]
fn no_neighbours_no_acceleration() {
    let b = Boid::from_draws(123_456_789, 987_654_321, 555_555_555, WORLD);
    assert_eq!(b.steering(), Vec2::zero());
}

#[test]
fn steering_blends_three_forces() {
    let mut b = Boid::from_draws(0, 1_000_000 * 256, 1_000_000 * 256, Vec2::new(1 << 24, 1 << 24));
    *b.mut_local_boids() = BoidDetails {
        average_seperation_heading: Vec2::new(-100_000, 0),
        average_dir_heading: Vec2::new(0, -1_000_000),
        center: Vec2::new(11_000_000, 1_000_000),
        num_boids: 1,
    };
    assert_eq!(b.local_boids().len(), 1);
    assert_eq!(b.steering(), Vec2::new(-225_000_000, -1_075_000_000));
}

#[test]
fn steering_with_zero_sums_only_brakes() {
    let mut b = Boid::from_draws(0, 0, 0, WORLD);
    *b.mut_local_boids() = BoidDetails {
        average_seperation_heading: Vec2::zero(),
        average_dir_heading: Vec2::zero(),
        center: Vec2::zero(),
        num_boids: 1,
    };
    // each of the three forces is minus the velocity; the weights add up to 2.5
    assert_eq!(b.steering(), Vec2::new(0, -625_000_000));
}

#[test]
fn steering_is_bounded() {
    let mut b = Boid::from_draws(0x8000_0000, 0, 0, WORLD);
    *b.mut_local_boids() = BoidDetails {
        average_seperation_heading: Vec2::new(0, 1_000_000_000_000),
        average_dir_heading: Vec2::new(0, 1_000_000),
        center: Vec2::new(0, 1_000_000_000_000),
        num_boids: 1,
    };
    let a = b.steering();
    assert_eq!(a, Vec2::new(0, 1_750_000_000));
    assert!(a.x.abs() <= MAX_ACCELERATION && a.y.abs() <= MAX_ACCELERATION);
}

#[test]
fn update_without_neighbours_keeps_the_velocity() {
    let mut b = Boid::from_draws(123_456_789, 987_654_321, 555_555_555, WORLD);
    b.update(WORLD, 1_000);
    assert_eq!(b.pos(), Vec2::new(294_298_966, 139_944_261));
    assert_eq!(b.velocity(), Vec2::new(-44_906_500, 245_933_500));
    assert_eq!(b.direction(), Vec2::new(-179_626, 983_734));
    // the agent heads the way it faces: the facing angle stays
    assert_eq!(b.angle(), 10_348_026);
}

#[test]
fn a_tick_of_no_length_changes_nothing() {
    let mut b = Boid::from_draws(0, 0, 0, WORLD);
    b.turn_left(1_500_000);
    b.update(WORLD, 0);
    assert_eq!(b.angle(), -90_000_000);
    assert_eq!(b.pos(), Vec2::zero());
    assert_eq!(b.velocity(), Vec2::new(0, 250_000_000));
    assert_eq!(b.direction(), Vec2::new(0, 1_000_000));
}

#[test]
fn update_ignores_stale_sums_when_nobody_is_counted() {
    let mut b = Boid::from_draws(0, 0, 0, WORLD);
    *b.mut_local_boids() = BoidDetails {
        average_seperation_heading: Vec2::new(0, -1_000_000),
        average_dir_heading: Vec2::new(0, 1_000_000),
        center: Vec2::new(7_000_000, 7_000_000),
        num_boids: 0,
    };
    assert_eq!(b.steering(), Vec2::zero());
    b.update(WORLD, 1_000);
    assert_eq!(b.velocity(), Vec2::new(0, 250_000_000));
    assert_eq!(b.pos(), Vec2::new(0, 250_000));
    *b.mut_local_boids() = BoidDetails {
        average_seperation_heading: Vec2::new(i64::MAX, i64::MIN),
        average_dir_heading: Vec2::new(i64::MIN, i64::MAX),
        center: Vec2::new(-1, i64::MIN),
        num_boids: 0,
    };
    assert_eq!(b.steering(), Vec2::zero());
    b.update(WORLD, 1_000);
    assert_eq!(b.pos(), Vec2::new(0, 500_000));
}

#[test]
fn update_admits_a_negative_facing_angle() {
    let mut b = Boid::from_draws(0x4000_0000, 0xffff_ff00, 0x8000_0000, WORLD);
    b.turn_left(3_000_000);
    assert_eq!(b.angle(), -90_000_000);
    assert_eq!(b.pos(), Vec2::new(1_279_999_923, 540_000_000));
    b.update(WORLD, 1_000);
    assert_eq!(b.pos(), Vec2::new(1_279_749_923, 540_000_000));
    assert_eq!(b.velocity(), Vec2::new(-250_000_000, 0));
    // the facing angle is raised by the half turn between it and the heading
    assert_eq!(b.angle(), 90_000_000);
}

#[test]
fn update_adds_the_signed_angle_to_the_facing_angle() {
    let mut b = Boid::from_draws(0, 0, 0, WORLD);
    b.turn_left(1_500_000);
    assert_eq!(b.angle(), -90_000_000);
    // the agent faces along the x axis and heads along the y axis
    b.update(WORLD, 1_000);
    assert_eq!(b.angle(), 0);
    assert_eq!(b.pos(), Vec2::new(0, 250_000));
    b.turn_right(7_500_000);
    assert_eq!(b.angle(), 450_000_000);
    b.update(WORLD, 1_000);
    assert_eq!(b.angle(), 360_000_000);
}

#[test]
fn uniform_motion_over_many_ticks() {
    let mut b = Boid::from_draws(123_456_789, 987_654_321, 555_555_555, WORLD);
    let velocity = b.velocity();
    let step = velocity.scaled(1_000);
    for _ in 0..5_000 {
        let before = b.pos();
        b.update(WORLD, 1_000);
        let expected = Vec2::new(
            (before.x + step.x).rem_euclid(WORLD.x),
            (before.y + step.y).rem_euclid(WORLD.y),
        );
        assert_eq!(b.pos(), expected);
        assert_eq!(b.velocity(), velocity);
        assert!(inside(&b, WORLD));
    }
}

#[test]
fn update_wraps_across_the_far_edge() {
    let mut b = Boid::from_draws(0, 0, u32::MAX, WORLD);
    assert_eq!(b.pos(), Vec2::new(0, 1_079_999_935));
    b.update(WORLD, 1_000);
    assert_eq!(b.pos(), Vec2::new(0, 249_935));
}

#[test]
fn update_wraps_across_the_near_edge() {
    let mut b = Boid::from_draws(0x8000_0000, 0, 0, WORLD);
    assert_eq!(b.velocity(), Vec2::new(0, -250_000_000));
    b.update(WORLD, 1_000);
    assert_eq!(b.pos(), Vec2::new(0, 1_079_750_000));
}

#[test]
fn update_wraps_into_a_smaller_world() {
    let mut b = Boid::from_draws(0, u32::MAX, u32::MAX, WORLD);
    assert_eq!(b.pos(), Vec2::new(1_279_999_923, 1_079_999_935));
    let small = Vec2::new(100_000_000, 100_000_000);
    b.update(small, 1_000);
    assert_eq!(b.pos(), Vec2::new(79_999_923, 80_249_935));
    assert!(inside(&b, small));
}

#[test]
fn update_with_a_long_tick_still_lands_inside() {
    let mut b = Boid::from_draws(0x2000_0000, 12_345, 678_910, WORLD);
    b.update(WORLD, u32::MAX);
    assert!(inside(&b, WORLD));
    assert!(speed_is_clamped(&b));
}

#[test]
fn update_clamps_to_the_top_speed() {
    let mut b = Boid::from_draws(0, 0, 0, WORLD);
    *b.mut_local_boids() = BoidDetails {
        average_seperation_heading: Vec2::zero(),
        average_dir_heading: Vec2::new(0, -1_000_000),
        center: Vec2::zero(),
        num_boids: 1,
    };
    assert_eq!(b.steering(), Vec2::new(0, -1_075_000_000));
    b.update(WORLD, 1_000_000);
    assert_eq!(b.velocity(), Vec2::new(0, -450_000_000));
    assert_eq!(b.direction(), Vec2::new(0, -1_000_000));
    assert_eq!(b.pos(), Vec2::new(0, 630_000_000));
    assert_eq!(b.angle(), 180_000_000);
}

#[test]
fn update_slows_inside_the_limits() {
    let mut b = Boid::from_draws(0, 0, 0, WORLD);
    *b.mut_local_boids() = BoidDetails {
        average_seperation_heading: Vec2::zero(),
        average_dir_heading: Vec2::new(0, -1_000_000),
        center: Vec2::zero(),
        num_boids: 1,
    };
    b.update(WORLD, 100_000);
    assert_eq!(b.velocity(), Vec2::new(0, 142_500_000));
    assert_eq!(b.pos(), Vec2::new(0, 14_250_000));
    assert_eq!(b.angle(), 0);
}

#[test]
fn update_raises_a_slow_velocity_to_the_bottom_speed() {
    let mut b = Boid::from_draws(0, 0, 0, WORLD);
    *b.mut_local_boids() = BoidDetails {
        average_seperation_heading: Vec2::zero(),
        average_dir_heading: Vec2::new(0, -1_000_000),
        center: Vec2::zero(),
        num_boids: 1,
    };
    // 250 - 1075 * 0.2 = 35 units per second upward, below the bottom speed
    b.update(WORLD, 200_000);
    assert_eq!(b.velocity(), Vec2::new(0, 50_000_000));
    assert_eq!(b.direction(), Vec2::new(0, 1_000_000));
    assert_eq!(b.pos(), Vec2::new(0, 10_000_000));
}

#[test]
fn update_keeps_the_heading_when_the_velocity_vanishes() {
    let mut b = Boid::from_draws(0, 0, 0, WORLD);
    *b.mut_local_boids() = BoidDetails {
        average_seperation_heading: Vec2::zero(),
        average_dir_heading: Vec2::zero(),
        center: Vec2::zero(),
        num_boids: 1,
    };
    // the acceleration is (0, -625): after 0.4 s the velocity is exactly zero
    assert_eq!(b.steering(), Vec2::new(0, -625_000_000));
    b.update(WORLD, 400_000);
    assert_eq!(b.direction(), Vec2::new(0, 1_000_000));
    assert_eq!(b.velocity(), Vec2::new(0, 50_000_000));
    assert_eq!(b.pos(), Vec2::new(0, 20_000_000));
}

#[test]
fn update_never_leaves_the_speed_limits() {
    let mut b = Boid::from_draws(77, 0x7000_0000, 0x3000_0000, WORLD);
    let sums = [
        (Vec2::new(1, 0), Vec2::new(-5, 7), Vec2::new(3, 3)),
        (Vec2::new(-1_000_000, 0), Vec2::new(0, 0), Vec2::new(900_000_000, 1)),
        (Vec2::new(0, 999_999), Vec2::new(123, -456), Vec2::new(0, 0)),
        (Vec2::new(700_000, -700_000), Vec2::new(1_000_000_000_000, 1), Vec2::new(5, 5)),
    ];
    let ticks = [1u32, 1_000, 16_666, 1_000_000, 400_000, u32::MAX];
    for (heading, separation, center) in sums {
        for dt in ticks {
            *b.mut_local_boids() = BoidDetails {
                average_seperation_heading: separation,
                average_dir_heading: heading,
                center,
                num_boids: 1,
            };
            b.update(WORLD, dt);
            assert!(speed_is_clamped(&b), "speed left the limits with dt {}", dt);
            assert!(inside(&b, WORLD));
            assert!(b.direction().norm_sq() > 0);
            assert!(b.direction().norm_sq() <= 1_000_000_000_000);
        }
    }
}

#[test]
fn facing_angle_follows_the_heading() {
    let mut b = Boid::from_draws(0, 0, 0, WORLD);
    *b.mut_local_boids() = BoidDetails {
        average_seperation_heading: Vec2::zero(),
        average_dir_heading: Vec2::new(-1_000_000, 0),
        center: Vec2::zero(),
        num_boids: 1,
    };
    for _ in 0..2_000 {
        b.update(WORLD, 1_000);
        let ahead = boids2d::angle::heading_of(b.angle() + 90_000_000);
        let turn = boids2d::angle::bearing_of(
            ahead.dot(b.direction()) as i64,
            ahead.cross(b.direction()) as i64,
        );
        assert!(turn.abs() <= 120, "the facing angle is {} millionths of a degree off", turn);
    }
    assert_eq!(b.angle(), 91_459_269);
}

#[test]
fn draw_adds_one_sprite() {
    let b = Boid::from_draws(123_456_789, 987_654_321, 555_555_555, WORLD);
    let mut calls: Vec<Sprite> = Vec::new();
    b.draw(&mut calls);
    assert_eq!(calls.len(), 1);
    assert_eq!(calls[0].position, Vec2::new(294_343_872, 139_698_328));
    assert_eq!(b.angle(), 10_348_026);
    assert_eq!(calls[0].size, Vec2::new(16_000_000, 24_000_000));
    assert_eq!(calls[0].angle, 10_348_026);
    assert_eq!(calls[0].texture, "boid");
    b.draw(&mut calls);
    assert_eq!(calls.len(), 2);
    assert_eq!(calls[1].position, calls[0].position);
}
