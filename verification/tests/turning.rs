use boids2d::boid::Boid;
use boids2d::collisions::{
    alignment, boid_turning, boids_in_vision, cohesion, in_vision, seperation, steer_by_turning,
};
use boids2d::vector::Vec2;

/// A world whose width and height are 2^26 millionths, so that a draw of
/// `(c / 4) * 256` puts an agent at coordinate `c`.
const GRID: Vec2 = Vec2 { x: 1 << 26, y: 1 << 26 };

const UP: u32 = 0;
const LEFT: u32 = 1 << 30;
const DOWN: u32 = 1 << 31;
const RIGHT: u32 = 3 << 30;

const HALF_SECOND: u32 = 500_000;

fn at(x: i64, y: i64, facing: u32) -> Boid {
    let b = Boid::from_draws(
        facing,
        ((x * 1_000_000 / 4) * 256) as u32,
        ((y * 1_000_000 / 4) * 256) as u32,
        GRID,
    );
    assert_eq!(b.pos(), Vec2::new(x * 1_000_000, y * 1_000_000));
    b
}

fn five() -> Vec<Boid> {
    let world = Vec2::new(100_000_000, 100_000_000);
    vec![
        Boid::from_draws(0, 0x1000_0000, 0x1000_0000, world),
        Boid::from_draws(0x4000_0000, 0x1200_0000, 0x1100_0000, world),
        Boid::from_draws(0x8000_0000, 0x0F00_0000, 0x1300_0000, world),
        Boid::from_draws(0xC000_0000, 0x3000_0000, 0x1100_0000, world),
        Boid::from_draws(0x2000_0000, 0x1100_0000, 0x0E00_0000, world),
    ]
}

fn line() -> Vec<Boid> {
    vec![at(4, 4, UP), at(24, 4, LEFT), at(44, 4, DOWN), at(60, 60, RIGHT)]
}

/// The facing angle of an agent at (20, 20) that faces up, after `rule` has
/// been applied to it with one neighbour at `(x, y)`.
fn after(rule: fn(usize, &mut Vec<Boid>, &Vec<Boid>, u32), x: i64, y: i64) -> i64 {
    let mut boids = vec![at(20, 20, UP)];
    let seen = vec![at(x, y, LEFT)];
    rule(0, &mut boids, &seen, HALF_SECOND);
    assert_eq!(boids[0].pos(), Vec2::new(20_000_000, 20_000_000));
    assert_eq!(boids[0].velocity(), Vec2::new(0, 250_000_000));
    boids[0].angle()
}

#[test]
fn in_vision_is_nearer_than_the_vision_radius() {
    let a = at(4, 4, UP);
    assert!(in_vision(&a, &at(24, 4, LEFT)));
    assert!(in_vision(&a, &at(4, 4, LEFT)));
    assert!(!in_vision(&a, &at(28, 4, LEFT)));
    assert!(!in_vision(&a, &at(44, 4, LEFT)));
}

#[test]
fn boids_in_vision_leaves_out_the_agent_itself() {
    let flock = line();
    let seen: Vec<Vec2> = boids_in_vision(0, &flock).iter().map(|b| b.pos()).collect();
    assert_eq!(seen, vec![Vec2::new(24_000_000, 4_000_000)]);
    let seen: Vec<Vec2> = boids_in_vision(1, &flock).iter().map(|b| b.pos()).collect();
    assert_eq!(seen, vec![Vec2::new(4_000_000, 4_000_000), Vec2::new(44_000_000, 4_000_000)]);
    let seen: Vec<Vec2> = boids_in_vision(2, &flock).iter().map(|b| b.pos()).collect();
    assert_eq!(seen, vec![Vec2::new(24_000_000, 4_000_000)]);
    assert!(boids_in_vision(3, &flock).is_empty());
}

#[test]
fn boids_in_vision_copies_the_whole_agent() {
    let flock = line();
    let seen = boids_in_vision(0, &flock);
    assert_eq!(seen.len(), 1);
    assert_eq!(seen[0].angle(), 90_000_000);
    assert_eq!(seen[0].direction(), Vec2::new(-1_000_000, 0));
    assert_eq!(seen[0].velocity(), Vec2::new(-250_000_000, 0));
    assert_eq!(seen[0].vision_radius(), 24_000_000);
}

#[test]
fn boids_in_vision_keeps_the_order_of_the_flock() {
    let flock = five();
    let seen: Vec<Vec2> = boids_in_vision(2, &flock).iter().map(|b| b.pos()).collect();
    assert_eq!(seen, vec![flock[0].pos(), flock[1].pos(), flock[3].pos(), flock[4].pos()]);
}

#[test]
fn separation_turns_away_within_a_quarter_turn() {
    // the neighbour is behind and to the right: away is ahead and to the left
    assert_eq!(after(seperation, 30, 10), 30_000_000);
    // the neighbour is behind and to the left: away is ahead and to the right
    assert_eq!(after(seperation, 10, 10), -30_000_000);
}

#[test]
fn separation_does_not_turn_otherwise() {
    // straight ahead, straight behind, and exactly a quarter turn to either side
    assert_eq!(after(seperation, 20, 30), 0);
    assert_eq!(after(seperation, 20, 10), 0);
    assert_eq!(after(seperation, 30, 20), 0);
    assert_eq!(after(seperation, 10, 20), 0);
}

#[test]
fn separation_with_nobody_in_sight_does_not_turn() {
    let mut boids = vec![at(20, 20, UP)];
    seperation(0, &mut boids, &Vec::new(), HALF_SECOND);
    assert_eq!(boids[0].angle(), 0);
}

#[test]
fn alignment_turns_toward_the_mean_angle() {
    // the neighbour faces at 90 degrees, the agent at 0: it turns right
    assert_eq!(after(alignment, 30, 10), 30_000_000);
    let mut boids = vec![at(20, 20, DOWN)];
    let seen = vec![at(30, 10, UP), at(10, 10, LEFT)];
    // the mean of 0 and 90 is 45, below 180: it turns left
    alignment(0, &mut boids, &seen, HALF_SECOND);
    assert_eq!(boids[0].angle(), 150_000_000);
}

#[test]
fn alignment_compares_angles_as_they_stand() {
    // the agent faces at -30 degrees; the mean of -90 and 0 is -45, below it
    let mut boids = vec![at(20, 20, UP)];
    boids[0].turn_left(HALF_SECOND);
    let mut low = at(30, 10, UP);
    low.turn_left(1_500_000);
    assert_eq!(low.angle(), -90_000_000);
    let seen = vec![low, at(10, 10, UP)];
    alignment(0, &mut boids, &seen, HALF_SECOND);
    assert_eq!(boids[0].angle(), -60_000_000);
}

#[test]
fn a_small_angle_still_turns() {
    // the neighbour is behind and a little to the right: the way away from
    // it lies about half a degree to the left of straight ahead
    let mut boids = vec![at(20, 20, UP)];
    let seen = vec![Boid::from_draws(UP, (20_100_000 / 4) * 256, (10_000_000 / 4) * 256, GRID)];
    assert_eq!(seen[0].pos(), Vec2::new(20_100_000, 10_000_000));
    seperation(0, &mut boids, &seen, HALF_SECOND);
    assert_eq!(boids[0].angle(), 30_000_000);
    let mut boids = vec![at(20, 20, UP)];
    cohesion(0, &mut boids, &seen, HALF_SECOND);
    assert_eq!(boids[0].angle(), 30_000_000);
}

#[test]
fn alignment_turns_left_at_the_mean_angle() {
    let mut boids = vec![at(20, 20, LEFT)];
    let seen = vec![at(30, 10, LEFT)];
    alignment(0, &mut boids, &seen, HALF_SECOND);
    assert_eq!(boids[0].angle(), 60_000_000);
}

#[test]
fn alignment_with_nobody_in_sight_does_not_turn() {
    let mut boids = vec![at(20, 20, LEFT)];
    alignment(0, &mut boids, &Vec::new(), HALF_SECOND);
    assert_eq!(boids[0].angle(), 90_000_000);
}

#[test]
fn cohesion_turns_by_the_side_the_centre_lies_on() {
    assert_eq!(after(cohesion, 30, 10), 30_000_000);
    assert_eq!(after(cohesion, 10, 10), -30_000_000);
    assert_eq!(after(cohesion, 20, 30), 30_000_000);
    assert_eq!(after(cohesion, 30, 20), 30_000_000);
    assert_eq!(after(cohesion, 10, 20), -30_000_000);
}

#[test]
fn cohesion_turns_left_when_the_centre_is_straight_behind() {
    assert_eq!(after(cohesion, 20, 10), -30_000_000);
}

#[test]
fn cohesion_with_nobody_in_sight_does_not_turn() {
    let mut boids = vec![at(20, 20, LEFT)];
    cohesion(0, &mut boids, &Vec::new(), HALF_SECOND);
    assert_eq!(boids[0].angle(), 90_000_000);
}

#[test]
fn the_three_rules_in_turn() {
    assert_eq!(after(steer_by_turning, 30, 10), 30_000_000);
    assert_eq!(after(steer_by_turning, 10, 10), -30_000_000);
    assert_eq!(after(steer_by_turning, 20, 30), 60_000_000);
    assert_eq!(after(steer_by_turning, 20, 10), 0);
    assert_eq!(after(steer_by_turning, 30, 20), 60_000_000);
    assert_eq!(after(steer_by_turning, 10, 20), 0);
}

#[test]
fn the_rules_change_one_agent_only() {
    let mut boids = line();
    let seen = boids_in_vision(1, &boids);
    steer_by_turning(1, &mut boids, &seen, 1_000_000);
    assert_eq!(boids[0].angle(), 0);
    assert_eq!(boids[1].angle(), -30_000_000);
    assert_eq!(boids[2].angle(), 180_000_000);
    assert_eq!(boids[3].angle(), 270_000_000);
}

#[test]
fn each_rule_on_five_agents() {
    let tenth: u32 = 100_000;
    let expected: [(i64, i64, i64); 5] = [
        (0, 6_000_000, 6_000_000),
        (90_000_000, 96_000_000, 84_000_000),
        (180_000_000, 174_000_000, 174_000_000),
        (276_000_000, 264_000_000, 276_000_000),
        (45_000_000, 51_000_000, 51_000_000),
    ];
    for i in 0..5 {
        let seen = boids_in_vision(i, &five());
        assert_eq!(seen.len(), 4);
        let mut flock = five();
        seperation(i, &mut flock, &seen, tenth);
        assert_eq!(flock[i].angle(), expected[i].0);
        let mut flock = five();
        alignment(i, &mut flock, &seen, tenth);
        assert_eq!(flock[i].angle(), expected[i].1);
        let mut flock = five();
        cohesion(i, &mut flock, &seen, tenth);
        assert_eq!(flock[i].angle(), expected[i].2);
    }
}

#[test]
fn turning_a_whole_flock() {
    let mut flock = five();
    boid_turning(&mut flock, 100_000);
    let angles: Vec<i64> = flock.iter().map(|b| b.angle()).collect();
    assert_eq!(angles, vec![12_000_000, 90_000_000, 168_000_000, 276_000_000, 57_000_000]);
    let fresh = five();
    for i in 0..5 {
        assert_eq!(flock[i].pos(), fresh[i].pos());
        assert_eq!(flock[i].velocity(), fresh[i].velocity());
        assert_eq!(flock[i].direction(), fresh[i].direction());
    }
}

#[test]
fn turning_uses_the_flock_as_it_stood_before() {
    let mut flock = line();
    boid_turning(&mut flock, 1_000_000);
    let angles: Vec<i64> = flock.iter().map(|b| b.angle()).collect();
    assert_eq!(angles, vec![120_000_000, -30_000_000, 180_000_000, 270_000_000]);
}

#[test]
fn an_agent_that_sees_nobody_does_not_turn() {
    let mut flock = vec![at(4, 4, UP), at(60, 60, LEFT)];
    boid_turning(&mut flock, 1_000_000);
    assert_eq!(flock[0].angle(), 0);
    assert_eq!(flock[1].angle(), 90_000_000);
}
