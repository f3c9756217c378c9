use boids2d::boid::{Boid, BoidDetails};
use boids2d::collisions::{boid_collision, boid_math, observe};
use boids2d::vector::Vec2;

/// A world whose width and height are 2^26 millionths, so that a draw of
/// `(c / 4) * 256` puts an agent at coordinate `c`.
const GRID: Vec2 = Vec2 { x: 1 << 26, y: 1 << 26 };

const UP: u32 = 0;
const LEFT: u32 = 1 << 30;
const DOWN: u32 = 1 << 31;

fn at(x: i64, y: i64, facing: u32) -> Boid {
    let b = Boid::from_draws(facing, ((x / 4) * 256) as u32, ((y / 4) * 256) as u32, GRID);
    assert_eq!(b.pos(), Vec2::new(x, y));
    b
}

fn fields(d: &BoidDetails) -> (u32, Vec2, Vec2, Vec2) {
    (d.len(), d.average_dir_heading(), d.cneter(), d.seperation())
}

fn five() -> Vec<Boid> {
    let world = Vec2::new(100_000_000, 100_000_000);
    vec![
        Boid::from_draws(0, 0x1000_0000, 0x1000_0000, world),
        Boid::from_draws(0x4000_0000, 0x1200_0000, 0x1100_0000, world),
        Boid::from_draws(0x8000_0000, 0x0F00_0000, 0x1300_0000, world),
        Boid::from_draws(0xC000_0000, 0x3000_0000, 0x1100_0000, world),
        Boid::from_draws(0x2000_0000, 0x1100_0000, 0x0E00_0000, world),
    ]
}

#[test]
fn a_neighbour_in_sight_counts() {
    let a = at(4_000_000, 4_000_000, UP);
    let b = at(24_000_000, 4_000_000, LEFT);
    assert_eq!(
        fields(&observe(&a, &b)),
        (1, Vec2::new(-1_000_000, 0), Vec2::new(24_000_000, 4_000_000), Vec2::zero())
    );
    assert_eq!(
        fields(&observe(&b, &a)),
        (1, Vec2::new(0, 1_000_000), Vec2::new(4_000_000, 4_000_000), Vec2::zero())
    );
}

#[test]
fn a_neighbour_out_of_sight_does_not_count() {
    let a = at(4_000_000, 4_000_000, UP);
    let b = at(34_000_000, 4_000_000, LEFT);
    assert_eq!(fields(&observe(&a, &b)), (0, Vec2::zero(), Vec2::zero(), Vec2::zero()));
}

#[test]
fn the_vision_radius_itself_is_out_of_sight() {
    let a = at(4_000_000, 4_000_000, UP);
    let on_the_edge = at(28_000_000, 4_000_000, LEFT);
    let just_inside = at(27_999_996, 4_000_000, LEFT);
    assert_eq!(observe(&a, &on_the_edge).len(), 0);
    assert_eq!(
        fields(&observe(&a, &just_inside)),
        (1, Vec2::new(-1_000_000, 0), Vec2::new(27_999_996, 4_000_000), Vec2::zero())
    );
}

#[test]
fn the_avoid_radius_itself_does_not_repel() {
    let a = at(4_000_000, 4_000_000, UP);
    let on_the_edge = at(20_800_000, 4_000_000, LEFT);
    let just_inside = at(20_799_996, 4_000_000, LEFT);
    assert_eq!(
        fields(&observe(&a, &on_the_edge)),
        (1, Vec2::new(-1_000_000, 0), Vec2::new(20_800_000, 4_000_000), Vec2::zero())
    );
    assert_eq!(observe(&a, &just_inside).seperation(), Vec2::new(-59_523, 0));
    assert_eq!(observe(&just_inside, &a).seperation(), Vec2::new(59_523, 0));
}

#[test]
fn repulsion_is_the_offset_over_the_squared_distance() {
    let a = at(4_000_000, 4_000_000, UP);
    let b = at(7_000_000, 8_000_000, DOWN);
    // the offset is (3, 4), the squared distance 25
    assert_eq!(observe(&a, &b).seperation(), Vec2::new(-120_000, -160_000));
    assert_eq!(observe(&b, &a).seperation(), Vec2::new(120_000, 160_000));
}

#[test]
fn a_very_close_neighbour_repels_strongly() {
    let a = at(4_000_000, 4_000_000, UP);
    let b = at(4_000_004, 4_000_000, LEFT);
    assert_eq!(observe(&a, &b).seperation(), Vec2::new(-250_000_000_000, 0));
}

#[test]
fn a_coincident_neighbour_counts_but_does_not_repel() {
    let a = at(4_000_000, 4_000_000, UP);
    let b = at(4_000_000, 4_000_000, LEFT);
    assert_eq!(
        fields(&observe(&a, &b)),
        (1, Vec2::new(-1_000_000, 0), Vec2::new(4_000_000, 4_000_000), Vec2::zero())
    );
}

#[test]
fn two_agents_ten_units_apart_repel_each_other() {
    let world = Vec2::new(1 << 24, 1 << 24);
    let a = Boid::from_draws(UP, 1_000_000 * 256, 1_000_000 * 256, world);
    let b = Boid::from_draws(DOWN, 11_000_000 * 256, 1_000_000 * 256, world);
    assert_eq!(a.pos(), Vec2::new(1_000_000, 1_000_000));
    assert_eq!(b.pos(), Vec2::new(11_000_000, 1_000_000));
    assert_eq!(a.direction(), Vec2::new(0, 1_000_000));
    assert_eq!(b.direction(), Vec2::new(0, -1_000_000));
    let mut boids = vec![a, b];
    boid_collision(&mut boids, 1_000);
    let seen_by_a = *boids[0].local_boids();
    let seen_by_b = *boids[1].local_boids();
    assert_eq!(
        fields(&seen_by_a),
        (1, Vec2::new(0, -1_000_000), Vec2::new(11_000_000, 1_000_000), Vec2::new(-100_000, 0))
    );
    assert_eq!(
        fields(&seen_by_b),
        (1, Vec2::new(0, 1_000_000), Vec2::new(1_000_000, 1_000_000), Vec2::new(100_000, 0))
    );
    // each repulsion is not zero and points away from the other agent
    let from_a_to_b = boids[1].pos().minus(boids[0].pos());
    assert!(!seen_by_a.seperation().is_zero());
    assert!(!seen_by_b.seperation().is_zero());
    assert!(seen_by_a.seperation().dot(from_a_to_b) < 0);
    assert!(seen_by_b.seperation().dot(from_a_to_b) > 0);
    assert_eq!(boids[0].steering(), Vec2::new(-225_000_000, -1_075_000_000));
    assert_eq!(boids[1].steering(), Vec2::new(225_000_000, 1_075_000_000));
}

#[test]
fn the_query_changes_nothing_but_the_statistics() {
    let mut boids = five();
    let before: Vec<Boid> = boids.clone();
    boid_collision(&mut boids, 1_000);
    assert_eq!(boids.len(), 5);
    for i in 0..5 {
        assert_eq!(boids[i].pos(), before[i].pos());
        assert_eq!(boids[i].velocity(), before[i].velocity());
        assert_eq!(boids[i].direction(), before[i].direction());
        assert_eq!(boids[i].angle(), before[i].angle());
        assert_eq!(boids[i].size(), before[i].size());
        assert_eq!(boids[i].vision_radius(), before[i].vision_radius());
        assert_eq!(boids[i].avoid_radius(), before[i].avoid_radius());
    }
}

#[test]
fn every_agent_gathers_from_all_the_others() {
    let mut boids = five();
    boid_collision(&mut boids, 1_000);
    let expected = [
        (4, (-707_106, -292_894), (38_281_250, 26_171_875), (-1_359_921, -258_497)),
        (4, (292_894, 707_106), (37_500_000, 25_781_250), (1_785_436, 886_154)),
        (4, (-707_106, 1_707_106), (38_671_875, 25_000_000), (-1_100_611, 1_607_909)),
        (4, (-1_707_106, 707_106), (25_781_250, 25_781_250), (324_359, 5_730)),
        (4, (0, 0), (37_890_625, 26_953_125), (350_737, -2_241_296)),
    ];
    for i in 0..5 {
        let (count, heading, center, separation) = expected[i];
        assert_eq!(
            fields(boids[i].local_boids()),
            (
                count,
                Vec2::new(heading.0, heading.1),
                Vec2::new(center.0, center.1),
                Vec2::new(separation.0, separation.1)
            )
        );
        assert_eq!(fields(&boid_math(i, &five())), fields(boids[i].local_boids()));
    }
}

#[test]
fn the_query_overwrites_stale_statistics() {
    let mut boids = five();
    boid_collision(&mut boids, 1_000);
    let first = fields(boids[0].local_boids());
    boid_collision(&mut boids, 1_000);
    assert_eq!(fields(boids[0].local_boids()), first);
}

#[test]
fn the_order_of_the_neighbours_does_not_matter() {
    let straight = five();
    let expected = fields(&boid_math(0, &straight));
    let orders: [[usize; 5]; 5] = [
        [0, 4, 3, 2, 1],
        [1, 0, 2, 3, 4],
        [4, 3, 2, 1, 0],
        [2, 4, 0, 1, 3],
        [3, 1, 4, 2, 0],
    ];
    for order in orders {
        let permuted: Vec<Boid> = order.iter().map(|&k| straight[k].clone()).collect();
        let observer = order.iter().position(|&k| k == 0).unwrap();
        assert_eq!(fields(&boid_math(observer, &permuted)), expected);
    }
}

#[test]
fn an_agent_alone_sees_nobody() {
    let mut boids = vec![at(4_000_000, 4_000_000, UP)];
    boid_collision(&mut boids, 1_000);
    assert_eq!(fields(boids[0].local_boids()), (0, Vec2::zero(), Vec2::zero(), Vec2::zero()));
    assert_eq!(fields(&boid_math(0, &boids)), (0, Vec2::zero(), Vec2::zero(), Vec2::zero()));
    assert_eq!(boids[0].steering(), Vec2::zero());
}

#[test]
fn an_empty_flock_stays_empty() {
    let mut boids: Vec<Boid> = Vec::new();
    boid_collision(&mut boids, 1_000);
    assert!(boids.is_empty());
}
