//! The neighbourhood query: what every agent sees of the others.
use vstd::prelude::*;
use crate::boid::{flock_view, Boid, BoidDetails};
use crate::angle::{
    bearing_of, heading_of, lemma_heading, lemma_heading_wrapped, wrapped, HALF_TURN,
    QUARTER_TURN,
};
use crate::fixed::{lemma_square_ordered, magnitude, mul_div, ONE};
use crate::flocking::{
    aligned, angle_sum, cohered, cohesion_angle, contribution, facing, in_sight,
    lemma_contribution_bounded, lemma_in_sight_push, lemma_in_sight_valid, lemma_normalised,
    lemma_others_step, lemma_plus_bounded, lemma_remove_valid, lemma_repulsion_bound,
    lemma_stats_push, lemma_steered_by_turning, lemma_sums_step, neighbour_stats, observed,
    others_before, position_sum, pull, sees, separated, separation_angle, steered_by_turning,
    turned_flock, valid_flock, BoidState, MAX_EXTENT, MAX_POPULATION,
};
use crate::vector::Vec2;

verus! {

/// What the agent `other` adds to the statistics of `observer`.
pub fn observe(observer: &Boid, other: &Boid) -> (r: BoidDetails)
    requires
        observer.wf(),
        other.wf(),
    ensures
        r@ == contribution(observer@, other@),
{
    let offset = other.pos().minus(observer.pos());
    let d2: u128 = offset.norm_sq();
    let vision: u128 = observer.vision_radius() as u128;
    let avoid: u128 = observer.avoid_radius() as u128;
    proof {
        lemma_square_ordered(vision as int, MAX_EXTENT as int);
        lemma_square_ordered(avoid as int, MAX_EXTENT as int);
    }
    if d2 < vision * vision {
        let separation = if 0 < d2 && d2 < avoid * avoid {
            proof {
                lemma_repulsion_bound(offset@, d2 as int);
            }
            let scale: i64 = 1_000_000_000_000;
            assert(scale == ONE * ONE);
            Vec2 {
                x: -mul_div(offset.x, scale, d2 as i128),
                y: -mul_div(offset.y, scale, d2 as i128),
            }
        } else {
            Vec2::zero()
        };
        BoidDetails {
            average_seperation_heading: separation,
            average_dir_heading: other.direction(),
            center: other.pos(),
            num_boids: 1,
        }
    } else {
        BoidDetails::new()
    }
}

/// The statistics of two groups of neighbours taken together.
fn combine(total: BoidDetails, part: BoidDetails) -> (r: BoidDetails)
    requires
        total@.counted(),
        part@.counted(),
        total@.count + part@.count <= MAX_POPULATION,
    ensures
        r@ == total@.plus(part@),
        r@.counted(),
{
    proof {
        lemma_plus_bounded(total@, part@);
    }
    BoidDetails {
        average_seperation_heading: total.average_seperation_heading.plus(
            part.average_seperation_heading,
        ),
        average_dir_heading: total.average_dir_heading.plus(part.average_dir_heading),
        center: total.center.plus(part.center),
        num_boids: total.num_boids + part.num_boids,
    }
}

/// The statistics that agent `i` gathers from all the other agents of
/// `boids`.
pub fn boid_math(i: usize, boids: &Vec<Boid>) -> (r: BoidDetails)
    requires
        i < boids.len(),
        valid_flock(flock_view(boids@)),
    ensures
        r@ == neighbour_stats(flock_view(boids@)[i as int], flock_view(boids@).remove(i as int)),
        r@.counted(),
{
    let ghost flock = flock_view(boids@);
    let mut total = BoidDetails::new();
    let mut j: usize = 0;
    proof {
        lemma_others_step(flock, i as int, 0);
    }
    while j < boids.len()
        invariant
            0 <= j <= boids.len(),
            i < boids.len(),
            flock == flock_view(boids@),
            valid_flock(flock),
            total@ == neighbour_stats(flock[i as int], others_before(flock, i as int, j as int)),
            total@.counted(),
            total@.count <= j,
        decreases boids.len() - j,
    {
        proof {
            lemma_others_step(flock, i as int, j as int);
        }
        if j != i {
            assert(boids[j as int]@ == flock[j as int]);
            assert(boids[i as int]@ == flock[i as int]);
            let part = observe(&boids[i], &boids[j]);
            proof {
                lemma_contribution_bounded(flock[i as int], flock[j as int]);
                lemma_stats_push(
                    flock[i as int],
                    others_before(flock, i as int, j as int),
                    flock[j as int],
                );
            }
            total = combine(total, part);
        }
        j += 1;
    }
    proof {
        lemma_others_step(flock, i as int, 0);
    }
    total
}

/// Refreshes the neighbour statistics of every agent from the flock as it
/// stands: each agent's statistics are those it gathers from all the others,
/// and nothing else about it changes.
pub fn boid_collision(boids: &mut Vec<Boid>, delta_time: u32)
    requires
        valid_flock(flock_view(old(boids)@)),
    ensures
        flock_view(final(boids)@) == observed(flock_view(old(boids)@)),
        valid_flock(flock_view(final(boids)@)),
{
    let ghost flock = flock_view(boids@);
    let n: usize = boids.len();
    let mut gathered: Vec<BoidDetails> = Vec::new();
    let mut i: usize = 0;
    while i < n
        invariant
            0 <= i <= n,
            n == boids.len(),
            flock == flock_view(boids@),
            valid_flock(flock),
            gathered.len() == i,
            forall|k: int|
                0 <= k < i ==> (#[trigger] gathered[k])@ == neighbour_stats(
                    flock[k],
                    flock.remove(k),
                ) && gathered[k]@.counted(),
        decreases n - i,
    {
        let stats = boid_math(i, boids);
        gathered.push(stats);
        i += 1;
    }
    let mut i: usize = 0;
    while i < n
        invariant
            0 <= i <= n,
            n == boids.len(),
            n == flock.len(),
            valid_flock(flock),
            gathered.len() == n,
            forall|k: int|
                0 <= k < n ==> (#[trigger] gathered[k])@ == neighbour_stats(
                    flock[k],
                    flock.remove(k),
                ) && gathered[k]@.counted(),
            forall|k: int| 0 <= k < i ==> (#[trigger] boids[k])@ == observed(flock)[k],
            forall|k: int| i <= k < n ==> (#[trigger] boids[k])@ == flock[k],
        decreases n - i,
    {
        let stats = gathered[i];
        let agent = &mut boids[i];
        let slot = agent.mut_local_boids();
        *slot = stats;
        i += 1;
    }
    proof {
        assert(flock_view(boids@) =~= observed(flock));
        assert forall|k: int| 0 <= k < n implies (#[trigger] flock_view(boids@)[k]).valid() by {
            assert(flock[k].valid());
            assert(gathered[k]@.counted());
            assert(flock_view(boids@)[k] == flock[k].with_stats(gathered[k]@));
        }
    }
}

/// Whether `observer` sees `other`.
pub fn in_vision(observer: &Boid, other: &Boid) -> (r: bool)
    requires
        observer.wf(),
        other.wf(),
    ensures
        r == sees(observer@, other@),
{
    let offset = other.pos().minus(observer.pos());
    let vision: u128 = observer.vision_radius() as u128;
    proof {
        lemma_square_ordered(vision as int, MAX_EXTENT as int);
    }
    offset.norm_sq() < vision * vision
}

/// The agents of `boids` that agent `i` sees, in their order: copies of all
/// those other than itself that are nearer than its vision radius.
pub fn boids_in_vision(i: usize, boids: &Vec<Boid>) -> (r: Vec<Boid>)
    requires
        i < boids.len(),
        valid_flock(flock_view(boids@)),
    ensures
        flock_view(r@) == in_sight(
            flock_view(boids@)[i as int],
            flock_view(boids@).remove(i as int),
        ),
{
    let ghost flock = flock_view(boids@);
    let mut vision_boids: Vec<Boid> = Vec::new();
    let mut j: usize = 0;
    proof {
        lemma_others_step(flock, i as int, 0);
        assert(flock_view(vision_boids@) =~= Seq::<BoidState>::empty());
    }
    while j < boids.len()
        invariant
            0 <= j <= boids.len(),
            i < boids.len(),
            flock == flock_view(boids@),
            valid_flock(flock),
            flock_view(vision_boids@) == in_sight(
                flock[i as int],
                others_before(flock, i as int, j as int),
            ),
        decreases boids.len() - j,
    {
        proof {
            lemma_others_step(flock, i as int, j as int);
            lemma_in_sight_push(
                flock[i as int],
                others_before(flock, i as int, j as int),
                flock[j as int],
            );
        }
        if j != i {
            assert(boids[j as int]@ == flock[j as int]);
            assert(boids[i as int]@ == flock[i as int]);
            if in_vision(&boids[i], &boids[j]) {
                let ghost before = flock_view(vision_boids@);
                let copy = boids[j].clone();
                vision_boids.push(copy);
                assert(flock_view(vision_boids@) =~= before.push(flock[j as int]));
            }
        }
        j += 1;
    }
    vision_boids
}

/// The angle from `from` to `to`, two vectors no longer than one.
fn angle_between(from: Vec2, to: Vec2) -> (r: i64)
    requires
        magnitude(from@.x) <= ONE,
        magnitude(from@.y) <= ONE,
        magnitude(to@.x) <= ONE,
        magnitude(to@.y) <= ONE,
    ensures
        r == crate::angle::signed_angle(from@, to@),
        -HALF_TURN < r <= HALF_TURN,
{
    proof {
        let limit: int = ONE * ONE;
        assert(magnitude(from@.dot(to@)) <= 2 * limit && magnitude(from@.cross(to@)) <= 2
            * limit) by (nonlinear_arith)
            requires
                magnitude(from@.x) <= ONE,
                magnitude(from@.y) <= ONE,
                magnitude(to@.x) <= ONE,
                magnitude(to@.y) <= ONE,
                limit == ONE * ONE,
        ;
    }
    bearing_of(from.dot(to) as i64, from.cross(to) as i64)
}

/// The way agent `i` faces.
fn facing_of(agent: &Boid) -> (r: Vec2)
    requires
        agent.wf(),
    ensures
        r@ == facing(agent@),
        magnitude(r@.x) <= ONE,
        magnitude(r@.y) <= ONE,
{
    proof {
        lemma_heading_wrapped(agent@.angle + QUARTER_TURN);
        lemma_heading(agent@.angle + QUARTER_TURN);
    }
    heading_of(wrapped((agent.angle() as i128) + (QUARTER_TURN as i128)))
}

/// Separation by turning: agent `i` turns toward the way that leads away
/// from the agents in `vision_boids`, if that way lies less than a quarter
/// turn to one side. No other agent changes.
pub fn seperation(i: usize, boids: &mut Vec<Boid>, vision_boids: &Vec<Boid>, delta_time: u32)
    requires
        i < old(boids).len(),
        old(boids)[i as int].wf(),
        valid_flock(flock_view(vision_boids@)),
    ensures
        flock_view(final(boids)@) == flock_view(old(boids)@).update(
            i as int,
            separated(old(boids)[i as int]@, flock_view(vision_boids@), delta_time as int),
        ),
        final(boids).len() == old(boids).len(),
        final(boids)[i as int].wf(),
{
    let ghost seen = flock_view(vision_boids@);
    let ghost me = boids[i as int]@;
    let here = boids[i].pos();
    let mut total = Vec2::zero();
    let mut j: usize = 0;
    while j < vision_boids.len()
        invariant
            0 <= j <= vision_boids.len(),
            seen == flock_view(vision_boids@),
            valid_flock(seen),
            here@ == me.pos,
            0 <= me.pos.x < MAX_EXTENT,
            0 <= me.pos.y < MAX_EXTENT,
            total@ == pull(me, seen.take(j as int)),
            magnitude(total@.x) <= j * ONE,
            magnitude(total@.y) <= j * ONE,
        decreases vision_boids.len() - j,
    {
        proof {
            lemma_sums_step(me, seen, j as int);
            assert(seen[j as int].valid());
            assert(vision_boids[j as int]@ == seen[j as int]);
        }
        let toward = vision_boids[j].pos().minus(here).normalised();
        proof {
            lemma_normalised(seen[j as int].pos.minus(me.pos));
        }
        total = total.plus(toward);
        j += 1;
    }
    proof {
        assert(seen.take(seen.len() as int) =~= seen);
        lemma_normalised(total@);
        lemma_normalised(facing(me));
    }
    let away = total.normalised().negated();
    let ahead = facing_of(&boids[i]).normalised();
    let angle: i64 = angle_between(ahead, away);
    assert(angle == separation_angle(me, seen));
    if -QUARTER_TURN < angle && angle < 0 {
        let agent = &mut boids[i];
        agent.turn_left(delta_time);
    } else if 0 < angle && angle < QUARTER_TURN {
        let agent = &mut boids[i];
        agent.turn_right(delta_time);
    }
    assert(flock_view(boids@) =~= flock_view(old(boids)@).update(
        i as int,
        separated(me, seen, delta_time as int),
    ));
}

/// Alignment by turning: agent `i` turns right if its facing angle is below
/// the mean facing angle of the agents in `vision_boids`, else left; with
/// nobody in sight it does not turn. No other agent changes.
pub fn alignment(i: usize, boids: &mut Vec<Boid>, vision_boids: &Vec<Boid>, delta_time: u32)
    requires
        i < old(boids).len(),
        old(boids)[i as int].wf(),
        valid_flock(flock_view(vision_boids@)),
    ensures
        flock_view(final(boids)@) == flock_view(old(boids)@).update(
            i as int,
            aligned(old(boids)[i as int]@, flock_view(vision_boids@), delta_time as int),
        ),
        final(boids).len() == old(boids).len(),
        final(boids)[i as int].wf(),
{
    let ghost seen = flock_view(vision_boids@);
    let ghost me = boids[i as int]@;
    let n: usize = vision_boids.len();
    if n == 0 {
        assert(flock_view(boids@) =~= flock_view(old(boids)@).update(i as int, me));
        return ;
    }
    let mut total: i128 = 0;
    let mut j: usize = 0;
    while j < n
        invariant
            0 <= j <= n,
            n == vision_boids.len(),
            seen == flock_view(vision_boids@),
            valid_flock(seen),
            total == angle_sum(seen.take(j as int)),
            magnitude(total as int) <= j * 0x8000_0000_0000_0000,
        decreases n - j,
    {
        proof {
            lemma_sums_step(me, seen, j as int);
            assert(seen[j as int].valid());
            assert(vision_boids[j as int]@ == seen[j as int]);
        }
        total = total + (vision_boids[j].angle() as i128);
        j += 1;
    }
    proof {
        assert(seen.take(seen.len() as int) =~= seen);
    }
    let average: i128 = total / (n as i128);
    if (boids[i].angle() as i128) < average {
        let agent = &mut boids[i];
        agent.turn_right(delta_time);
    } else {
        let agent = &mut boids[i];
        agent.turn_left(delta_time);
    }
    assert(flock_view(boids@) =~= flock_view(old(boids)@).update(
        i as int,
        aligned(me, seen, delta_time as int),
    ));
}

/// Cohesion by turning: agent `i` turns left if the way from the centre of
/// the agents in `vision_boids` to itself lies to the right of the way it
/// faces or along it, else right; with nobody in sight it does not turn. No
/// other agent changes.
pub fn cohesion(i: usize, boids: &mut Vec<Boid>, vision_boids: &Vec<Boid>, delta_time: u32)
    requires
        i < old(boids).len(),
        old(boids)[i as int].wf(),
        valid_flock(flock_view(vision_boids@)),
    ensures
        flock_view(final(boids)@) == flock_view(old(boids)@).update(
            i as int,
            cohered(old(boids)[i as int]@, flock_view(vision_boids@), delta_time as int),
        ),
        final(boids).len() == old(boids).len(),
        final(boids)[i as int].wf(),
{
    let ghost seen = flock_view(vision_boids@);
    let ghost me = boids[i as int]@;
    let n: usize = vision_boids.len();
    if n == 0 {
        assert(flock_view(boids@) =~= flock_view(old(boids)@).update(i as int, me));
        return ;
    }
    let mut total = Vec2::zero();
    let mut j: usize = 0;
    while j < n
        invariant
            0 <= j <= n,
            n == vision_boids.len(),
            seen == flock_view(vision_boids@),
            valid_flock(seen),
            total@ == position_sum(seen.take(j as int)),
            0 <= total@.x <= j * MAX_EXTENT,
            0 <= total@.y <= j * MAX_EXTENT,
        decreases n - j,
    {
        proof {
            lemma_sums_step(me, seen, j as int);
            assert(seen[j as int].valid());
            assert(vision_boids[j as int]@ == seen[j as int]);
        }
        total = total.plus(vision_boids[j].pos());
        j += 1;
    }
    proof {
        assert(seen.take(seen.len() as int) =~= seen);
    }
    let center = Vec2 { x: total.x / (n as i64), y: total.y / (n as i64) };
    let apart = boids[i].pos().minus(center).normalised();
    proof {
        lemma_normalised(me.pos.minus(center@));
    }
    let angle: i64 = angle_between(facing_of(&boids[i]), apart);
    assert(angle == cohesion_angle(me, seen));
    if angle <= 0 {
        let agent = &mut boids[i];
        agent.turn_left(delta_time);
    } else {
        let agent = &mut boids[i];
        agent.turn_right(delta_time);
    }
    assert(flock_view(boids@) =~= flock_view(old(boids)@).update(
        i as int,
        cohered(me, seen, delta_time as int),
    ));
}

/// Steering by turning for one agent: agent `i` does not turn if
/// `vision_boids` is empty, and else applies separation, alignment and
/// cohesion, in that order. No other agent changes.
pub fn steer_by_turning(i: usize, boids: &mut Vec<Boid>, vision_boids: &Vec<Boid>, delta_time: u32)
    requires
        i < old(boids).len(),
        old(boids)[i as int].wf(),
        valid_flock(flock_view(vision_boids@)),
    ensures
        flock_view(final(boids)@) == flock_view(old(boids)@).update(
            i as int,
            steered_by_turning(
                old(boids)[i as int]@,
                flock_view(vision_boids@),
                delta_time as int,
            ),
        ),
        final(boids).len() == old(boids).len(),
        final(boids)[i as int].wf(),
{
    let ghost start = flock_view(boids@);
    if vision_boids.len() == 0 {
        assert(start.update(i as int, start[i as int]) =~= start);
        return ;
    }
    seperation(i, boids, vision_boids, delta_time);
    let ghost first = flock_view(boids@);
    assert(boids[i as int]@ == first[i as int]);
    alignment(i, boids, vision_boids, delta_time);
    let ghost second = flock_view(boids@);
    assert(boids[i as int]@ == second[i as int]);
    cohesion(i, boids, vision_boids, delta_time);
    assert(flock_view(boids@) =~= start.update(i as int, flock_view(boids@)[i as int]));
}

/// Steering by turning, the alternative to steering by forces: every agent
/// that sees somebody turns as separation, alignment and cohesion say, in
/// that order, on what it sees of the flock as it stood before. Only facing
/// angles change.
pub fn boid_turning(boids: &mut Vec<Boid>, delta_time: u32)
    requires
        valid_flock(flock_view(old(boids)@)),
    ensures
        flock_view(final(boids)@) == turned_flock(flock_view(old(boids)@), delta_time as int),
        valid_flock(flock_view(final(boids)@)),
{
    let ghost flock = flock_view(boids@);
    let n: usize = boids.len();
    let mut clone_boids: Vec<Boid> = Vec::new();
    let mut i: usize = 0;
    while i < n
        invariant
            0 <= i <= n,
            n == boids.len(),
            flock == flock_view(boids@),
            clone_boids.len() == i,
            forall|k: int| 0 <= k < i ==> (#[trigger] clone_boids[k])@ == flock[k],
        decreases n - i,
    {
        let copy = boids[i].clone();
        clone_boids.push(copy);
        i += 1;
    }
    assert(flock_view(clone_boids@) =~= flock);
    let ghost goal = turned_flock(flock, delta_time as int);
    let mut i: usize = 0;
    while i < n
        invariant
            0 <= i <= n,
            n == boids.len(),
            n == flock.len(),
            valid_flock(flock),
            flock == flock_view(clone_boids@),
            goal == turned_flock(flock, delta_time as int),
            flock_view(boids@).len() == n,
            forall|k: int| 0 <= k < i ==> (#[trigger] flock_view(boids@)[k]) == goal[k],
            forall|k: int| i <= k < n ==> (#[trigger] flock_view(boids@)[k]) == flock[k],
        decreases n - i,
    {
        let ghost earlier = flock_view(boids@);
        let vision_boids = boids_in_vision(i, &clone_boids);
        proof {
            lemma_remove_valid(flock, i as int);
            lemma_in_sight_valid(flock[i as int], flock.remove(i as int));
            assert(earlier[i as int] == flock[i as int]);
            assert(boids[i as int]@ == earlier[i as int]);
            assert(flock[i as int].valid());
        }
        steer_by_turning(i, boids, &vision_boids, delta_time);
        proof {
            let now = flock_view(boids@);
            assert(now[i as int] == goal[i as int]);
            assert forall|k: int| 0 <= k < i implies (#[trigger] now[k]) == goal[k] by {
                assert(now[k] == earlier[k]);
            }
            assert forall|k: int| i + 1 <= k < n implies (#[trigger] now[k]) == flock[k] by {
                assert(now[k] == earlier[k]);
            }
        }
        i += 1;
    }
    proof {
        assert(flock_view(boids@) =~= goal);
        assert forall|k: int| 0 <= k < n implies (#[trigger] goal[k]).valid() by {
            assert(flock[k].valid());
            lemma_steered_by_turning(
                flock[k],
                in_sight(flock[k], flock.remove(k)),
                delta_time as int,
            );
        }
    }
}

} // verus!
