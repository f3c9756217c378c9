//! What holds of the simulation as a whole, proved from the definitions in
//! [`crate::flocking`].
use vstd::prelude::*;
use crate::fixed::{fx_mul, magnitude, ONE};
use crate::angle::signed_angle;
use crate::flocking::{
    advance, facing, contribution, lemma_advance_valid, lemma_contribution_bounded, lemma_plus_bounded,
    lemma_remove_valid, lemma_stats_push, lemma_steering_bound, neighbour_stats, observed,
    repulsion, run, speed_in_range, steering, ticked, turn_step, turned_left, turned_right,
    valid_bounds, valid_flock, within, wrap_position, Aggregate, BoidState, MAX_POPULATION,
};
use crate::vector::{lemma_norm_sq_zero, Vector};

verus! {

/// The statistics gathered from valid agents are bounded, and count no more
/// agents than were looked at.
pub proof fn lemma_stats_bounded(observer: BoidState, others: Seq<BoidState>)
    requires
        others.len() <= MAX_POPULATION,
        forall|i: int| 0 <= i < others.len() ==> (#[trigger] others[i]).valid(),
    ensures
        neighbour_stats(observer, others).counted(),
        0 <= neighbour_stats(observer, others).count <= others.len(),
    decreases others.len(),
{
    if others.len() > 0 {
        let front = others.drop_last();
        assert forall|i: int| 0 <= i < front.len() implies (#[trigger] front[i]).valid() by {
            assert(front[i] == others[i]);
        }
        lemma_stats_bounded(observer, front);
        lemma_contribution_bounded(observer, others.last());
        lemma_plus_bounded(
            neighbour_stats(observer, front),
            contribution(observer, others.last()),
        );
    }
}

/// The neighbourhood query takes a valid flock to a valid flock and changes
/// nothing but the statistics.
pub proof fn lemma_observed_valid(flock: Seq<BoidState>)
    requires
        valid_flock(flock),
    ensures
        valid_flock(observed(flock)),
        observed(flock).len() == flock.len(),
{
    assert forall|i: int| 0 <= i < flock.len() implies (#[trigger] observed(flock)[i]).valid() by {
        lemma_remove_valid(flock, i);
        lemma_stats_bounded(flock[i], flock.remove(i));
        assert(flock[i].valid());
    }
}

/// Speed-clamp and wrap invariants for a whole flock: after any tick, of any
/// length, every agent is valid, moves at a speed between `MIN_SPEED` and
/// `MAX_SPEED`, and lies inside the world.
pub proof fn lemma_ticked_valid(flock: Seq<BoidState>, window: Vector, dt: int)
    requires
        valid_flock(flock),
        valid_bounds(window),
    ensures
        valid_flock(ticked(flock, window, dt)),
        ticked(flock, window, dt).len() == flock.len(),
        forall|i: int|
            0 <= i < flock.len() ==> speed_in_range(
                (#[trigger] ticked(flock, window, dt)[i]).velocity,
            ) && within(ticked(flock, window, dt)[i].pos, window),
{
    lemma_observed_valid(flock);
    assert forall|i: int| 0 <= i < flock.len() implies (#[trigger] ticked(
        flock,
        window,
        dt,
    )[i]).valid() && speed_in_range(ticked(flock, window, dt)[i].velocity) && within(
        ticked(flock, window, dt)[i].pos,
        window,
    ) by {
        assert(observed(flock)[i].valid());
        lemma_advance_valid(observed(flock)[i], window, dt);
    }
}

/// Speed-clamp and wrap invariants at all times: after any number of ticks
/// every agent is valid and within the speed limits, and after at least one
/// tick every agent lies inside the world.
pub proof fn lemma_run_valid(flock: Seq<BoidState>, window: Vector, dt: int, ticks: nat)
    requires
        valid_flock(flock),
        valid_bounds(window),
    ensures
        valid_flock(run(flock, window, dt, ticks)),
        run(flock, window, dt, ticks).len() == flock.len(),
        forall|i: int|
            0 <= i < flock.len() ==> speed_in_range(
                (#[trigger] run(flock, window, dt, ticks)[i]).velocity,
            ),
        ticks > 0 ==> forall|i: int|
            0 <= i < flock.len() ==> within(
                (#[trigger] run(flock, window, dt, ticks)[i]).pos,
                window,
            ),
    decreases ticks,
{
    if ticks > 0 {
        let earlier = run(flock, window, dt, (ticks - 1) as nat);
        lemma_run_valid(flock, window, dt, (ticks - 1) as nat);
        lemma_ticked_valid(earlier, window, dt);
    } else {
        assert forall|i: int| 0 <= i < flock.len() implies speed_in_range(
            (#[trigger] flock[i]).velocity,
        ) by {
            assert(flock[i].valid());
        }
    }
}

/// Degenerate vectors do no harm: normalising the zero vector gives the zero
/// vector, and an agent that has seen no neighbour does not accelerate.
pub proof fn lemma_no_neighbours_no_force(b: BoidState)
    requires
        b.local_boids.count == 0,
    ensures
        Vector::zero().normalised() == Vector::zero(),
        steering(b) == Vector::zero(),
{
    assert(Vector::zero().norm_sq() == 0) by (nonlinear_arith);
}

/// Wrapping is a single step for a point that has left the world by less
/// than one width: the width is added to a negative coordinate and taken
/// from one that has reached it.
pub proof fn lemma_wrap_single_step(pos: Vector, window: Vector)
    requires
        valid_bounds(window),
        -window.x <= pos.x < 2 * window.x,
        -window.y <= pos.y < 2 * window.y,
    ensures
        wrap_position(pos, window).x == if pos.x < 0 {
            pos.x + window.x
        } else if pos.x >= window.x {
            pos.x - window.x
        } else {
            pos.x
        },
        wrap_position(pos, window).y == if pos.y < 0 {
            pos.y + window.y
        } else if pos.y >= window.y {
            pos.y - window.y
        } else {
            pos.y
        },
{
    lemma_single_step(pos.x, window.x);
    lemma_single_step(pos.y, window.y);
}

/// The remainder of a number within one divisor of the range of remainders.
proof fn lemma_single_step(p: int, w: int)
    requires
        0 < w,
        -w <= p < 2 * w,
    ensures
        p % w == if p < 0 {
            p + w
        } else if p >= w {
            p - w
        } else {
            p
        },
{
    if p < 0 {
        vstd::arithmetic::div_mod::lemma_fundamental_div_mod_converse_mod(p, w, -1, p + w);
    } else if p >= w {
        vstd::arithmetic::div_mod::lemma_fundamental_div_mod_converse_mod(p, w, 1, p - w);
    } else {
        vstd::arithmetic::div_mod::lemma_small_mod(p as nat, w as nat);
    }
}

/// Taking one agent out of those looked at takes out exactly what it added.
pub proof fn lemma_stats_remove(observer: BoidState, others: Seq<BoidState>, k: int)
    requires
        0 <= k < others.len(),
    ensures
        neighbour_stats(observer, others) == neighbour_stats(observer, others.remove(k)).plus(
            contribution(observer, others[k]),
        ),
    decreases others.len(),
{
    let front = others.drop_last();
    let last = others.last();
    if k == others.len() - 1 {
        assert(others.remove(k) =~= front);
    } else {
        lemma_stats_remove(observer, front, k);
        assert(others.remove(k) =~= front.remove(k).push(last));
        lemma_stats_push(observer, front.remove(k), last);
        assert(front[k] == others[k]);
    }
}

/// Order independence of the neighbourhood query: an agent gathers the same
/// statistics from the same neighbours in whatever order it looks at them.
pub proof fn lemma_stats_permutation(
    observer: BoidState,
    others: Seq<BoidState>,
    permuted: Seq<BoidState>,
)
    requires
        others.to_multiset() == permuted.to_multiset(),
    ensures
        neighbour_stats(observer, others) == neighbour_stats(observer, permuted),
    decreases others.len(),
{
    others.to_multiset_ensures();
    permuted.to_multiset_ensures();
    assert(others.len() == permuted.len());
    if others.len() > 0 {
        let last = others.last();
        let front = others.drop_last();
        assert(others.contains(last));
        assert(permuted.to_multiset().count(last) > 0);
        assert(permuted.contains(last));
        let k = permuted.index_of(last);
        assert(front =~= others.remove(others.len() - 1));
        assert(front.to_multiset() == permuted.remove(k).to_multiset());
        lemma_stats_permutation(observer, front, permuted.remove(k));
        lemma_stats_remove(observer, permuted, k);
    }
}

/// Uniform motion: a valid agent that does not accelerate keeps its velocity
/// through a tick and moves by exactly its velocity times the length of the
/// tick, wrapped into the world.
pub proof fn lemma_coasting(b: BoidState, window: Vector, dt: int)
    requires
        b.valid(),
        steering(b) == Vector::zero(),
    ensures
        advance(b, window, dt).velocity == b.velocity,
        advance(b, window, dt).pos == wrap_position(
            b.pos.plus(b.velocity.scaled(dt)),
            window,
        ),
{
    assert(0 * dt == 0) by (nonlinear_arith);
    assert(Vector::zero().scaled(dt) == Vector::zero());
    let sped = b.velocity.plus(steering(b).scaled(dt));
    assert(sped == b.velocity);
    lemma_norm_sq_zero(b.velocity);
}

/// An agent alone in its world: it never sees a neighbour and never
/// accelerates, so after any number of ticks it still has the velocity it
/// began with and has moved along a straight line, wrapped into the world.
pub proof fn lemma_lone_agent(b: BoidState, window: Vector, dt: int, ticks: nat)
    requires
        b.valid(),
        valid_bounds(window),
    ensures
        run(seq![b], window, dt, ticks).len() == 1,
        run(seq![b], window, dt, ticks)[0].valid(),
        run(seq![b], window, dt, ticks)[0].velocity == b.velocity,
        ticks > 0 ==> run(seq![b], window, dt, ticks)[0].local_boids == Aggregate::empty(),
        ticks > 0 ==> steering(observed(run(seq![b], window, dt, (ticks - 1) as nat))[0])
            == Vector::zero(),
        ticks > 0 ==> run(seq![b], window, dt, ticks)[0].pos == wrap_position(
            b.pos.plus(
                Vector {
                    x: ticks * b.velocity.scaled(dt).x,
                    y: ticks * b.velocity.scaled(dt).y,
                },
            ),
            window,
        ),
    decreases ticks,
{
    if ticks > 0 {
        let earlier = run(seq![b], window, dt, (ticks - 1) as nat);
        lemma_lone_agent(b, window, dt, (ticks - 1) as nat);
        let agent = earlier[0];
        assert(earlier.remove(0) =~= Seq::<BoidState>::empty());
        let seen = observed(earlier)[0];
        assert(seen == agent.with_stats(Aggregate::empty()));
        lemma_steering_bound(seen);
        lemma_coasting(seen, window, dt);
        lemma_advance_valid(seen, window, dt);
        let now = run(seq![b], window, dt, ticks);
        assert(now[0] == advance(seen, window, dt));
        let step = b.velocity.scaled(dt);
        let n = ticks as int;
        assert(n * step.x == (n - 1) * step.x + step.x && n * step.y == (n - 1) * step.y
            + step.y) by (nonlinear_arith);
        if ticks > 1 {
            vstd::arithmetic::div_mod::lemma_add_mod_noop(
                b.pos.x + (n - 1) * step.x,
                step.x,
                window.x,
            );
            vstd::arithmetic::div_mod::lemma_add_mod_noop(
                b.pos.y + (n - 1) * step.y,
                step.y,
                window.y,
            );
            vstd::arithmetic::div_mod::lemma_add_mod_noop(agent.pos.x, step.x, window.x);
            vstd::arithmetic::div_mod::lemma_add_mod_noop(agent.pos.y, step.y, window.y);
            vstd::arithmetic::div_mod::lemma_mod_twice(b.pos.x + (n - 1) * step.x, window.x);
            vstd::arithmetic::div_mod::lemma_mod_twice(b.pos.y + (n - 1) * step.y, window.y);
        } else {
            assert(agent == b);
            assert(1 * step.x == step.x && 1 * step.y == step.y) by (nonlinear_arith);
        }
    }
}

/// Within an avoid radius of at most half of `ONE * ONE` a repulsion is not
/// zero, and along each axis it is zero or has the sign opposite to the
/// offset.
proof fn lemma_repulsion_opposes(offset: Vector, avoid_radius: int)
    requires
        0 < offset.norm_sq() < avoid_radius * avoid_radius,
        0 < avoid_radius,
    ensures
        offset.x >= 0 ==> repulsion(offset, offset.norm_sq()).x <= 0,
        offset.x <= 0 ==> repulsion(offset, offset.norm_sq()).x >= 0,
        offset.y >= 0 ==> repulsion(offset, offset.norm_sq()).y <= 0,
        offset.y <= 0 ==> repulsion(offset, offset.norm_sq()).y >= 0,
        repulsion(offset, offset.norm_sq()).dot(offset) <= 0,
        2 * avoid_radius <= ONE * ONE ==> repulsion(offset, offset.norm_sq()) != Vector::zero()
            && repulsion(offset, offset.norm_sq()).dot(offset) < 0,
{
    let d2 = offset.norm_sq();
    let k: int = ONE * ONE;
    let r = repulsion(offset, d2);
    crate::fixed::lemma_div_toward_zero_bounds(offset.x * k, d2);
    crate::fixed::lemma_div_toward_zero_bounds(offset.y * k, d2);
    assert(offset.x >= 0 ==> offset.x * k >= 0) by (nonlinear_arith)
        requires
            k >= 0,
    ;
    assert(offset.x <= 0 ==> offset.x * k <= 0) by (nonlinear_arith)
        requires
            k >= 0,
    ;
    assert(offset.y >= 0 ==> offset.y * k >= 0) by (nonlinear_arith)
        requires
            k >= 0,
    ;
    assert(offset.y <= 0 ==> offset.y * k <= 0) by (nonlinear_arith)
        requires
            k >= 0,
    ;
    assert(r.x * offset.x <= 0 && r.y * offset.y <= 0) by (nonlinear_arith)
        requires
            offset.x >= 0 ==> r.x <= 0,
            offset.x <= 0 ==> r.x >= 0,
            offset.y >= 0 ==> r.y <= 0,
            offset.y <= 0 ==> r.y >= 0,
    ;
    if 2 * avoid_radius <= k {
        lemma_norm_sq_zero(offset);
        let m = offset.reach();
        // m * m <= d2 < avoid_radius * avoid_radius, so m < avoid_radius
        crate::fixed::lemma_square_reflects_order(m, avoid_radius);
        // d2 <= 2 * m * m <= m * k, so the larger component does not round to zero
        assert(d2 <= m * k) by (nonlinear_arith)
            requires
                d2 <= 2 * (m * m),
                2 * m <= k,
                m >= 0,
        ;
        if magnitude(offset.x) >= magnitude(offset.y) {
            assert(magnitude(offset.x * k) == m * k) by (nonlinear_arith)
                requires
                    m == magnitude(offset.x),
                    k >= 0,
            ;
            assert(magnitude(r.x) >= 1) by (nonlinear_arith)
                requires
                    m * k < (magnitude(r.x) + 1) * d2,
                    d2 <= m * k,
                    d2 > 0,
                    magnitude(r.x) >= 0,
            ;
            assert(r.x * offset.x < 0) by (nonlinear_arith)
                requires
                    offset.x >= 0 ==> r.x <= 0,
                    offset.x <= 0 ==> r.x >= 0,
                    r.x != 0,
                    offset.x != 0,
            ;
        } else {
            assert(magnitude(offset.y * k) == m * k) by (nonlinear_arith)
                requires
                    m == magnitude(offset.y),
                    k >= 0,
            ;
            assert(magnitude(r.y) >= 1) by (nonlinear_arith)
                requires
                    m * k < (magnitude(r.y) + 1) * d2,
                    d2 <= m * k,
                    d2 > 0,
                    magnitude(r.y) >= 0,
            ;
            assert(r.y * offset.y < 0) by (nonlinear_arith)
                requires
                    offset.y >= 0 ==> r.y <= 0,
                    offset.y <= 0 ==> r.y >= 0,
                    r.y != 0,
                    offset.y != 0,
            ;
        }
    }
}

/// The repulsion from an offset turned about is the repulsion turned about.
proof fn lemma_repulsion_odd(offset: Vector, d2: int)
    requires
        d2 > 0,
    ensures
        repulsion(offset.negated(), d2) == repulsion(offset, d2).negated(),
        offset.negated().norm_sq() == offset.norm_sq(),
{
    let k: int = ONE * ONE;
    assert((-offset.x) * k == -(offset.x * k) && (-offset.y) * k == -(offset.y * k))
        by (nonlinear_arith);
    assert((-offset.x) * (-offset.x) == offset.x * offset.x && (-offset.y) * (-offset.y)
        == offset.y * offset.y) by (nonlinear_arith);
}

/// A repulsion points away from the neighbour that causes it: whenever a
/// well-formed agent has another within its avoid radius and not at its own
/// place, what that other adds to its separation sum is not zero and makes
/// an obtuse angle with the offset toward the other.
pub proof fn lemma_repulsion_points_away(observer: BoidState, other: BoidState)
    requires
        observer.valid(),
        0 < other.pos.minus(observer.pos).norm_sq() < observer.avoid_radius
            * observer.avoid_radius,
    ensures
        contribution(observer, other).count == 1,
        contribution(observer, other).separation_sum == repulsion(
            other.pos.minus(observer.pos),
            other.pos.minus(observer.pos).norm_sq(),
        ),
        contribution(observer, other).separation_sum != Vector::zero(),
        contribution(observer, other).separation_sum.dot(other.pos.minus(observer.pos)) < 0,
{
    let offset = other.pos.minus(observer.pos);
    crate::fixed::lemma_square_monotonic(observer.avoid_radius, observer.vision_radius);
    lemma_repulsion_opposes(offset, observer.avoid_radius);
}

/// Two agents that repel each other: when two well-formed agents are within
/// the avoid radius of each other and not at the same place, each is
/// repelled away from the other, and the two repulsions are equal and
/// opposite.
pub proof fn lemma_two_agents_repel(a: BoidState, b: BoidState)
    requires
        a.valid(),
        b.valid(),
        0 < b.pos.minus(a.pos).norm_sq() < a.avoid_radius * a.avoid_radius,
        b.pos.minus(a.pos).norm_sq() < b.avoid_radius * b.avoid_radius,
    ensures
        contribution(a, b).separation_sum != Vector::zero(),
        contribution(b, a).separation_sum != Vector::zero(),
        contribution(a, b).separation_sum.dot(b.pos.minus(a.pos)) < 0,
        contribution(b, a).separation_sum.dot(a.pos.minus(b.pos)) < 0,
        contribution(b, a).separation_sum == contribution(a, b).separation_sum.negated(),
{
    let offset = b.pos.minus(a.pos);
    assert(a.pos.minus(b.pos) == offset.negated());
    lemma_repulsion_odd(offset, offset.norm_sq());
    lemma_repulsion_points_away(a, b);
    lemma_repulsion_points_away(b, a);
}

/// A turn is plain arithmetic: turning left lowers the facing angle by the
/// turn rate times the time, turning right raises it by as much, whenever 64
/// bits hold the result; nothing else about the agent changes.
pub proof fn lemma_turns_are_exact(b: BoidState, dt: int)
    ensures
        i64::MIN <= b.angle - turn_step(b, dt) <= i64::MAX ==> turned_left(b, dt).angle
            == b.angle - turn_step(b, dt),
        i64::MIN <= b.angle + turn_step(b, dt) <= i64::MAX ==> turned_right(b, dt).angle
            == b.angle + turn_step(b, dt),
        turned_left(b, dt) == (BoidState { angle: turned_left(b, dt).angle, ..b }),
        turned_right(b, dt) == (BoidState { angle: turned_right(b, dt).angle, ..b }),
{
}

/// A tick adds to the facing angle the signed angle from the way the agent
/// faces to its new heading, whenever the tick has a length and 64 bits hold
/// the sum. It leaves the facing angle as it is when the agent heads the way
/// it faces, and it leaves the radii, the turn rate, the size, the texture
/// and the statistics as they were.
pub proof fn lemma_tick_adds_signed_angle(b: BoidState, window: Vector, dt: int)
    requires
        b.valid(),
        dt > 0,
    ensures
        ({
            let next = advance(b, window, dt);
            let turn = signed_angle(facing(b), next.forward);
            &&& i64::MIN <= b.angle + turn <= i64::MAX ==> next.angle == b.angle + turn
            &&& next.forward == facing(b) ==> next.angle == b.angle
            &&& next.vision_radius == b.vision_radius
            &&& next.avoid_radius == b.avoid_radius
            &&& next.turn_rate == b.turn_rate
            &&& next.size == b.size
            &&& next.texture == b.texture
            &&& next.local_boids == b.local_boids
        }),
{
    crate::fixed::lemma_fx_mul_whole(dt, 250);
    assert(250 * ONE == 250_000_000 && dt * 250 > 0);
    assert(fx_mul(250_000_000, dt) == fx_mul(dt, 250_000_000)) by {
        assert(250_000_000 * dt == dt * 250_000_000) by (nonlinear_arith);
    }
    crate::angle::lemma_heading(b.angle + crate::angle::QUARTER_TURN);
    crate::angle::lemma_no_turn(facing(b));
}

} // verus!
