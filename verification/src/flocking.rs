//! The rules of the flock as mathematics: what an agent sees of its
//! neighbours, the acceleration it derives from that, and how one tick moves
//! it. The executable types elsewhere in the crate are held to these
//! definitions.
use vstd::prelude::*;
use crate::angle::{
    heading, lemma_heading, signed_angle, FULL_TURN, QUARTER_TURN,
};
use crate::fixed::{
    div_toward_zero, fx_mul, lemma_fx_mul_bound, lemma_fx_mul_whole, lemma_square_ordered,
    lemma_square_reflects_order, magnitude, ONE,
};
use crate::vector::{lemma_norm_sq_zero, lemma_shrunk_to, lemma_stretched_to, Vector};

verus! {

/// The slowest an agent may move, in world units per second.
pub const MIN_SPEED: i64 = 50_000_000;

/// The fastest an agent may move, in world units per second.
pub const MAX_SPEED: i64 = 450_000_000;

/// The speed of a newly created agent: midway between the two limits.
pub const LAUNCH_SPEED: i64 = 250_000_000;

/// The weight of the pull toward the neighbours' common heading.
pub const ALIGNMENT_WEIGHT: i64 = 1_000_000;

/// The weight of the push away from neighbours that are too close.
pub const SEPARATION_WEIGHT: i64 = 1_000_000;

/// The weight of the pull toward the neighbours' centre.
pub const COHESION_WEIGHT: i64 = 500_000;

/// How far a newly created agent sees.
pub const VISION_RADIUS: i64 = 24_000_000;

/// The share of the vision radius within which neighbours are avoided.
pub const AVOID_SHARE: i64 = 700_000;

/// How fast a newly created agent can turn, in degrees per second.
pub const TURN_RATE: i64 = 60_000_000;

/// The length per second of the probe that the facing angle is compared
/// with.
pub const PROBE_SPEED: i64 = 250_000_000;

/// The largest width or height of a world.
pub const MAX_EXTENT: i64 = 1_000_000_000_000;

/// The largest vision radius. Within it a repulsion, which falls off with
/// the distance, is never so small that it rounds to zero.
pub const MAX_RADIUS: i64 = 500_000_000_000;

/// The largest number of agents in one population.
pub const MAX_POPULATION: usize = 1_000_000;

/// The largest component of an acceleration that the force model produces.
pub const MAX_ACCELERATION: i64 = 2_250_000_000;

/// What an agent has gathered about its neighbours in one tick.
pub struct Aggregate {
    /// How many other agents are within the vision radius.
    pub count: int,
    /// The sum of their headings.
    pub heading_sum: Vector,
    /// The sum of their positions.
    pub position_sum: Vector,
    /// The sum of the repulsions from those within the avoid radius.
    pub separation_sum: Vector,
}

impl Aggregate {
    /// The aggregate of no neighbours.
    pub open spec fn empty() -> Aggregate {
        Aggregate {
            count: 0,
            heading_sum: Vector::zero(),
            position_sum: Vector::zero(),
            separation_sum: Vector::zero(),
        }
    }

    /// The aggregate of two groups of neighbours taken together.
    pub open spec fn plus(self, other: Aggregate) -> Aggregate {
        Aggregate {
            count: self.count + other.count,
            heading_sum: self.heading_sum.plus(other.heading_sum),
            position_sum: self.position_sum.plus(other.position_sum),
            separation_sum: self.separation_sum.plus(other.separation_sum),
        }
    }

    /// The sums are no larger than `count` valid neighbours can make them.
    pub open spec fn counted(self) -> bool {
        &&& 0 <= self.count <= MAX_POPULATION
        &&& magnitude(self.heading_sum.x) <= self.count * ONE
        &&& magnitude(self.heading_sum.y) <= self.count * ONE
        &&& 0 <= self.position_sum.x <= self.count * MAX_EXTENT
        &&& 0 <= self.position_sum.y <= self.count * MAX_EXTENT
        &&& magnitude(self.separation_sum.x) <= self.count * (ONE * ONE)
        &&& magnitude(self.separation_sum.y) <= self.count * (ONE * ONE)
    }

    /// What an agent can act on: a count no larger than a population and,
    /// where it is positive, sums no larger than so many valid neighbours
    /// can make them. With a count of zero the sums may hold anything: they
    /// are not read.
    pub open spec fn bounded(self) -> bool {
        &&& 0 <= self.count <= MAX_POPULATION
        &&& self.count > 0 ==> self.counted()
    }
}

/// The state of one agent.
pub struct BoidState {
    /// Where the agent is.
    pub pos: Vector,
    /// The width and height it is drawn with.
    pub size: Vector,
    /// The key of the texture it is drawn with.
    pub texture: Seq<char>,
    /// The angle it is drawn at.
    pub angle: int,
    /// How far it sees.
    pub vision_radius: int,
    /// How close a neighbour may come before it is avoided.
    pub avoid_radius: int,
    /// How fast it can turn, in degrees per second.
    pub turn_rate: int,
    /// The unit vector along its velocity.
    pub forward: Vector,
    /// Its velocity, in world units per second.
    pub velocity: Vector,
    /// What it gathered about its neighbours in the current tick.
    pub local_boids: Aggregate,
}

/// A world's width and height are positive and no larger than `MAX_EXTENT`.
pub open spec fn valid_bounds(window: Vector) -> bool {
    0 < window.x <= MAX_EXTENT && 0 < window.y <= MAX_EXTENT
}

/// The point lies inside the world: from zero up to, not including, the
/// width and the height.
pub open spec fn within(pos: Vector, window: Vector) -> bool {
    0 <= pos.x < window.x && 0 <= pos.y < window.y
}

/// The speed of `velocity` lies between `MIN_SPEED` and `MAX_SPEED`.
pub open spec fn speed_in_range(velocity: Vector) -> bool {
    MIN_SPEED * MIN_SPEED <= velocity.norm_sq() <= MAX_SPEED * MAX_SPEED
}

/// The vector is not zero and no longer than one.
pub open spec fn is_direction(v: Vector) -> bool {
    0 < v.norm_sq() <= ONE * ONE
}

impl BoidState {
    /// What holds of every agent at all times.
    pub open spec fn valid(self) -> bool {
        &&& 0 <= self.pos.x < MAX_EXTENT
        &&& 0 <= self.pos.y < MAX_EXTENT
        &&& speed_in_range(self.velocity)
        &&& is_direction(self.forward)
        &&& i64::MIN <= self.angle <= i64::MAX
        &&& 0 < self.avoid_radius < self.vision_radius <= MAX_RADIUS
        &&& self.local_boids.bounded()
    }

    /// The agent with its neighbour statistics replaced.
    pub open spec fn with_stats(self, stats: Aggregate) -> BoidState {
        BoidState { local_boids: stats, ..self }
    }
}

/// The repulsion that an agent at `offset` from the observer, at squared
/// distance `d2 > 0`, exerts on it: the offset divided by the squared
/// distance, pointing back at the observer.
pub open spec fn repulsion(offset: Vector, d2: int) -> Vector {
    Vector {
        x: -div_toward_zero(offset.x * (ONE * ONE), d2),
        y: -div_toward_zero(offset.y * (ONE * ONE), d2),
    }
}

/// What one other agent adds to the observer's statistics. Within the vision
/// radius it counts, with its heading and position; within the avoid radius
/// it also repels, unless the two agents coincide.
pub open spec fn contribution(observer: BoidState, other: BoidState) -> Aggregate {
    let offset = other.pos.minus(observer.pos);
    let d2 = offset.norm_sq();
    if d2 < observer.vision_radius * observer.vision_radius {
        Aggregate {
            count: 1,
            heading_sum: other.forward,
            position_sum: other.pos,
            separation_sum: if 0 < d2 < observer.avoid_radius * observer.avoid_radius {
                repulsion(offset, d2)
            } else {
                Vector::zero()
            },
        }
    } else {
        Aggregate::empty()
    }
}

/// The statistics that `observer` gathers from `others`.
pub open spec fn neighbour_stats(observer: BoidState, others: Seq<BoidState>) -> Aggregate
    decreases others.len(),
{
    if others.len() == 0 {
        Aggregate::empty()
    } else {
        neighbour_stats(observer, others.drop_last()).plus(contribution(observer, others.last()))
    }
}

/// The force that steers an agent toward `target_sum`: full speed along it,
/// less the present velocity.
pub open spec fn steer_toward(target_sum: Vector, velocity: Vector) -> Vector {
    target_sum.normalised().scaled(MAX_SPEED as int).minus(velocity)
}

/// The acceleration that an agent derives from its neighbour statistics:
/// none without neighbours, else the weighted sum of alignment, cohesion and
/// separation.
pub open spec fn steering(b: BoidState) -> Vector {
    let stats = b.local_boids;
    if stats.count <= 0 {
        Vector::zero()
    } else {
        let center = Vector {
            x: div_toward_zero(stats.position_sum.x, stats.count),
            y: div_toward_zero(stats.position_sum.y, stats.count),
        };
        let alignment = steer_toward(stats.heading_sum, b.velocity);
        let cohesion = steer_toward(center.minus(b.pos), b.velocity);
        let separation = steer_toward(stats.separation_sum, b.velocity);
        alignment.scaled(ALIGNMENT_WEIGHT as int).plus(
            cohesion.scaled(COHESION_WEIGHT as int),
        ).plus(separation.scaled(SEPARATION_WEIGHT as int))
    }
}

/// The direction of travel: along `velocity`, or the former heading when the
/// velocity is zero.
pub open spec fn direction(velocity: Vector, former: Vector) -> Vector {
    if velocity.norm_sq() == 0 {
        former
    } else {
        velocity.normalised()
    }
}

/// The velocity with its speed brought between `MIN_SPEED` and `MAX_SPEED`.
/// One that is too slow is stretched to `MIN_SPEED`, along the former
/// heading when it is zero; one that is too fast is shrunk to `MAX_SPEED`.
pub open spec fn clamped_velocity(velocity: Vector, former: Vector) -> Vector {
    if velocity.norm_sq() == 0 {
        former.stretched_to(MIN_SPEED as int)
    } else if velocity.norm_sq() < MIN_SPEED * MIN_SPEED {
        velocity.stretched_to(MIN_SPEED as int)
    } else if velocity.norm_sq() > MAX_SPEED * MAX_SPEED {
        velocity.shrunk_to(MAX_SPEED as int)
    } else {
        velocity
    }
}

/// The point brought back into the world across its edges.
pub open spec fn wrap_position(pos: Vector, window: Vector) -> Vector {
    Vector { x: pos.x % window.x, y: pos.y % window.y }
}

/// The length of the probe that the facing angle is compared with: what an
/// agent moving at `PROBE_SPEED` covers in `dt` microseconds.
pub open spec fn probe_length(dt: int) -> int {
    fx_mul(PROBE_SPEED as int, dt)
}

/// The signed angle from the probe to `forward`. The probe points the way
/// the agent faces, and its length does not change where it points: the
/// angle is that from the facing direction itself, and zero where the probe
/// has no length.
pub open spec fn facing_turn(b: BoidState, forward: Vector, dt: int) -> int {
    if probe_length(dt) == 0 {
        0
    } else {
        signed_angle(facing(b), forward)
    }
}

/// The agent after one tick of `dt` microseconds in a world of size
/// `window`.
pub open spec fn advance(b: BoidState, window: Vector, dt: int) -> BoidState {
    let sped = b.velocity.plus(steering(b).scaled(dt));
    let forward = direction(sped, b.forward);
    let velocity = clamped_velocity(sped, b.forward);
    BoidState {
        pos: wrap_position(b.pos.plus(velocity.scaled(dt)), window),
        velocity,
        forward,
        angle: held(b.angle + facing_turn(b, forward, dt)),
        ..b
    }
}

/// The angle that 64 bits hold: `angle` itself, or the nearest end of their
/// range where it lies beyond.
pub open spec fn held(angle: int) -> int {
    if angle < i64::MIN {
        i64::MIN as int
    } else if angle > i64::MAX {
        i64::MAX as int
    } else {
        angle
    }
}

/// The facing angle turned by `degrees`, as far as 64 bits hold it.
pub open spec fn turned(angle: int, degrees: int) -> int {
    held(angle + degrees)
}

/// The angle that an agent turns through in `dt` microseconds.
pub open spec fn turn_step(b: BoidState, dt: int) -> int {
    div_toward_zero(b.turn_rate * dt, ONE as int)
}

/// The agent with its facing angle turned clockwise for `dt` microseconds.
pub open spec fn turned_left(b: BoidState, dt: int) -> BoidState {
    BoidState { angle: turned(b.angle, -turn_step(b, dt)), ..b }
}

/// The agent with its facing angle turned counter-clockwise for `dt`
/// microseconds.
pub open spec fn turned_right(b: BoidState, dt: int) -> BoidState {
    BoidState { angle: turned(b.angle, turn_step(b, dt)), ..b }
}

/// Whether `observer` sees `other`: the distance between them is less than
/// the vision radius.
pub open spec fn sees(observer: BoidState, other: BoidState) -> bool {
    other.pos.minus(observer.pos).norm_sq() < observer.vision_radius * observer.vision_radius
}

/// Those of `others` that `observer` sees, in their order.
pub open spec fn in_sight(observer: BoidState, others: Seq<BoidState>) -> Seq<BoidState>
    decreases others.len(),
{
    if others.len() == 0 {
        Seq::empty()
    } else if sees(observer, others.last()) {
        in_sight(observer, others.drop_last()).push(others.last())
    } else {
        in_sight(observer, others.drop_last())
    }
}

/// The way an agent faces: a quarter turn ahead of its facing angle.
pub open spec fn facing(b: BoidState) -> Vector {
    heading(b.angle + QUARTER_TURN)
}

/// The sum of the unit vectors from `observer` toward each of `seen`.
pub open spec fn pull(observer: BoidState, seen: Seq<BoidState>) -> Vector
    decreases seen.len(),
{
    if seen.len() == 0 {
        Vector::zero()
    } else {
        pull(observer, seen.drop_last()).plus(seen.last().pos.minus(observer.pos).normalised())
    }
}

/// The sum of the facing angles of `seen`.
pub open spec fn angle_sum(seen: Seq<BoidState>) -> int
    decreases seen.len(),
{
    if seen.len() == 0 {
        0
    } else {
        angle_sum(seen.drop_last()) + seen.last().angle
    }
}

/// The sum of the positions of `seen`.
pub open spec fn position_sum(seen: Seq<BoidState>) -> Vector
    decreases seen.len(),
{
    if seen.len() == 0 {
        Vector::zero()
    } else {
        position_sum(seen.drop_last()).plus(seen.last().pos)
    }
}

/// The angle from the way the agent faces to the way that leads away from
/// the agents it has seen.
pub open spec fn separation_angle(b: BoidState, seen: Seq<BoidState>) -> int {
    signed_angle(facing(b).normalised(), pull(b, seen).normalised().negated())
}

/// Separation by turning: the agent turns toward the way that leads away
/// from the agents it has seen, if that way lies less than a quarter turn to
/// one side; left for a negative angle, right for a positive one.
pub open spec fn separated(b: BoidState, seen: Seq<BoidState>, dt: int) -> BoidState {
    let angle = separation_angle(b, seen);
    if -QUARTER_TURN < angle < 0 {
        turned_left(b, dt)
    } else if 0 < angle < QUARTER_TURN {
        turned_right(b, dt)
    } else {
        b
    }
}

/// Alignment by turning: the agent turns right if its facing angle is below
/// the mean facing angle of the agents it has seen, rounded toward zero,
/// else left. With nobody in sight it does not turn.
pub open spec fn aligned(b: BoidState, seen: Seq<BoidState>, dt: int) -> BoidState {
    if seen.len() == 0 {
        b
    } else if b.angle < div_toward_zero(angle_sum(seen), seen.len() as int) {
        turned_right(b, dt)
    } else {
        turned_left(b, dt)
    }
}

/// The angle from the way the agent faces to the way from the centre of the
/// agents it has seen to the agent itself.
pub open spec fn cohesion_angle(b: BoidState, seen: Seq<BoidState>) -> int {
    let n = seen.len() as int;
    let center = Vector { x: position_sum(seen).x / n, y: position_sum(seen).y / n };
    signed_angle(facing(b), b.pos.minus(center).normalised())
}

/// Cohesion by turning: the agent turns left if the way from the centre of
/// the agents it has seen to itself lies to the right of the way it faces
/// or along it, else right. With nobody in sight it does not turn.
pub open spec fn cohered(b: BoidState, seen: Seq<BoidState>, dt: int) -> BoidState {
    if seen.len() == 0 {
        b
    } else if cohesion_angle(b, seen) <= 0 {
        turned_left(b, dt)
    } else {
        turned_right(b, dt)
    }
}

/// Neither component of a vector is longer than the vector.
pub proof fn lemma_components_bounded(v: Vector, bound: int)
    requires
        0 <= bound,
        v.norm_sq() <= bound * bound,
    ensures
        magnitude(v.x) <= bound,
        magnitude(v.y) <= bound,
{
    lemma_norm_sq_zero(v);
    let r = v.reach();
    assert(r * r < (bound + 1) * (bound + 1)) by (nonlinear_arith)
        requires
            r * r <= bound * bound,
            bound >= 0,
    ;
    lemma_square_reflects_order(r, bound + 1);
}

/// A unit vector or the zero vector, as normalising gives it, has no
/// component beyond one; it is zero only for the zero vector.
pub proof fn lemma_normalised(v: Vector)
    ensures
        magnitude(v.normalised().x) <= ONE,
        magnitude(v.normalised().y) <= ONE,
        v.normalised().norm_sq() <= ONE * ONE,
        v == Vector::zero() ==> v.normalised() == Vector::zero(),
        v != Vector::zero() ==> v.normalised().norm_sq() > 0,
{
    lemma_norm_sq_zero(v);
    lemma_norm_sq_zero(v.normalised());
    if v.norm_sq() > 0 {
        lemma_shrunk_to(v, ONE as int);
    }
}

/// A steering force is at most twice the top speed along each axis.
pub proof fn lemma_steer_toward_bound(target_sum: Vector, velocity: Vector)
    requires
        magnitude(velocity.x) <= MAX_SPEED,
        magnitude(velocity.y) <= MAX_SPEED,
    ensures
        magnitude(steer_toward(target_sum, velocity).x) <= 2 * MAX_SPEED,
        magnitude(steer_toward(target_sum, velocity).y) <= 2 * MAX_SPEED,
        magnitude(target_sum.normalised().scaled(MAX_SPEED as int).x) <= MAX_SPEED,
        magnitude(target_sum.normalised().scaled(MAX_SPEED as int).y) <= MAX_SPEED,
{
    let unit = target_sum.normalised();
    lemma_normalised(target_sum);
    lemma_fx_mul_bound(unit.x, MAX_SPEED as int, ONE as int, MAX_SPEED as int);
    lemma_fx_mul_bound(unit.y, MAX_SPEED as int, ONE as int, MAX_SPEED as int);
}

/// A steering force with its weight, a weight of at most one: no larger
/// along either axis than twice the top speed times the weight.
pub proof fn lemma_weighted_force(target_sum: Vector, velocity: Vector, weight: int)
    requires
        magnitude(velocity.x) <= MAX_SPEED,
        magnitude(velocity.y) <= MAX_SPEED,
        0 <= weight <= ONE,
    ensures
        magnitude(steer_toward(target_sum, velocity).x) <= 2 * MAX_SPEED,
        magnitude(steer_toward(target_sum, velocity).y) <= 2 * MAX_SPEED,
        magnitude(steer_toward(target_sum, velocity).scaled(weight).x) <= (2 * MAX_SPEED
            * weight) / (ONE as int),
        magnitude(steer_toward(target_sum, velocity).scaled(weight).y) <= (2 * MAX_SPEED
            * weight) / (ONE as int),
        (2 * MAX_SPEED * weight) / (ONE as int) <= 2 * MAX_SPEED,
{
    let force = steer_toward(target_sum, velocity);
    lemma_steer_toward_bound(target_sum, velocity);
    lemma_fx_mul_bound(force.x, weight, 2 * MAX_SPEED, weight);
    lemma_fx_mul_bound(force.y, weight, 2 * MAX_SPEED, weight);
}

/// An agent without neighbours does not accelerate, and no acceleration
/// exceeds `MAX_ACCELERATION` along either axis.
pub proof fn lemma_steering_bound(b: BoidState)
    requires
        speed_in_range(b.velocity),
    ensures
        b.local_boids.count <= 0 ==> steering(b) == Vector::zero(),
        magnitude(steering(b).x) <= MAX_ACCELERATION,
        magnitude(steering(b).y) <= MAX_ACCELERATION,
{
    let stats = b.local_boids;
    if stats.count > 0 {
        lemma_components_bounded(b.velocity, MAX_SPEED as int);
        let center = Vector {
            x: div_toward_zero(stats.position_sum.x, stats.count),
            y: div_toward_zero(stats.position_sum.y, stats.count),
        };
        lemma_weighted_force(stats.heading_sum, b.velocity, ALIGNMENT_WEIGHT as int);
        lemma_weighted_force(center.minus(b.pos), b.velocity, COHESION_WEIGHT as int);
        lemma_weighted_force(stats.separation_sum, b.velocity, SEPARATION_WEIGHT as int);
    }
}

/// The direction of travel is a direction: not zero and no longer than one.
pub proof fn lemma_direction(velocity: Vector, former: Vector)
    requires
        is_direction(former),
    ensures
        is_direction(direction(velocity, former)),
        magnitude(direction(velocity, former).x) <= ONE,
        magnitude(direction(velocity, former).y) <= ONE,
{
    lemma_norm_sq_zero(velocity);
    lemma_normalised(velocity);
    lemma_components_bounded(former, ONE as int);
}

/// Speed-clamp invariant: whatever the velocity before, the clamped velocity
/// has a speed between `MIN_SPEED` and `MAX_SPEED`.
pub proof fn lemma_clamped_velocity(velocity: Vector, former: Vector)
    requires
        former.norm_sq() > 0,
    ensures
        speed_in_range(clamped_velocity(velocity, former)),
        magnitude(clamped_velocity(velocity, former).x) <= MAX_SPEED,
        magnitude(clamped_velocity(velocity, former).y) <= MAX_SPEED,
{
    let low = MIN_SPEED as int;
    let high = MAX_SPEED as int;
    let result = clamped_velocity(velocity, former);
    lemma_norm_sq_zero(velocity);
    if velocity.norm_sq() == 0 {
        lemma_stretched_to(former, low);
    } else if velocity.norm_sq() < low * low {
        lemma_stretched_to(velocity, low);
    } else if velocity.norm_sq() > high * high {
        lemma_shrunk_to(velocity, high);
        lemma_norm_sq_zero(result);
        let r = result.reach();
        assert(r >= 225_000_000);
        lemma_square_ordered(225_000_000, r);
    }
    lemma_components_bounded(result, high);
}

/// Speed-clamp and wrap invariants: a tick takes a valid agent to a valid
/// agent whose speed lies between the two limits and whose position lies
/// inside the world it was advanced in, however long the tick.
pub proof fn lemma_advance_valid(b: BoidState, window: Vector, dt: int)
    requires
        b.valid(),
        valid_bounds(window),
    ensures
        advance(b, window, dt).valid(),
        speed_in_range(advance(b, window, dt).velocity),
        within(advance(b, window, dt).pos, window),
{
    let sped = b.velocity.plus(steering(b).scaled(dt));
    lemma_direction(sped, b.forward);
    lemma_clamped_velocity(sped, b.forward);
    let moved = b.pos.plus(clamped_velocity(sped, b.forward).scaled(dt));
    vstd::arithmetic::div_mod::lemma_mod_bound(moved.x, window.x);
    vstd::arithmetic::div_mod::lemma_mod_bound(moved.y, window.y);
}

/// The share of `extent` that the upper 24 bits of a 32-bit draw select:
/// uniform from zero up to, not including, `extent`.
pub open spec fn fraction_of(bits: int, extent: int) -> int {
    ((bits / 256) * extent) / 16_777_216
}

/// The agent that three 32-bit draws create in a world of size `window`: the
/// first draw gives its facing angle, the second and third its position. It
/// heads a quarter turn ahead of its facing angle at `LAUNCH_SPEED`.
pub open spec fn spawned(angle_bits: int, x_bits: int, y_bits: int, window: Vector) -> BoidState {
    let angle = fraction_of(angle_bits, FULL_TURN as int);
    let forward = heading(angle + QUARTER_TURN);
    BoidState {
        pos: Vector { x: fraction_of(x_bits, window.x), y: fraction_of(y_bits, window.y) },
        size: Vector { x: 16 * ONE, y: 24 * ONE },
        texture: "boid"@,
        angle,
        vision_radius: VISION_RADIUS as int,
        avoid_radius: fx_mul(VISION_RADIUS as int, AVOID_SHARE as int),
        turn_rate: TURN_RATE as int,
        forward,
        velocity: forward.scaled(LAUNCH_SPEED as int),
        local_boids: Aggregate::empty(),
    }
}

/// Some three draws create the agent `b` in a world of size `window`.
pub open spec fn is_spawn(b: BoidState, window: Vector) -> bool {
    exists|a: u32, x: u32, y: u32| b == spawned(a as int, x as int, y as int, window)
}

/// A share of a positive extent lies from zero up to, not including, the
/// extent.
pub proof fn lemma_fraction_of(bits: int, extent: int)
    requires
        0 <= bits < 0x1_0000_0000,
        0 < extent,
    ensures
        0 <= fraction_of(bits, extent) < extent,
        0 <= (bits / 256) * extent < 16_777_216 * extent,
{
    let f = bits / 256;
    assert(0 <= f * extent < 16_777_216 * extent) by (nonlinear_arith)
        requires
            0 <= f < 16_777_216,
            0 < extent,
    ;
    vstd::arithmetic::div_mod::lemma_div_pos_is_pos(f * extent, 16_777_216);
    vstd::arithmetic::div_mod::lemma_multiply_divide_lt(f * extent, 16_777_216, extent);
}

/// A newly created agent is valid and lies inside its world.
pub proof fn lemma_spawned_valid(angle_bits: int, x_bits: int, y_bits: int, window: Vector)
    requires
        0 <= angle_bits < 0x1_0000_0000,
        0 <= x_bits < 0x1_0000_0000,
        0 <= y_bits < 0x1_0000_0000,
        valid_bounds(window),
    ensures
        spawned(angle_bits, x_bits, y_bits, window).valid(),
        within(spawned(angle_bits, x_bits, y_bits, window).pos, window),
        spawned(angle_bits, x_bits, y_bits, window).avoid_radius == 16_800_000,
{
    let b = spawned(angle_bits, x_bits, y_bits, window);
    lemma_fraction_of(angle_bits, FULL_TURN as int);
    lemma_fraction_of(x_bits, window.x);
    lemma_fraction_of(y_bits, window.y);
    lemma_heading(b.angle + QUARTER_TURN);
    lemma_fx_mul_whole(b.forward.x, 250);
    lemma_fx_mul_whole(b.forward.y, 250);
    let f = b.forward;
    assert(b.velocity.x == f.x * 250 && b.velocity.y == f.y * 250);
    assert(b.velocity.norm_sq() == 62500 * f.norm_sq()) by (nonlinear_arith)
        requires
            b.velocity.x == f.x * 250,
            b.velocity.y == f.y * 250,
            b.velocity.norm_sq() == b.velocity.x * b.velocity.x + b.velocity.y * b.velocity.y,
            f.norm_sq() == f.x * f.x + f.y * f.y,
    ;
    crate::vector::lemma_norm_sq_zero(f);
    assert(f.reach() * f.reach() >= 500_000 * 500_000) by (nonlinear_arith)
        requires
            f.reach() >= 500_000,
    ;
    assert(fx_mul(VISION_RADIUS as int, AVOID_SHARE as int) == 16_800_000);
}

/// Every agent of the flock is valid, and the flock is no larger than
/// `MAX_POPULATION`.
pub open spec fn valid_flock(flock: Seq<BoidState>) -> bool {
    &&& flock.len() <= MAX_POPULATION
    &&& forall|i: int| 0 <= i < flock.len() ==> (#[trigger] flock[i]).valid()
}

/// The flock after the neighbourhood query: every agent holds the statistics
/// that it gathers from all the others, as they stood before the query.
pub open spec fn observed(flock: Seq<BoidState>) -> Seq<BoidState> {
    Seq::new(
        flock.len(),
        |i: int| flock[i].with_stats(neighbour_stats(flock[i], flock.remove(i))),
    )
}

/// The flock after one whole tick: the neighbourhood query, then every agent
/// advanced on what it gathered.
pub open spec fn ticked(flock: Seq<BoidState>, window: Vector, dt: int) -> Seq<BoidState> {
    Seq::new(flock.len(), |i: int| advance(observed(flock)[i], window, dt))
}

/// The flock after `ticks` whole ticks.
pub open spec fn run(flock: Seq<BoidState>, window: Vector, dt: int, ticks: nat) -> Seq<BoidState>
    decreases ticks,
{
    if ticks == 0 {
        flock
    } else {
        ticked(run(flock, window, dt, (ticks - 1) as nat), window, dt)
    }
}

/// The agents among the first `j` of `flock` that agent `i` looks at: all of
/// them but itself.
pub open spec fn others_before(flock: Seq<BoidState>, i: int, j: int) -> Seq<BoidState> {
    if j <= i {
        flock.take(j)
    } else {
        flock.take(j).remove(i)
    }
}

/// A repulsion is at most `ONE * ONE` along each axis.
pub proof fn lemma_repulsion_bound(offset: Vector, d2: int)
    requires
        d2 == offset.norm_sq(),
        d2 > 0,
    ensures
        magnitude(repulsion(offset, d2).x) <= ONE * ONE,
        magnitude(repulsion(offset, d2).y) <= ONE * ONE,
        magnitude(div_toward_zero(offset.x * (ONE * ONE), d2)) <= ONE * ONE,
        magnitude(div_toward_zero(offset.y * (ONE * ONE), d2)) <= ONE * ONE,
{
    let k: int = ONE * ONE;
    lemma_norm_sq_zero(offset);
    lemma_axis_share(offset.x, d2, k);
    lemma_axis_share(offset.y, d2, k);
}

/// If `c * c <= d`, then `c * k / d`, rounded toward zero, is at most `k`.
proof fn lemma_axis_share(c: int, d: int, k: int)
    requires
        c * c <= d,
        d > 0,
        k >= 0,
    ensures
        magnitude(div_toward_zero(c * k, d)) <= k,
{
    let m = magnitude(c);
    assert(m <= d) by (nonlinear_arith)
        requires
            c * c <= d,
            m == magnitude(c),
    ;
    assert(magnitude(c * k) == m * k && m * k <= k * d) by (nonlinear_arith)
        requires
            m == magnitude(c),
            m <= d,
            k >= 0,
    ;
    crate::fixed::lemma_div_toward_zero_bounds(c * k, d);
    vstd::arithmetic::div_mod::lemma_div_is_ordered(m * k, k * d, d);
    vstd::arithmetic::div_mod::lemma_div_multiples_vanish(k, d);
}

/// One valid neighbour adds at most one to the count, and no more to each
/// sum than the bounds of an aggregate allow for it.
pub proof fn lemma_contribution_bounded(observer: BoidState, other: BoidState)
    requires
        other.valid(),
    ensures
        contribution(observer, other).counted(),
        0 <= contribution(observer, other).count <= 1,
{
    let offset = other.pos.minus(observer.pos);
    let d2 = offset.norm_sq();
    lemma_components_bounded(other.forward, ONE as int);
    if d2 > 0 {
        lemma_repulsion_bound(offset, d2);
    }
}

/// Two aggregates of valid neighbours that together count no more than a
/// population make such an aggregate.
pub proof fn lemma_plus_bounded(a: Aggregate, b: Aggregate)
    requires
        a.counted(),
        b.counted(),
        a.count + b.count <= MAX_POPULATION,
    ensures
        a.plus(b).counted(),
{
    let k: int = ONE * ONE;
    assert((a.count + b.count) * ONE == a.count * ONE + b.count * ONE) by (nonlinear_arith);
    assert((a.count + b.count) * MAX_EXTENT == a.count * MAX_EXTENT + b.count * MAX_EXTENT)
        by (nonlinear_arith);
    assert((a.count + b.count) * k == a.count * k + b.count * k) by (nonlinear_arith);
}

/// The statistics gathered from a sequence with one more agent at its end
/// are those of the sequence plus what the last agent adds.
pub proof fn lemma_stats_push(observer: BoidState, others: Seq<BoidState>, last: BoidState)
    ensures
        neighbour_stats(observer, others.push(last)) == neighbour_stats(observer, others).plus(
            contribution(observer, last),
        ),
{
    assert(others.push(last).drop_last() =~= others);
}

/// Looking at one more agent of the flock either adds it to those looked at,
/// or changes nothing when it is the observer itself.
pub proof fn lemma_others_step(flock: Seq<BoidState>, i: int, j: int)
    requires
        0 <= i < flock.len(),
        0 <= j < flock.len(),
    ensures
        j == i ==> others_before(flock, i, j + 1) == others_before(flock, i, j),
        j != i ==> others_before(flock, i, j + 1) == others_before(flock, i, j).push(flock[j]),
        others_before(flock, i, 0) == Seq::<BoidState>::empty(),
        others_before(flock, i, flock.len() as int) == flock.remove(i),
{
    if j == i {
        assert(flock.take(j + 1).remove(i) =~= flock.take(j));
    } else if j < i {
        assert(flock.take(j + 1) =~= flock.take(j).push(flock[j]));
    } else {
        assert(flock.take(j + 1).remove(i) =~= flock.take(j).remove(i).push(flock[j]));
    }
    assert(flock.take(0) =~= Seq::<BoidState>::empty());
    assert(flock.take(flock.len() as int) =~= flock);
}

/// Steering by turning: an agent that sees nobody does not turn; one that
/// sees somebody applies separation, then alignment, then cohesion.
pub open spec fn steered_by_turning(b: BoidState, seen: Seq<BoidState>, dt: int) -> BoidState {
    if seen.len() == 0 {
        b
    } else {
        cohered(aligned(separated(b, seen, dt), seen, dt), seen, dt)
    }
}

/// The flock after every agent has steered by turning on what it sees of
/// the flock as it stood before.
pub open spec fn turned_flock(flock: Seq<BoidState>, dt: int) -> Seq<BoidState> {
    Seq::new(
        flock.len(),
        |i: int| steered_by_turning(flock[i], in_sight(flock[i], flock.remove(i)), dt),
    )
}

/// Those in sight are agents of the sequence looked at: valid if all of that
/// sequence are, and no more than it holds.
pub proof fn lemma_in_sight_valid(observer: BoidState, others: Seq<BoidState>)
    requires
        forall|k: int| 0 <= k < others.len() ==> (#[trigger] others[k]).valid(),
    ensures
        in_sight(observer, others).len() <= others.len(),
        forall|k: int|
            0 <= k < in_sight(observer, others).len() ==> (#[trigger] in_sight(
                observer,
                others,
            )[k]).valid(),
    decreases others.len(),
{
    if others.len() > 0 {
        let front = others.drop_last();
        assert forall|k: int| 0 <= k < front.len() implies (#[trigger] front[k]).valid() by {
            assert(front[k] == others[k]);
        }
        lemma_in_sight_valid(observer, front);
        assert(others.last().valid());
    }
}

/// Turning changes the facing angle only and keeps a valid agent valid.
pub proof fn lemma_steered_by_turning(b: BoidState, seen: Seq<BoidState>, dt: int)
    requires
        b.valid(),
    ensures
        separated(b, seen, dt).valid(),
        aligned(b, seen, dt).valid(),
        cohered(b, seen, dt).valid(),
        steered_by_turning(b, seen, dt).valid(),
        steered_by_turning(b, seen, dt) == (BoidState {
            angle: steered_by_turning(b, seen, dt).angle,
            ..b
        }),
{
    let first = separated(b, seen, dt);
    assert(first.valid());
    let second = aligned(first, seen, dt);
    assert(second.valid());
    let third = cohered(second, seen, dt);
    assert(third.valid());
}

/// Looking at one more agent adds it to those in sight exactly when the
/// observer sees it.
pub proof fn lemma_in_sight_push(observer: BoidState, others: Seq<BoidState>, last: BoidState)
    ensures
        in_sight(observer, others.push(last)) == if sees(observer, last) {
            in_sight(observer, others).push(last)
        } else {
            in_sight(observer, others)
        },
{
    assert(others.push(last).drop_last() =~= others);
}

/// The sums over the first `j + 1` agents of a sequence are the sums over
/// the first `j` with the next agent added.
pub proof fn lemma_sums_step(observer: BoidState, seen: Seq<BoidState>, j: int)
    requires
        0 <= j < seen.len(),
    ensures
        pull(observer, seen.take(j + 1)) == pull(observer, seen.take(j)).plus(
            seen[j].pos.minus(observer.pos).normalised(),
        ),
        angle_sum(seen.take(j + 1)) == angle_sum(seen.take(j)) + seen[j].angle,
        position_sum(seen.take(j + 1)) == position_sum(seen.take(j)).plus(seen[j].pos),
{
    assert(seen.take(j + 1).drop_last() =~= seen.take(j));
}

/// A valid flock without one of its agents is a valid flock.
pub proof fn lemma_remove_valid(flock: Seq<BoidState>, i: int)
    requires
        valid_flock(flock),
        0 <= i < flock.len(),
    ensures
        valid_flock(flock.remove(i)),
{
    let others = flock.remove(i);
    assert forall|k: int| 0 <= k < others.len() implies (#[trigger] others[k]).valid() by {
        if k < i {
            assert(others[k] == flock[k]);
        } else {
            assert(others[k] == flock[k + 1]);
        }
    }
}

} // verus!
