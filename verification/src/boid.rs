//! The agents of the flock.
use vstd::prelude::*;
use rand::rngs::ThreadRng;
use rand::Rng;
use crate::angle::{
    bearing_of, heading_of, lemma_heading, lemma_heading_wrapped, wrapped, FULL_TURN,
    QUARTER_TURN,
};
use crate::fixed::{
    lemma_div_toward_zero_bounds, lemma_fx_mul_bound, lemma_product_fits, magnitude, modulo,
    mul_div, ONE,
};
use crate::flocking::{
    advance, clamped_velocity, held, is_spawn, lemma_advance_valid, lemma_clamped_velocity,
    lemma_components_bounded, lemma_direction, lemma_fraction_of, lemma_spawned_valid,
    lemma_steering_bound, lemma_weighted_force, spawned, steer_toward, steering, turn_step,
    turned_left, turned_right, valid_bounds, within, wrap_position, Aggregate, BoidState,
    ALIGNMENT_WEIGHT, AVOID_SHARE, COHESION_WEIGHT, LAUNCH_SPEED, MAX_ACCELERATION, MAX_SPEED,
    MIN_SPEED, PROBE_SPEED, SEPARATION_WEIGHT, TURN_RATE, VISION_RADIUS,
};
use crate::vector::{lemma_norm_sq_zero, Vec2, Vector};

verus! {

/// The thread-local random number generator of the `rand` crate.
#[verifier::external_type_specification]
#[verifier::external_body]
pub struct ExThreadRng(rand::rngs::ThreadRng);

/// Draws 32 bits from the generator with `rand::Rng::gen::<u32>`, which is
/// one call of its `next_u32`. Each call gives a fresh value, so nothing is
/// claimed of it beyond its type.
#[verifier::external_body]
fn draw_bits(rng: &mut ThreadRng) -> (bits: u32) {
    rng.gen::<u32>()
}

/// What an agent has gathered about its neighbours in one tick.
#[derive(Clone, Copy, Debug)]
pub struct BoidDetails {
    /// The sum of the repulsions from the neighbours within the avoid radius.
    pub average_seperation_heading: Vec2,
    /// The sum of the headings of the neighbours in sight.
    pub average_dir_heading: Vec2,
    /// The sum of the positions of the neighbours in sight.
    pub center: Vec2,
    /// The number of neighbours in sight.
    pub num_boids: u32,
}

impl View for BoidDetails {
    type V = Aggregate;

    open spec fn view(&self) -> Aggregate {
        Aggregate {
            count: self.num_boids as int,
            heading_sum: self.average_dir_heading@,
            position_sum: self.center@,
            separation_sum: self.average_seperation_heading@,
        }
    }
}

impl BoidDetails {
    /// The statistics of an agent that has seen no neighbour.
    pub fn new() -> (r: BoidDetails)
        ensures
            r@ == Aggregate::empty(),
    {
        BoidDetails {
            average_seperation_heading: Vec2::zero(),
            average_dir_heading: Vec2::zero(),
            center: Vec2::zero(),
            num_boids: 0,
        }
    }

    /// The number of neighbours in sight.
    pub fn len(&self) -> (r: u32)
        ensures
            r == self@.count,
    {
        self.num_boids
    }

    /// The sum of the positions of the neighbours in sight.
    pub fn cneter(&self) -> (r: Vec2)
        ensures
            r@ == self@.position_sum,
    {
        self.center
    }

    /// The sum of the repulsions from the neighbours within the avoid radius.
    pub fn seperation(&self) -> (r: Vec2)
        ensures
            r@ == self@.separation_sum,
    {
        self.average_seperation_heading
    }

    /// The sum of the headings of the neighbours in sight.
    pub fn average_dir_heading(&self) -> (r: Vec2)
        ensures
            r@ == self@.heading_sum,
    {
        self.average_dir_heading
    }
}

/// What the renderer needs to draw one agent.
#[derive(Debug)]
pub struct Sprite {
    /// Where the agent is.
    pub position: Vec2,
    /// The width and height to draw it with.
    pub size: Vec2,
    /// The angle to draw it at.
    pub angle: i64,
    /// The key of its texture.
    pub texture: String,
}

/// The mathematical value of a [`Sprite`].
pub struct SpriteView {
    /// Where the agent is.
    pub position: Vector,
    /// The width and height to draw it with.
    pub size: Vector,
    /// The angle to draw it at.
    pub angle: int,
    /// The key of its texture.
    pub texture: Seq<char>,
}

impl View for Sprite {
    type V = SpriteView;

    open spec fn view(&self) -> SpriteView {
        SpriteView {
            position: self.position@,
            size: self.size@,
            angle: self.angle as int,
            texture: self.texture@,
        }
    }
}

/// The sprite that shows an agent.
pub open spec fn sprite_of(b: BoidState) -> SpriteView {
    SpriteView { position: b.pos, size: b.size, angle: b.angle, texture: b.texture }
}

/// The states of a sequence of agents.
pub open spec fn flock_view(boids: Seq<Boid>) -> Seq<BoidState> {
    boids.map_values(|b: Boid| b@)
}

/// One agent of the flock.
#[derive(Debug)]
pub struct Boid {
    pos: Vec2,
    size: Vec2,
    texture: String,
    angle: i64,
    vision_radius: i64,
    avoid_radius: i64,
    turn_rate: i64,
    forward: Vec2,
    velocity: Vec2,
    local_boids: BoidDetails,
}

impl View for Boid {
    type V = BoidState;

    closed spec fn view(&self) -> BoidState {
        BoidState {
            pos: self.pos@,
            size: self.size@,
            texture: self.texture@,
            angle: self.angle as int,
            vision_radius: self.vision_radius as int,
            avoid_radius: self.avoid_radius as int,
            turn_rate: self.turn_rate as int,
            forward: self.forward@,
            velocity: self.velocity@,
            local_boids: self.local_boids@,
        }
    }
}

impl Clone for Boid {
    /// A copy of the agent, equal to it in every field.
    fn clone(&self) -> (r: Boid)
        ensures
            r@ == self@,
    {
        Boid {
            pos: self.pos,
            size: self.size,
            texture: self.texture.clone(),
            angle: self.angle,
            vision_radius: self.vision_radius,
            avoid_radius: self.avoid_radius,
            turn_rate: self.turn_rate,
            forward: self.forward,
            velocity: self.velocity,
            local_boids: self.local_boids,
        }
    }
}

/// The force that steers toward `target_sum`, with its weight.
fn weighted_force(target_sum: Vec2, velocity: Vec2, weight: i64) -> (r: Vec2)
    requires
        magnitude(velocity@.x) <= MAX_SPEED,
        magnitude(velocity@.y) <= MAX_SPEED,
        0 <= weight <= ONE,
    ensures
        r@ == steer_toward(target_sum@, velocity@).scaled(weight as int),
        magnitude(r@.x) <= 2 * MAX_SPEED,
        magnitude(r@.y) <= 2 * MAX_SPEED,
{
    proof {
        lemma_weighted_force(target_sum@, velocity@, weight as int);
        crate::flocking::lemma_steer_toward_bound(target_sum@, velocity@);
    }
    target_sum.normalised().scaled(MAX_SPEED).minus(velocity).scaled(weight)
}

/// The angle that 64 bits hold nearest to `angle`.
fn hold(angle: i128) -> (r: i64)
    ensures
        r == held(angle as int),
{
    if angle < i64::MIN as i128 {
        i64::MIN
    } else if angle > i64::MAX as i128 {
        i64::MAX
    } else {
        angle as i64
    }
}

/// The velocity with its speed brought between the two limits.
fn clamp_speed(velocity: Vec2, former: Vec2) -> (r: Vec2)
    ensures
        r@ == clamped_velocity(velocity@, former@),
{
    let n: u128 = velocity.norm_sq();
    let low: u128 = 2_500_000_000_000_000;
    let high: u128 = 202_500_000_000_000_000;
    assert(low == MIN_SPEED * MIN_SPEED && high == MAX_SPEED * MAX_SPEED) by (nonlinear_arith)
        requires
            low == 2_500_000_000_000_000,
            high == 202_500_000_000_000_000,
            MIN_SPEED == 50_000_000,
            MAX_SPEED == 450_000_000,
    ;
    if n == 0 {
        former.stretched_to(MIN_SPEED)
    } else if n < low {
        velocity.stretched_to(MIN_SPEED)
    } else if n > high {
        velocity.shrunk_to(MAX_SPEED)
    } else {
        velocity
    }
}

/// The point brought back into the world across its edges.
fn wrap_point(pos: Vec2, window: Vec2) -> (r: Vec2)
    requires
        valid_bounds(window@),
    ensures
        r@ == wrap_position(pos@, window@),
{
    Vec2 {
        x: modulo(pos.x as i128, window.x as i128) as i64,
        y: modulo(pos.y as i128, window.y as i128) as i64,
    }
}

impl Boid {
    /// What holds of every agent at all times.
    pub open spec fn wf(&self) -> bool {
        self@.valid()
    }

    /// An agent somewhere in a world of size `window_size`, at a random
    /// place and facing a random way.
    pub fn new(rng: &mut ThreadRng, window_size: Vec2) -> (r: Boid)
        requires
            valid_bounds(window_size@),
        ensures
            is_spawn(r@, window_size@),
            r.wf(),
            within(r@.pos, window_size@),
    {
        let angle_bits: u32 = draw_bits(rng);
        let x_bits: u32 = draw_bits(rng);
        let y_bits: u32 = draw_bits(rng);
        Boid::from_draws(angle_bits, x_bits, y_bits, window_size)
    }

    /// The agent that three 32-bit draws create in a world of size
    /// `window_size`.
    pub fn from_draws(angle_bits: u32, x_bits: u32, y_bits: u32, window_size: Vec2) -> (r: Boid)
        requires
            valid_bounds(window_size@),
        ensures
            r@ == spawned(angle_bits as int, x_bits as int, y_bits as int, window_size@),
            r.wf(),
            within(r@.pos, window_size@),
    {
        proof {
            lemma_spawned_valid(angle_bits as int, x_bits as int, y_bits as int, window_size@);
            lemma_fraction_of(angle_bits as int, FULL_TURN as int);
            lemma_fraction_of(x_bits as int, window_size.x as int);
            lemma_fraction_of(y_bits as int, window_size.y as int);
        }
        let angle: i64 = mul_div((angle_bits / 256) as i64, FULL_TURN, 16_777_216);
        let x: i64 = mul_div((x_bits / 256) as i64, window_size.x, 16_777_216);
        let y: i64 = mul_div((y_bits / 256) as i64, window_size.y, 16_777_216);
        let forward = heading_of(angle + QUARTER_TURN);
        proof {
            lemma_heading(angle + QUARTER_TURN);
            let speed = LAUNCH_SPEED as int;
            lemma_fx_mul_bound(forward.x as int, speed, ONE as int, speed);
            lemma_fx_mul_bound(forward.y as int, speed, ONE as int, speed);
        }
        let velocity = forward.scaled(LAUNCH_SPEED);
        Boid {
            pos: Vec2 { x, y },
            size: Vec2 { x: 16_000_000, y: 24_000_000 },
            texture: "boid".to_string(),
            angle,
            vision_radius: VISION_RADIUS,
            avoid_radius: mul_div(VISION_RADIUS, AVOID_SHARE, ONE as i128),
            turn_rate: TURN_RATE,
            forward,
            velocity,
            local_boids: BoidDetails::new(),
        }
    }

    /// What the agent gathered about its neighbours in the current tick.
    pub fn local_boids(&self) -> (r: &BoidDetails)
        ensures
            r@ == self@.local_boids,
    {
        &self.local_boids
    }

    /// The agent's neighbour statistics, to be written. The agent stays
    /// well-formed as long as what is written is bounded.
    pub fn mut_local_boids(&mut self) -> (r: &mut BoidDetails)
        ensures
            r@ == old(self)@.local_boids,
            final(self)@ == old(self)@.with_stats(final(r)@),
    {
        &mut self.local_boids
    }

    /// Where the agent is.
    pub fn pos(&self) -> (r: Vec2)
        ensures
            r@ == self@.pos,
    {
        self.pos
    }

    /// The unit vector along the agent's velocity.
    pub fn direction(&self) -> (r: Vec2)
        ensures
            r@ == self@.forward,
    {
        self.forward
    }

    /// The agent's velocity.
    pub fn velocity(&self) -> (r: Vec2)
        ensures
            r@ == self@.velocity,
    {
        self.velocity
    }

    /// How far the agent sees.
    pub fn vision_radius(&self) -> (r: i64)
        ensures
            r == self@.vision_radius,
    {
        self.vision_radius
    }

    /// How close a neighbour may come before the agent avoids it.
    pub fn avoid_radius(&self) -> (r: i64)
        ensures
            r == self@.avoid_radius,
    {
        self.avoid_radius
    }

    /// The angle the agent is drawn at.
    pub fn angle(&self) -> (r: i64)
        ensures
            r == self@.angle,
    {
        self.angle
    }

    /// The width and height the agent is drawn with.
    pub fn size(&self) -> (r: Vec2)
        ensures
            r@ == self@.size,
    {
        self.size
    }

    /// Turns the facing angle clockwise: lowers it by the turn rate times
    /// `delta_time`, as far as 64 bits hold the result.
    pub fn turn_left(&mut self, delta_time: u32)
        ensures
            final(self)@ == turned_left(old(self)@, delta_time as int),
            old(self).wf() ==> final(self).wf(),
    {
        let step: i128 = self.turn_step(delta_time);
        self.angle = hold((self.angle as i128) - step);
    }

    /// Turns the facing angle counter-clockwise: raises it by the turn rate
    /// times `delta_time`, as far as 64 bits hold the result.
    pub fn turn_right(&mut self, delta_time: u32)
        ensures
            final(self)@ == turned_right(old(self)@, delta_time as int),
            old(self).wf() ==> final(self).wf(),
    {
        let step: i128 = self.turn_step(delta_time);
        self.angle = hold((self.angle as i128) + step);
    }

    /// The angle that the agent turns through in `delta_time`.
    fn turn_step(&self, delta_time: u32) -> (r: i128)
        ensures
            r == turn_step(self@, delta_time as int),
            magnitude(r as int) <= 0x8000_0000_0000_0000 * 0x1_0000_0000,
    {
        proof {
            lemma_product_fits(self.turn_rate, delta_time as i64);
            lemma_div_toward_zero_bounds(self.turn_rate * delta_time, ONE as int);
            assert(magnitude(self.turn_rate * delta_time) <= 0x8000_0000_0000_0000 * 0x1_0000_0000)
                by (nonlinear_arith)
                requires
                    magnitude(self.turn_rate as int) <= 0x8000_0000_0000_0000,
                    0 <= delta_time < 0x1_0000_0000,
            ;
        }
        ((self.turn_rate as i128) * (delta_time as i128)) / (ONE as i128)
    }

    /// The acceleration that the agent derives from its neighbour
    /// statistics: none without neighbours, else the weighted sum of
    /// alignment, cohesion and separation.
    pub fn steering(&self) -> (r: Vec2)
        requires
            self.wf(),
        ensures
            r@ == steering(self@),
            self@.local_boids.count == 0 ==> r@ == Vector::zero(),
            magnitude(r@.x) <= MAX_ACCELERATION,
            magnitude(r@.y) <= MAX_ACCELERATION,
    {
        proof {
            lemma_steering_bound(self@);
        }
        if self.local_boids.num_boids == 0 {
            return Vec2::zero();
        }
        let count: i64 = self.local_boids.num_boids as i64;
        let sum = self.local_boids.center;
        proof {
            lemma_components_bounded(self.velocity@, MAX_SPEED as int);
            lemma_div_toward_zero_bounds(sum.x as int, count as int);
            lemma_div_toward_zero_bounds(sum.y as int, count as int);
        }
        let center = Vec2 { x: sum.x / count, y: sum.y / count };
        let to_center = center.minus(self.pos);
        let alignment = weighted_force(
            self.local_boids.average_dir_heading,
            self.velocity,
            ALIGNMENT_WEIGHT,
        );
        let cohesion = weighted_force(to_center, self.velocity, COHESION_WEIGHT);
        let separation = weighted_force(
            self.local_boids.average_seperation_heading,
            self.velocity,
            SEPARATION_WEIGHT,
        );
        alignment.plus(cohesion).plus(separation)
    }

    /// Advances the agent by one tick of `delta_time` microseconds in a
    /// world of size `window_dim`: it accelerates as its neighbour
    /// statistics say, keeps its speed between the two limits, moves, comes
    /// back in across the edges of the world, and turns its facing angle
    /// toward its new heading.
    pub fn update(&mut self, window_dim: Vec2, delta_time: u32)
        requires
            old(self).wf(),
            valid_bounds(window_dim@),
        ensures
            final(self)@ == advance(old(self)@, window_dim@, delta_time as int),
            final(self).wf(),
            within(final(self)@.pos, window_dim@),
    {
        let dt: i64 = delta_time as i64;
        let ghost before = self@;
        proof {
            lemma_advance_valid(before, window_dim@, dt as int);
        }
        let acceleration = self.steering();
        proof {
            lemma_fx_mul_bound(
                acceleration@.x,
                dt as int,
                MAX_ACCELERATION as int,
                0xffff_ffff,
            );
            lemma_fx_mul_bound(
                acceleration@.y,
                dt as int,
                MAX_ACCELERATION as int,
                0xffff_ffff,
            );
            lemma_components_bounded(self.velocity@, MAX_SPEED as int);
        }
        let sped = self.velocity.plus(acceleration.scaled(dt));
        proof {
            lemma_norm_sq_zero(sped@);
            lemma_direction(sped@, self.forward@);
            lemma_clamped_velocity(sped@, self.forward@);
        }
        let forward = if sped.is_zero() {
            self.forward
        } else {
            sped.normalised()
        };
        let velocity = clamp_speed(sped, self.forward);
        proof {
            lemma_fx_mul_bound(velocity@.x, dt as int, MAX_SPEED as int, 0xffff_ffff);
            lemma_fx_mul_bound(velocity@.y, dt as int, MAX_SPEED as int, 0xffff_ffff);
        }
        let moved = self.pos.plus(velocity.scaled(dt));
        let pos = wrap_point(moved, window_dim);
        let along = heading_of(wrapped((self.angle as i128) + (QUARTER_TURN as i128)));
        proof {
            lemma_heading_wrapped(self.angle + QUARTER_TURN);
            lemma_heading(self.angle + QUARTER_TURN);
            lemma_fx_mul_bound(PROBE_SPEED as int, dt as int, PROBE_SPEED as int, 0xffff_ffff);
            let limit: int = ONE * ONE;
            assert(magnitude(along@.dot(forward@)) <= 2 * limit && magnitude(
                along@.cross(forward@),
            ) <= 2 * limit) by (nonlinear_arith)
                requires
                    magnitude(along@.x) <= ONE,
                    magnitude(along@.y) <= ONE,
                    magnitude(forward@.x) <= ONE,
                    magnitude(forward@.y) <= ONE,
                    limit == ONE * ONE,
            ;
        }
        let turn: i64 = if mul_div(PROBE_SPEED, dt, ONE as i128) == 0 {
            0
        } else {
            bearing_of(along.dot(forward) as i64, along.cross(forward) as i64)
        };
        self.angle = hold((self.angle as i128) + (turn as i128));
        self.pos = pos;
        self.velocity = velocity;
        self.forward = forward;
    }

    /// Adds the sprite that shows the agent to `draw_calls`.
    pub fn draw(&self, draw_calls: &mut Vec<Sprite>)
        ensures
            final(draw_calls)@.len() == old(draw_calls)@.len() + 1,
            final(draw_calls)@.drop_last() == old(draw_calls)@,
            final(draw_calls)@.last()@ == sprite_of(self@),
    {
        draw_calls.push(
            Sprite {
                position: self.pos,
                size: self.size,
                angle: self.angle,
                texture: self.texture.clone(),
            },
        );
        assert(draw_calls@.drop_last() =~= old(draw_calls)@);
    }
}

} // verus!
