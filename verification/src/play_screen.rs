//! A flock in its world, and the fixed-step driver that advances it.
use vstd::prelude::*;
use rand::rngs::ThreadRng;
use crate::boid::{flock_view, sprite_of, Boid, Sprite};
use crate::collisions::boid_collision;
use crate::flocking::{
    advance, is_spawn, lemma_advance_valid, observed, run, ticked, valid_bounds, valid_flock,
    within,
    BoidState, MAX_EXTENT, MAX_POPULATION,
};
use crate::vector::{Vec2, Vector};

verus! {

/// The length of one tick, in microseconds.
pub const DELTA_STEP: u32 = 1_000;

/// The most time that may wait to be simulated, in microseconds. A frame
/// that finds more than this drops it all.
pub const BACKLOG_LIMIT: u64 = 50_000;

/// The number of agents in a play screen.
pub const FLOCK_SIZE: usize = 650;

/// Why a population cannot be created.
#[derive(Clone, Copy, Debug, PartialEq, Eq, Structural)]
pub enum ConfigError {
    /// No agent was asked for.
    EmptyPopulation,
    /// More agents were asked for than `MAX_POPULATION`.
    PopulationTooLarge,
    /// The width or the height of the world is zero or negative.
    NonPositiveBounds,
    /// The width or the height of the world is beyond `MAX_EXTENT`.
    BoundsTooLarge,
}

/// What is wrong with a world of size `window`, if anything.
pub open spec fn bounds_error(window: Vector) -> Option<ConfigError> {
    if window.x <= 0 || window.y <= 0 {
        Some(ConfigError::NonPositiveBounds)
    } else if window.x > MAX_EXTENT || window.y > MAX_EXTENT {
        Some(ConfigError::BoundsTooLarge)
    } else {
        None
    }
}

/// What is wrong with a population of `count` agents in a world of size
/// `window`, if anything. The count is looked at first.
pub open spec fn config_error(count: int, window: Vector) -> Option<ConfigError> {
    if count <= 0 {
        Some(ConfigError::EmptyPopulation)
    } else if count > MAX_POPULATION {
        Some(ConfigError::PopulationTooLarge)
    } else {
        bounds_error(window)
    }
}

/// The time waiting to be simulated once `elapsed` has been added to what
/// was `accumulated`: their sum, or nothing when the sum is beyond
/// `BACKLOG_LIMIT`.
pub open spec fn pending(accumulated: int, elapsed: int) -> int {
    if accumulated + elapsed > BACKLOG_LIMIT {
        0
    } else {
        accumulated + elapsed
    }
}

/// The whole ticks that a frame runs.
pub open spec fn due_ticks(accumulated: int, elapsed: int) -> int {
    pending(accumulated, elapsed) / (DELTA_STEP as int)
}

/// The time that a frame leaves for the next one.
pub open spec fn carried(accumulated: int, elapsed: int) -> int {
    pending(accumulated, elapsed) % (DELTA_STEP as int)
}

/// No frame runs more than 50 ticks, whatever time has piled up, and none
/// carries a whole tick over.
pub proof fn lemma_frame_budget(accumulated: int, elapsed: int)
    requires
        0 <= accumulated,
        0 <= elapsed,
    ensures
        0 <= due_ticks(accumulated, elapsed) <= 50,
        0 <= carried(accumulated, elapsed) < DELTA_STEP,
        pending(accumulated, elapsed) == due_ticks(accumulated, elapsed) * DELTA_STEP + carried(
            accumulated,
            elapsed,
        ),
{
}

/// Checks the size of a world.
pub fn check_bounds(window: Vec2) -> (r: Result<(), ConfigError>)
    ensures
        r is Ok <==> valid_bounds(window@),
        r is Err ==> bounds_error(window@) == Some(r->Err_0),
        r is Ok ==> bounds_error(window@) is None,
{
    if window.x <= 0 || window.y <= 0 {
        Err(ConfigError::NonPositiveBounds)
    } else if window.x > MAX_EXTENT || window.y > MAX_EXTENT {
        Err(ConfigError::BoundsTooLarge)
    } else {
        Ok(())
    }
}

/// How many whole ticks a frame runs and how much time it leaves over, given
/// the time left over by the frame before and the time that has passed
/// since. Never more than 50 ticks.
pub fn frame_budget(accumulated: u64, elapsed: u64) -> (r: (u64, u64))
    ensures
        r.0 == due_ticks(accumulated as int, elapsed as int),
        r.1 == carried(accumulated as int, elapsed as int),
        r.0 <= 50,
        r.1 < DELTA_STEP,
{
    let total: u64 = match accumulated.checked_add(elapsed) {
        Some(sum) => if sum > BACKLOG_LIMIT {
            0
        } else {
            sum
        },
        None => 0,
    };
    (total / (DELTA_STEP as u64), total % (DELTA_STEP as u64))
}

/// A population of `count` agents, each at a random place in a world of size
/// `world_bounds` and heading a random way.
pub fn create_population(count: usize, world_bounds: Vec2, rng: &mut ThreadRng) -> (r: Result<
    Vec<Boid>,
    ConfigError,
>)
    ensures
        match r {
            Ok(boids) => {
                &&& config_error(count as int, world_bounds@) is None
                &&& boids.len() == count
                &&& valid_flock(flock_view(boids@))
                &&& forall|i: int|
                    0 <= i < count ==> is_spawn(
                        #[trigger] flock_view(boids@)[i],
                        world_bounds@,
                    ) && within(flock_view(boids@)[i].pos, world_bounds@)
            },
            Err(e) => config_error(count as int, world_bounds@) == Some(e),
        },
{
    if count == 0 {
        return Err(ConfigError::EmptyPopulation);
    }
    if count > MAX_POPULATION {
        return Err(ConfigError::PopulationTooLarge);
    }
    match check_bounds(world_bounds) {
        Err(e) => {
            return Err(e);
        },
        Ok(_) => {},
    }
    let mut boids: Vec<Boid> = Vec::new();
    let mut made: usize = 0;
    while made < count
        invariant
            0 <= made <= count <= MAX_POPULATION,
            valid_bounds(world_bounds@),
            boids.len() == made,
            forall|i: int|
                0 <= i < made ==> (#[trigger] flock_view(boids@)[i]).valid() && is_spawn(
                    flock_view(boids@)[i],
                    world_bounds@,
                ) && within(flock_view(boids@)[i].pos, world_bounds@),
        decreases count - made,
    {
        let ghost before = boids@;
        let agent = Boid::new(rng, world_bounds);
        let ghost state = agent@;
        boids.push(agent);
        proof {
            assert forall|i: int| 0 <= i < made + 1 implies (#[trigger] flock_view(
                boids@,
            )[i]).valid() && is_spawn(flock_view(boids@)[i], world_bounds@) && within(
                flock_view(boids@)[i].pos,
                world_bounds@,
            ) by {
                if i < made {
                    assert(boids@[i] == before[i]);
                    assert(flock_view(boids@)[i] == flock_view(before)[i]);
                    assert(flock_view(before)[i].valid());
                } else {
                    assert(flock_view(boids@)[i] == state);
                }
            }
        }
        made += 1;
    }
    Ok(boids)
}

/// A flock and the world it lives in.
#[derive(Debug)]
pub struct PlayScreen {
    window_dim: Vec2,
    boids: Vec<Boid>,
}

impl PlayScreen {
    /// The states of the agents, in the order in which they were created.
    pub closed spec fn flock(&self) -> Seq<BoidState> {
        flock_view(self.boids@)
    }

    /// The size of the world.
    pub closed spec fn window(&self) -> Vector {
        self.window_dim@
    }

    /// The world has a valid size, and the flock in it is valid.
    pub open spec fn wf(&self) -> bool {
        valid_bounds(self.window()) && valid_flock(self.flock())
    }

    /// A play screen with `FLOCK_SIZE` agents, each at a random place in a
    /// world of size `window_size` and heading a random way.
    pub fn new(window_size: Vec2, rng: &mut ThreadRng) -> (r: Result<PlayScreen, ConfigError>)
        ensures
            match r {
                Ok(screen) => {
                    &&& valid_bounds(window_size@)
                    &&& screen.wf()
                    &&& screen.window() == window_size@
                    &&& screen.flock().len() == FLOCK_SIZE
                    &&& forall|i: int|
                        0 <= i < FLOCK_SIZE ==> is_spawn(
                            #[trigger] screen.flock()[i],
                            window_size@,
                        ) && within(screen.flock()[i].pos, window_size@)
                },
                Err(e) => bounds_error(window_size@) == Some(e),
            },
    {
        match create_population(FLOCK_SIZE, window_size, rng) {
            Ok(boids) => Ok(PlayScreen { window_dim: window_size, boids }),
            Err(e) => Err(e),
        }
    }

    /// A play screen with the given agents in a world of size `window_size`.
    pub fn with_boids(window_size: Vec2, boids: Vec<Boid>) -> (r: Result<PlayScreen, ConfigError>)
        requires
            forall|i: int| 0 <= i < boids.len() ==> (#[trigger] boids[i]).wf(),
        ensures
            match r {
                Ok(screen) => {
                    &&& config_error(boids.len() as int, window_size@) is None
                    &&& screen.wf()
                    &&& screen.window() == window_size@
                    &&& screen.flock() == flock_view(boids@)
                },
                Err(e) => config_error(boids.len() as int, window_size@) == Some(e),
            },
    {
        if boids.len() == 0 {
            return Err(ConfigError::EmptyPopulation);
        }
        if boids.len() > MAX_POPULATION {
            return Err(ConfigError::PopulationTooLarge);
        }
        match check_bounds(window_size) {
            Err(e) => {
                return Err(e);
            },
            Ok(_) => {},
        }
        proof {
            assert forall|i: int| 0 <= i < boids.len() implies (#[trigger] flock_view(
                boids@,
            )[i]).valid() by {
                assert(boids[i].wf());
            }
        }
        Ok(PlayScreen { window_dim: window_size, boids })
    }

    /// The agents, in the order in which they were created.
    pub fn boids(&self) -> (r: &Vec<Boid>)
        ensures
            flock_view(r@) == self.flock(),
    {
        &self.boids
    }

    /// The size of the world.
    pub fn window_dim(&self) -> (r: Vec2)
        ensures
            r@ == self.window(),
    {
        self.window_dim
    }

    /// Gives the world a new size. The agents stay where they are; the next
    /// tick brings those that are now outside back in.
    pub fn set_window_dimensions(&mut self, window_size: Vec2) -> (r: Result<(), ConfigError>)
        ensures
            final(self).flock() == old(self).flock(),
            match r {
                Ok(_) => valid_bounds(window_size@) && final(self).window() == window_size@,
                Err(e) => bounds_error(window_size@) == Some(e) && final(self).window() == old(
                    self,
                ).window(),
            },
            old(self).wf() ==> final(self).wf(),
    {
        match check_bounds(window_size) {
            Err(e) => Err(e),
            Ok(_) => {
                self.window_dim = window_size;
                Ok(())
            },
        }
    }

    /// Runs one tick of `delta_time` microseconds: every agent gathers its
    /// statistics from the flock as it stood before the tick, and then every
    /// agent advances on what it gathered.
    pub fn update(&mut self, delta_time: u32)
        requires
            old(self).wf(),
        ensures
            final(self).wf(),
            final(self).window() == old(self).window(),
            final(self).flock() == ticked(
                old(self).flock(),
                old(self).window(),
                delta_time as int,
            ),
            forall|i: int|
                0 <= i < final(self).flock().len() ==> within(
                    (#[trigger] final(self).flock()[i]).pos,
                    final(self).window(),
                ),
    {
        let ghost before = self.flock();
        let window = self.window_dim;
        boid_collision(&mut self.boids, delta_time);
        let ghost seen = observed(before);
        let n: usize = self.boids.len();
        let mut i: usize = 0;
        while i < n
            invariant
                0 <= i <= n,
                n == self.boids.len(),
                n == seen.len(),
                n <= MAX_POPULATION,
                window == self.window_dim,
                valid_bounds(window@),
                seen == observed(before),
                before.len() == n,
                forall|k: int| 0 <= k < n ==> (#[trigger] seen[k]).valid(),
                forall|k: int|
                    0 <= k < i ==> (#[trigger] self.boids[k])@ == advance(
                        seen[k],
                        window@,
                        delta_time as int,
                    ),
                forall|k: int| i <= k < n ==> (#[trigger] self.boids[k])@ == seen[k],
            decreases n - i,
        {
            let agent = &mut self.boids[i];
            agent.update(window, delta_time);
            i += 1;
        }
        proof {
            assert(self.flock() =~= ticked(before, window@, delta_time as int));
            assert forall|k: int| 0 <= k < n implies (#[trigger] self.flock()[k]).valid()
                && within(self.flock()[k].pos, window@) by {
                lemma_advance_valid(seen[k], window@, delta_time as int);
            }
        }
    }

    /// Runs one frame: adds `wall_elapsed_time` to `accumulated_time`, drops
    /// the backlog if it is beyond `BACKLOG_LIMIT`, runs as many whole ticks
    /// of `DELTA_STEP` as fit, and returns the time left over.
    pub fn step(&mut self, accumulated_time: u64, wall_elapsed_time: u64) -> (remaining: u64)
        requires
            old(self).wf(),
        ensures
            final(self).wf(),
            final(self).window() == old(self).window(),
            final(self).flock() == run(
                old(self).flock(),
                old(self).window(),
                DELTA_STEP as int,
                due_ticks(accumulated_time as int, wall_elapsed_time as int) as nat,
            ),
            remaining == carried(accumulated_time as int, wall_elapsed_time as int),
            due_ticks(accumulated_time as int, wall_elapsed_time as int) <= 50,
    {
        let (ticks, remaining) = frame_budget(accumulated_time, wall_elapsed_time);
        let ghost start = self.flock();
        let mut done: u64 = 0;
        while done < ticks
            invariant
                0 <= done <= ticks,
                self.wf(),
                self.window() == old(self).window(),
                self.flock() == run(start, self.window(), DELTA_STEP as int, done as nat),
            decreases ticks - done,
        {
            self.update(DELTA_STEP);
            done += 1;
        }
        remaining
    }

    /// Adds the sprite of every agent to `draw_calls`, in the order of the
    /// flock.
    pub fn draw(&self, draw_calls: &mut Vec<Sprite>)
        ensures
            final(draw_calls)@.len() == old(draw_calls)@.len() + self.flock().len(),
            final(draw_calls)@.take(old(draw_calls)@.len() as int) == old(draw_calls)@,
            forall|i: int|
                0 <= i < self.flock().len() ==> (#[trigger] final(draw_calls)@[old(
                    draw_calls,
                )@.len() + i])@ == sprite_of(self.flock()[i]),
    {
        let n: usize = self.boids.len();
        let ghost start = draw_calls@;
        let mut i: usize = 0;
        while i < n
            invariant
                0 <= i <= n,
                n == self.boids.len(),
                draw_calls@.len() == start.len() + i,
                draw_calls@.take(start.len() as int) == start,
                forall|k: int|
                    0 <= k < i ==> (#[trigger] draw_calls@[start.len() + k])@ == sprite_of(
                        self.flock()[k],
                    ),
            decreases n - i,
        {
            let ghost earlier = draw_calls@;
            self.boids[i].draw(draw_calls);
            proof {
                assert(draw_calls@.drop_last() == earlier);
                assert forall|k: int| 0 <= k < earlier.len() implies draw_calls@[k]
                    == earlier[k] by {
                    assert(draw_calls@.drop_last()[k] == draw_calls@[k]);
                }
                assert(draw_calls@.take(start.len() as int) =~= earlier.take(start.len() as int));
                assert(draw_calls@[start.len() + i] == draw_calls@.last());
                assert(self.flock()[i as int] == self.boids[i as int]@);
                assert forall|k: int| 0 <= k < i implies (#[trigger] draw_calls@[start.len()
                    + k])@ == sprite_of(self.flock()[k]) by {
                    assert(draw_calls@[start.len() + k] == earlier[start.len() + k]);
                }
            }
            i += 1;
        }
    }
}

} // verus!
