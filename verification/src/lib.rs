//! A two-dimensional flocking simulation in fixed-point arithmetic.
//!
//! Every quantity is an integer counted in millionths: lengths in millionths
//! of a world unit, times in microseconds, angles in millionths of a degree.
//! Working in integers keeps each tick exactly reproducible and lets every
//! rule of the simulation be stated and proved without rounding caveats.
//!
//! [`flocking`] states the rules as mathematics and [`laws`] proves what
//! follows from them. [`boid`], [`collisions`] and [`play_screen`] hold the
//! executable agents, the neighbourhood query and the fixed-step driver, each
//! held to those rules. [`fixed`], [`vector`] and [`angle`] are the
//! arithmetic underneath.
pub mod fixed;
pub mod vector;
pub mod angle;
pub mod flocking;
pub mod boid;
pub mod collisions;
pub mod play_screen;
pub mod laws;
