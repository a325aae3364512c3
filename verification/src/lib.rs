//! Simulation core of a small arcade wave-survival shooter.
//!
//! A player avatar moves in a bounded arena, fires bullets at waves of
//! pursuing enemies, and the game tracks hit points, score and wave
//! progression.  All positions, velocities and timers are fixed-point
//! integers in thousandths of a world unit (milli-units), so that every
//! step of the per-tick simulation is exact integer arithmetic.

use vstd::prelude::*;

pub mod entities;
pub mod game;
pub mod input;
pub mod math;
pub mod render;
pub mod rng;

verus! {

} // verus!
