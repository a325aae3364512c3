//! Plain data records for the three entity kinds of the simulation.

use vstd::prelude::*;
use crate::math::Vec2;
use crate::math::ARENA_W;
use crate::math::ARENA_H;

verus! {

/// A projectile fired by the player.
#[derive(Clone, Copy, PartialEq, Eq, Structural, Debug)]
pub struct Bullet {
    /// Position, milli-units.
    pub p: Vec2,
    /// Velocity, milli-units per time unit.
    pub v: Vec2,
    /// Radius, milli-units.
    pub r: i64,
    /// Remaining lifetime, milli-time-units.
    pub life: i64,
    /// Cleared when the bullet expires, leaves the arena or hits an enemy.
    pub alive: bool,
}

/// A pursuing enemy.
#[derive(Clone, Copy, PartialEq, Eq, Structural, Debug)]
pub struct Enemy {
    /// Position, milli-units.
    pub p: Vec2,
    /// Velocity, milli-units per time unit.
    pub v: Vec2,
    /// Radius, milli-units.
    pub r: i64,
    /// Pursuit speed, milli-units per time unit.
    pub speed: i64,
    /// Remaining hit points; at least 1 while alive.
    pub hp: i64,
    /// Cleared when hit points reach zero.
    pub alive: bool,
}

/// The player avatar.
#[derive(Clone, Copy, PartialEq, Eq, Structural, Debug)]
pub struct Player {
    /// Position, milli-units.
    pub p: Vec2,
    /// Radius, milli-units.
    pub r: i64,
    /// Movement speed, milli-units per time unit.
    pub speed: i64,
    /// Hit points; the game ends when they reach zero.
    pub hp: i64,
    /// Shot cooldown duration, milli-time-units.
    pub shoot_cd: i64,
    /// Remaining cooldown before the next shot, milli-time-units.
    pub shoot_t: i64,
}

impl Player {
    /// The player a fresh game starts with: centered in the arena,
    /// full hit points, cooldown expired.
    pub open spec fn fresh() -> Player {
        Player {
            p: Vec2 { x: 480_000, y: 270_000 },
            r: 12_000,
            speed: 300_000,
            hp: 100,
            shoot_cd: 120,
            shoot_t: 0,
        }
    }
}

impl Default for Player {
    /// The starting player.
    fn default() -> (p: Player)
        ensures
            p == Player::fresh(),
    {
        Player {
            p: Vec2 { x: ARENA_W / 2, y: ARENA_H / 2 },

            r: 12_000,
            speed: 300_000,
            hp: 100,
            shoot_cd: 120,
            shoot_t: 0,
        }
    }
}

} // verus!
