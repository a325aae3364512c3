//! The per-tick input snapshot the host hands to the simulation.

use vstd::prelude::*;
use crate::math::Vec2;

verus! {

/// One tick's worth of input: held movement keys, the confirm/reset
/// key, the fire button, and the aim point in arena coordinates
/// (milli-units).
#[derive(Clone, Copy, PartialEq, Eq, Structural, Debug)]
pub struct Input {
    /// Move up.
    pub w: bool,
    /// Move left.
    pub a: bool,
    /// Move down.
    pub s: bool,
    /// Move right.
    pub d: bool,
    /// Confirm / reset after a game over.
    pub key_enter: bool,
    /// Fire held.
    pub mouse_left: bool,
    /// Aim point, milli-units.
    pub mouse_pos: Vec2,
}

impl Default for Input {
    /// The empty snapshot: nothing held, aim at the origin.
    fn default() -> (i: Input)
        ensures
            i.w == false && i.a == false && i.s == false && i.d == false,
            i.key_enter == false && i.mouse_left == false,
            i.mouse_pos.x == 0 && i.mouse_pos.y == 0,
    {
        Input {
            w: false,
            a: false,
            s: false,
            d: false,
            key_enter: false,
            mouse_left: false,
            mouse_pos: Vec2 { x: 0, y: 0 },
        }
    }
}

} // verus!
