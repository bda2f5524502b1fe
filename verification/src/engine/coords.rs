//! Signed 2D coordinates for the engine.
//!
//! Naming the dimensions {x, y} results in a more readable API than using
//! indices of a tuple (x, y).

use crate::coords::div_trunc;
use vstd::prelude::*;

verus! {

#[derive(Clone, Copy, Debug, Eq, Hash, PartialEq, Structural)]
pub struct Coords {
    pub x: i32,
    pub y: i32,
}

impl Coords {
    /// These coordinates divided down from pixel space to cell space.
    pub fn rescale(&self, scale: u32) -> (r: Self)
        requires
            0 < scale <= i32::MAX,
        ensures
            r.x == div_trunc(self.x as int, scale as int),
            r.y == div_trunc(self.y as int, scale as int),
    {
        Coords { x: self.x / scale as i32, y: self.y / scale as i32 }
    }

    /// Divide these coordinates down in place.
    pub fn rescale_mut(&mut self, scale: u32)
        requires
            0 < scale <= i32::MAX,
        ensures
            final(self).x == div_trunc(old(self).x as int, scale as int),
            final(self).y == div_trunc(old(self).y as int, scale as int),
    {
        self.x = self.x / scale as i32;
        self.y = self.y / scale as i32;
    }
}

} // verus!
