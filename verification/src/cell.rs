//! Cell state and the B3/S23 transition rule.

use vstd::prelude::*;

verus! {

#[derive(Clone, Copy, PartialEq, Eq, Structural)]
pub enum Cell {
    Dead,
    Alive,
}

/// The numeric weight of a cell when alive neighbors are counted.
pub open spec fn cell_value(c: Cell) -> int {
    match c {
        Cell::Dead => 0,
        Cell::Alive => 1,
    }
}

/// The B3/S23 rule: a live cell survives with 2 or 3 live neighbors, a dead
/// cell is born with exactly 3; every other cell is dead next generation.
pub open spec fn life_rule(c: Cell, alive_neighbors: int) -> Cell {
    match c {
        Cell::Alive => if alive_neighbors == 2 || alive_neighbors == 3 {
            Cell::Alive
        } else {
            Cell::Dead
        },
        Cell::Dead => if alive_neighbors == 3 {
            Cell::Alive
        } else {
            Cell::Dead
        },
    }
}

impl Cell {
    /// One text byte per cell: `@` for alive, `.` for dead.
    pub fn to_ascii(&self) -> (r: u8)
        ensures
            r == (if *self is Alive { 64u8 } else { 46u8 }),
    {
        match self {
            Cell::Alive => 64,  // '@'
            Cell::Dead => 46,  // '.'
        }
    }

    /// The state of this cell in the next generation.
    pub fn next(&self, alive_neighbors: usize) -> (r: Self)
        ensures
            r == life_rule(*self, alive_neighbors as int),
    {
        match (self, alive_neighbors) {
            (Cell::Alive, 2 | 3) => Cell::Alive,
            (Cell::Alive, _) => Cell::Dead,
            (Cell::Dead, 3) => Cell::Alive,
            (Cell::Dead, _) => Cell::Dead,
        }
    }
}

} // verus!
