//! Cell state for the engine.
//!
//! A cell is dead or alive. Each step, every cell counts its 8 neighbors'
//! living cells: a living cell with exactly 2 or 3 living neighbors stays
//! alive, a dead cell with exactly 3 living neighbors becomes alive, and
//! every other cell is dead.

use vstd::prelude::*;

verus! {

#[derive(Clone, Copy, PartialEq, Eq, Structural)]
pub enum Cell {
    Dead,
    Alive,
}

/// The numeric weight of a cell when alive neighbors are summed.
pub open spec fn cell_value(c: Cell) -> int {
    match c {
        Cell::Dead => 0,
        Cell::Alive => 1,
    }
}

/// The B3/S23 rule: survival on 2 or 3 alive neighbors, birth on exactly 3.
pub open spec fn life_rule(c: Cell, alive_neighbors: int) -> Cell {
    match c {
        Cell::Alive => if alive_neighbors == 2 || alive_neighbors == 3 {
            Cell::Alive
        } else {
            Cell::Dead
        },
        Cell::Dead => if alive_neighbors == 3 {
            Cell::Alive
        } else {
            Cell::Dead
        },
    }
}

/// Which cells of a board are alive, as a mask.
pub open spec fn alive_mask(board: Seq<Cell>) -> Seq<bool> {
    board.map_values(|c: Cell| c is Alive)
}

impl Cell {
    /// This cell as a 0/1 summand.
    pub fn as_value(&self) -> (r: u8)
        ensures
            r == cell_value(*self),
    {
        match self {
            Cell::Dead => 0,
            Cell::Alive => 1,
        }
    }

    /// The state of this cell in the next generation.
    pub fn next(&self, alive_neighbors: u8) -> (r: Self)
        ensures
            r == life_rule(*self, alive_neighbors as int),
    {
        match (self, alive_neighbors) {
            (Cell::Alive, 2 | 3) => Cell::Alive,
            (Cell::Alive, _) => Cell::Dead,
            (Cell::Dead, 3) => Cell::Alive,
            (Cell::Dead, _) => Cell::Dead,
        }
    }

    /// Flip cell state, `Dead -> Alive`, `Alive -> Dead`.
    pub fn toggle(&mut self)
        ensures
            *final(self) == (if *old(self) is Alive { Cell::Dead } else { Cell::Alive }),
    {
        *self = match self {
            Cell::Alive => Cell::Dead,
            Cell::Dead => Cell::Alive,
        }
    }
}

} // verus!
