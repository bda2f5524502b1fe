//! Conway's Game of Life simulation engine over a byte board.
//!
//! The main entry point is the [World] struct, which holds the state and
//! provides methods to interact with the simulation. The board is a flat
//! vector of 0/1 bytes, so the alive-neighbor count of a cell is the plain
//! sum of its 8 precomputed neighbors' bytes.

use crate::coords::{lemma_index_in_range, lemma_row_in_range, nb_seq, off_a, off_b, spec_index};
use crate::grid::{grid_dims_ok, Coords, Grid};
use vstd::prelude::*;

verus! {

pub const CELL_DEAD: u8 = 0;

pub const CELL_ALIVE: u8 = 1;

/// During the simulation, each cell in [World]'s board is either in
/// [Cell::Alive] or [Cell::Dead] state.
///
/// By following the B/S (Birth/Survival) rules, cells can change state.
/// Birth rules are applied to [Cell::Dead], while Survival rules are applied
/// to [Cell::Alive].
///
/// In the standard game (B3/S23), a dead cell becomes alive (Birth) if it
/// has exactly 3 alive neighbors, while a living cell Survives if it has
/// exactly 2 or 3 neighbors.
#[derive(Debug, PartialEq, Eq, Structural)]
pub enum Cell {
    Alive,
    Dead,
}

impl Cell {
    /// The 0/1 byte this cell is stored as.
    pub fn as_bit(&self) -> (r: u8)
        ensures
            r == cell_bit(*self),
    {
        match self {
            Cell::Dead => CELL_DEAD,
            Cell::Alive => CELL_ALIVE,
        }
    }

    /// The cell a stored byte stands for.
    pub fn from_bit(value: u8) -> (r: Self)
        requires
            value == 0 || value == 1,
        ensures
            r == bit_cell(value),
    {
        if value == 0 {
            Cell::Dead
        } else {
            Cell::Alive
        }
    }
}

/// The byte a cell is stored as.
pub open spec fn cell_bit(c: Cell) -> u8 {
    match c {
        Cell::Dead => 0u8,
        Cell::Alive => 1u8,
    }
}

/// The cell a stored byte stands for.
pub open spec fn bit_cell(b: u8) -> Cell {
    if b == 0 {
        Cell::Dead
    } else {
        Cell::Alive
    }
}

/// Every byte of a board is 0 or 1.
pub open spec fn bits_ok(board: Seq<u8>) -> bool {
    forall|i: int| 0 <= i < board.len() ==> board[i] == 0 || board[i] == 1
}

/// The sum of the listed cells' bytes.
pub open spec fn sum_in(board: Seq<u8>, nbrs: Seq<usize>) -> int
    decreases nbrs.len(),
{
    if nbrs.len() == 0 {
        0
    } else {
        sum_in(board, nbrs.drop_last()) + board[nbrs.last() as int]
    }
}

/// The alive-neighbor count of cell `i`.
pub open spec fn neighbor_count(board: Seq<u8>, i: int, cols: int, rows: int) -> int {
    sum_in(board, nb_seq(i, cols, rows))
}

/// The B3/S23 rule on a 0/1 byte.
pub open spec fn life_rule_bit(c: u8, alive_neighbors: int) -> u8 {
    if c == 1 {
        if alive_neighbors == 2 || alive_neighbors == 3 {
            1u8
        } else {
            0u8
        }
    } else {
        if alive_neighbors == 3 {
            1u8
        } else {
            0u8
        }
    }
}

/// The whole board advanced by one generation.
pub open spec fn step_board(board: Seq<u8>, cols: int, rows: int) -> Seq<u8> {
    Seq::new(board.len(), |i: int| life_rule_bit(board[i], neighbor_count(board, i, cols, rows)))
}

/// Represents the state and rules of a Conway's Game of Life simulation.
///
/// This struct holds the grid of cells and the logic required to advance the
/// simulation from one generation to the next.
pub struct World {
    pub curr: Vec<u8>,
    pub next: Vec<u8>,
    pub neighbors: Vec<Vec<usize>>,
    pub grid: Grid,
}

impl World {
    /// Well-formedness: buffers and table match the grid, every stored byte
    /// is 0 or 1, and every table row holds exactly the 8 wrapped neighbor
    /// indices of its cell.
    pub open spec fn wf(&self) -> bool {
        &&& grid_dims_ok(self.grid.cols as int, self.grid.rows as int)
        &&& self.curr@.len() == self.grid.cols * self.grid.rows
        &&& self.next@.len() == self.grid.cols * self.grid.rows
        &&& self.neighbors@.len() == self.grid.cols * self.grid.rows
        &&& bits_ok(self.curr@)
        &&& bits_ok(self.next@)
        &&& forall|i: int|
            0 <= i < self.neighbors@.len() ==> #[trigger] self.neighbors@[i]@ =~= nb_seq(
                i,
                self.grid.cols as int,
                self.grid.rows as int,
            )
    }

    /// Creates an empty `World`.
    ///
    /// The world is initialized with all cells in [Cell::Dead] state.
    ///
    /// For every cell, it also pre-computes all the neighbors' indices, to
    /// speed up the simulation.
    pub fn new(cols: u32, rows: u32) -> (r: Self)
        requires
            grid_dims_ok(cols as int, rows as int),
        ensures
            r.wf(),
            r.grid.cols == cols,
            r.grid.rows == rows,
            forall|i: int| 0 <= i < r.curr@.len() ==> r.curr@[i] == 0,
            forall|i: int| 0 <= i < r.next@.len() ==> r.next@[i] == 0,
    {
        let capacity = (cols * rows) as usize;
        let curr = vec![CELL_DEAD; capacity];
        let next = vec![CELL_DEAD; capacity];

        let grid = Grid::new(cols, rows);
        let mut neighbors: Vec<Vec<usize>> = Vec::with_capacity(capacity);
        let mut i: usize = 0;
        while i < capacity
            invariant
                grid_dims_ok(cols as int, rows as int),
                grid.cols == cols,
                grid.rows == rows,
                capacity == cols * rows,
                i <= capacity,
                neighbors@.len() == i,
                forall|j: int|
                    0 <= j < i ==> #[trigger] neighbors@[j]@ =~= nb_seq(
                        j,
                        cols as int,
                        rows as int,
                    ),
            decreases capacity - i,
        {
            neighbors.push(grid.calc_neighbors(i));
            i = i + 1;
        }

        World { curr, next, neighbors, grid }
    }

    /// Advances the simulation by one generation.
    ///
    /// The advancement is performed by applying game's rules to every cell
    /// based on its neighbors, updating the board to its next state.
    pub fn next(&mut self)
        requires
            old(self).wf(),
        ensures
            final(self).wf(),
            final(self).curr@ == step_board(
                old(self).curr@,
                old(self).grid.cols as int,
                old(self).grid.rows as int,
            ),
            final(self).next@ == old(self).curr@,
            final(self).grid == old(self).grid,
            final(self).neighbors == old(self).neighbors,
    {
        let ghost prev = self.curr@;
        let ghost cols = self.grid.cols as int;
        let ghost rows = self.grid.rows as int;
        let n = self.curr.len();
        let mut i: usize = 0;
        while i < n
            invariant
                self.wf(),
                n == self.curr@.len(),
                i <= n,
                self.curr@ == prev,
                cols == self.grid.cols as int,
                rows == self.grid.rows as int,
                self.grid == old(self).grid,
                self.neighbors == old(self).neighbors,
                self.next@.len() == n,
                bits_ok(self.next@),
                forall|j: int|
                    0 <= j < i ==> #[trigger] self.next@[j] == step_board(prev, cols, rows)[j],
            decreases n - i,
        {
            let cell = self.curr[i];
            let alive_neighs = self.count_alive_neighs(i);
            // Apply B/S rules to advance current cell's state.
            let stepped: u8 = if cell == CELL_ALIVE {
                if alive_neighs == 2 || alive_neighs == 3 {
                    CELL_ALIVE  // S23
                } else {
                    CELL_DEAD
                }
            } else {
                if alive_neighs == 3 {
                    CELL_ALIVE  // B3
                } else {
                    CELL_DEAD
                }
            };
            self.next[i] = stepped;
            i = i + 1;
        }
        core::mem::swap(&mut self.curr, &mut self.next);
        proof {
            assert(self.curr@ =~= step_board(prev, cols, rows));
        }
    }

    /// Updates current board's cell value.
    ///
    /// Internally, [Coords] is converted to a flat index, and [Cell] is
    /// converted to a byte, because the board is a `Vec<u8>`.
    pub fn set_cell(&mut self, coords: &Coords, cell: Cell)
        requires
            old(self).wf(),
        ensures
            final(self).wf(),
            final(self).curr@ == old(self).curr@.update(
                spec_index(
                    coords.x as int,
                    coords.y as int,
                    old(self).grid.cols as int,
                    old(self).grid.rows as int,
                ),
                cell_bit(cell),
            ),
            final(self).next == old(self).next,
            final(self).grid == old(self).grid,
            final(self).neighbors == old(self).neighbors,
    {
        let index = self.grid.coords_to_index(coords);
        self.curr[index] = cell.as_bit();
    }

    /// The cell at the wrapped coordinates.
    pub fn get_cell(&self, coords: &Coords) -> (r: Cell)
        requires
            self.wf(),
        ensures
            r == bit_cell(
                self.curr@[spec_index(
                    coords.x as int,
                    coords.y as int,
                    self.grid.cols as int,
                    self.grid.rows as int,
                )],
            ),
    {
        let index = self.grid.coords_to_index(coords);
        Cell::from_bit(self.curr[index])
    }

    /// Returns the amount of alive cells among neighbors.
    ///
    /// This computation is fast because [World] pre-computes neighbors
    /// indices upon creation.
    pub fn count_alive_neighs(&self, index: usize) -> (r: u8)
        requires
            self.wf(),
            index < self.curr@.len(),
        ensures
            r == neighbor_count(
                self.curr@,
                index as int,
                self.grid.cols as int,
                self.grid.rows as int,
            ),
            r <= 8,
    {
        let cols = self.grid.cols;
        let rows = self.grid.rows;
        let nbrs = &self.neighbors[index];
        let ghost target = nb_seq(index as int, cols as int, rows as int);
        let mut count: u8 = 0;
        let mut k: usize = 0;
        while k < 8
            invariant
                self.wf(),
                index < self.curr@.len(),
                cols == self.grid.cols,
                rows == self.grid.rows,
                nbrs@ =~= target,
                target == nb_seq(index as int, cols as int, rows as int),
                k <= 8,
                count == sum_in(self.curr@, target.take(k as int)),
                count <= k,
            decreases 8 - k,
        {
            proof {
                lemma_index_in_range(
                    index as int % cols as int + off_b(k as int),
                    index as int / cols as int + off_a(k as int),
                    cols as int,
                    rows as int,
                );
                assert(target.take(k + 1).drop_last() =~= target.take(k as int));
            }
            count = count + self.curr[nbrs[k]];
            k = k + 1;
        }
        proof {
            assert(target.take(8int) =~= target);
        }
        count
    }
}

} // verus!
