//! Game of Life state.
//!
//! Includes board size (expressed in number of columns and rows), current
//! generation, board state (current and next), and a pre-computed neighbor
//! list for each cell.

use crate::coords::{
    lemma_index_in_range, lemma_row_in_range, nb_index, nb_seq, off_a, off_b, spec_index, wrap,
    CELL_NEIGHBORS,
};
use crate::engine::cell::{cell_value, life_rule, Cell};
use crate::engine::config::Config;
use crate::engine::coords::Coords;
use vstd::prelude::*;

verus! {

/// Dimensions the engine accepts: positive, with coordinates representable
/// as `i32` and the cell count representable as `u32`.
pub open spec fn dims_ok(cols: int, rows: int) -> bool {
    &&& 0 < cols <= i32::MAX
    &&& 0 < rows <= i32::MAX
    &&& cols * rows <= u32::MAX
}

/// How many of the listed cells are alive.
pub open spec fn alive_in(board: Seq<Cell>, nbrs: Seq<usize>) -> int
    decreases nbrs.len(),
{
    if nbrs.len() == 0 {
        0
    } else {
        alive_in(board, nbrs.drop_last()) + cell_value(board[nbrs.last() as int])
    }
}

/// The alive-neighbor count of cell `i`.
pub open spec fn neighbor_count(board: Seq<Cell>, i: int, cols: int, rows: int) -> int {
    alive_in(board, nb_seq(i, cols, rows))
}

/// The whole board advanced by one generation: every cell is replaced by the
/// rule applied to its old state and its old alive-neighbor count.
pub open spec fn step_board(board: Seq<Cell>, cols: int, rows: int) -> Seq<Cell> {
    Seq::new(board.len(), |i: int| life_rule(board[i], neighbor_count(board, i, cols, rows)))
}

/// Game of Life state
///
/// State is initialized with two boards, one representing current state and
/// another for the next one. This double buffer enables better performance,
/// especially in conjunction with the final swap of each step.
///
/// The indices of all neighbors of each cell are pre-computed once, in order
/// to speed up neighbor inspection.
pub struct State {
    pub generation: u32,
    pub cols: u32,
    pub rows: u32,
    pub curr: Vec<Cell>,
    pub next: Vec<Cell>,
    pub neighbors: Vec<Vec<usize>>,
}

impl State {
    /// Well-formedness: buffers and table match the dimensions, and every
    /// table row holds exactly the 8 wrapped neighbor indices of its cell.
    pub open spec fn wf(&self) -> bool {
        &&& dims_ok(self.cols as int, self.rows as int)
        &&& self.curr@.len() == self.cols * self.rows
        &&& self.next@.len() == self.cols * self.rows
        &&& self.neighbors@.len() == self.cols * self.rows
        &&& forall|i: int|
            0 <= i < self.neighbors@.len() ==> #[trigger] self.neighbors@[i]@ =~= nb_seq(
                i,
                self.cols as int,
                self.rows as int,
            )
    }

    /// Create a board of dead cells and its neighbor table.
    pub fn new(config: &Config) -> (r: Self)
        requires
            dims_ok(config.cols as int, config.rows as int),
        ensures
            r.wf(),
            r.generation == 0,
            r.cols == config.cols,
            r.rows == config.rows,
            forall|i: int| 0 <= i < r.curr@.len() ==> r.curr@[i] is Dead,
            forall|i: int| 0 <= i < r.next@.len() ==> r.next@[i] is Dead,
    {
        let cols = config.cols;
        let rows = config.rows;
        let board_capacity = (cols * rows) as usize;
        let curr = vec![Cell::Dead; board_capacity];
        let next = vec![Cell::Dead; board_capacity];

        let mut neighbors: Vec<Vec<usize>> = Vec::with_capacity(board_capacity);
        let mut i: usize = 0;
        while i < board_capacity
            invariant
                dims_ok(cols as int, rows as int),
                board_capacity == cols * rows,
                i <= board_capacity,
                neighbors@.len() == i,
                forall|j: int|
                    0 <= j < i ==> #[trigger] neighbors@[j]@ =~= nb_seq(
                        j,
                        cols as int,
                        rows as int,
                    ),
            decreases board_capacity - i,
        {
            neighbors.push(get_neighbors_indices(i, cols, rows));
            i = i + 1;
        }

        State { generation: 0, cols, rows, curr, next, neighbors }
    }

    /// Returns the number of alive neighbors using the pre-computed neighbors
    /// index.
    pub fn count_alive_neighbors(&self, index: usize) -> (r: u8)
        requires
            self.wf(),
            index < self.curr@.len(),
        ensures
            r == neighbor_count(self.curr@, index as int, self.cols as int, self.rows as int),
            r <= 8,
    {
        let nbrs = &self.neighbors[index];
        let ghost target = nb_seq(index as int, self.cols as int, self.rows as int);
        let mut count: u8 = 0;
        let mut k: usize = 0;
        while k < CELL_NEIGHBORS
            invariant
                self.wf(),
                index < self.curr@.len(),
                nbrs@ =~= target,
                target == nb_seq(index as int, self.cols as int, self.rows as int),
                k <= CELL_NEIGHBORS,
                count == alive_in(self.curr@, target.take(k as int)),
                count <= k,
            decreases CELL_NEIGHBORS - k,
        {
            proof {
                lemma_index_in_range(
                    index as int % self.cols as int + off_b(k as int),
                    index as int / self.cols as int + off_a(k as int),
                    self.cols as int,
                    self.rows as int,
                );
                assert(target.take(k + 1).drop_last() =~= target.take(k as int));
            }
            count = count + self.curr[nbrs[k]].as_value();
            k = k + 1;
        }
        proof {
            assert(target.take(CELL_NEIGHBORS as int) =~= target);
        }
        count
    }

    pub fn iter(&self) -> (r: BoardIterator<'_>)
        ensures
            r.index == 0,
            r.state == self,
    {
        BoardIterator { index: 0, state: &self }
    }

    /// Compute next generation state based on current one.
    ///
    /// Every cell of the scratch buffer is computed from the current buffer
    /// alone; the two buffers swap at the end, so afterwards the current
    /// buffer holds the stepped board and the generation counter is one
    /// higher.
    pub fn next(&mut self)
        requires
            old(self).wf(),
            old(self).generation < u32::MAX,
        ensures
            final(self).wf(),
            final(self).curr@ == step_board(
                old(self).curr@,
                old(self).cols as int,
                old(self).rows as int,
            ),
            final(self).next@ == old(self).curr@,
            final(self).generation == old(self).generation + 1,
            final(self).cols == old(self).cols,
            final(self).rows == old(self).rows,
            final(self).neighbors == old(self).neighbors,
    {
        let ghost prev = self.curr@;
        let ghost cols = self.cols as int;
        let ghost rows = self.rows as int;
        let n = self.curr.len();
        let mut i: usize = 0;
        while i < n
            invariant
                self.wf(),
                n == self.curr@.len(),
                i <= n,
                self.curr@ == prev,
                cols == self.cols as int,
                rows == self.rows as int,
                self.neighbors == old(self).neighbors,
                self.generation == old(self).generation,
                self.next@.len() == n,
                forall|j: int|
                    0 <= j < i ==> #[trigger] self.next@[j] == step_board(prev, cols, rows)[j],
            decreases n - i,
        {
            let cell = self.curr[i];
            let alive_neighbors = self.count_alive_neighbors(i);
            let stepped = cell.next(alive_neighbors);
            self.next[i] = stepped;
            i = i + 1;
        }
        self.generation = self.generation + 1;
        core::mem::swap(&mut self.curr, &mut self.next);
        proof {
            assert(self.curr@ =~= step_board(prev, cols, rows));
        }
    }

    /// Updates current board's cell state to match provided coordinates and
    /// value. Coordinates wrap, so any pair addresses some cell.
    pub fn set_cell(&mut self, x: i32, y: i32, value: Cell)
        requires
            old(self).wf(),
        ensures
            final(self).wf(),
            final(self).curr@ == old(self).curr@.update(
                spec_index(x as int, y as int, old(self).cols as int, old(self).rows as int),
                value,
            ),
            final(self).next == old(self).next,
            final(self).generation == old(self).generation,
            final(self).cols == old(self).cols,
            final(self).rows == old(self).rows,
            final(self).neighbors == old(self).neighbors,
    {
        let index = coords_to_index(x, y, self.cols, self.rows);
        self.curr[index] = value;
    }

    /// Flips the cell state at the wrapped coordinates.
    pub fn toggle_cell(&mut self, coords: &Coords)
        requires
            old(self).wf(),
        ensures
            final(self).wf(),
            final(self).curr@ == old(self).curr@.update(
                spec_index(
                    coords.x as int,
                    coords.y as int,
                    old(self).cols as int,
                    old(self).rows as int,
                ),
                (if old(self).curr@[spec_index(
                    coords.x as int,
                    coords.y as int,
                    old(self).cols as int,
                    old(self).rows as int,
                )] is Alive {
                    Cell::Dead
                } else {
                    Cell::Alive
                }),
            ),
            final(self).next == old(self).next,
            final(self).generation == old(self).generation,
            final(self).cols == old(self).cols,
            final(self).rows == old(self).rows,
            final(self).neighbors == old(self).neighbors,
    {
        let index = coords_to_index(coords.x, coords.y, self.cols, self.rows);
        self.curr[index].toggle();
    }

    /// Fills the entire board with dead cells. The generation counter keeps
    /// its value.
    pub fn clear(&mut self)
        requires
            old(self).wf(),
        ensures
            final(self).wf(),
            final(self).curr@.len() == old(self).curr@.len(),
            forall|i: int| 0 <= i < final(self).curr@.len() ==> final(self).curr@[i] is Dead,
            final(self).next == old(self).next,
            final(self).generation == old(self).generation,
            final(self).cols == old(self).cols,
            final(self).rows == old(self).rows,
            final(self).neighbors == old(self).neighbors,
    {
        let n = self.curr.len();
        let mut i: usize = 0;
        while i < n
            invariant
                n == self.curr@.len(),
                i <= n,
                self.next == old(self).next,
                self.generation == old(self).generation,
                self.cols == old(self).cols,
                self.rows == old(self).rows,
                self.neighbors == old(self).neighbors,
                self.wf(),
                forall|j: int| 0 <= j < i ==> self.curr@[j] is Dead,
            decreases n - i,
        {
            self.curr[i] = Cell::Dead;
            i = i + 1;
        }
    }

    /// Coordinates wrapped into the board, as a fresh pair.
    pub fn create_coords(&self, x: i32, y: i32) -> (r: Coords)
        requires
            self.wf(),
        ensures
            r.x == x as int % self.cols as int,
            r.y == y as int % self.rows as int,
    {
        Coords {
            x: wrap(x, self.cols as usize) as i32,
            y: wrap(y, self.rows as usize) as i32,
        }
    }

    /// An existing pair of coordinates wrapped into the board.
    pub fn wrap_coords(&self, coords: &Coords) -> (r: Coords)
        requires
            self.wf(),
        ensures
            r.x == coords.x as int % self.cols as int,
            r.y == coords.y as int % self.rows as int,
    {
        Coords {
            x: wrap(coords.x, self.cols as usize) as i32,
            y: wrap(coords.y, self.rows as usize) as i32,
        }
    }
}

/// A cursor over the current board, yielding each cell with its coordinates.
pub struct BoardIterator<'a> {
    pub index: usize,
    pub state: &'a State,
}

impl<'a> BoardIterator<'a> {
    /// The next cell and its coordinates, or `None` past the end.
    pub fn next(&mut self) -> (r: Option<(Coords, Cell)>)
        requires
            old(self).state.wf(),
            old(self).index <= old(self).state.curr@.len(),
        ensures
            final(self).state == old(self).state,
            old(self).index == old(self).state.curr@.len() ==> r is None && final(self).index
                == old(self).index,
            old(self).index < old(self).state.curr@.len() ==> {
                &&& final(self).index == old(self).index + 1
                &&& r matches Some((coords, cell)) && coords.x == old(self).index as int
                    % old(self).state.cols as int && coords.y == old(self).index as int
                    / old(self).state.cols as int && cell == old(self).state.curr@[old(
                    self,
                ).index as int]
            },
    {
        if self.index == self.state.curr.len() {
            None
        } else {
            proof {
                lemma_row_in_range(
                    self.index as int,
                    self.state.cols as int,
                    self.state.rows as int,
                );
            }
            let coords = coords_from_index(self.index, self.state.cols);
            let cell = self.state.curr[self.index];
            self.index = self.index + 1;
            Some((coords, cell))
        }
    }
}

/// Returns a vector containing current cell's neighbors indices.
///
/// ```txt
/// +-----+-----+-----+
/// | nw  |  n  | ne  |
/// +-----+-----+-----+
/// |  w  | cur |  e  |
/// +-----+-----+-----+
/// | sw  |  s  | se  |
/// +-----+-----+-----+
/// ```
fn get_neighbors_indices(index: usize, cols: u32, rows: u32) -> (r: Vec<usize>)
    requires
        dims_ok(cols as int, rows as int),
        index < cols * rows,
    ensures
        r@ =~= nb_seq(index as int, cols as int, rows as int),
{
    proof {
        lemma_row_in_range(index as int, cols as int, rows as int);
    }
    let coords = coords_from_index(index, cols);
    let mut indices: Vec<usize> = Vec::with_capacity(CELL_NEIGHBORS);
    let mut k: usize = 0;
    while k < CELL_NEIGHBORS
        invariant
            dims_ok(cols as int, rows as int),
            coords.x == index as int % cols as int,
            coords.y == index as int / cols as int,
            0 <= coords.x < cols,
            0 <= coords.y < rows,
            k <= CELL_NEIGHBORS,
            indices@.len() == k,
            forall|j: int|
                0 <= j < k ==> indices@[j] == nb_index(index as int, j, cols as int, rows as int),
        decreases CELL_NEIGHBORS - k,
    {
        let (da, db) = crate::coords::neighbor_offset(k);
        proof {
            lemma_index_in_range(
                coords.x as int + db as int,
                coords.y as int + da as int,
                cols as int,
                rows as int,
            );
        }
        indices.push(coords_to_index(coords.x + db, coords.y + da, cols, rows));
        k = k + 1;
    }
    indices
}

/// Converts Vector index into 2D coordinates (x, y).
pub fn coords_from_index(index: usize, cols: u32) -> (r: Coords)
    requires
        0 < cols <= i32::MAX,
        index as int / cols as int <= i32::MAX,
    ensures
        r.x == index as int % cols as int,
        r.y == index as int / cols as int,
{
    proof {
        vstd::arithmetic::div_mod::lemma_mod_division_less_than_divisor(
            index as int,
            cols as int,
        );
        vstd::arithmetic::div_mod::lemma_div_pos_is_pos(index as int, cols as int);
    }
    let c = cols as usize;
    let x = (index % c) as i32;
    let y = (index / c) as i32;
    Coords { x, y }
}

/// Converts 2D coordinates (x, y) into Vector index.
///
/// The conversion is wrapping, meaning that `x` values greater than `cols` or
/// less than zero are always converted into the range `0..cols`. The same
/// applies to `y` and `rows`.
pub fn coords_to_index(x: i32, y: i32, cols: u32, rows: u32) -> (r: usize)
    requires
        dims_ok(cols as int, rows as int),
    ensures
        r == spec_index(x as int, y as int, cols as int, rows as int),
        r < cols * rows,
{
    crate::coords::coords_to_index(x, y, cols as usize, rows as usize)
}

} // verus!
