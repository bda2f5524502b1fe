//! Double-buffered Game of Life state over [`crate::cell::Cell`] boards.
//!
//! The neighbor table is precomputed once at construction; every step reads
//! the current buffer only, writes the scratch buffer, and swaps the two.

use crate::cell::{cell_value, life_rule, Cell};
use crate::coords::{
    dims_ok, lemma_index_in_range, lemma_row_in_range, off_a, off_b, spec_index, Coords,
    CELL_NEIGHBORS,
};
use vstd::prelude::*;

verus! {

/// The neighbor list of cell `i`, column by column within the 3x3 block, as
/// [`Coords::get_neighbors_indices`] produces it.
pub open spec fn nb_seq_cm(i: int, cols: int, rows: int) -> Seq<usize> {
    Seq::new(
        CELL_NEIGHBORS as nat,
        |k: int| spec_index(i % cols + off_a(k), i / cols + off_b(k), cols, rows) as usize,
    )
}

/// How many of the listed cells are alive.
pub open spec fn alive_in(board: Seq<Cell>, nbrs: Seq<usize>) -> int
    decreases nbrs.len(),
{
    if nbrs.len() == 0 {
        0
    } else {
        alive_in(board, nbrs.drop_last()) + cell_value(board[nbrs.last() as int])
    }
}

/// The alive-neighbor count of cell `i`.
pub open spec fn neighbor_count(board: Seq<Cell>, i: int, cols: int, rows: int) -> int {
    alive_in(board, nb_seq_cm(i, cols, rows))
}

/// The whole board advanced by one generation.
pub open spec fn step_board(board: Seq<Cell>, cols: int, rows: int) -> Seq<Cell> {
    Seq::new(board.len(), |i: int| life_rule(board[i], neighbor_count(board, i, cols, rows)))
}

pub struct State {
    pub iteration: usize,
    pub cols: usize,
    pub rows: usize,
    pub board: Vec<Cell>,
    pub neighbors: Vec<Vec<usize>>,
    pub next: Vec<Cell>,
}

impl State {
    /// Well-formedness: buffers and table match the dimensions, and every
    /// table row holds exactly the 8 wrapped neighbor indices of its cell.
    pub open spec fn wf(&self) -> bool {
        &&& dims_ok(self.cols as int, self.rows as int)
        &&& self.board@.len() == self.cols * self.rows
        &&& self.next@.len() == self.cols * self.rows
        &&& self.neighbors@.len() == self.cols * self.rows
        &&& forall|i: int|
            0 <= i < self.neighbors@.len() ==> #[trigger] self.neighbors@[i]@ =~= nb_seq_cm(
                i,
                self.cols as int,
                self.rows as int,
            )
    }

    /// Create a board of dead cells and its neighbor table.
    pub fn new(cols: usize, rows: usize) -> (r: Self)
        requires
            dims_ok(cols as int, rows as int),
        ensures
            r.wf(),
            r.iteration == 0,
            r.cols == cols,
            r.rows == rows,
            forall|i: int| 0 <= i < r.board@.len() ==> r.board@[i] is Dead,
    {
        let capacity = cols * rows;
        let mut neighbors: Vec<Vec<usize>> = Vec::with_capacity(capacity);

        let mut index: usize = 0;
        while index < capacity
            invariant
                dims_ok(cols as int, rows as int),
                capacity == cols * rows,
                index <= capacity,
                neighbors@.len() == index,
                forall|j: int|
                    0 <= j < index ==> #[trigger] neighbors@[j]@ =~= nb_seq_cm(
                        j,
                        cols as int,
                        rows as int,
                    ),
            decreases capacity - index,
        {
            proof {
                lemma_row_in_range(index as int, cols as int, rows as int);
            }
            let coords = Coords::from_index(index, cols);
            neighbors.push(coords.get_neighbors_indices(cols, rows));
            proof {
                assert(neighbors@[index as int]@ =~= nb_seq_cm(
                    index as int,
                    cols as int,
                    rows as int,
                ));
            }
            index = index + 1;
        }

        State {
            iteration: 0,
            cols,
            rows,
            board: vec![Cell::Dead; capacity],
            neighbors,
            next: vec![Cell::Dead; capacity],
        }
    }

    /// Returns the number of alive neighbors using the pre-computed neighbor
    /// table.
    pub fn count_alive_neighbors(&self, index: usize) -> (r: usize)
        requires
            self.wf(),
            index < self.board@.len(),
        ensures
            r == neighbor_count(self.board@, index as int, self.cols as int, self.rows as int),
            r <= 8,
    {
        let nbrs = &self.neighbors[index];
        let ghost target = nb_seq_cm(index as int, self.cols as int, self.rows as int);
        let mut count: usize = 0;
        let mut k: usize = 0;
        while k < CELL_NEIGHBORS
            invariant
                self.wf(),
                index < self.board@.len(),
                nbrs@ =~= target,
                target == nb_seq_cm(index as int, self.cols as int, self.rows as int),
                k <= CELL_NEIGHBORS,
                count == alive_in(self.board@, target.take(k as int)),
                count <= k,
            decreases CELL_NEIGHBORS - k,
        {
            proof {
                lemma_index_in_range(
                    index as int % self.cols as int + off_a(k as int),
                    index as int / self.cols as int + off_b(k as int),
                    self.cols as int,
                    self.rows as int,
                );
                assert(target.take(k + 1).drop_last() =~= target.take(k as int));
            }
            if self.board[nbrs[k]] == Cell::Alive {
                count = count + 1;
            }
            k = k + 1;
        }
        proof {
            assert(target.take(CELL_NEIGHBORS as int) =~= target);
        }
        count
    }

    /// Compute next generation state based on current one, swap the buffers,
    /// and advance the iteration counter.
    pub fn next(&mut self)
        requires
            old(self).wf(),
            old(self).iteration < usize::MAX,
        ensures
            final(self).wf(),
            final(self).board@ == step_board(
                old(self).board@,
                old(self).cols as int,
                old(self).rows as int,
            ),
            final(self).next@ == old(self).board@,
            final(self).iteration == old(self).iteration + 1,
            final(self).cols == old(self).cols,
            final(self).rows == old(self).rows,
            final(self).neighbors == old(self).neighbors,
    {
        let ghost prev = self.board@;
        let ghost cols = self.cols as int;
        let ghost rows = self.rows as int;
        let n = self.board.len();
        let mut i: usize = 0;
        while i < n
            invariant
                self.wf(),
                n == self.board@.len(),
                i <= n,
                self.board@ == prev,
                cols == self.cols as int,
                rows == self.rows as int,
                self.neighbors == old(self).neighbors,
                self.iteration == old(self).iteration,
                self.next@.len() == n,
                forall|j: int|
                    0 <= j < i ==> #[trigger] self.next@[j] == step_board(prev, cols, rows)[j],
            decreases n - i,
        {
            let cell = self.board[i];
            let alive_neighbors = self.count_alive_neighbors(i);
            let stepped = match cell {
                Cell::Alive => {
                    if alive_neighbors < 2 || alive_neighbors > 3 {
                        Cell::Dead
                    } else {
                        Cell::Alive
                    }
                },
                Cell::Dead => {
                    if alive_neighbors == 3 {
                        Cell::Alive
                    } else {
                        Cell::Dead
                    }
                },
            };
            self.next[i] = stepped;
            i = i + 1;
        }
        self.iteration = self.iteration + 1;
        core::mem::swap(&mut self.board, &mut self.next);
        proof {
            assert(self.board@ =~= step_board(prev, cols, rows));
        }
    }

    /// Write a cell value at the wrapped coordinates, into the current board
    /// only.
    pub fn set_cell(&mut self, coords: Coords, cell: Cell)
        requires
            old(self).wf(),
        ensures
            final(self).wf(),
            final(self).board@ == old(self).board@.update(
                spec_index(
                    coords.x as int,
                    coords.y as int,
                    old(self).cols as int,
                    old(self).rows as int,
                ),
                cell,
            ),
            final(self).next == old(self).next,
            final(self).iteration == old(self).iteration,
            final(self).cols == old(self).cols,
            final(self).rows == old(self).rows,
            final(self).neighbors == old(self).neighbors,
    {
        let index = coords.to_index(self.cols, self.rows);
        self.board[index] = cell;
    }

    /// One text byte per cell of the current board: `@` alive, `.` dead.
    pub fn to_ascii(&self) -> (r: Vec<u8>)
        ensures
            r@.len() == self.board@.len(),
            forall|i: int|
                0 <= i < r@.len() ==> r@[i] == (if self.board@[i] is Alive {
                    64u8
                } else {
                    46u8
                }),
    {
        let n = self.board.len();
        let mut bytes: Vec<u8> = Vec::with_capacity(n);
        let mut i: usize = 0;
        while i < n
            invariant
                n == self.board@.len(),
                i <= n,
                bytes@.len() == i,
                forall|j: int|
                    0 <= j < i ==> bytes@[j] == (if self.board@[j] is Alive {
                        64u8
                    } else {
                        46u8
                    }),
            decreases n - i,
        {
            bytes.push(self.board[i].to_ascii());
            i = i + 1;
        }
        bytes
    }
}

} // verus!
