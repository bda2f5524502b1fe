//! Simple 2D space abstraction.
//!
//! This abstraction enables for a better separation of concerns between the
//! world, focussed on game's logic, and the grid, responsible for coordinates
//! manipulation.

use crate::coords::{
    lemma_index_in_range, lemma_row_in_range, nb_index, nb_seq, spec_index, CELL_NEIGHBORS,
};
use vstd::prelude::*;

verus! {

/// Simple abstraction of 2D system coordinates.
///
/// Naming the dimensions { x, y } results in a more readable API in ambiguous
/// contexts where `(i32, i32)` can be too generic.
#[derive(Clone, Copy, Debug, PartialEq, Eq, Structural)]
pub struct Coords {
    pub x: i32,
    pub y: i32,
}

/// A `cols x rows` toroidal grid.
#[derive(Clone, Copy, Debug)]
pub struct Grid {
    pub cols: u32,
    pub rows: u32,
}

/// Dimensions a grid's methods accept: positive, sides representable as
/// `i32`, and the cell count representable as `u32`.
pub open spec fn grid_dims_ok(cols: int, rows: int) -> bool {
    &&& 0 < cols <= i32::MAX
    &&& 0 < rows <= i32::MAX
    &&& cols * rows <= u32::MAX
}

impl Grid {
    pub fn new(cols: u32, rows: u32) -> (r: Self)
        ensures
            r.cols == cols,
            r.rows == rows,
    {
        Grid { cols, rows }
    }

    /// Converts a [Coords] into a vector index.
    ///
    /// The conversion wraps both `x` and `y` coordinates when they are past
    /// grid's bounds on both left and right. This means that, in a 10x10
    /// grid:
    ///
    ///   - ( 0,  0) is the top-left corner     -> index: 0
    ///   - ( 9,  9) is the bottom-right corner -> index: 99
    ///   - (-1, -1) is the bottom-right corner -> index: 99 (last index again)
    ///   - (10, 10) is the top-left corner     -> index: 0  (first index again)
    pub fn coords_to_index(&self, coords: &Coords) -> (r: usize)
        requires
            grid_dims_ok(self.cols as int, self.rows as int),
        ensures
            r == spec_index(coords.x as int, coords.y as int, self.cols as int, self.rows as int),
            r < self.cols * self.rows,
    {
        crate::coords::coords_to_index(
            coords.x,
            coords.y,
            self.cols as usize,
            self.rows as usize,
        )
    }

    /// Converts a vector index to [Coords].
    ///
    /// Based on the number of grid's columns, indices are wrapped into next
    /// rows.
    pub fn index_to_coords(&self, index: usize) -> (r: Coords)
        requires
            0 < self.cols <= i32::MAX,
            index as int / self.cols as int <= i32::MAX,
        ensures
            r.x == index as int % self.cols as int,
            r.y == index as int / self.cols as int,
    {
        proof {
            vstd::arithmetic::div_mod::lemma_mod_division_less_than_divisor(
                index as int,
                self.cols as int,
            );
            vstd::arithmetic::div_mod::lemma_div_pos_is_pos(index as int, self.cols as int);
        }
        let c = self.cols as usize;
        let x = (index % c) as i32;
        let y = (index / c) as i32;
        Coords { x, y }
    }

    /// Returns a vector containing current cell's neighbors indices.
    ///
    /// The neighbors are calculated following the steps:
    ///
    ///   1. convert index to 2D coordinates (x_curr, y_curr);
    ///   2. iterate the 3x3 square around (x_curr, y_curr), row by row;
    ///   3. skip the current cell;
    ///   4. for each neighbor (x', y'), convert their 2D coords to index.
    pub fn calc_neighbors(&self, index: usize) -> (r: Vec<usize>)
        requires
            grid_dims_ok(self.cols as int, self.rows as int),
            index < self.cols * self.rows,
        ensures
            r@ =~= nb_seq(index as int, self.cols as int, self.rows as int),
    {
        let cols = self.cols;
        let rows = self.rows;
        proof {
            lemma_row_in_range(index as int, cols as int, rows as int);
        }
        let curr = self.index_to_coords(index);
        let mut neighbors: Vec<usize> = Vec::with_capacity(CELL_NEIGHBORS);
        let mut k: usize = 0;
        while k < CELL_NEIGHBORS
            invariant
                grid_dims_ok(cols as int, rows as int),
                curr.x == index as int % cols as int,
                curr.y == index as int / cols as int,
                0 <= curr.x < cols,
                0 <= curr.y < rows,
                k <= CELL_NEIGHBORS,
                neighbors@.len() == k,
                forall|j: int|
                    0 <= j < k ==> neighbors@[j] == nb_index(
                        index as int,
                        j,
                        cols as int,
                        rows as int,
                    ),
            decreases CELL_NEIGHBORS - k,
        {
            let (da, db) = crate::coords::neighbor_offset(k);
            proof {
                lemma_index_in_range(
                    curr.x as int + db as int,
                    curr.y as int + da as int,
                    cols as int,
                    rows as int,
                );
            }
            let neighbor = crate::coords::coords_to_index(
                curr.x + db,
                curr.y + da,
                cols as usize,
                rows as usize,
            );
            neighbors.push(neighbor);
            k = k + 1;
        }
        neighbors
    }
}

} // verus!
