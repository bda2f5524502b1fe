//! Toroidal coordinate mapping.
//!
//! A board of `cols x rows` cells is stored as one flat vector, row-major.
//! Coordinates are signed and unbounded: before they address a cell they are
//! wrapped with a Euclidean modulus, so `(cols, 0)` and `(0, 0)` name the same
//! cell, and `(-1, -1)` names the bottom-right corner.

use vstd::arithmetic::div_mod::{
    lemma_fundamental_div_mod, lemma_fundamental_div_mod_converse_mod,
    lemma_mod_division_less_than_divisor, lemma_mod_twice,
};
use vstd::arithmetic::mul::lemma_mul_inequality;
use vstd::prelude::*;

verus! {

pub const CELL_NEIGHBORS: usize = 8;

/// Dimensions a board can actually have: both sides positive, each side
/// representable as an `i32` coordinate, and the cell count addressable.
pub open spec fn dims_ok(cols: int, rows: int) -> bool {
    &&& 0 < cols <= i32::MAX
    &&& 0 < rows <= i32::MAX
    &&& cols * rows <= usize::MAX
}

/// Division as Rust's `/` computes it on signed operands: the quotient is
/// rounded toward zero. Spec-mode `/` rounds toward negative infinity for a
/// negative dividend, so the distinction matters wherever coordinates can be
/// negative.
pub open spec fn div_trunc(a: int, b: int) -> int {
    if a >= 0 {
        a / b
    } else {
        -((-a) / b)
    }
}

/// The flat index of the cell addressed by `(x, y)` after toroidal wrapping.
/// `%` on `int` is the Euclidean modulus, so the result is in range for any
/// signed input.
pub open spec fn spec_index(x: int, y: int, cols: int, rows: int) -> int {
    cols * (y % rows) + x % cols
}

pub proof fn lemma_index_in_range(x: int, y: int, cols: int, rows: int)
    requires
        0 < cols,
        0 < rows,
    ensures
        0 <= spec_index(x, y, cols, rows) < cols * rows,
{
    lemma_mod_division_less_than_divisor(x, cols);
    lemma_mod_division_less_than_divisor(y, rows);
    let wx = x % cols;
    let wy = y % rows;
    lemma_mul_inequality(wy, rows - 1, cols);
    assert(cols * wy <= cols * (rows - 1)) by (nonlinear_arith)
        requires
            wy <= rows - 1,
            0 < cols,
    ;
    assert(cols * (rows - 1) + (cols - 1) == cols * rows - 1) by (nonlinear_arith);
    assert(cols * wy >= 0) by (nonlinear_arith)
        requires
            wy >= 0,
            cols > 0,
    ;
}

/// Wraparound law: wrapping the coordinates first does not change the cell a
/// pair of coordinates addresses.
pub proof fn lemma_index_wraparound(x: int, y: int, cols: int, rows: int)
    requires
        0 < cols,
        0 < rows,
    ensures
        spec_index(x % cols, y % rows, cols, rows) == spec_index(x, y, cols, rows),
{
    lemma_mod_twice(x, cols);
    lemma_mod_twice(y, rows);
}

/// Round-trip law: splitting an in-range flat index into `(x, y)` coordinates
/// and mapping the pair back yields the same index.
pub proof fn lemma_index_round_trip(index: int, cols: int, rows: int)
    requires
        0 < cols,
        0 < rows,
        0 <= index < cols * rows,
    ensures
        spec_index(index % cols, index / cols, cols, rows) == index,
{
    lemma_fundamental_div_mod(index, cols);
    lemma_mod_division_less_than_divisor(index, cols);
    lemma_mod_twice(index, cols);
    let q = index / cols;
    assert(0 <= q < rows) by (nonlinear_arith)
        requires
            0 < cols,
            0 < rows,
            0 <= index < cols * rows,
            index == cols * q + index % cols,
            0 <= index % cols < cols,
    ;
    lemma_mod_division_less_than_divisor(q, rows);
    vstd::arithmetic::div_mod::lemma_small_mod(q as nat, rows as nat);
}

/// An in-range flat index has an in-range row number.
pub proof fn lemma_row_in_range(index: int, cols: int, rows: int)
    requires
        0 < cols,
        0 < rows,
        0 <= index < cols * rows,
    ensures
        0 <= index / cols < rows,
        0 <= index % cols < cols,
{
    lemma_fundamental_div_mod(index, cols);
    lemma_mod_division_less_than_divisor(index, cols);
    assert(0 <= index / cols < rows) by (nonlinear_arith)
        requires
            0 < cols,
            0 < rows,
            0 <= index < cols * rows,
            index == cols * (index / cols) + index % cols,
            0 <= index % cols < cols,
    ;
}

/// Euclidean wrap of one signed coordinate into `0 .. bound`.
pub fn wrap(z: i32, bound: usize) -> (r: usize)
    requires
        0 < bound,
    ensures
        r == z as int % bound as int,
{
    if z >= 0 {
        (z as usize) % bound
    } else {
        // For z < 0, peel off `-(z + 1) >= 0`, which cannot overflow, and
        // reflect its remainder: z % m == m - 1 - ((-z - 1) % m).
        let k = -(z + 1);
        let rem = (k as usize) % bound;
        proof {
            let m = bound as int;
            let ki = -(z as int) - 1;
            lemma_fundamental_div_mod(ki, m);
            lemma_mod_division_less_than_divisor(ki, m);
            let q = ki / m;
            let s = ki % m;
            assert((-q - 1) * m + (m - 1 - s) == -(m * q + s) - 1) by (nonlinear_arith);
            lemma_fundamental_div_mod_converse_mod(z as int, m, -q - 1, m - 1 - s);
        }
        bound - 1 - rem
    }
}

/// Map signed coordinates to the flat index of the cell they address, with
/// toroidal wrapping on both axes.
pub fn coords_to_index(x: i32, y: i32, cols: usize, rows: usize) -> (r: usize)
    requires
        dims_ok(cols as int, rows as int),
    ensures
        r == spec_index(x as int, y as int, cols as int, rows as int),
        r < cols * rows,
{
    let wx = wrap(x, cols);
    let wy = wrap(y, rows);
    proof {
        lemma_index_in_range(x as int, y as int, cols as int, rows as int);
    }
    cols * wy + wx
}

/// A pair of signed 2D coordinates. Values are not bounded to any grid; they
/// wrap when they are turned into a flat index.
pub struct Coords {
    pub x: i32,
    pub y: i32,
}

impl Coords {
    pub fn new(x: i32, y: i32) -> (r: Self)
        ensures
            r.x == x,
            r.y == y,
    {
        Coords { x, y }
    }

    /// Split an in-range flat index into its `(x, y)` coordinates.
    pub fn from_index(index: usize, cols: usize) -> (r: Self)
        requires
            0 < cols <= i32::MAX,
            index as int / cols as int <= i32::MAX,
        ensures
            r.x == index as int % cols as int,
            r.y == index as int / cols as int,
    {
        proof {
            lemma_mod_division_less_than_divisor(index as int, cols as int);
            vstd::arithmetic::div_mod::lemma_div_pos_is_pos(index as int, cols as int);
        }
        let x = (index % cols) as i32;
        let y = (index / cols) as i32;
        Coords { x, y }
    }

    /// The flat indices of the 8 toroidal neighbors of this cell, column by
    /// column within the surrounding 3x3 block.
    pub fn get_neighbors_indices(&self, cols: usize, rows: usize) -> (r: Vec<usize>)
        requires
            dims_ok(cols as int, rows as int),
            i32::MIN < self.x < i32::MAX,
            i32::MIN < self.y < i32::MAX,
        ensures
            r@.len() == CELL_NEIGHBORS,
            forall|k: int|
                0 <= k < CELL_NEIGHBORS ==> r@[k] == spec_index(
                    self.x + off_a(k),
                    self.y + off_b(k),
                    cols as int,
                    rows as int,
                ),
    {
        let mut indices: Vec<usize> = Vec::with_capacity(CELL_NEIGHBORS);
        let mut k: usize = 0;
        while k < CELL_NEIGHBORS
            invariant
                dims_ok(cols as int, rows as int),
                i32::MIN < self.x < i32::MAX,
                i32::MIN < self.y < i32::MAX,
                k <= CELL_NEIGHBORS,
                indices@.len() == k,
                forall|j: int|
                    0 <= j < k ==> indices@[j] == spec_index(
                        self.x + off_a(j),
                        self.y + off_b(j),
                        cols as int,
                        rows as int,
                    ),
            decreases CELL_NEIGHBORS - k,
        {
            let (dx, dy) = neighbor_offset(k);
            indices.push(coords_to_index(self.x + dx, self.y + dy, cols, rows));
            k = k + 1;
        }
        indices
    }

    /// The flat index of the cell these coordinates address, after wrapping.
    pub fn to_index(&self, cols: usize, rows: usize) -> (r: usize)
        requires
            dims_ok(cols as int, rows as int),
        ensures
            r == spec_index(self.x as int, self.y as int, cols as int, rows as int),
            r < cols * rows,
    {
        coords_to_index(self.x, self.y, cols, rows)
    }
}

/// First component of the `k`-th offset in the 3x3 block around a cell,
/// center excluded: the outer axis runs -1, 0, 1.
pub open spec fn off_a(k: int) -> int {
    if k < 3 {
        -1
    } else if k < 5 {
        0
    } else {
        1
    }
}

/// Second component of the `k`-th offset: the inner axis runs -1, 0, 1 and
/// skips the center pair `(0, 0)`.
pub open spec fn off_b(k: int) -> int {
    if k == 0 || k == 3 || k == 5 {
        -1
    } else if k == 1 || k == 6 {
        0
    } else {
        1
    }
}

/// The flat index of the `k`-th neighbor of cell `i`: the 3x3 block around
/// the cell, row by row, center excluded, wrapped on both axes.
pub open spec fn nb_index(i: int, k: int, cols: int, rows: int) -> int {
    spec_index(i % cols + off_b(k), i / cols + off_a(k), cols, rows)
}

/// The neighbor list of cell `i`, as a precomputed table row stores it.
///
/// On degenerate grids (one or two cells on a side) the wrapped offsets can
/// collide, so the 8 slots may repeat an index and a cell can even list
/// itself; from 3x3 up every slot names a distinct other cell and the table
/// describes standard Life.
pub open spec fn nb_seq(i: int, cols: int, rows: int) -> Seq<usize> {
    Seq::new(CELL_NEIGHBORS as nat, |k: int| nb_index(i, k, cols, rows) as usize)
}

/// The `k`-th offset pair as executable values.
pub(crate) fn neighbor_offset(k: usize) -> (r: (i32, i32))
    requires
        k < CELL_NEIGHBORS,
    ensures
        r.0 == off_a(k as int),
        r.1 == off_b(k as int),
{
    if k == 0 {
        (-1, -1)
    } else if k == 1 {
        (-1, 0)
    } else if k == 2 {
        (-1, 1)
    } else if k == 3 {
        (0, -1)
    } else if k == 4 {
        (0, 1)
    } else if k == 5 {
        (1, -1)
    } else if k == 6 {
        (1, 0)
    } else {
        (1, 1)
    }
}

} // verus!
