//! Frame rasterization: turn a board into an RGB byte buffer scaled by an
//! integer factor, and encode it as base64 for transmission.
//!
//! The RGB buffer is persistent: it is cleared and refilled on every render
//! instead of reallocated. Dead cells are skipped while filling, because the
//! cleared background already is the dead color.

pub mod ascii;
pub mod kitty;

use crate::base64;
use crate::cell::Cell;
use crate::coords::lemma_row_in_range;
use crate::state::State;
use vstd::arithmetic::div_mod::{
    lemma_fundamental_div_mod, lemma_fundamental_div_mod_converse_div,
    lemma_fundamental_div_mod_converse_mod, lemma_mod_division_less_than_divisor,
};
use vstd::prelude::*;

verus! {

/// Bytes per unscaled pixel.
pub const CELL_BYTES: usize = 3;

/// Which cells of a board are alive, as a mask.
pub open spec fn alive_mask(board: Seq<Cell>) -> Seq<bool> {
    board.map_values(|c: Cell| c is Alive)
}

/// The RGB raster of a board: `(cols * scale) x (rows * scale)` pixels, 3
/// bytes each, row-major; every cell maps to a `scale x scale` block of
/// uniform color, white for alive and black for dead.
pub open spec fn rgb_spec(mask: Seq<bool>, cols: int, rows: int, scale: int) -> Seq<u8> {
    Seq::new(
        (rows * scale * (cols * scale) * 3) as nat,
        |j: int|
            {
                let p = j / 3;
                let w = cols * scale;
                let px = p % w;
                let py = p / w;
                if mask[(py / scale) * cols + px / scale] {
                    255u8
                } else {
                    0u8
                }
            },
    )
}

/// The text raster of a board: one byte per cell, `@` alive and `.` dead,
/// with a linefeed after each row of `cols` cells.
pub open spec fn ascii_spec(mask: Seq<bool>, cols: int, rows: int) -> Seq<u8> {
    Seq::new(
        (rows * (cols + 1)) as nat,
        |j: int|
            {
                let r = j / (cols + 1);
                let c = j % (cols + 1);
                if c == cols {
                    10u8
                } else if mask[r * cols + c] {
                    64u8
                } else {
                    46u8
                }
            },
    )
}

/// The raster byte at a decomposed position: within the `scale x scale`
/// block of cell `(cx, cy)`, on pixel row `r0`, `t` bytes into the block's
/// horizontal span, the raster shows the cell's color.
pub(crate) proof fn lemma_rgb_cell_span(
    mask: Seq<bool>,
    cols: int,
    rows: int,
    scale: int,
    r0: int,
    cx: int,
    t: int,
)
    requires
        0 < cols,
        0 < rows,
        0 < scale,
        mask.len() == cols * rows,
        0 <= r0 < rows * scale,
        0 <= cx < cols,
        0 <= t < 3 * scale,
    ensures
        0 <= (r0 * (cols * scale) + cx * scale) * 3 + t < rgb_spec(mask, cols, rows, scale).len(),
        rgb_spec(mask, cols, rows, scale)[(r0 * (cols * scale) + cx * scale) * 3 + t] == (if mask[(
        r0 / scale) * cols + cx] {
            255u8
        } else {
            0u8
        }),
        0 <= (r0 / scale) * cols + cx < cols * rows,
{
    let w = cols * scale;
    let sx = t / 3;
    let ch = t % 3;
    lemma_fundamental_div_mod(t, 3);
    lemma_mod_division_less_than_divisor(t, 3);
    assert(0 <= sx < scale) by (nonlinear_arith)
        requires
            0 <= t < 3 * scale,
            t == 3 * sx + ch,
            0 <= ch < 3,
    ;
    let base = r0 * w + cx * scale;
    let p = base + sx;
    let j = base * 3 + t;

    // j / 3 == p and j % 3 == ch
    assert(j == p * 3 + ch) by (nonlinear_arith)
        requires
            j == base * 3 + t,
            p == base + sx,
            t == 3 * sx + ch,
    ;
    lemma_fundamental_div_mod_converse_div(j, 3, p, ch);
    lemma_fundamental_div_mod_converse_mod(j, 3, p, ch);

    // p / w == r0 and p % w == cx * scale + sx
    let px = cx * scale + sx;
    assert(0 <= px < w) by (nonlinear_arith)
        requires
            0 <= cx < cols,
            0 <= sx < scale,
            px == cx * scale + sx,
            w == cols * scale,
    ;
    assert(p == r0 * w + px) by (nonlinear_arith)
        requires
            p == r0 * w + cx * scale + sx,
            px == cx * scale + sx,
    ;
    lemma_fundamental_div_mod_converse_div(p, w, r0, px);
    lemma_fundamental_div_mod_converse_mod(p, w, r0, px);

    // px / scale == cx
    lemma_fundamental_div_mod_converse_div(px, scale, cx, sx);

    // j is within the raster
    assert(0 <= j < rows * scale * w * 3) by (nonlinear_arith)
        requires
            j == p * 3 + ch,
            0 <= ch < 3,
            p == r0 * w + px,
            0 <= px < w,
            0 <= r0 < rows * scale,
            0 < w,
    ;

    // the cell index is within the board
    assert(rows * scale == scale * rows) by (nonlinear_arith);
    lemma_row_in_range(r0, scale, rows);
    assert(0 <= (r0 / scale) * cols + cx < cols * rows) by (nonlinear_arith)
        requires
            0 <= r0 / scale < rows,
            0 <= cx < cols,
            0 < cols,
    ;
}

/// Dead-background law: the raster of an all-dead board is all zero bytes.
pub proof fn lemma_dead_board_renders_black(mask: Seq<bool>, cols: int, rows: int, scale: int)
    requires
        0 < cols,
        0 < rows,
        0 < scale,
        mask.len() == cols * rows,
        forall|i: int| 0 <= i < mask.len() ==> !mask[i],
    ensures
        forall|j: int|
            0 <= j < rgb_spec(mask, cols, rows, scale).len() ==> rgb_spec(
                mask,
                cols,
                rows,
                scale,
            )[j] == 0,
{
    let w = cols * scale;
    let total = rows * scale * w * 3;
    assert forall|j: int| 0 <= j < rgb_spec(mask, cols, rows, scale).len() implies rgb_spec(
        mask,
        cols,
        rows,
        scale,
    )[j] == 0 by {
        let p = j / 3;
        let px = p % w;
        let py = p / w;
        lemma_fundamental_div_mod(j, 3);
        lemma_mod_division_less_than_divisor(j, 3);
        assert(0 <= p < rows * scale * w) by (nonlinear_arith)
            requires
                0 <= j < rows * scale * w * 3,
                j == 3 * p + j % 3,
                0 <= j % 3 < 3,
        ;
        assert(rows * scale * w == w * (rows * scale) && 0 < rows * scale && scale * rows == rows
            * scale && scale * cols == cols * scale) by (nonlinear_arith)
            requires
                0 < rows,
                0 < scale,
                0 < cols,
        ;
        lemma_row_in_range(p, w, rows * scale);
        lemma_row_in_range(py, scale, rows);
        lemma_row_in_range(px, scale, cols);
        assert(0 <= (py / scale) * cols + px / scale < cols * rows) by (nonlinear_arith)
            requires
                0 <= py / scale < rows,
                0 <= px / scale < cols,
                0 < cols,
        ;
    }
}

pub struct Frame {
    pub buffer: Vec<u8>,
    pub chunk_alive: Vec<u8>,
    pub cols: usize,
    pub rows: usize,
    pub scale: usize,
}

impl Frame {
    /// Well-formedness: the persistent buffer has room for the full raster
    /// and the alive-chunk template is one white pixel row of a cell block.
    pub open spec fn wf(&self) -> bool {
        &&& 0 < self.cols
        &&& 0 < self.rows
        &&& 0 < self.scale
        &&& self.rows * self.scale * (self.cols * self.scale) * 3 <= usize::MAX
        &&& self.buffer@.len() == self.rows * self.scale * (self.cols * self.scale) * 3
        &&& self.chunk_alive@.len() == 3 * self.scale
        &&& forall|i: int| 0 <= i < self.chunk_alive@.len() ==> self.chunk_alive@[i] == 255u8
    }

    pub fn new(cols: usize, rows: usize, scale: usize) -> (r: Self)
        requires
            0 < cols,
            0 < rows,
            0 < scale,
            rows * scale * (cols * scale) * 3 <= usize::MAX,
        ensures
            r.wf(),
            r.cols == cols,
            r.rows == rows,
            r.scale == scale,
    {
        proof {
            let total = rows * scale * (cols * scale) * 3;
            assert(cols * rows <= total && cols * rows * 3 <= total && cols * rows * 3 * scale
                <= total && cols * rows * 3 * scale * scale == total && 3 * scale <= total)
                by (nonlinear_arith)
                requires
                    total == rows * scale * (cols * scale) * 3,
                    0 < cols,
                    0 < rows,
                    0 < scale,
            ;
        }
        Frame {
            buffer: vec![0u8; cols * rows * CELL_BYTES * scale * scale],
            chunk_alive: vec![255u8; CELL_BYTES * scale],
            cols,
            rows,
            scale,
        }
    }

    /// The board as text: one `@` or `.` per cell, a linefeed after each
    /// row.
    pub fn to_ascii(&self, state: &State) -> (r: String)
        requires
            self.wf(),
            state.cols == self.cols,
            state.rows == self.rows,
            state.board@.len() == state.cols * state.rows,
            self.rows * (self.cols + 1) <= usize::MAX,
        ensures
            r@ == base64::spec_chars(
                ascii_spec(alive_mask(state.board@), self.cols as int, self.rows as int),
            ),
    {
        let cols = self.cols;
        let rows = self.rows;
        let ghost mask = alive_mask(state.board@);
        let ghost target = ascii_spec(mask, cols as int, rows as int);
        let mut bytes: Vec<u8> = Vec::new();
        let mut row: usize = 0;
        while row < rows
            invariant
                cols == state.cols,
                rows == state.rows,
                state.board@.len() == cols * rows,
                rows * (cols + 1) <= usize::MAX,
                0 < cols,
                0 < rows,
                mask == alive_mask(state.board@),
                target == ascii_spec(mask, cols as int, rows as int),
                row <= rows,
                bytes@.len() == row * (cols + 1),
                forall|j: int| 0 <= j < bytes@.len() ==> bytes@[j] == target[j],
            decreases rows - row,
        {
            proof {
                assert((row + 1) * (cols + 1) <= rows * (cols + 1)) by (nonlinear_arith)
                    requires
                        row < rows,
                        0 < cols,
                ;
            }
            let mut col: usize = 0;
            while col < cols
                invariant
                    cols == state.cols,
                    rows == state.rows,
                    state.board@.len() == cols * rows,
                    rows * (cols + 1) <= usize::MAX,
                    0 < cols,
                    0 < rows,
                    mask == alive_mask(state.board@),
                    target == ascii_spec(mask, cols as int, rows as int),
                    row < rows,
                    (row + 1) * (cols + 1) <= rows * (cols + 1),
                    col <= cols,
                    bytes@.len() == row * (cols + 1) + col,
                    forall|j: int| 0 <= j < bytes@.len() ==> bytes@[j] == target[j],
                decreases cols - col,
            {
                proof {
                    lemma_ascii_at(mask, cols as int, rows as int, row as int, col as int);
                    assert(row * cols + col < cols * rows && cols * rows <= rows * (cols + 1))
                        by (nonlinear_arith)
                        requires
                            row < rows,
                            col < cols,
                            0 < cols,
                            0 < rows,
                    ;
                    assert(row * (cols + 1) + col < rows * (cols + 1)) by (nonlinear_arith)
                        requires
                            (row + 1) * (cols + 1) <= rows * (cols + 1),
                            col < cols,
                    ;
                }
                bytes.push(state.board[row * cols + col].to_ascii());
                col = col + 1;
            }
            proof {
                lemma_ascii_at(mask, cols as int, rows as int, row as int, cols as int);
            }
            bytes.push(10);
            proof {
                assert(row * (cols + 1) + cols + 1 == (row + 1) * (cols + 1))
                    by (nonlinear_arith);
            }
            row = row + 1;
        }
        proof {
            assert(bytes@ =~= target);
            assert(forall|j: int| 0 <= j < bytes@.len() ==> bytes@[j] < 128);
        }
        base64::ascii_to_string(bytes)
    }

    /// Rasterize the board into the persistent buffer and return its base64
    /// encoding.
    ///
    /// The buffer is cleared to the dead color first, then only alive cells
    /// are painted: a `3 * scale` byte white chunk per pixel row of the
    /// cell's block.
    pub fn to_rgb(&mut self, board: &Vec<Cell>) -> (r: String)
        requires
            old(self).wf(),
            board@.len() == old(self).cols * old(self).rows,
        ensures
            final(self).wf(),
            final(self).cols == old(self).cols,
            final(self).rows == old(self).rows,
            final(self).scale == old(self).scale,
            final(self).chunk_alive == old(self).chunk_alive,
            final(self).buffer@ == rgb_spec(
                alive_mask(board@),
                old(self).cols as int,
                old(self).rows as int,
                old(self).scale as int,
            ),
            r@ == base64::spec_chars(
                base64::spec_encode(
                    rgb_spec(
                        alive_mask(board@),
                        old(self).cols as int,
                        old(self).rows as int,
                        old(self).scale as int,
                    ),
                ),
            ),
    {
        let cols = self.cols;
        let rows = self.rows;
        let scale = self.scale;
        let ghost mask = alive_mask(board@);
        let ghost target = rgb_spec(mask, cols as int, rows as int, scale as int);

        // Clear the raster to the dead color.
        let total = self.buffer.len();
        let mut i: usize = 0;
        while i < total
            invariant
                self.wf(),
                cols == self.cols,
                rows == self.rows,
                scale == self.scale,
                self.chunk_alive == old(self).chunk_alive,
                total == self.buffer@.len(),
                i <= total,
                forall|j: int| 0 <= j < i ==> self.buffer@[j] == 0u8,
            decreases total - i,
        {
            self.buffer[i] = 0;
            i = i + 1;
        }

        proof {
            assert(cols * scale <= total && 3 * scale <= total && rows * scale <= total && cols
                * rows <= total && 0 < cols * scale && 0 < 3 * scale && (cols * scale) * 3
                <= total && rows * scale * ((cols * scale) * 3) == total) by (nonlinear_arith)
                requires
                    total == rows * scale * (cols * scale) * 3,
                    0 < cols,
                    0 < rows,
                    0 < scale,
            ;
        }
        let w = cols * scale;
        let chunk = 3 * scale;
        let rows_px = rows * scale;
        let mut r0: usize = 0;
        while r0 < rows_px
            invariant
                self.wf(),
                cols == self.cols,
                rows == self.rows,
                scale == self.scale,
                self.chunk_alive == old(self).chunk_alive,
                board@.len() == cols * rows,
                mask == alive_mask(board@),
                target == rgb_spec(mask, cols as int, rows as int, scale as int),
                total == self.buffer@.len(),
                target.len() == total,
                w == cols * scale,
                chunk == 3 * scale,
                rows_px == rows * scale,
                0 < w,
                0 < chunk,
                w * 3 <= total,
                cols * rows <= total,
                rows_px * (w * 3) == total,
                r0 <= rows_px,
                r0 * (w * 3) <= total,
                forall|j: int| 0 <= j < r0 * (w * 3) ==> self.buffer@[j] == target[j],
                forall|j: int| r0 * (w * 3) <= j < total ==> self.buffer@[j] == 0u8,
            decreases rows_px - r0,
        {
            proof {
                assert((r0 + 1) * (w * 3) <= rows_px * (w * 3)) by (nonlinear_arith)
                    requires
                        r0 < rows_px,
                        0 < w,
                ;
                assert(0 < scale * rows && rows_px == scale * rows) by (nonlinear_arith)
                    requires
                        0 < scale,
                        0 < rows,
                        rows_px == rows * scale,
                ;
                lemma_row_in_range(r0 as int, scale as int, rows as int);
            }
            let cy = r0 / scale;
            let mut cx: usize = 0;
            while cx < cols
                invariant
                    self.wf(),
                    cols == self.cols,
                    rows == self.rows,
                    scale == self.scale,
                    self.chunk_alive == old(self).chunk_alive,
                    board@.len() == cols * rows,
                    mask == alive_mask(board@),
                    target == rgb_spec(mask, cols as int, rows as int, scale as int),
                    total == self.buffer@.len(),
                    target.len() == total,
                    w == cols * scale,
                    chunk == 3 * scale,
                    rows_px == rows * scale,
                    0 < w,
                    0 < chunk,
                    w * 3 <= total,
                    cols * rows <= total,
                    r0 < rows_px,
                    cy == r0 as int / scale as int,
                    0 <= cy < rows,
                    (r0 + 1) * (w * 3) <= total,
                    cx <= cols,
                    forall|j: int|
                        0 <= j < r0 * (w * 3) + cx * chunk ==> self.buffer@[j] == target[j],
                    forall|j: int| r0 * (w * 3) + cx * chunk <= j < total ==> self.buffer@[j]
                        == 0u8,
                decreases cols - cx,
            {
                let ghost base = r0 * (w * 3) + cx * chunk;
                proof {
                    assert(base == (r0 * w + cx * scale) * 3) by (nonlinear_arith)
                        requires
                            base == r0 * (w * 3) + cx * chunk,
                            chunk == 3 * scale,
                    ;
                    assert(base + chunk == r0 * (w * 3) + (cx + 1) * chunk) by (nonlinear_arith)
                        requires
                            base == r0 * (w * 3) + cx * chunk,
                    ;
                    assert(r0 * (w * 3) + (cx + 1) * chunk <= (r0 + 1) * (w * 3))
                        by (nonlinear_arith)
                        requires
                            cx < cols,
                            chunk == 3 * scale,
                            w == cols * scale,
                    ;
                    assert(cx * chunk >= 0) by (nonlinear_arith)
                        requires
                            0 <= cx,
                            0 < chunk,
                    ;
                    assert forall|j: int| base <= j < base + chunk implies #[trigger] target[j]
                        == (if mask[cy * cols + cx] {
                        255u8
                    } else {
                        0u8
                    }) by {
                        lemma_rgb_cell_span(
                            mask,
                            cols as int,
                            rows as int,
                            scale as int,
                            r0 as int,
                            cx as int,
                            j - base,
                        );
                    }
                    assert(cy * cols + cx < cols * rows) by {
                        lemma_rgb_cell_span(
                            mask,
                            cols as int,
                            rows as int,
                            scale as int,
                            r0 as int,
                            cx as int,
                            0,
                        );
                    }
                }
                let cell = board[cy * cols + cx];
                // Skip dead cells, because the background is set to dead.
                // This potentially saves a bunch of writes.
                if matches!(cell, Cell::Alive) {
                    let start = r0 * (w * 3) + cx * chunk;
                    let mut t: usize = 0;
                    while t < chunk
                        invariant
                            self.wf(),
                            cols == self.cols,
                            rows == self.rows,
                            scale == self.scale,
                            self.chunk_alive == old(self).chunk_alive,
                            total == self.buffer@.len(),
                            target.len() == total,
                            start == base,
                            base + chunk <= total,
                            t <= chunk,
                            forall|u: int| 0 <= u < base ==> self.buffer@[u] == target[u],
                            forall|u: int| base <= u < base + t ==> self.buffer@[u] == 255u8,
                            forall|u: int| base + t <= u < total ==> self.buffer@[u] == 0u8,
                        decreases chunk - t,
                    {
                        self.buffer[start + t] = 255;
                        t = t + 1;
                    }
                }
                cx = cx + 1;
            }
            proof {
                assert(r0 * (w * 3) + cols * chunk == (r0 + 1) * (w * 3)) by (nonlinear_arith)
                    requires
                        chunk == 3 * scale,
                        w == cols * scale,
                ;
            }
            r0 = r0 + 1;
        }
        proof {
            assert(self.buffer@ =~= target);
        }
        base64::encode(self.buffer.as_slice())
    }
}

/// The text raster byte at row `r` and column `c` (`c == cols` being the
/// linefeed slot).
pub(crate) proof fn lemma_ascii_at(mask: Seq<bool>, cols: int, rows: int, r: int, c: int)
    requires
        0 < cols,
        0 < rows,
        mask.len() == cols * rows,
        0 <= r < rows,
        0 <= c <= cols,
    ensures
        0 <= r * (cols + 1) + c < ascii_spec(mask, cols, rows).len(),
        c < cols ==> ascii_spec(mask, cols, rows)[r * (cols + 1) + c] == (if mask[r * cols + c] {
            64u8
        } else {
            46u8
        }),
        c == cols ==> ascii_spec(mask, cols, rows)[r * (cols + 1) + c] == 10u8,
        c < cols ==> 0 <= r * cols + c < cols * rows,
{
    let j = r * (cols + 1) + c;
    if c < cols {
        lemma_fundamental_div_mod_converse_div(j, cols + 1, r, c);
        lemma_fundamental_div_mod_converse_mod(j, cols + 1, r, c);
        assert(0 <= r * cols + c < cols * rows) by (nonlinear_arith)
            requires
                0 <= r < rows,
                0 <= c < cols,
        ;
    } else {
        lemma_fundamental_div_mod_converse_div(j, cols + 1, r, c);
        lemma_fundamental_div_mod_converse_mod(j, cols + 1, r, c);
    }
    assert(0 <= j < rows * (cols + 1)) by (nonlinear_arith)
        requires
            j == r * (cols + 1) + c,
            0 <= r < rows,
            0 <= c <= cols,
    ;
}

} // verus!
