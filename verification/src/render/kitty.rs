//! RGB rasterization of the engine's board for the terminal image protocol.
//!
//! The frame keeps a persistent raster buffer sized for the scaled board and
//! a pre-built chunk of white bytes, one cell-row wide, that is copied over
//! the block of every living cell; the cleared background already shows the
//! dead color. It also captures the generation the rendered board belongs
//! to, so the emitter can tell the first frame from the following ones.

use crate::engine::cell::{alive_mask, Cell};
use crate::engine::state::State;
use crate::render::{lemma_rgb_cell_span, rgb_spec};
use vstd::prelude::*;

verus! {

pub const ALIVE: u8 = 255;

pub const DEAD: u8 = 0;

pub const KITTY_COLOR_DEPTH: u8 = 24;

pub const KITTY_IMG_ID: u8 = 246;

pub const KITTY_QUIET: u8 = 2;

pub const RGB_BYTES: u8 = 3;

pub struct Frame {
    pub buffer: Vec<u8>,
    pub chunk_alive: Vec<u8>,
    pub generation: u32,
    pub height: u32,
    pub scale: u8,
    pub width: u32,
}

impl Frame {
    /// Well-formedness for a `cols x rows` board: the buffer has room for
    /// the full raster and the template chunk is one white pixel row of a
    /// cell block.
    pub open spec fn wf_for(&self, cols: int, rows: int) -> bool {
        &&& 0 < self.scale
        &&& self.buffer@.len() == rows * self.scale * (cols * self.scale) * 3
        &&& self.chunk_alive@.len() == 3 * self.scale
        &&& forall|i: int| 0 <= i < self.chunk_alive@.len() ==> self.chunk_alive@[i] == ALIVE
        &&& self.width == cols * self.scale
        &&& self.height == rows * self.scale
    }

    pub fn new(cols: u32, rows: u32, scale: u8) -> (r: Self)
        requires
            0 < cols,
            0 < rows,
            0 < scale,
            cols * rows * 3 * scale * scale <= u32::MAX,
        ensures
            r.wf_for(cols as int, rows as int),
            r.generation == 0,
            r.scale == scale,
    {
        proof {
            let total = cols * rows * 3 * scale * scale;
            assert(cols * rows <= total && cols * rows * 3 <= total && cols * rows * 3 * scale
                <= total && rows * scale * ((cols * scale) * 3) == total && cols * scale <= total
                && rows * scale <= total && rows * scale * (cols * scale) * 3 == total)
                by (nonlinear_arith)
                requires
                    total == cols * rows * 3 * scale * scale,
                    0 < cols,
                    0 < rows,
                    0 < scale,
            ;
        }
        let chunk_len: usize = (RGB_BYTES as usize) * (scale as usize);
        Frame {
            buffer: vec![
                DEAD;
                (cols * rows * RGB_BYTES as u32 * scale as u32 * scale as u32) as usize
            ],
            // pre-allocate the horizontal chunk of subsequent ALIVE pixels so
            // it can be easily copied into the buffer, whenever a living cell
            // is encountered.
            chunk_alive: vec![ALIVE; chunk_len],
            generation: 0,
            scale,
            width: cols * scale as u32,
            height: rows * scale as u32,
        }
    }
}

/// Fill the frame with the RGB raster of the current board, scaled by the
/// frame's factor, and capture the board's generation.
///
/// The buffer is cleared to the dead color first, then only alive cells are
/// painted, a white chunk per pixel row of the cell's block; dead cells are
/// skipped because the background is already the dead color.
pub fn render_kitty(frame: &mut Frame, state: &State)
    requires
        state.wf(),
        old(frame).wf_for(state.cols as int, state.rows as int),
    ensures
        final(frame).wf_for(state.cols as int, state.rows as int),
        final(frame).buffer@ == rgb_spec(
            alive_mask(state.curr@),
            state.cols as int,
            state.rows as int,
            old(frame).scale as int,
        ),
        final(frame).generation == state.generation,
        final(frame).scale == old(frame).scale,
        final(frame).width == old(frame).width,
        final(frame).height == old(frame).height,
        final(frame).chunk_alive == old(frame).chunk_alive,
{
    let cols = state.cols as usize;
    let rows = state.rows as usize;
    let scale = frame.scale as usize;
    let ghost mask = alive_mask(state.curr@);
    let ghost target = rgb_spec(mask, cols as int, rows as int, scale as int);

    // Clear the raster to the dead color.
    let total = frame.buffer.len();
    let mut i: usize = 0;
    while i < total
        invariant
            frame.wf_for(state.cols as int, state.rows as int),
            scale == frame.scale,
            frame.chunk_alive == old(frame).chunk_alive,
            frame.generation == old(frame).generation,
            frame.width == old(frame).width,
            frame.height == old(frame).height,
            total == frame.buffer@.len(),
            i <= total,
            forall|j: int| 0 <= j < i ==> frame.buffer@[j] == DEAD,
        decreases total - i,
    {
        frame.buffer[i] = DEAD;
        i = i + 1;
    }

    proof {
        assert(cols * scale <= total && 3 * scale <= total && rows * scale <= total && cols
            * rows <= total && 0 < cols * scale && 0 < 3 * scale && (cols * scale) * 3 <= total
            && rows * scale * ((cols * scale) * 3) == total) by (nonlinear_arith)
            requires
                total == rows * scale * (cols * scale) * 3,
                0 < cols,
                0 < rows,
                0 < scale,
        ;
    }
    let w = cols * scale;
    let chunk = 3 * scale;
    let rows_px = rows * scale;
    let mut r0: usize = 0;
    while r0 < rows_px
        invariant
            frame.wf_for(state.cols as int, state.rows as int),
            state.wf(),
            cols == state.cols,
            rows == state.rows,
            scale == frame.scale,
            frame.chunk_alive == old(frame).chunk_alive,
            frame.generation == old(frame).generation,
            frame.width == old(frame).width,
            frame.height == old(frame).height,
            mask == alive_mask(state.curr@),
            target == rgb_spec(mask, cols as int, rows as int, scale as int),
            total == frame.buffer@.len(),
            target.len() == total,
            w == cols * scale,
            chunk == 3 * scale,
            rows_px == rows * scale,
            0 < w,
            0 < chunk,
            w * 3 <= total,
            cols * rows <= total,
            rows_px * (w * 3) == total,
            r0 <= rows_px,
            r0 * (w * 3) <= total,
            forall|j: int| 0 <= j < r0 * (w * 3) ==> frame.buffer@[j] == target[j],
            forall|j: int| r0 * (w * 3) <= j < total ==> frame.buffer@[j] == DEAD,
        decreases rows_px - r0,
    {
        proof {
            assert((r0 + 1) * (w * 3) <= rows_px * (w * 3)) by (nonlinear_arith)
                requires
                    r0 < rows_px,
                    0 < w,
            ;
            assert(0 < scale * rows && rows_px == scale * rows) by (nonlinear_arith)
                requires
                    0 < scale,
                    0 < rows,
                    rows_px == rows * scale,
            ;
            crate::coords::lemma_row_in_range(r0 as int, scale as int, rows as int);
        }
        let cy = r0 / scale;
        let mut cx: usize = 0;
        while cx < cols
            invariant
                frame.wf_for(state.cols as int, state.rows as int),
                state.wf(),
                cols == state.cols,
                rows == state.rows,
                scale == frame.scale,
                frame.chunk_alive == old(frame).chunk_alive,
                frame.generation == old(frame).generation,
                frame.width == old(frame).width,
                frame.height == old(frame).height,
                mask == alive_mask(state.curr@),
                target == rgb_spec(mask, cols as int, rows as int, scale as int),
                total == frame.buffer@.len(),
                target.len() == total,
                w == cols * scale,
                chunk == 3 * scale,
                rows_px == rows * scale,
                0 < w,
                0 < chunk,
                w * 3 <= total,
                cols * rows <= total,
                r0 < rows_px,
                cy == r0 as int / scale as int,
                0 <= cy < rows,
                (r0 + 1) * (w * 3) <= total,
                cx <= cols,
                forall|j: int|
                    0 <= j < r0 * (w * 3) + cx * chunk ==> frame.buffer@[j] == target[j],
                forall|j: int| r0 * (w * 3) + cx * chunk <= j < total ==> frame.buffer@[j]
                    == DEAD,
            decreases cols - cx,
        {
            let ghost base = r0 * (w * 3) + cx * chunk;
            proof {
                assert(base == (r0 * w + cx * scale) * 3) by (nonlinear_arith)
                    requires
                        base == r0 * (w * 3) + cx * chunk,
                        chunk == 3 * scale,
                ;
                assert(base + chunk == r0 * (w * 3) + (cx + 1) * chunk) by (nonlinear_arith)
                    requires
                        base == r0 * (w * 3) + cx * chunk,
                ;
                assert(r0 * (w * 3) + (cx + 1) * chunk <= (r0 + 1) * (w * 3))
                    by (nonlinear_arith)
                    requires
                        cx < cols,
                        chunk == 3 * scale,
                        w == cols * scale,
                ;
                assert(cx * chunk >= 0) by (nonlinear_arith)
                    requires
                        0 <= cx,
                        0 < chunk,
                ;
                assert forall|j: int| base <= j < base + chunk implies #[trigger] target[j] == (
                if mask[cy * cols + cx] {
                    255u8
                } else {
                    0u8
                }) by {
                    lemma_rgb_cell_span(
                        mask,
                        cols as int,
                        rows as int,
                        scale as int,
                        r0 as int,
                        cx as int,
                        j - base,
                    );
                }
                assert(cy * cols + cx < cols * rows) by {
                    lemma_rgb_cell_span(
                        mask,
                        cols as int,
                        rows as int,
                        scale as int,
                        r0 as int,
                        cx as int,
                        0,
                    );
                }
            }
            let cell = state.curr[cy * cols + cx];
            // Skip dead cells, because the background is set to dead. This
            // potentially saves a bunch of writes.
            if matches!(cell, Cell::Alive) {
                let start = r0 * (w * 3) + cx * chunk;
                let mut t: usize = 0;
                while t < chunk
                    invariant
                        frame.wf_for(state.cols as int, state.rows as int),
                        cols == state.cols,
                        rows == state.rows,
                        scale == frame.scale,
                        frame.chunk_alive == old(frame).chunk_alive,
                        frame.generation == old(frame).generation,
                        frame.width == old(frame).width,
                        frame.height == old(frame).height,
                        total == frame.buffer@.len(),
                        target.len() == total,
                        start == base,
                        base + chunk <= total,
                        t <= chunk,
                        forall|u: int| 0 <= u < base ==> frame.buffer@[u] == target[u],
                        forall|u: int| base <= u < base + t ==> frame.buffer@[u] == ALIVE,
                        forall|u: int| base + t <= u < total ==> frame.buffer@[u] == DEAD,
                    decreases chunk - t,
                {
                    frame.buffer[start + t] = ALIVE;
                    t = t + 1;
                }
            }
            cx = cx + 1;
        }
        proof {
            assert(r0 * (w * 3) + cols * chunk == (r0 + 1) * (w * 3)) by (nonlinear_arith)
                requires
                    chunk == 3 * scale,
                    w == cols * scale,
            ;
        }
        r0 = r0 + 1;
    }
    frame.generation = state.generation;
    proof {
        assert(frame.buffer@ =~= target);
    }
}

} // verus!
