//! Plain text rendering of the engine's board.
//!
//! The frame keeps one byte per cell plus a linefeed per row, reused across
//! renders, and captures the generation the rendered board belongs to.

use crate::engine::cell::{alive_mask, Cell};
use crate::engine::state::State;
use crate::render::{ascii_spec, lemma_ascii_at};
use vstd::prelude::*;

verus! {

pub const ALIVE: u8 = 64;

pub const DEAD: u8 = 46;

pub struct Frame {
    pub buffer: Vec<u8>,
    pub generation: u32,
}

impl Frame {
    pub fn new(cols: u32, rows: u32) -> (r: Self)
        requires
            0 < cols,
            0 < rows,
            rows * (cols + 1) <= u32::MAX,
        ensures
            r.generation == 0,
            r.buffer@.len() == rows * (cols + 1),
            forall|i: int| 0 <= i < r.buffer@.len() ==> r.buffer@[i] == DEAD,
    {
        proof {
            assert(cols * rows + rows == rows * (cols + 1)) by (nonlinear_arith);
        }
        Frame {
            // add `rows` because the buffer must contain linefeed characters
            // for each row
            buffer: vec![DEAD; (cols * rows + rows) as usize],
            generation: 0,
        }
    }
}

/// One text byte per cell: `@` for alive, `.` for dead.
pub(crate) fn cell_to_ascii(cell: &Cell) -> (r: u8)
    ensures
        r == (if *cell is Alive {
            ALIVE
        } else {
            DEAD
        }),
{
    match cell {
        Cell::Alive => ALIVE,
        Cell::Dead => DEAD,
    }
}

/// Fill the frame with the text raster of the current board and capture the
/// board's generation.
pub fn render_ascii(frame: &mut Frame, state: &State)
    requires
        state.wf(),
        old(frame).buffer@.len() == state.rows * (state.cols + 1),
    ensures
        final(frame).buffer@ == ascii_spec(
            alive_mask(state.curr@),
            state.cols as int,
            state.rows as int,
        ),
        final(frame).generation == state.generation,
{
    let cols = state.cols as usize;
    let rows = state.rows as usize;
    let ghost mask = alive_mask(state.curr@);
    let ghost target = ascii_spec(mask, cols as int, rows as int);
    proof {
        vstd::std_specs::vec::axiom_spec_len(&frame.buffer);
    }
    let mut i: usize = 0;
    let mut row: usize = 0;
    while row < rows
        invariant
            state.wf(),
            cols == state.cols,
            rows == state.rows,
            mask == alive_mask(state.curr@),
            target == ascii_spec(mask, cols as int, rows as int),
            frame.buffer@.len() == rows * (cols + 1),
            rows * (cols + 1) <= usize::MAX,
            frame.generation == old(frame).generation,
            row <= rows,
            i == row * (cols + 1),
            forall|j: int| 0 <= j < i ==> frame.buffer@[j] == target[j],
        decreases rows - row,
    {
        proof {
            assert((row + 1) * (cols + 1) <= rows * (cols + 1)) by (nonlinear_arith)
                requires
                    row < rows,
                    0 < cols,
            ;
        }
        let mut col: usize = 0;
        while col < cols
            invariant
                state.wf(),
                cols == state.cols,
                rows == state.rows,
                mask == alive_mask(state.curr@),
                target == ascii_spec(mask, cols as int, rows as int),
                frame.buffer@.len() == rows * (cols + 1),
                rows * (cols + 1) <= usize::MAX,
                frame.generation == old(frame).generation,
                row < rows,
                (row + 1) * (cols + 1) <= rows * (cols + 1),
                col <= cols,
                i == row * (cols + 1) + col,
                forall|j: int| 0 <= j < i ==> frame.buffer@[j] == target[j],
            decreases cols - col,
        {
            proof {
                lemma_ascii_at(mask, cols as int, rows as int, row as int, col as int);
                assert(row * cols + col < cols * rows && cols * rows <= rows * (cols + 1)
                    && row * (cols + 1) + col < rows * (cols + 1)) by (nonlinear_arith)
                    requires
                        row < rows,
                        col < cols,
                        0 < cols,
                        0 < rows,
                ;
            }
            frame.buffer[i] = cell_to_ascii(&state.curr[row * cols + col]);
            i = i + 1;
            col = col + 1;
        }
        proof {
            lemma_ascii_at(mask, cols as int, rows as int, row as int, cols as int);
            assert(row * (cols + 1) + cols + 1 == (row + 1) * (cols + 1)) by (nonlinear_arith);
        }
        frame.buffer[i] = 10;
        i = i + 1;
        row = row + 1;
    }
    frame.generation = state.generation;
    proof {
        assert(frame.buffer@ =~= target);
    }
}

} // verus!
