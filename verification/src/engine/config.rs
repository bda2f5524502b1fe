//! Board configuration: columns, rows, and the integer upscale factor used
//! when the board is rasterized.

use vstd::prelude::*;

verus! {

pub struct Config {
    pub cols: u32,
    pub rows: u32,
    pub scale: u32,
}

impl Config {
    pub fn new(cols: u32, rows: u32, scale: u32) -> (r: Self)
        ensures
            r.cols == cols,
            r.rows == rows,
            r.scale == scale,
    {
        Config { cols, rows, scale }
    }

    /// Width of the rasterized board, in pixels.
    pub fn width(&self) -> (r: u32)
        requires
            self.cols * self.scale <= u32::MAX,
        ensures
            r == self.cols * self.scale,
    {
        self.cols * self.scale
    }

    /// Height of the rasterized board, in pixels.
    pub fn height(&self) -> (r: u32)
        requires
            self.rows * self.scale <= u32::MAX,
        ensures
            r == self.rows * self.scale,
    {
        self.rows * self.scale
    }

    pub fn scale(&self) -> (r: u32)
        ensures
            r == self.scale,
    {
        self.scale
    }
}

} // verus!
