//! Frames before and after compositing.

use vstd::prelude::*;

verus! {

/// One frame of pixels: `width * height` pixels in row-major order, four
/// bytes each (red, green, blue, alpha), shown for `delay_ns` nanoseconds.
#[derive(Clone, Debug)]
pub struct Frame {
    pub width: u32,
    pub height: u32,
    pub pixels: Vec<u8>,
    pub delay_ns: u64,
}

impl Frame {
    /// The pixel buffer holds exactly four bytes per pixel.
    pub open spec fn wf(&self) -> bool {
        self.pixels@.len() == 4 * (self.width as int) * (self.height as int)
    }
}

/// Offset of channel `c` of pixel `(x, y)` in a row-major RGBA buffer whose
/// rows are `w` pixels wide.
pub open spec fn channel_index(w: int, x: int, y: int, c: int) -> int {
    4 * (y * w + x) + c
}

/// A terminal colour.
#[derive(Clone, Copy, Debug, PartialEq, Eq, Structural)]
pub struct Rgb {
    pub r: u8,
    pub g: u8,
    pub b: u8,
}

/// One character cell: the lower half block painted in `fg`, over `bg`.
#[derive(Clone, Copy, Debug, PartialEq, Eq, Structural)]
pub struct Cell {
    pub fg: Rgb,
    pub bg: Rgb,
}

/// A frame ready to be drawn: `rows` rows of `width` cells in row-major
/// order, shown for `delay_ns` nanoseconds.
#[derive(Clone, Debug)]
pub struct RenderFrame {
    pub width: u32,
    pub rows: u32,
    pub cells: Vec<Cell>,
    pub delay_ns: u64,
}

impl RenderFrame {
    /// The cell buffer holds exactly one cell per grid position.
    pub open spec fn wf(&self) -> bool {
        self.cells@.len() == (self.width as int) * (self.rows as int)
    }
}

/// An offset into a buffer of `w * h` pixels stays inside it.
pub proof fn lemma_channel_in_bounds(w: int, h: int, x: int, y: int, c: int)
    requires
        0 <= x < w,
        0 <= y < h,
        0 <= c < 4,
    ensures
        0 <= channel_index(w, x, y, c) < 4 * w * h,
{
    assert(0 <= y * w + x < w * h) by (nonlinear_arith)
        requires
            0 <= x < w,
            0 <= y < h,
    {
        assert(y * w + x < y * w + w);
        assert(y * w + w == (y + 1) * w);
        assert((y + 1) * w <= h * w);
    }
    assert(4 * (w * h) == 4 * w * h) by (nonlinear_arith);
}

/// The offset of the `k`-th byte names pixel `((k / 4) % w, (k / 4) / w)`
/// and channel `k % 4`.
pub proof fn lemma_channel_index_split(w: int, k: int)
    requires
        w >= 1,
        k >= 0,
    ensures
        channel_index(w, (k / 4) % w, (k / 4) / w, k % 4) == k,
{
    vstd::arithmetic::div_mod::lemma_fundamental_div_mod(k, 4);
    vstd::arithmetic::div_mod::lemma_fundamental_div_mod(k / 4, w);
    assert(((k / 4) / w) * w == w * ((k / 4) / w)) by (nonlinear_arith);
}

} // verus!
