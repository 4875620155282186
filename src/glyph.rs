//! The glyph compositor: two pixel rows become one row of half-block cells.

use vstd::prelude::*;
use vstd::arithmetic::div_mod::lemma_fundamental_div_mod_converse;
use crate::frame::{Cell, Frame, RenderFrame, Rgb, channel_index, lemma_channel_in_bounds};

verus! {

/// The colour of pixel `(x, y)`; alpha is not shown.
pub open spec fn rgb_at(px: Seq<u8>, w: int, x: int, y: int) -> Rgb {
    Rgb {
        r: px[channel_index(w, x, y, 0)],
        g: px[channel_index(w, x, y, 1)],
        b: px[channel_index(w, x, y, 2)],
    }
}

/// Cell `(x, y)` shows pixel `(x, 2y)` in its top half, which the glyph
/// leaves to the background, and pixel `(x, 2y + 1)` in its bottom half,
/// which the glyph paints in the foreground.
pub open spec fn cell_at(px: Seq<u8>, w: int, x: int, y: int) -> Cell {
    Cell { fg: rgb_at(px, w, x, 2 * y + 1), bg: rgb_at(px, w, x, 2 * y) }
}

/// All cells of a `w` by `h` pixel buffer, `h / 2` rows of `w` cells in
/// row-major order.
pub open spec fn cells_of(px: Seq<u8>, w: int, h: int) -> Seq<Cell> {
    Seq::new((w * (h / 2)) as nat, |k: int| cell_at(px, w, k % w, k / w))
}

fn pixel_rgb(px: &Vec<u8>, w: u32, h: u32, x: u32, y: u32) -> (r: Rgb)
    requires
        px@.len() == 4 * (w as int) * (h as int),
        x < w,
        y < h,
    ensures
        r == rgb_at(px@, w as int, x as int, y as int),
{
    let len: usize = px.len();
    proof {
        lemma_channel_in_bounds(w as int, h as int, x as int, y as int, 2);
        assert(0 <= (y as int) * (w as int)) by (nonlinear_arith)
            requires
                y >= 0,
                w >= 0,
        ;
    }
    let base: usize = 4 * ((y as usize) * (w as usize) + (x as usize));
    Rgb { r: px[base], g: px[base + 1], b: px[base + 2] }
}

/// Packs a frame of even height into half-block cells: `height / 2` rows of
/// `width` cells, each cell taking the pixel above as its background and the
/// pixel below as its foreground. The display delay is kept.
pub fn composite(frame: &Frame) -> (r: RenderFrame)
    requires
        frame.wf(),
        frame.height % 2 == 0,
    ensures
        r.wf(),
        r.width == frame.width,
        r.rows == frame.height / 2,
        r.delay_ns == frame.delay_ns,
        r.cells@ == cells_of(frame.pixels@, frame.width as int, frame.height as int),
{
    let (w, h) = (frame.width, frame.height);
    let rows: u32 = h / 2;
    let ghost full = cells_of(frame.pixels@, w as int, h as int);
    let mut cells: Vec<Cell> = Vec::new();
    let mut y: u32 = 0;
    while y < rows
        invariant
            y <= rows,
            rows == h / 2,
            w == frame.width,
            h == frame.height,
            frame.wf(),
            full == cells_of(frame.pixels@, w as int, h as int),
            cells@.len() == (y as int) * (w as int),
            cells@ == full.subrange(0, cells@.len() as int),
        decreases rows - y,
    {
        let mut x: u32 = 0;
        while x < w
            invariant
                x <= w,
                y < rows,
                rows == h / 2,
                w == frame.width,
                h == frame.height,
                frame.wf(),
                full == cells_of(frame.pixels@, w as int, h as int),
                cells@.len() == (y as int) * (w as int) + (x as int),
                cells@ == full.subrange(0, cells@.len() as int),
            decreases w - x,
        {
            let top = pixel_rgb(&frame.pixels, w, h, x, 2 * y);
            let bottom = pixel_rgb(&frame.pixels, w, h, x, 2 * y + 1);
            let cell = Cell { fg: bottom, bg: top };
            proof {
                let k = (y as int) * (w as int) + (x as int);
                lemma_fundamental_div_mod_converse(k, w as int, y as int, x as int);
                assert(k < (w as int) * (rows as int)) by (nonlinear_arith)
                    requires
                        k == (y as int) * (w as int) + (x as int),
                        x < w,
                        y < rows,
                ;
                assert(full[k] == cell);
                assert(cells@.push(cell) =~= full.subrange(0, k + 1));
            }
            cells.push(cell);
            x = x + 1;
        }
        proof {
            assert((y as int) * (w as int) + (w as int) == (y + 1) * (w as int)) by (nonlinear_arith);
        }
        y = y + 1;
    }
    proof {
        assert((rows as int) * (w as int) == (w as int) * (rows as int)) by (nonlinear_arith);
        assert(cells@ =~= full);
    }
    RenderFrame { width: w, rows, cells, delay_ns: frame.delay_ns }
}

} // verus!
