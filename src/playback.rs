//! The playback scheduler's decisions: the schedule of rendered frames, the
//! order in which a frame is written out, how long to wait after it, and
//! which frame comes next. Writing, flushing and sleeping are left to the
//! caller's loop.

use vstd::prelude::*;
use vstd::arithmetic::div_mod::lemma_fundamental_div_mod_converse;
use crate::area::{area_output, resize_area};
use crate::filter::{FilterType, kernel_outcome, kernel_ready, resize_kernel};
use crate::fit::TargetSize;
use crate::frame::{Cell, Frame, RenderFrame};
use crate::glyph::{cells_of, composite};

verus! {

/// How long to sleep after a frame that should stay `delay_ns` on screen and
/// took `elapsed_ns` to draw: the rest of the delay, or nothing once drawing
/// has used it up. Render time is taken out of the delay, never added to it.
pub fn sleep_duration(delay_ns: u64, elapsed_ns: u64) -> (r: u64)
    ensures
        elapsed_ns < delay_ns ==> r == delay_ns - elapsed_ns,
        elapsed_ns >= delay_ns ==> r == 0,
        r <= delay_ns,
{
    if elapsed_ns < delay_ns {
        delay_ns - elapsed_ns
    } else {
        0
    }
}

/// The frame shown after frame `index` of a schedule of `count` frames: the
/// next one, and the first again after the last.
pub fn next_frame(index: usize, count: usize) -> (r: usize)
    requires
        index < count,
    ensures
        r == (index + 1) % (count as int),
        r < count,
{
    if index + 1 == count {
        proof {
            lemma_fundamental_div_mod_converse(index + 1, count as int, 1, 0);
        }
        0
    } else {
        proof {
            lemma_fundamental_div_mod_converse(index + 1, count as int, 0, index + 1);
        }
        index + 1
    }
}

/// One step of writing a frame out.
#[derive(Clone, Copy, Debug, PartialEq, Eq, Structural)]
pub enum Emit {
    /// Set the foreground and background colours and write the half block.
    Paint(Cell),
    /// Reset the colours and start a new line.
    LineBreak,
}

/// Number of steps for `rows` rows of `w` cells: every cell, and a line break
/// between consecutive rows.
pub open spec fn ops_len(w: int, rows: int) -> int {
    if rows <= 0 {
        0
    } else {
        rows * (w + 1) - 1
    }
}

/// Step `k` of writing a grid `w` cells wide: each row is its `w` cells from
/// left to right followed by a line break.
pub open spec fn op_at(cells: Seq<Cell>, w: int, k: int) -> Emit {
    let y = k / (w + 1);
    let x = k % (w + 1);
    if x == w {
        Emit::LineBreak
    } else {
        Emit::Paint(cells[y * w + x])
    }
}

/// All steps of writing a grid of `rows` rows of `w` cells, top row first.
pub open spec fn ops_of(cells: Seq<Cell>, w: int, rows: int) -> Seq<Emit> {
    Seq::new(ops_len(w, rows) as nat, |k: int| op_at(cells, w, k))
}

/// The steps that write `frame` out: its cells in row-major order, with a
/// line break after every row but the last.
pub fn frame_ops(frame: &RenderFrame) -> (r: Vec<Emit>)
    requires
        frame.wf(),
    ensures
        r@ == ops_of(frame.cells@, frame.width as int, frame.rows as int),
{
    let (w, rows) = (frame.width, frame.rows);
    let len: usize = frame.cells.len();
    let ghost wi = w as int;
    let ghost full = ops_of(frame.cells@, wi, rows as int);
    let mut out: Vec<Emit> = Vec::new();
    proof {
        assert(ops_len(wi, rows as int) >= 0) by (nonlinear_arith)
            requires
                ops_len(wi, rows as int) == (if rows <= 0 { 0 } else { (rows as int) * (wi + 1) - 1 }),
                wi >= 0,
        ;
    }
    let mut y: u32 = 0;
    while y < rows
        invariant
            y <= rows,
            w == frame.width,
            wi == w,
            rows == frame.rows,
            frame.wf(),
            len == frame.cells@.len(),
            full == ops_of(frame.cells@, wi, rows as int),
            full.len() == ops_len(wi, rows as int),
            out@.len() == ops_len(wi, y as int),
            out@ == full.subrange(0, out@.len() as int),
        decreases rows - y,
    {
        if y > 0 {
            let ghost k = (y - 1) * (wi + 1) + wi;
            proof {
                lemma_fundamental_div_mod_converse(k, wi + 1, y - 1, wi);
                assert(ops_len(wi, rows as int) == (rows as int) * (wi + 1) - 1);
                assert(ops_len(wi, y as int) == (y as int) * (wi + 1) - 1);
                assert(k == (y as int) * (wi + 1) - 1 && k < (rows as int) * (wi + 1) - 1)
                    by (nonlinear_arith)
                    requires
                        k == (y - 1) * (wi + 1) + wi,
                        y < rows,
                        wi >= 0,
                ;
                assert(out@.push(Emit::LineBreak) =~= full.subrange(0, k + 1));
            }
            out.push(Emit::LineBreak);
        }
        proof {
            assert(out@.len() == (y as int) * (wi + 1)) by (nonlinear_arith)
                requires
                    out@.len() == (if y == 0 { 0 } else { (y as int) * (wi + 1) - 1 + 1 }),
            ;
        }
        let mut x: u32 = 0;
        while x < w
            invariant
                x <= w,
                y < rows,
                w == frame.width,
                wi == w,
                rows == frame.rows,
                frame.wf(),
                len == frame.cells@.len(),
                full == ops_of(frame.cells@, wi, rows as int),
                full.len() == ops_len(wi, rows as int),
                out@.len() == (y as int) * (wi + 1) + (x as int),
                out@ == full.subrange(0, out@.len() as int),
            decreases w - x,
        {
            let ghost k = (y as int) * (wi + 1) + (x as int);
            proof {
                lemma_fundamental_div_mod_converse(k, wi + 1, y as int, x as int);
                assert((y as int) * wi + (x as int) < wi * (rows as int)) by (nonlinear_arith)
                    requires
                        x < wi,
                        y < rows,
                ;
                assert(0 <= (y as int) * wi) by (nonlinear_arith)
                    requires
                        y >= 0,
                        wi >= 0,
                ;
                assert(ops_len(wi, rows as int) == (rows as int) * (wi + 1) - 1);
                assert(k < (rows as int) * (wi + 1) - 1) by (nonlinear_arith)
                    requires
                        k == (y as int) * (wi + 1) + (x as int),
                        x < wi,
                        y < rows,
                ;
            }
            let op = Emit::Paint(frame.cells[(y as usize) * (w as usize) + (x as usize)]);
            proof {
                assert(full[k] == op);
                assert(out@.push(op) =~= full.subrange(0, k + 1));
            }
            out.push(op);
            x = x + 1;
        }
        proof {
            assert(ops_len(wi, y + 1) == (y + 1) * (wi + 1) - 1);
            assert((y as int) * (wi + 1) + wi == (y + 1) * (wi + 1) - 1) by (nonlinear_arith);
        }
        y = y + 1;
    }
    proof {
        assert(out@ =~= full);
    }
    out
}

/// How frames are brought to the target size.
#[derive(Clone, Copy, Debug, PartialEq, Eq, Structural)]
pub enum Resampler {
    /// Resampling with an interpolation kernel.
    Kernel(FilterType),
    /// Area averaging, which only shrinks.
    Area,
}

/// `f` can be brought to `to` with `how`: area averaging needs a target no
/// larger than the source.
pub open spec fn resample_ready(f: Frame, to: TargetSize, how: Resampler) -> bool {
    match how {
        Resampler::Kernel(_) => kernel_ready(f, to.width, to.height),
        Resampler::Area => f.wf() && 1 <= to.width <= f.width && 1 <= to.height <= f.height,
    }
}

/// `buf` is what bringing `f` to `to` with `how` gives: exactly the averaged
/// buffer for area averaging; for a kernel, what `kernel_outcome` states,
/// which fixes the buffer for the exact kernels and for an unchanged size.
pub open spec fn resampled(f: Frame, to: TargetSize, how: Resampler, buf: Seq<u8>) -> bool {
    match how {
        Resampler::Kernel(m) => kernel_outcome(buf, f.pixels@, f.width, f.height, to.width, to.height, m),
        Resampler::Area => buf == area_output(
            f.pixels@,
            f.width as int,
            f.height as int,
            to.width as int,
            to.height as int,
        ),
    }
}

/// Builds the playback schedule once, before playback: every frame is
/// resampled to `to` and packed into cells, in order. Each rendered frame has
/// `to.width` columns and `to.height / 2` rows, keeps its display delay, and
/// holds the cells of a buffer that `resampled` describes.
pub fn build_schedule(frames: &Vec<Frame>, to: TargetSize, how: Resampler) -> (r: Vec<RenderFrame>)
    requires
        to.height % 2 == 0,
        forall|i: int| 0 <= i < frames@.len() ==> resample_ready(#[trigger] frames@[i], to, how),
    ensures
        r@.len() == frames@.len(),
        forall|i: int| 0 <= i < r@.len() ==> {
            &&& (#[trigger] r@[i]).wf()
            &&& r@[i].width == to.width
            &&& r@[i].rows == to.height / 2
            &&& r@[i].delay_ns == frames@[i].delay_ns
            &&& exists|buf: Seq<u8>|
                #[trigger] resampled(frames@[i], to, how, buf)
                    && r@[i].cells@ == cells_of(buf, to.width as int, to.height as int)
        },
{
    let mut out: Vec<RenderFrame> = Vec::new();
    let mut i: usize = 0;
    while i < frames.len()
        invariant
            i <= frames@.len(),
            out@.len() == i,
            to.height % 2 == 0,
            forall|j: int| 0 <= j < frames@.len() ==> resample_ready(#[trigger] frames@[j], to, how),
            forall|j: int| 0 <= j < i ==> {
                &&& (#[trigger] out@[j]).wf()
                &&& out@[j].width == to.width
                &&& out@[j].rows == to.height / 2
                &&& out@[j].delay_ns == frames@[j].delay_ns
                &&& exists|buf: Seq<u8>|
                    #[trigger] resampled(frames@[j], to, how, buf)
                        && out@[j].cells@ == cells_of(buf, to.width as int, to.height as int)
            },
        decreases frames@.len() - i,
    {
        let f = &frames[i];
        assert(resample_ready(frames@[i as int], to, how));
        let sized = match how {
            Resampler::Kernel(mode) => resize_kernel(f, to.width, to.height, mode),
            Resampler::Area => resize_area(f, to.width, to.height),
        };
        let rendered = composite(&sized);
        assert(resampled(frames@[i as int], to, how, sized.pixels@));
        assert(rendered.cells@ == cells_of(sized.pixels@, to.width as int, to.height as int));
        let ghost before = out@;
        out.push(rendered);
        assert(forall|j: int| 0 <= j < i ==> out@[j] == before[j]);
        i = i + 1;
    }
    out
}

} // verus!
