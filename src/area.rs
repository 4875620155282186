//! Area averaging: downsampling by the unweighted mean of the source pixels
//! that fall into each target pixel's box.

use vstd::prelude::*;
use vstd::arithmetic::div_mod::{lemma_div_is_ordered, lemma_fundamental_div_mod, lemma_fundamental_div_mod_converse, lemma_div_by_multiple};
use crate::frame::{Frame, channel_index, lemma_channel_in_bounds, lemma_channel_index_split};

verus! {

/// Channel `c` of pixel `(x, y)` of an RGBA buffer with rows `w` pixels wide.
pub open spec fn sample(px: Seq<u8>, w: int, x: int, y: int, c: int) -> int {
    px[channel_index(w, x, y, c)] as int
}

/// Sum of channel `c` over the pixels `x0 .. x` of row `y`.
pub open spec fn row_sum(px: Seq<u8>, w: int, c: int, y: int, x0: int, x: int) -> int
    decreases x - x0,
{
    if x <= x0 {
        0
    } else {
        row_sum(px, w, c, y, x0, x - 1) + sample(px, w, x - 1, y, c)
    }
}

/// Sum of channel `c` over the box of columns `x0 .. x1` and rows `y0 .. y`.
pub open spec fn box_sum(px: Seq<u8>, w: int, c: int, x0: int, x1: int, y0: int, y: int) -> int
    decreases y - y0,
{
    if y <= y0 {
        0
    } else {
        box_sum(px, w, c, x0, x1, y0, y - 1) + row_sum(px, w, c, y - 1, x0, x1)
    }
}

/// The first source index that target index `i` covers, when `t` target
/// indices share out `g` source indices: `floor(i * g / t)`.
pub open spec fn box_start(i: int, g: int, t: int) -> int {
    i * g / t
}

/// Channel `c` of target pixel `(x, y)` when a `gx` by `gy` source is averaged
/// down to `tx` by `ty`: the truncated mean of that channel over the source
/// box `[box_start(x), box_start(x + 1)) x [box_start(y), box_start(y + 1))`.
pub open spec fn area_value(px: Seq<u8>, gx: int, gy: int, tx: int, ty: int, x: int, y: int, c: int) -> int {
    let x0 = box_start(x, gx, tx);
    let x1 = box_start(x + 1, gx, tx);
    let y0 = box_start(y, gy, ty);
    let y1 = box_start(y + 1, gy, ty);
    box_sum(px, gx, c, x0, x1, y0, y1) / ((x1 - x0) * (y1 - y0))
}

/// The whole averaged buffer, `tx * ty` RGBA pixels in row-major order.
pub open spec fn area_output(px: Seq<u8>, gx: int, gy: int, tx: int, ty: int) -> Seq<u8> {
    Seq::new(
        (4 * tx * ty) as nat,
        |k: int| area_value(px, gx, gy, tx, ty, (k / 4) % tx, (k / 4) / tx, k % 4) as u8,
    )
}

proof fn lemma_row_sum_bound(px: Seq<u8>, w: int, c: int, y: int, x0: int, x: int)
    requires
        x0 <= x,
    ensures
        0 <= row_sum(px, w, c, y, x0, x) <= 255 * (x - x0),
    decreases x - x0,
{
    if x > x0 {
        lemma_row_sum_bound(px, w, c, y, x0, x - 1);
    }
}

proof fn lemma_box_sum_bound(px: Seq<u8>, w: int, c: int, x0: int, x1: int, y0: int, y: int)
    requires
        x0 <= x1,
        y0 <= y,
    ensures
        0 <= box_sum(px, w, c, x0, x1, y0, y) <= 255 * (x1 - x0) * (y - y0),
    decreases y - y0,
{
    if y > y0 {
        lemma_box_sum_bound(px, w, c, x0, x1, y0, y - 1);
        lemma_row_sum_bound(px, w, c, y - 1, x0, x1);
        assert(255 * (x1 - x0) * (y - 1 - y0) + 255 * (x1 - x0) == 255 * (x1 - x0) * (y - y0))
            by (nonlinear_arith);
    }
}

/// Consecutive target indices cover non-empty, adjacent source ranges.
proof fn lemma_box_start_bounds(i: int, g: int, t: int)
    requires
        0 <= i < t,
        t <= g,
    ensures
        0 <= box_start(i, g, t) < box_start(i + 1, g, t) <= g,
{
    lemma_fundamental_div_mod(i * g, t);
    lemma_fundamental_div_mod((i + 1) * g, t);
    assert(0 <= i * g) by (nonlinear_arith)
        requires
            0 <= i,
            0 <= g,
    ;
    assert((i + 1) * g == i * g + g) by (nonlinear_arith);
    assert((i + 1) * g <= t * g) by (nonlinear_arith)
        requires
            i + 1 <= t,
            0 <= g,
    ;
    lemma_div_is_ordered((i + 1) * g, t * g, t);
    assert(t * g == g * t) by (nonlinear_arith);
    lemma_div_by_multiple(g, t);
    lemma_div_is_ordered(0, i * g, t);
    let a = i * g / t;
    let b = (i + 1) * g / t;
    assert(a < b) by (nonlinear_arith)
        requires
            i * g == t * a + (i * g) % t,
            (i + 1) * g == t * b + ((i + 1) * g) % t,
            0 <= (i * g) % t < t,
            0 <= ((i + 1) * g) % t < t,
            (i + 1) * g == i * g + g,
            t <= g,
            t > 0,
    ;
}

/// The truncated mean of channel `c` over the pixel box `[x0, x1) x [y0, y1)`
/// of a `w` by `h` buffer.
fn box_average(px: &Vec<u8>, w: u32, h: u32, c: u32, x0: u32, x1: u32, y0: u32, y1: u32) -> (r: u8)
    requires
        px@.len() == 4 * (w as int) * (h as int),
        x0 < x1 <= w,
        y0 < y1 <= h,
        c < 4,
    ensures
        r as int == box_sum(px@, w as int, c as int, x0 as int, x1 as int, y0 as int, y1 as int)
            / ((x1 - x0) * (y1 - y0)),
{
    let ghost s = px@;
    let ghost (wi, ci) = (w as int, c as int);
    let len: usize = px.len();
    let mut acc: u128 = 0;
    let mut j: u32 = y0;
    while j < y1
        invariant
            y0 <= j <= y1,
            x0 < x1 <= w,
            y1 <= h,
            c < 4,
            s == px@,
            s.len() == len,
            s.len() == 4 * wi * (h as int),
            wi == w,
            ci == c,
            acc == box_sum(s, wi, ci, x0 as int, x1 as int, y0 as int, j as int),
        decreases y1 - j,
    {
        let mut i: u32 = x0;
        while i < x1
            invariant
                x0 <= i <= x1,
                y0 <= j < y1,
                x0 < x1 <= w,
                y1 <= h,
                c < 4,
                s == px@,
                s.len() == len,
                s.len() == 4 * wi * (h as int),
                wi == w,
                ci == c,
                acc == box_sum(s, wi, ci, x0 as int, x1 as int, y0 as int, j as int)
                    + row_sum(s, wi, ci, j as int, x0 as int, i as int),
            decreases x1 - i,
        {
            proof {
                lemma_channel_in_bounds(wi, h as int, i as int, j as int, ci);
                lemma_box_sum_bound(s, wi, ci, x0 as int, x1 as int, y0 as int, j as int);
                lemma_row_sum_bound(s, wi, ci, j as int, x0 as int, i as int);
                assert(255 * ((x1 - x0) as int) * ((j - y0) as int) <= 255 * 0x1_0000_0000 * 0x1_0000_0000)
                    by (nonlinear_arith)
                    requires
                        0 <= x1 - x0 <= 0x1_0000_0000,
                        0 <= j - y0 <= 0x1_0000_0000,
                ;
                assert(0 <= (j as int) * wi) by (nonlinear_arith)
                    requires
                        j >= 0,
                        wi >= 0,
                ;
                assert((j as int) * wi + (i as int) <= channel_index(wi, i as int, j as int, ci));
            }
            let idx: usize = 4 * ((j as usize) * (w as usize) + (i as usize)) + (c as usize);
            acc = acc + px[idx] as u128;
            i = i + 1;
        }
        j = j + 1;
    }
    let ghost total = box_sum(s, wi, ci, x0 as int, x1 as int, y0 as int, y1 as int);
    proof {
        lemma_box_sum_bound(s, wi, ci, x0 as int, x1 as int, y0 as int, y1 as int);
        assert(((x1 - x0) as int) * ((y1 - y0) as int) <= 0x1_0000_0000 * 0x1_0000_0000) by (nonlinear_arith)
            requires
                0 <= x1 - x0 <= 0x1_0000_0000,
                0 <= y1 - y0 <= 0x1_0000_0000,
        ;
        assert(((x1 - x0) as int) * ((y1 - y0) as int) >= 1) by (nonlinear_arith)
            requires
                x1 - x0 >= 1,
                y1 - y0 >= 1,
        ;
    }
    let count: u128 = ((x1 - x0) as u128) * ((y1 - y0) as u128);
    proof {
        let n = count as int;
        assert(255 * ((x1 - x0) as int) * ((y1 - y0) as int) == 255 * n) by (nonlinear_arith)
            requires
                n == ((x1 - x0) as int) * ((y1 - y0) as int),
        ;
        lemma_div_is_ordered(total, 255 * n, n);
        lemma_div_by_multiple(255, n);
        lemma_div_is_ordered(0, total, n);
    }
    (acc / count) as u8
}

/// Locates a byte of the output: the `k`-th byte written for pixel `(x, y)`
/// and channel `c` is that pixel's channel in the row-major layout.
proof fn lemma_channel_index_unique(w: int, x: int, y: int, c: int)
    requires
        0 <= x < w,
        0 <= y,
        0 <= c < 4,
    ensures
        ({
            let k = channel_index(w, x, y, c);
            &&& (k / 4) % w == x
            &&& (k / 4) / w == y
            &&& k % 4 == c
        }),
{
    let k = channel_index(w, x, y, c);
    lemma_fundamental_div_mod_converse(k, 4, y * w + x, c);
    lemma_fundamental_div_mod_converse(y * w + x, w, y, x);
}

/// Source box `[start(i), start(i + 1))` for target index `i`, computed
/// without overflow.
fn box_start_exec(i: u32, g: u32, t: u32) -> (r: u32)
    requires
        i <= t,
        1 <= t <= g,
    ensures
        r == box_start(i as int, g as int, t as int),
{
    proof {
        assert((i as int) * (g as int) <= (t as int) * (g as int)) by (nonlinear_arith)
            requires
                i <= t,
                g >= 0,
        ;
        assert((t as int) * (g as int) <= (u32::MAX as int) * (u32::MAX as int)) by (nonlinear_arith)
            requires
                t <= u32::MAX,
                g <= u32::MAX,
        ;
        lemma_div_is_ordered((i as int) * (g as int), (t as int) * (g as int), t as int);
        assert((t as int) * (g as int) == (g as int) * (t as int)) by (nonlinear_arith);
        lemma_div_by_multiple(g as int, t as int);
        lemma_div_is_ordered(0, (i as int) * (g as int), t as int);
    }
    ((i as u64) * (g as u64) / (t as u64)) as u32
}

/// Downsamples `frame` to `tw` by `th` pixels by area averaging: each channel
/// of each target pixel is the truncated mean of that channel over the source
/// pixels of its box. The display delay is kept. Averaging never enlarges, so
/// the target may not exceed the source.
pub fn resize_area(frame: &Frame, tw: u32, th: u32) -> (r: Frame)
    requires
        frame.wf(),
        1 <= tw <= frame.width,
        1 <= th <= frame.height,
    ensures
        r.wf(),
        r.width == tw,
        r.height == th,
        r.delay_ns == frame.delay_ns,
        r.pixels@ == area_output(frame.pixels@, frame.width as int, frame.height as int, tw as int, th as int),
{
    let (gx, gy) = (frame.width, frame.height);
    let ghost full = area_output(frame.pixels@, gx as int, gy as int, tw as int, th as int);
    let mut out: Vec<u8> = Vec::new();
    let mut y: u32 = 0;
    while y < th
        invariant
            y <= th,
            1 <= tw <= gx,
            1 <= th <= gy,
            gx == frame.width,
            gy == frame.height,
            frame.wf(),
            full == area_output(frame.pixels@, gx as int, gy as int, tw as int, th as int),
            out@.len() == 4 * (y as int) * (tw as int),
            out@ == full.subrange(0, out@.len() as int),
        decreases th - y,
    {
        let y0 = box_start_exec(y, gy, th);
        let y1 = box_start_exec(y + 1, gy, th);
        proof {
            lemma_box_start_bounds(y as int, gy as int, th as int);
            assert(4 * (y as int) * (tw as int) == channel_index(tw as int, 0, y as int, 0))
                by (nonlinear_arith);
        }
        let mut x: u32 = 0;
        while x < tw
            invariant
                x <= tw,
                y < th,
                1 <= tw <= gx,
                1 <= th <= gy,
                gx == frame.width,
                gy == frame.height,
                frame.wf(),
                y0 == box_start(y as int, gy as int, th as int),
                y1 == box_start(y + 1, gy as int, th as int),
                y0 < y1 <= gy,
                full == area_output(frame.pixels@, gx as int, gy as int, tw as int, th as int),
                out@.len() == channel_index(tw as int, x as int, y as int, 0),
                out@ == full.subrange(0, out@.len() as int),
            decreases tw - x,
        {
            let x0 = box_start_exec(x, gx, tw);
            let x1 = box_start_exec(x + 1, gx, tw);
            proof {
                lemma_box_start_bounds(x as int, gx as int, tw as int);
            }
            let mut c: u32 = 0;
            while c < 4
                invariant
                    c <= 4,
                    x < tw,
                    y < th,
                    1 <= tw <= gx,
                    1 <= th <= gy,
                    gx == frame.width,
                    gy == frame.height,
                    frame.wf(),
                    y0 == box_start(y as int, gy as int, th as int),
                    y1 == box_start(y + 1, gy as int, th as int),
                    x0 == box_start(x as int, gx as int, tw as int),
                    x1 == box_start(x + 1, gx as int, tw as int),
                    y0 < y1 <= gy,
                    x0 < x1 <= gx,
                    full == area_output(frame.pixels@, gx as int, gy as int, tw as int, th as int),
                    out@.len() == channel_index(tw as int, x as int, y as int, c as int),
                    out@ == full.subrange(0, out@.len() as int),
                decreases 4 - c,
            {
                let v = box_average(&frame.pixels, gx, gy, c, x0, x1, y0, y1);
                proof {
                    let k = channel_index(tw as int, x as int, y as int, c as int);
                    lemma_channel_index_unique(tw as int, x as int, y as int, c as int);
                    lemma_channel_in_bounds(tw as int, th as int, x as int, y as int, c as int);
                    assert(full[k] == v);
                    assert(out@.push(v) =~= full.subrange(0, k + 1));
                }
                out.push(v);
                c = c + 1;
            }
            proof {
                assert(channel_index(tw as int, x as int, y as int, 4)
                    == channel_index(tw as int, x + 1, y as int, 0));
            }
            x = x + 1;
        }
        proof {
            assert(channel_index(tw as int, tw as int, y as int, 0) == 4 * (y + 1) * (tw as int))
                by (nonlinear_arith);
        }
        y = y + 1;
    }
    proof {
        assert(4 * (th as int) * (tw as int) == 4 * (tw as int) * (th as int)) by (nonlinear_arith);
        assert(out@ =~= full);
    }
    Frame { width: tw, height: th, pixels: out, delay_ns: frame.delay_ns }
}

proof fn lemma_row_sum_uniform(px: Seq<u8>, w: int, c: int, y: int, x0: int, x: int, v: int)
    requires
        x0 <= x,
        forall|i: int| x0 <= i < x ==> #[trigger] sample(px, w, i, y, c) == v,
    ensures
        row_sum(px, w, c, y, x0, x) == v * (x - x0),
    decreases x - x0,
{
    if x > x0 {
        lemma_row_sum_uniform(px, w, c, y, x0, x - 1, v);
        assert(sample(px, w, x - 1, y, c) == v);
        assert(v * (x - 1 - x0) + v == v * (x - x0)) by (nonlinear_arith);
    } else {
        assert(v * (x - x0) == 0) by (nonlinear_arith)
            requires
                x == x0,
        ;
    }
}

proof fn lemma_box_sum_uniform(px: Seq<u8>, w: int, c: int, x0: int, x1: int, y0: int, y: int, v: int)
    requires
        x0 <= x1,
        y0 <= y,
        forall|i: int, j: int| x0 <= i < x1 && y0 <= j < y ==> #[trigger] sample(px, w, i, j, c) == v,
    ensures
        box_sum(px, w, c, x0, x1, y0, y) == v * ((x1 - x0) * (y - y0)),
    decreases y - y0,
{
    if y > y0 {
        lemma_box_sum_uniform(px, w, c, x0, x1, y0, y - 1, v);
        assert forall|i: int| x0 <= i < x1 implies #[trigger] sample(px, w, i, y - 1, c) == v by {
            assert(sample(px, w, i, y - 1, c) == v);
        }
        lemma_row_sum_uniform(px, w, c, y - 1, x0, x1, v);
        assert(v * ((x1 - x0) * (y - 1 - y0)) + v * (x1 - x0) == v * ((x1 - x0) * (y - y0)))
            by (nonlinear_arith);
    } else {
        assert(v * ((x1 - x0) * (y - y0)) == 0) by (nonlinear_arith)
            requires
                y == y0,
        ;
    }
}

/// Averaging a frame down to its own size gives the frame back unchanged.
pub proof fn lemma_area_identity(px: Seq<u8>, w: int, h: int)
    requires
        w >= 1,
        h >= 1,
        px.len() == 4 * w * h,
    ensures
        area_output(px, w, h, w, h) == px,
{
    let out = area_output(px, w, h, w, h);
    assert(4 * w * h >= 0) by (nonlinear_arith)
        requires
            w >= 1,
            h >= 1,
    ;
    assert forall|k: int| 0 <= k < px.len() implies out[k] == px[k] by {
        let (x, y, c) = ((k / 4) % w, (k / 4) / w, k % 4);
        lemma_channel_index_split(w, k);
        lemma_div_by_multiple(x, w);
        lemma_div_by_multiple(x + 1, w);
        lemma_div_by_multiple(y, h);
        lemma_div_by_multiple(y + 1, h);
        assert(row_sum(px, w, c, y, x, x) == 0);
        assert(row_sum(px, w, c, y, x, x + 1) == sample(px, w, x, y, c));
        assert(box_sum(px, w, c, x, x + 1, y, y) == 0);
        assert(box_sum(px, w, c, x, x + 1, y, y + 1) == sample(px, w, x, y, c));
        assert(((x + 1 - x) * (y + 1 - y)) == 1) by (nonlinear_arith);
        assert(box_start(x, w, w) == x);
        assert(box_start(x + 1, w, w) == x + 1);
        assert(box_start(y, h, h) == y);
        assert(box_start(y + 1, h, h) == y + 1);
        assert(sample(px, w, x, y, c) == px[k] as int);
        assert(area_value(px, w, h, w, h, x, y, c) == px[k] as int);
    }
    assert(out =~= px);
}

/// Where every source pixel in a target pixel's box has the colour `color`
/// (four channels, alpha included), that target pixel comes out exactly
/// `color`.
pub proof fn lemma_area_uniform(px: Seq<u8>, gx: int, gy: int, tx: int, ty: int, x: int, y: int, color: Seq<u8>)
    requires
        1 <= tx <= gx,
        1 <= ty <= gy,
        0 <= x < tx,
        0 <= y < ty,
        color.len() == 4,
        forall|i: int, j: int, c: int|
            box_start(x, gx, tx) <= i < box_start(x + 1, gx, tx)
            && box_start(y, gy, ty) <= j < box_start(y + 1, gy, ty)
            && 0 <= c < 4
            ==> #[trigger] sample(px, gx, i, j, c) == color[c],
    ensures
        forall|c: int| 0 <= c < 4 ==> #[trigger] area_value(px, gx, gy, tx, ty, x, y, c) == color[c] as int,
{
    let x0 = box_start(x, gx, tx);
    let x1 = box_start(x + 1, gx, tx);
    let y0 = box_start(y, gy, ty);
    let y1 = box_start(y + 1, gy, ty);
    lemma_box_start_bounds(x, gx, tx);
    lemma_box_start_bounds(y, gy, ty);
    assert forall|c: int| 0 <= c < 4 implies #[trigger] area_value(px, gx, gy, tx, ty, x, y, c) == color[c] as int by {
        let v = color[c] as int;
        assert forall|i: int, j: int| x0 <= i < x1 && y0 <= j < y1 implies #[trigger] sample(px, gx, i, j, c) == v by {
            assert(sample(px, gx, i, j, c) == color[c]);
        }
        lemma_box_sum_uniform(px, gx, c, x0, x1, y0, y1, v);
        let n = (x1 - x0) * (y1 - y0);
        assert(n > 0) by (nonlinear_arith)
            requires
                x1 - x0 > 0,
                y1 - y0 > 0,
                n == (x1 - x0) * (y1 - y0),
        ;
        assert(v * n == n * v) by (nonlinear_arith);
        lemma_div_by_multiple(v, n);
    }
}

} // verus!
