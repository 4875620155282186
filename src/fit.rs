//! The spatial fitter: choosing the pixel size that frames are resampled to.

use vstd::prelude::*;

verus! {

/// The pixel dimensions that every frame is resampled to.
#[derive(Clone, Copy, Debug, PartialEq, Eq, Structural)]
pub struct TargetSize {
    pub width: u32,
    pub height: u32,
}

/// Rounds a height down to an even number of pixel rows, but never below one
/// row pair.
pub open spec fn even_height(h: int) -> int {
    if h < 2 {
        2
    } else {
        h - h % 2
    }
}

/// Clamps a scaled width so that it is never empty.
pub open spec fn at_least_one(v: int) -> int {
    if v < 1 {
        1
    } else {
        v
    }
}

/// The target size for a source of `gx` by `gy` pixels and a terminal that
/// offers `tx` pixel columns and `ty` pixel rows.
///
/// A source that fits, or any source when resizing is disabled, keeps its
/// size. Otherwise both sides are scaled by the smaller of `tx / gx` and
/// `ty / gy` and truncated; the side that decides the scale lands exactly on
/// the terminal's capacity.
pub open spec fn fit_spec(gx: int, gy: int, tx: int, ty: int, no_resize: bool) -> (int, int) {
    if no_resize || (gx <= tx && gy <= ty) {
        (gx, even_height(gy))
    } else if tx * gy <= ty * gx {
        (at_least_one(tx), even_height(gy * tx / gx))
    } else {
        (at_least_one(gx * ty / gy), even_height(ty))
    }
}

proof fn lemma_u32_product_fits(a: u32, b: u32)
    ensures
        (a as int) * (b as int) <= u64::MAX,
{
    assert((a as int) * (b as int) <= (u32::MAX as int) * (u32::MAX as int)) by (nonlinear_arith)
        requires
            a <= u32::MAX,
            b <= u32::MAX,
    ;
}

fn even_height_exec(h: u32) -> (r: u32)
    ensures
        r == even_height(h as int),
{
    if h < 2 {
        2
    } else {
        h - h % 2
    }
}

/// Computes the target size of an animation whose frames are `gx` by `gy`
/// pixels, for a terminal of `tx` pixel columns and `ty` pixel rows (twice
/// its text rows).
pub fn fit_target(gx: u32, gy: u32, tx: u32, ty: u32, no_resize: bool) -> (r: TargetSize)
    requires
        gx >= 1,
        gy >= 1,
    ensures
        (r.width as int, r.height as int) == fit_spec(gx as int, gy as int, tx as int, ty as int, no_resize),
        r.width >= 1,
        r.height >= 2,
        r.height % 2 == 0,
{
    if no_resize || (gx <= tx && gy <= ty) {
        return TargetSize { width: gx, height: even_height_exec(gy) };
    }
    proof {
        lemma_u32_product_fits(tx, gy);
        lemma_u32_product_fits(ty, gx);
        lemma_u32_product_fits(gy, tx);
        lemma_u32_product_fits(gx, ty);
    }
    let wide: u64 = (tx as u64) * (gy as u64);
    let tall: u64 = (ty as u64) * (gx as u64);
    if wide <= tall {
        let h: u64 = (gy as u64) * (tx as u64) / (gx as u64);
        proof {
            assert(h <= ty) by (nonlinear_arith)
                requires
                    h == (gy as int) * (tx as int) / (gx as int),
                    (tx as int) * (gy as int) <= (ty as int) * (gx as int),
                    gx >= 1,
            {
                assert((gy as int) * (tx as int) / (gx as int) <= (ty as int) * (gx as int) / (gx as int));
            }
        }
        let w: u32 = if tx < 1 { 1 } else { tx };
        TargetSize { width: w, height: even_height_exec(h as u32) }
    } else {
        let w: u64 = (gx as u64) * (ty as u64) / (gy as u64);
        proof {
            assert(w <= tx) by (nonlinear_arith)
                requires
                    w == (gx as int) * (ty as int) / (gy as int),
                    (tx as int) * (gy as int) > (ty as int) * (gx as int),
                    gy >= 1,
            {
                assert((gx as int) * (ty as int) / (gy as int) <= (tx as int) * (gy as int) / (gy as int));
            }
        }
        let w32: u32 = if w < 1 { 1 } else { w as u32 };
        TargetSize { width: w32, height: even_height_exec(ty) }
    }
}

/// With resizing enabled and a terminal of at least one column and one text
/// row, the target size fits the terminal, and it keeps the source's aspect
/// ratio up to rounding: the width is within one pixel column and the height
/// within one row pair of the exactly scaled size, which in cross-multiplied
/// form bounds `|width * gy - height * gx|` by `gy + 2 * gx`.
pub proof fn lemma_fit_within_capacity(gx: u32, gy: u32, tx: u32, ty: u32)
    requires
        gx >= 1,
        gy >= 1,
        tx >= 1,
        ty >= 2,
    ensures
        ({
            let (w, h) = fit_spec(gx as int, gy as int, tx as int, ty as int, false);
            &&& 1 <= w <= tx
            &&& 2 <= h <= ty
            &&& h % 2 == 0
            &&& -(gy + 2 * gx) <= w * gy - h * gx <= gy + 2 * gx
        }),
{
    let (gx, gy, tx, ty) = (gx as int, gy as int, tx as int, ty as int);
    if gx <= tx && gy <= ty {
        let h = even_height(gy);
        assert(gy - 1 <= h <= gy + 1);
        assert(-gx <= gx * gy - h * gx <= gx) by (nonlinear_arith)
            requires
                gy - 1 <= h <= gy + 1,
                gx >= 1,
        ;
    } else if tx * gy <= ty * gx {
        let h0 = gy * tx / gx;
        assert(h0 <= ty) by (nonlinear_arith)
            requires
                h0 == gy * tx / gx,
                tx * gy <= ty * gx,
                gx >= 1,
        {
            assert(gy * tx / gx <= ty * gx / gx);
        }
        assert(tx * gy - gx < h0 * gx <= tx * gy) by (nonlinear_arith)
            requires
                h0 == gy * tx / gx,
                gx >= 1,
        {
            vstd::arithmetic::div_mod::lemma_fundamental_div_mod(gy * tx, gx);
        }
        let h = even_height(h0);
        assert(h0 - 1 <= h <= h0 + 2);
        assert(-2 * gx <= tx * gy - h * gx <= 2 * gx) by (nonlinear_arith)
            requires
                h0 - 1 <= h <= h0 + 2,
                tx * gy - gx < h0 * gx <= tx * gy,
                gx >= 1,
        ;
    } else {
        let w0 = gx * ty / gy;
        assert(w0 <= tx) by (nonlinear_arith)
            requires
                w0 == gx * ty / gy,
                tx * gy > ty * gx,
                gy >= 1,
        {
            assert(gx * ty / gy <= tx * gy / gy);
        }
        assert(gx * ty - gy < w0 * gy <= gx * ty) by (nonlinear_arith)
            requires
                w0 == gx * ty / gy,
                gy >= 1,
        {
            vstd::arithmetic::div_mod::lemma_fundamental_div_mod(gx * ty, gy);
        }
        let w = at_least_one(w0);
        let h = even_height(ty);
        assert(w0 <= w <= w0 + 1);
        assert(ty - 1 <= h <= ty);
        assert(-(gy + 2 * gx) <= w * gy - h * gx <= gy + 2 * gx) by (nonlinear_arith)
            requires
                w0 <= w <= w0 + 1,
                ty - 1 <= h <= ty,
                gx * ty - gy < w0 * gy <= gx * ty,
                gx >= 1,
                gy >= 1,
        ;
    }
}

} // verus!
