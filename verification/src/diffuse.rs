//! The diffuse-decay stage.
//!
//! Per cell: average the 3x3 window about the cell (window coordinates
//! clamped into the grid at the edges), blend the average with the cell's own
//! value in proportion to `diffuse_rate * delta_time`, then scale the result
//! by `1 - decay_rate * delta_time`, clamped to not go negative. The stage
//! reads one field and writes another: diffusion must read each neighbour's
//! pre-diffusion value, so an in-place update would corrupt later reads
//! within the same dispatch.

use vstd::prelude::*;
use crate::field::{Field, spec_idx, cell_fn, rows_fn, grid_total, lemma_idx_bounds};
use crate::fixed::FX_ONE;
use crate::sums::{clamp_idx, row_of, row_sums_of, grid_sum, const2_fn, lemma_sum_congruence,
    lemma_sum_window3, lemma_sum_split3, lemma_sum_scale, lemma_grid_sum_le,
    lemma_grid_sum_split3, lemma_grid_sum_scale, lemma_grid_sum_const};

verus! {

/// The cells of a grid, as a function of cell coordinates.
pub open spec fn cell_of(c: Seq<u32>, w: int) -> spec_fn(int, int) -> int {
    |x: int, y: int| c[spec_idx(w, x, y)] as int
}

/// The horizontal 3-window sum about `(x, y)`: the cell and its left and
/// right neighbours, with `x`-coordinates clamped into the grid.
pub open spec fn hsum(c: Seq<u32>, w: int, x: int, y: int) -> int {
    cell_of(c, w)(clamp_idx(x - 1, w), y) + cell_of(c, w)(x, y) + cell_of(c, w)(
        clamp_idx(x + 1, w),
        y,
    )
}

/// `hsum` as a grid-indexed function.
pub open spec fn hsum_of(c: Seq<u32>, w: int) -> spec_fn(int, int) -> int {
    |x: int, y: int| hsum(c, w, x, y)
}

/// The full 3x3 window sum about `(x, y)`, both coordinates clamped into the
/// grid at the edges.
pub open spec fn wsum(c: Seq<u32>, w: int, h: int, x: int, y: int) -> int {
    hsum(c, w, x, clamp_idx(y - 1, h)) + hsum(c, w, x, y) + hsum(c, w, x, clamp_idx(y + 1, h))
}

/// `wsum` as a grid-indexed function.
pub open spec fn wsum_of(c: Seq<u32>, w: int, h: int) -> spec_fn(int, int) -> int {
    |x: int, y: int| wsum(c, w, h, x, y)
}

/// The per-sub-step fixed-point fraction `rate * delta`, clamped to one.
pub open spec fn frac_of(rate: int, delta: int) -> int {
    let f = (rate * delta) / (FX_ONE as int);
    if f > FX_ONE as int {
        FX_ONE as int
    } else {
        f
    }
}

/// The fixed-point survival factor `1 - decay_rate * delta`, clamped to not
/// go negative.
pub open spec fn keep_of(rate: int, delta: int) -> int {
    (FX_ONE as int) - frac_of(rate, delta)
}

/// A cell value blended toward its window average in proportion `f` of one.
pub open spec fn blended_value(cv: int, ws: int, f: int) -> int {
    (cv * ((FX_ONE as int) - f) + (ws / 9) * f) / (FX_ONE as int)
}

/// A cell value scaled by the survival factor `keep`.
pub open spec fn decayed_value(v: int, keep: int) -> int {
    (v * keep) / (FX_ONE as int)
}

/// What the diffuse-decay stage writes at `(x, y)`: the blended window
/// average, then the decay.
pub open spec fn new_cell(c: Seq<u32>, w: int, h: int, x: int, y: int, f: int, keep: int) -> int {
    decayed_value(blended_value(cell_of(c, w)(x, y), wsum(c, w, h, x, y), f), keep)
}

/// Computes the per-sub-step fraction of a per-second fixed-point rate.
pub fn step_frac(rate: u32, delta: u32) -> (r: u32)
    ensures
        r as int == frac_of(rate as int, delta as int),
        r <= FX_ONE as u32,
{
    proof {
        assert(rate as int * delta as int <= 0xffff_ffff * (0xffff_ffff as int))
            by (nonlinear_arith)
            requires
                0 <= rate as int <= 0xffff_ffff,
                0 <= delta as int <= 0xffff_ffff,
        ;
    }
    let p: u64 = (rate as u64) * (delta as u64) / 65536;
    if p > 65536 {
        65536u32
    } else {
        p as u32
    }
}

/// Applies the blend and decay arithmetic to one cell.
fn apply_rates(cv: u32, ws: u64, f: u32, keep: u32) -> (r: u32)
    requires
        ws <= 9 * (u32::MAX as u64),
        f <= FX_ONE as u32,
        keep <= FX_ONE as u32,
    ensures
        r as int == decayed_value(blended_value(cv as int, ws as int, f as int), keep as int),
{
    let avg: u64 = ws / 9;
    proof {
        assert(cv as int * (65536 - f as int) <= 0xffff_ffff * 65536) by (nonlinear_arith)
            requires
                0 <= cv as int <= 0xffff_ffff,
                0 <= 65536 - f as int <= 65536,
        ;
        assert(avg as int * (f as int) <= 0xffff_ffff * 65536) by (nonlinear_arith)
            requires
                0 <= avg as int <= 0xffff_ffff,
                0 <= f as int <= 65536,
        ;
    }
    let num: u64 = (cv as u64) * (65536 - f as u64) + avg * (f as u64);
    let blended: u64 = num / 65536;
    proof {
        let big: int = (0xffff_ffff as int) * 65536 * 2;
        assert(num as int <= big);
        assert(blended as int <= 0xffff_ffff * 2) by {
            assert(num as int / 65536 <= big / 65536) by {
                vstd::arithmetic::div_mod::lemma_div_is_ordered(num as int, big, 65536);
            }
        }
        assert(blended as int * (keep as int) <= 0xffff_ffff * 2 * 65536) by (nonlinear_arith)
            requires
                0 <= blended as int <= 0xffff_ffff * 2,
                0 <= keep as int <= 65536,
        ;
    }
    let out: u64 = blended * (keep as u64) / 65536;
    proof {
        let s = 65536 as int;
        let m = u32::MAX as int;
        assert(num as int <= m * s) by (nonlinear_arith)
            requires
                0 <= cv as int <= m,
                0 <= avg as int <= m,
                0 <= f as int <= s,
                num as int == cv as int * (s - f as int) + avg as int * (f as int),
        ;
        assert(blended as int <= m) by {
            vstd::arithmetic::div_mod::lemma_div_is_ordered(num as int, m * s, s);
            vstd::arithmetic::div_mod::lemma_div_by_multiple(m, s);
        }
        assert(out as int <= m) by {
            assert(blended as int * (keep as int) <= m * s) by (nonlinear_arith)
                requires
                    0 <= blended as int <= m,
                    0 <= keep as int <= s,
            ;
            vstd::arithmetic::div_mod::lemma_div_is_ordered(
                blended as int * (keep as int),
                m * s,
                s,
            );
            vstd::arithmetic::div_mod::lemma_div_by_multiple(m, s);
        }
        assert(avg as int == ws as int / 9);
    }
    out as u32
}

impl Field {
    /// The diffuse-decay stage: reads `self` and returns the written
    /// destination field, every cell the blended-and-decayed value of its
    /// source window.
    #[verifier::rlimit(80)]
    pub fn diffuse_decay(&self, diffuse_rate: u32, decay_rate: u32, delta: u32) -> (r: Field)
        requires
            self.wf(),
        ensures
            r.wf(),
            r.same_dims(*self),
            forall|x: int, y: int|
                0 <= x < self.width && 0 <= y < self.height ==> #[trigger] r.at(x, y) as int
                    == new_cell(
                    self.cells@,
                    self.width as int,
                    self.height as int,
                    x,
                    y,
                    frac_of(diffuse_rate as int, delta as int),
                    keep_of(decay_rate as int, delta as int),
                ),
    {
        let w = self.width;
        let h = self.height;
        let f = step_frac(diffuse_rate, delta);
        let dfrac = step_frac(decay_rate, delta);
        let keep: u32 = 65536 - dfrac;
        let ghost cc = self.cells@;
        let ghost ff = frac_of(diffuse_rate as int, delta as int);
        let ghost kk = keep_of(decay_rate as int, delta as int);
        let mut cells: Vec<u32> = Vec::new();
        let mut y: usize = 0;
        while y < h
            invariant
                self.wf(),
                w == self.width,
                h == self.height,
                cc == self.cells@,
                f as int == ff,
                keep as int == kk,
                f <= FX_ONE as u32,
                keep <= FX_ONE as u32,
                y <= h,
                cells@.len() == y * w,
                forall|x2: int, y2: int|
                    0 <= x2 < w && 0 <= y2 < y ==> #[trigger] cells@[spec_idx(w as int, x2, y2)]
                        as int == new_cell(cc, w as int, h as int, x2, y2, ff, kk),
            decreases h - y,
        {
            let mut x: usize = 0;
            while x < w
                invariant
                    self.wf(),
                    w == self.width,
                    h == self.height,
                    cc == self.cells@,
                    f as int == ff,
                    keep as int == kk,
                    f <= FX_ONE as u32,
                    keep <= FX_ONE as u32,
                    y < h,
                    x <= w,
                    cells@.len() == y * w + x,
                    forall|x2: int, y2: int|
                        0 <= x2 < w && 0 <= y2 < y ==> #[trigger] cells@[spec_idx(
                            w as int,
                            x2,
                            y2,
                        )] as int == new_cell(cc, w as int, h as int, x2, y2, ff, kk),
                    forall|x2: int|
                        0 <= x2 < x ==> #[trigger] cells@[spec_idx(w as int, x2, y as int)] as int
                            == new_cell(cc, w as int, h as int, x2, y as int, ff, kk),
                decreases w - x,
            {
                let xm = if x == 0 {
                    0
                } else {
                    x - 1
                };
                let xp = if x + 1 < w {
                    x + 1
                } else {
                    w - 1
                };
                let ym = if y == 0 {
                    0
                } else {
                    y - 1
                };
                let yp = if y + 1 < h {
                    y + 1
                } else {
                    h - 1
                };
                let ws: u64 = self.get(xm, ym) as u64 + self.get(x, ym) as u64 + self.get(xp, ym)
                    as u64 + self.get(xm, y) as u64 + self.get(x, y) as u64 + self.get(xp, y)
                    as u64 + self.get(xm, yp) as u64 + self.get(x, yp) as u64 + self.get(xp, yp)
                    as u64;
                proof {
                    assert(xm as int == clamp_idx(x as int - 1, w as int));
                    assert(xp as int == clamp_idx(x as int + 1, w as int));
                    assert(ym as int == clamp_idx(y as int - 1, h as int));
                    assert(yp as int == clamp_idx(y as int + 1, h as int));
                    assert(hsum(cc, w as int, x as int, ym as int) == self.at(xm as int, ym as int)
                        + self.at(x as int, ym as int) + self.at(xp as int, ym as int));
                    assert(hsum(cc, w as int, x as int, y as int) == self.at(xm as int, y as int)
                        + self.at(x as int, y as int) + self.at(xp as int, y as int));
                    assert(hsum(cc, w as int, x as int, yp as int) == self.at(xm as int, yp as int)
                        + self.at(x as int, yp as int) + self.at(xp as int, yp as int));
                    assert(ws as int == wsum(cc, w as int, h as int, x as int, y as int));
                }
                let v = apply_rates(self.get(x, y), ws, f, keep);
                proof {
                    assert(v as int == new_cell(cc, w as int, h as int, x as int, y as int, ff, kk));
                    lemma_idx_bounds(w as int, h as int, x as int, y as int);
                }
                let ghost prev = cells@;
                cells.push(v);
                x = x + 1;
                proof {
                    assert(cells@ == prev.push(v));
                    assert(prev.len() == y as int * w as int + (x - 1));
                    assert forall|x2: int|
                        0 <= x2 < x implies #[trigger] cells@[spec_idx(w as int, x2, y as int)]
                        as int == new_cell(cc, w as int, h as int, x2, y as int, ff, kk) by {
                        assert(spec_idx(w as int, x2, y as int) == y as int * w as int + x2);
                        if x2 < x - 1 {
                            assert(cells@[y as int * w as int + x2] == prev[y as int * w as int
                                + x2]);
                        } else {
                            assert(y as int * w as int + x2 == prev.len());
                            assert(cells@[y as int * w as int + x2] == v);
                        }
                    }
                    assert forall|x2: int, y2: int|
                        0 <= x2 < w && 0 <= y2 < y implies #[trigger] cells@[spec_idx(
                        w as int,
                        x2,
                        y2,
                    )] as int == new_cell(cc, w as int, h as int, x2, y2, ff, kk) by {
                        lemma_idx_bounds(w as int, y as int, x2, y2);
                        assert(y2 * w as int + x2 < y as int * w as int) by (nonlinear_arith)
                            requires
                                0 <= x2 < w as int,
                                0 <= y2 < y as int,
                        ;
                        assert(cells@[spec_idx(w as int, x2, y2)] == prev[spec_idx(
                            w as int,
                            x2,
                            y2,
                        )]);
                    }
                }
            }
            y = y + 1;
            proof {
                assert(y as int * w as int == (y - 1) as int * w as int + w as int)
                    by (nonlinear_arith);
            }
        }
        let r = Field { width: w, height: h, cells };
        proof {
            assert(r.cells@.len() == h as int * w as int);
            assert(w as int * h as int == h as int * w as int) by (nonlinear_arith);
            assert forall|x: int, y2: int|
                0 <= x < w && 0 <= y2 < h implies #[trigger] r.at(x, y2) as int == new_cell(
                cc,
                w as int,
                h as int,
                x,
                y2,
                ff,
                kk,
            ) by {
                lemma_idx_bounds(w as int, h as int, x, y2);
            }
        }
        r
    }
}

/// The per-sub-step fraction and survival factor both lie within one
/// fixed-point unit.
pub proof fn lemma_frac_range(rate: int, delta: int)
    requires
        rate >= 0,
        delta >= 0,
    ensures
        0 <= frac_of(rate, delta) <= FX_ONE as int,
        0 <= keep_of(rate, delta) <= FX_ONE as int,
{
    assert(rate * delta >= 0) by (nonlinear_arith)
        requires
            rate >= 0,
            delta >= 0,
    ;
    vstd::arithmetic::div_mod::lemma_div_pos_is_pos(rate * delta, FX_ONE as int);
}

/// A 3x3 window sum lies between zero and nine times the largest cell
/// value.
pub proof fn lemma_wsum_range(c: Seq<u32>, w: int, h: int, x: int, y: int)
    ensures
        0 <= wsum(c, w, h, x, y) <= 9 * (u32::MAX as int),
{
}

/// The written cell value always fits a cell: it lies between zero and the
/// largest cell value.
pub proof fn lemma_new_cell_range(cv: int, ws: int, f: int, keep: int)
    requires
        0 <= cv <= u32::MAX as int,
        0 <= ws <= 9 * (u32::MAX as int),
        0 <= f <= FX_ONE as int,
        0 <= keep <= FX_ONE as int,
    ensures
        0 <= decayed_value(blended_value(cv, ws, f), keep) <= u32::MAX as int,
{
    let s = FX_ONE as int;
    let m = u32::MAX as int;
    let q = ws / 9;
    vstd::arithmetic::div_mod::lemma_div_pos_is_pos(ws, 9);
    assert(q <= m) by {
        vstd::arithmetic::div_mod::lemma_div_is_ordered(ws, 9 * m, 9);
        vstd::arithmetic::div_mod::lemma_div_multiples_vanish(m, 9);
    }
    let num = cv * (s - f) + q * f;
    assert(0 <= num <= m * s) by (nonlinear_arith)
        requires
            0 <= cv <= m,
            0 <= q <= m,
            0 <= f <= s,
            num == cv * (s - f) + q * f,
    ;
    let b = blended_value(cv, ws, f);
    assert(b == num / s);
    vstd::arithmetic::div_mod::lemma_div_pos_is_pos(num, s);
    assert(b <= m) by {
        vstd::arithmetic::div_mod::lemma_div_is_ordered(num, m * s, s);
        vstd::arithmetic::div_mod::lemma_div_by_multiple(m, s);
    }
    assert(b * keep >= 0) by (nonlinear_arith)
        requires
            b >= 0,
            keep >= 0,
    ;
    assert(b * keep <= m * s) by (nonlinear_arith)
        requires
            0 <= b <= m,
            0 <= keep <= s,
    ;
    vstd::arithmetic::div_mod::lemma_div_pos_is_pos(b * keep, s);
    vstd::arithmetic::div_mod::lemma_div_is_ordered(b * keep, m * s, s);
    vstd::arithmetic::div_mod::lemma_div_by_multiple(m, s);
}

/// The grid total of a cell sequence equals the generic grid sum of its
/// cell function.
pub proof fn lemma_grid_total_as_grid_sum(c: Seq<u32>, w: int, h: int)
    requires
        w >= 0,
        h >= 0,
    ensures
        grid_total(c, w, h) == grid_sum(cell_of(c, w), w as nat, h as nat),
{
    assert forall|y: int|
        0 <= y < h implies #[trigger] rows_fn(c, w)(y) == row_sums_of(cell_of(c, w), w as nat)(
        y,
    ) by {
        assert forall|x: int|
            0 <= x < w implies #[trigger] cell_fn(c, w, y)(x) == row_of(cell_of(c, w), y)(x) by {}
        lemma_sum_congruence(cell_fn(c, w, y), row_of(cell_of(c, w), y), w as nat);
    }
    lemma_sum_congruence(rows_fn(c, w), row_sums_of(cell_of(c, w), w as nat), h as nat);
}

/// The clamped 3x3 window sums over the whole grid count every cell exactly
/// nine times: the boundary clamping repeats edge cells exactly as often as
/// their out-of-range neighbours drop away.
pub proof fn lemma_wsum_mass(c: Seq<u32>, w: int, h: int)
    requires
        w >= 1,
        h >= 1,
    ensures
        grid_sum(wsum_of(c, w, h), w as nat, h as nat) == 9 * grid_total(c, w, h),
{
    let gc = cell_of(c, w);
    let gh = hsum_of(c, w);
    let gw = wsum_of(c, w, h);
    let rc = row_sums_of(gc, w as nat);
    let rh = row_sums_of(gh, w as nat);
    let rw = row_sums_of(gw, w as nat);
    assert forall|y: int| #[trigger] rh(y) == 3 * rc(y) by {
        let f = row_of(gc, y);
        let wf = row_of(gh, y);
        assert forall|x: int|
            0 <= x < w implies #[trigger] wf(x) == f(clamp_idx(x - 1, w)) + f(x) + f(
            clamp_idx(x + 1, w),
        ) by {}
        lemma_sum_window3(f, wf, w as nat);
    }
    assert forall|y: int| #[trigger] rw(y) == rh(clamp_idx(y - 1, h)) + rh(y) + rh(
        clamp_idx(y + 1, h),
    ) by {
        let a = row_of(gh, clamp_idx(y - 1, h));
        let b = row_of(gh, y);
        let d = row_of(gh, clamp_idx(y + 1, h));
        let g = row_of(gw, y);
        assert forall|x: int| 0 <= x < w implies #[trigger] g(x) == a(x) + b(x) + d(x) by {}
        lemma_sum_split3(g, a, b, d, w as nat);
    }
    lemma_sum_window3(rh, rw, h as nat);
    lemma_sum_scale(rc, rh, 3, h as nat);
    lemma_grid_total_as_grid_sum(c, w, h);
}

/// Per cell, the written value is nonnegative and, scaled by `9 * FX_ONE`,
/// bounded by the cell's and its window's contribution to nine times the
/// source mass.
pub proof fn lemma_new_cell_le(cv: int, ws: int, f: int, keep: int)
    requires
        0 <= cv,
        0 <= ws,
        0 <= f <= FX_ONE as int,
        0 <= keep <= FX_ONE as int,
    ensures
        0 <= decayed_value(blended_value(cv, ws, f), keep),
        9 * (FX_ONE as int) * decayed_value(blended_value(cv, ws, f), keep) <= 9 * ((FX_ONE as int)
            - f) * cv + f * ws,
{
    let s = FX_ONE as int;
    let q = ws / 9;
    vstd::arithmetic::div_mod::lemma_div_pos_is_pos(ws, 9);
    vstd::arithmetic::div_mod::lemma_fundamental_div_mod(ws, 9);
    vstd::arithmetic::div_mod::lemma_mod_bound(ws, 9);
    assert(9 * q <= ws);
    let num = cv * (s - f) + q * f;
    assert(num >= 0) by (nonlinear_arith)
        requires
            0 <= cv,
            0 <= q,
            0 <= f <= s,
            num == cv * (s - f) + q * f,
    ;
    let b = blended_value(cv, ws, f);
    assert(b == num / s);
    vstd::arithmetic::div_mod::lemma_div_pos_is_pos(num, s);
    vstd::arithmetic::div_mod::lemma_fundamental_div_mod(num, s);
    vstd::arithmetic::div_mod::lemma_mod_bound(num, s);
    assert(s * b <= num);
    let d = decayed_value(b, keep);
    assert(b * keep >= 0) by (nonlinear_arith)
        requires
            b >= 0,
            keep >= 0,
    ;
    assert(d == (b * keep) / s);
    vstd::arithmetic::div_mod::lemma_div_pos_is_pos(b * keep, s);
    vstd::arithmetic::div_mod::lemma_fundamental_div_mod(b * keep, s);
    vstd::arithmetic::div_mod::lemma_mod_bound(b * keep, s);
    assert(s * d <= b * keep);
    assert(b * keep <= b * s) by (nonlinear_arith)
        requires
            b >= 0,
            keep <= s,
    ;
    assert(b * s == s * b) by (nonlinear_arith);
    assert(s * d <= num);
    assert(9 * (s * d) == 9 * s * d) by (nonlinear_arith);
    assert(9 * num == 9 * (s - f) * cv + 9 * (q * f)) by (nonlinear_arith)
        requires
            num == cv * (s - f) + q * f,
    ;
    assert(9 * (q * f) <= ws * f) by (nonlinear_arith)
        requires
            9 * q <= ws,
            f >= 0,
    ;
    assert(ws * f == f * ws) by (nonlinear_arith);
}

/// With no decay, the per-cell value loses at most a bounded rounding
/// remainder against the same contribution.
pub proof fn lemma_new_cell_lower(cv: int, ws: int, f: int)
    requires
        0 <= cv,
        0 <= ws,
        0 <= f <= FX_ONE as int,
    ensures
        9 * (FX_ONE as int) * decayed_value(blended_value(cv, ws, f), FX_ONE as int) >= 9 * ((
        FX_ONE as int) - f) * cv + f * ws - 17 * (FX_ONE as int),
{
    let s = FX_ONE as int;
    let q = ws / 9;
    vstd::arithmetic::div_mod::lemma_div_pos_is_pos(ws, 9);
    vstd::arithmetic::div_mod::lemma_fundamental_div_mod(ws, 9);
    vstd::arithmetic::div_mod::lemma_mod_bound(ws, 9);
    assert(9 * q >= ws - 8);
    let num = cv * (s - f) + q * f;
    assert(num >= 0) by (nonlinear_arith)
        requires
            0 <= cv,
            0 <= q,
            0 <= f <= s,
            num == cv * (s - f) + q * f,
    ;
    let b = blended_value(cv, ws, f);
    assert(b == num / s);
    vstd::arithmetic::div_mod::lemma_div_pos_is_pos(num, s);
    vstd::arithmetic::div_mod::lemma_fundamental_div_mod(num, s);
    vstd::arithmetic::div_mod::lemma_mod_bound(num, s);
    assert(s * b >= num - s);
    let d = decayed_value(b, FX_ONE as int);
    assert(d == (b * s) / s);
    vstd::arithmetic::div_mod::lemma_div_by_multiple(b, s);
    assert(d == b);
    assert(9 * (q * f) >= (ws - 8) * f) by (nonlinear_arith)
        requires
            9 * q >= ws - 8,
            f >= 0,
    ;
    assert((ws - 8) * f == ws * f - 8 * f) by (nonlinear_arith);
    assert(8 * f <= 8 * s) by (nonlinear_arith)
        requires
            f <= s,
    ;
    assert(9 * num == 9 * (s - f) * cv + 9 * (q * f)) by (nonlinear_arith)
        requires
            num == cv * (s - f) + q * f,
    ;
    assert(9 * (s * b) == 9 * s * b) by (nonlinear_arith);
    assert(ws * f == f * ws) by (nonlinear_arith);
    assert(9 * s * d >= 9 * num - 9 * s);
}

/// Conservation under decay: one diffuse-decay pass never increases the
/// field's total intensity.
pub proof fn lemma_diffuse_total_non_increasing(
    c: Seq<u32>,
    d: Seq<u32>,
    w: int,
    h: int,
    f: int,
    keep: int,
)
    requires
        1 <= w,
        1 <= h,
        0 <= f <= FX_ONE as int,
        0 <= keep <= FX_ONE as int,
        forall|x: int, y: int|
            0 <= x < w && 0 <= y < h ==> #[trigger] cell_of(d, w)(x, y) == new_cell(
                c,
                w,
                h,
                x,
                y,
                f,
                keep,
            ),
    ensures
        grid_total(d, w, h) <= grid_total(c, w, h),
{
    let s = FX_ONE as int;
    let gn = cell_of(d, w);
    let gc = cell_of(c, w);
    let gw = wsum_of(c, w, h);
    let k1 = 9 * (s - f);
    let scaled = |x: int, y: int| 9 * s * gn(x, y);
    let b1 = |x: int, y: int| k1 * gc(x, y);
    let b2 = |x: int, y: int| f * gw(x, y);
    let z = |x: int, y: int| 0;
    let bsum = |x: int, y: int| b1(x, y) + b2(x, y) + z(x, y);
    assert forall|x: int, y: int|
        0 <= x < w && 0 <= y < h implies #[trigger] scaled(x, y) <= bsum(x, y) by {
        lemma_new_cell_le(gc(x, y), gw(x, y), f, keep);
        assert(9 * (s - f) * gc(x, y) == k1 * gc(x, y)) by (nonlinear_arith)
            requires
                k1 == 9 * (s - f),
        ;
    }
    lemma_grid_sum_le(scaled, bsum, w as nat, h as nat);
    lemma_grid_sum_scale(scaled, gn, 9 * s, w as nat, h as nat);
    lemma_grid_sum_split3(bsum, b1, b2, z, w as nat, h as nat);
    lemma_grid_sum_scale(b1, gc, k1, w as nat, h as nat);
    lemma_grid_sum_scale(b2, gw, f, w as nat, h as nat);
    lemma_grid_sum_scale(z, z, 0, w as nat, h as nat);
    lemma_wsum_mass(c, w, h);
    lemma_grid_total_as_grid_sum(c, w, h);
    lemma_grid_total_as_grid_sum(d, w, h);
    let tc = grid_total(c, w, h);
    let tn = grid_total(d, w, h);
    assert(k1 * tc + f * (9 * tc) == 9 * s * tc) by (nonlinear_arith)
        requires
            k1 == 9 * (s - f),
    ;
    assert(tn <= tc) by (nonlinear_arith)
        requires
            9 * s * tn <= 9 * s * tc,
            s == 65536,
    ;
}

/// Approximate conservation without decay: one diffusion pass loses at most
/// two fixed-point units of mass per cell to rounding.
#[verifier::rlimit(60)]
pub proof fn lemma_diffuse_total_loss_bounded(c: Seq<u32>, d: Seq<u32>, w: int, h: int, f: int)
    requires
        1 <= w,
        1 <= h,
        0 <= f <= FX_ONE as int,
        forall|x: int, y: int|
            0 <= x < w && 0 <= y < h ==> #[trigger] cell_of(d, w)(x, y) == new_cell(
                c,
                w,
                h,
                x,
                y,
                f,
                FX_ONE as int,
            ),
    ensures
        grid_total(c, w, h) - 2 * (w * h) <= grid_total(d, w, h) <= grid_total(c, w, h),
{
    lemma_diffuse_total_non_increasing(c, d, w, h, f, FX_ONE as int);
    let s = FX_ONE as int;
    let gn = cell_of(d, w);
    let gc = cell_of(c, w);
    let gw = wsum_of(c, w, h);
    let k1 = 9 * (s - f);
    let scaled = |x: int, y: int| 9 * s * gn(x, y);
    let b1 = |x: int, y: int| k1 * gc(x, y);
    let b2 = |x: int, y: int| f * gw(x, y);
    let lower = |x: int, y: int| b1(x, y) + b2(x, y) + const2_fn(-17 * s)(x, y);
    assert forall|x: int, y: int|
        0 <= x < w && 0 <= y < h implies #[trigger] lower(x, y) <= scaled(x, y) by {
        lemma_new_cell_lower(gc(x, y), gw(x, y), f);
        assert(9 * (s - f) * gc(x, y) == k1 * gc(x, y)) by (nonlinear_arith)
            requires
                k1 == 9 * (s - f),
        ;
    }
    lemma_grid_sum_le(lower, scaled, w as nat, h as nat);
    lemma_grid_sum_scale(scaled, gn, 9 * s, w as nat, h as nat);
    lemma_grid_sum_split3(lower, b1, b2, const2_fn(-17 * s), w as nat, h as nat);
    lemma_grid_sum_scale(b1, gc, k1, w as nat, h as nat);
    lemma_grid_sum_scale(b2, gw, f, w as nat, h as nat);
    lemma_grid_sum_const(-17 * s, w as nat, h as nat);
    lemma_wsum_mass(c, w, h);
    lemma_grid_total_as_grid_sum(c, w, h);
    lemma_grid_total_as_grid_sum(d, w, h);
    let tc = grid_total(c, w, h);
    let tn = grid_total(d, w, h);
    assert(grid_sum(gn, w as nat, h as nat) == tn);
    assert(grid_sum(gc, w as nat, h as nat) == tc);
    assert(grid_sum(scaled, w as nat, h as nat) == 9 * s * tn);
    assert(grid_sum(b1, w as nat, h as nat) == k1 * tc);
    assert(grid_sum(b2, w as nat, h as nat) == f * (9 * tc));
    assert(grid_sum(const2_fn(-17 * s), w as nat, h as nat) == h * (w * (-17 * s)));
    assert(grid_sum(lower, w as nat, h as nat) == k1 * tc + f * (9 * tc) + h * (w * (-17 * s)));
    assert(9 * s * tn >= k1 * tc + f * (9 * tc) + h * (w * (-17 * s)));
    assert(tn >= tc - 2 * (w * h)) by (nonlinear_arith)
        requires
            9 * s * tn >= k1 * tc + f * (9 * tc) + h * (w * (-17 * s)),
            k1 == 9 * (s - f),
            s == 65536,
            w >= 1,
            h >= 1,
    ;
}

/// With a zero diffuse fraction and no decay, the stage writes every cell
/// back unchanged.
pub proof fn lemma_new_cell_identity(c: Seq<u32>, w: int, h: int, x: int, y: int)
    ensures
        new_cell(c, w, h, x, y, 0, FX_ONE as int) == cell_of(c, w)(x, y),
{
    let s = FX_ONE as int;
    let cv = cell_of(c, w)(x, y);
    let ws = wsum(c, w, h, x, y);
    assert(blended_value(cv, ws, 0) == (cv * s + (ws / 9) * 0) / s);
    assert((ws / 9) * 0 == 0) by (nonlinear_arith);
    vstd::arithmetic::div_mod::lemma_div_by_multiple(cv, s);
    assert(blended_value(cv, ws, 0) == cv);
    vstd::arithmetic::div_mod::lemma_div_by_multiple(cv, s);
    assert(decayed_value(cv, s) == cv);
}

/// The window sum of a field that is zero everywhere except one interior
/// cell: the source's value appears exactly once in the windows of the
/// source and of each of its neighbours, and nowhere else.
proof fn lemma_wsum_single_source(
    c: Seq<u32>,
    w: int,
    h: int,
    x0: int,
    y0: int,
    v: int,
    x: int,
    y: int,
)
    requires
        3 <= w,
        3 <= h,
        1 <= x0 <= w - 2,
        1 <= y0 <= h - 2,
        0 <= x < w,
        0 <= y < h,
        cell_of(c, w)(x0, y0) == v,
        forall|a: int, b: int|
            0 <= a < w && 0 <= b < h && (a, b) != (x0, y0) ==> #[trigger] cell_of(c, w)(a, b) == 0,
    ensures
        wsum(c, w, h, x, y) == if -1 <= x - x0 <= 1 && -1 <= y - y0 <= 1 {
            v
        } else {
            0
        },
{
    let gc = cell_of(c, w);
    assert forall|a: int, b: int|
        0 <= a < w && 0 <= b < h implies #[trigger] gc(a, b) == (if a == x0 && b == y0 {
        v
    } else {
        0
    }) by {}
    let xm = clamp_idx(x - 1, w);
    let xp = clamp_idx(x + 1, w);
    let ym = clamp_idx(y - 1, h);
    let yp = clamp_idx(y + 1, h);
    assert(0 <= xm < w && 0 <= xp < w && 0 <= ym < h && 0 <= yp < h);
    assert(xm == x0 <==> x - 1 == x0);
    assert(xp == x0 <==> x + 1 == x0);
    assert(ym == y0 <==> y - 1 == y0);
    assert(yp == y0 <==> y + 1 == y0);
    assert(hsum(c, w, x, ym) == gc(xm, ym) + gc(x, ym) + gc(xp, ym));
    assert(hsum(c, w, x, y) == gc(xm, y) + gc(x, y) + gc(xp, y));
    assert(hsum(c, w, x, yp) == gc(xm, yp) + gc(x, yp) + gc(xp, yp));
}

/// Diffusion stencil behaviour on a single non-zero interior cell: after one
/// diffuse pass (decay aside) the source cell has strictly decreased and its
/// four cardinal neighbours have risen above zero. The premise
/// `(v / 9) * f >= FX_ONE` excludes sources too faint for their neighbours'
/// rounded-down share to reach one fixed-point unit.
pub proof fn lemma_diffuse_single_source(
    c: Seq<u32>,
    d: Seq<u32>,
    w: int,
    h: int,
    x0: int,
    y0: int,
    v: int,
    f: int,
)
    requires
        3 <= w,
        3 <= h,
        1 <= x0 <= w - 2,
        1 <= y0 <= h - 2,
        cell_of(c, w)(x0, y0) == v,
        forall|a: int, b: int|
            0 <= a < w && 0 <= b < h && (a, b) != (x0, y0) ==> #[trigger] cell_of(c, w)(a, b) == 0,
        1 <= f <= FX_ONE as int,
        (v / 9) * f >= FX_ONE as int,
        forall|x: int, y: int|
            0 <= x < w && 0 <= y < h ==> #[trigger] cell_of(d, w)(x, y) == new_cell(
                c,
                w,
                h,
                x,
                y,
                f,
                FX_ONE as int,
            ),
    ensures
        cell_of(d, w)(x0, y0) < v,
        cell_of(d, w)(x0 - 1, y0) > 0,
        cell_of(d, w)(x0 + 1, y0) > 0,
        cell_of(d, w)(x0, y0 - 1) > 0,
        cell_of(d, w)(x0, y0 + 1) > 0,
{
    let s = FX_ONE as int;
    let q = v / 9;
    assert(v >= 0);
    assert(v >= 9) by {
        if v < 9 {
            vstd::arithmetic::div_mod::lemma_basic_div(v, 9);
            assert(q == 0);
            assert((v / 9) * f == 0) by (nonlinear_arith)
                requires
                    v / 9 == 0,
            ;
        }
    }
    vstd::arithmetic::div_mod::lemma_div_pos_is_pos(v, 9);
    // the four cardinal neighbours gain: their window holds the source once
    assert forall|x: int, y: int|
        0 <= x < w && 0 <= y < h && (x, y) != (x0, y0) && -1 <= x - x0 <= 1 && -1 <= y - y0
            <= 1 implies #[trigger] cell_of(d, w)(x, y) >= 1 by {
        lemma_wsum_single_source(c, w, h, x0, y0, v, x, y);
        assert(cell_of(c, w)(x, y) == 0);
        let num = 0 * (s - f) + q * f;
        assert(num == q * f);
        assert(blended_value(0, v, f) == num / s);
        assert(num / s >= 1) by {
            vstd::arithmetic::div_mod::lemma_div_is_ordered(s, num, s);
            vstd::arithmetic::div_mod::lemma_div_by_self(s);
        }
        let b = blended_value(0, v, f);
        vstd::arithmetic::div_mod::lemma_div_by_multiple(b, s);
        assert(decayed_value(b, s) == b);
    }
    assert(cell_of(d, w)(x0 - 1, y0) >= 1);
    assert(cell_of(d, w)(x0 + 1, y0) >= 1);
    assert(cell_of(d, w)(x0, y0 - 1) >= 1);
    assert(cell_of(d, w)(x0, y0 + 1) >= 1);
    // the source loses: its own share is cut by the blend toward its
    // window average, which holds only a ninth of its value
    lemma_wsum_single_source(c, w, h, x0, y0, v, x0, y0);
    assert(wsum(c, w, h, x0, y0) == v);
    let num = v * (s - f) + q * f;
    assert(q < v) by {
        vstd::arithmetic::div_mod::lemma_div_decreases(v, 9);
    }
    assert(q * f <= v * f - f) by (nonlinear_arith)
        requires
            q <= v - 1,
            f >= 0,
    ;
    assert(num <= v * s - f) by (nonlinear_arith)
        requires
            num == v * (s - f) + q * f,
            q * f <= v * f - f,
    ;
    assert(num >= 0) by (nonlinear_arith)
        requires
            0 <= v,
            0 <= q,
            0 <= f <= s,
            num == v * (s - f) + q * f,
    ;
    let b = blended_value(v, v, f);
    assert(b == num / s);
    assert(b <= (v * s - 1) / s) by {
        vstd::arithmetic::div_mod::lemma_div_is_ordered(num, v * s - 1, s);
    }
    assert((v * s - 1) / s == v - 1) by {
        vstd::arithmetic::div_mod::lemma_fundamental_div_mod_converse(v * s - 1, s, v - 1, s - 1);
    }
    vstd::arithmetic::div_mod::lemma_div_pos_is_pos(num, s);
    vstd::arithmetic::div_mod::lemma_div_by_multiple(b, s);
    assert(decayed_value(b, s) == b);
    assert(cell_of(d, w)(x0, y0) <= v - 1);
}

} // verus!
