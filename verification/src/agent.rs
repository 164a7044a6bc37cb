//! The simulate stage's per-agent update.
//!
//! An agent is a fixed-point position and a fixed-point unit heading vector.
//! Per sub-step it samples the staged trail at three sensor probes (ahead,
//! and ahead rotated left and right by the sensor angle), steers toward the
//! strongest sample with ties broken toward no turn, integrates its position
//! by `move_speed * delta_time` along the new heading, and, if the projected
//! position leaves the field, is clamped to the nearest in-bounds position
//! with the heading component along the violated axis sign-flipped. The
//! deposit of trail weight at the agent's new integer cell is the write side
//! of the stage and lives with the engine.

use vstd::prelude::*;
use crate::field::{Field, spec_idx};
use crate::fixed::{FX_ONE, tdiv, spec_clamp, div_fx, clamp_i64, lemma_tdiv_le};
use crate::sums::{clamp_idx, sum_n, row_of, row_sums_of, grid_sum};

verus! {

/// One agent: fixed-point position within the field and a fixed-point
/// heading vector of at most unit length per component.
#[derive(Clone, Copy, PartialEq, Eq, Structural, Debug)]
pub struct Agent {
    pub x: i64,
    pub y: i64,
    pub dx: i64,
    pub dy: i64,
}

impl Agent {
    /// Well-formedness against a `w` by `h` field: the position lies inside
    /// `[0, w) x [0, h)` in fixed point, the heading components within one
    /// unit.
    pub open spec fn wf(self, w: int, h: int) -> bool {
        &&& 0 <= self.x < w * (FX_ONE as int)
        &&& 0 <= self.y < h * (FX_ONE as int)
        &&& -(FX_ONE as int) <= self.dx <= FX_ONE as int
        &&& -(FX_ONE as int) <= self.dy <= FX_ONE as int
    }
}

/// The simulation constants, immutable for the run and bound once at stage
/// construction. Angular quantities are carried as fixed-point rotation
/// vectors: `(turn_cos, turn_sin)` is the rotation one sub-step's turn
/// applies (derived by the caller from turn speed and the run's fixed delta
/// time), `(sensor_cos, sensor_sin)` the rotation from the heading to the
/// left sensor direction.
#[derive(Clone, Copy, PartialEq, Eq, Structural, Debug)]
pub struct SimConstants {
    pub move_speed: u32,
    pub turn_cos: i64,
    pub turn_sin: i64,
    pub sensor_cos: i64,
    pub sensor_sin: i64,
    pub sensor_offset: u32,
    pub sensor_size: u32,
    pub trail_weight: u32,
    pub decay_rate: u32,
    pub diffuse_rate: u32,
}

impl SimConstants {
    /// Well-formedness: rotation components within one fixed-point unit and
    /// machine-bounded magnitudes for the linear quantities. The sensor
    /// radius is capped at the largest field extent: a wider window could
    /// never see more than the whole field.
    pub open spec fn wf(self) -> bool {
        &&& -(FX_ONE as int) <= self.turn_cos <= FX_ONE as int
        &&& -(FX_ONE as int) <= self.turn_sin <= FX_ONE as int
        &&& -(FX_ONE as int) <= self.sensor_cos <= FX_ONE as int
        &&& -(FX_ONE as int) <= self.sensor_sin <= FX_ONE as int
        &&& self.move_speed <= 0x4000_0000u32
        &&& self.sensor_offset <= 0x4000_0000u32
        &&& self.sensor_size <= 4096
    }
}

/// The per-frame parameters, recomputed once per visual frame and read-only
/// to the stages: elapsed run time in microseconds, and the delta time of
/// one sub-step as a fixed-point fraction of a second (held constant by the
/// caller in the reference behaviour).
#[derive(Clone, Copy, PartialEq, Eq, Structural, Debug)]
pub struct FrameParams {
    pub elapsed_micros: u32,
    pub delta: u32,
}

impl FrameParams {
    /// A sub-step's delta time is at most one second.
    pub open spec fn wf(self) -> bool {
        self.delta <= FX_ONE as u32
    }
}

/// A heading vector rotated by the fixed-point rotation `(c, sn)`, each
/// component truncated and clamped back into one unit.
pub open spec fn spec_rotate(dx: int, dy: int, c: int, sn: int) -> (int, int) {
    let s = FX_ONE as int;
    (
        spec_clamp(tdiv(dx * c - dy * sn, s), -s, s),
        spec_clamp(tdiv(dx * sn + dy * c, s), -s, s),
    )
}

/// Rotates a heading vector by the fixed-point rotation `(c, sn)`.
pub fn rotate(dx: i64, dy: i64, c: i64, sn: i64) -> (r: (i64, i64))
    requires
        -(FX_ONE as int) <= dx <= FX_ONE as int,
        -(FX_ONE as int) <= dy <= FX_ONE as int,
        -(FX_ONE as int) <= c <= FX_ONE as int,
        -(FX_ONE as int) <= sn <= FX_ONE as int,
    ensures
        (r.0 as int, r.1 as int) == spec_rotate(dx as int, dy as int, c as int, sn as int),
        -(FX_ONE as int) <= r.0 <= FX_ONE as int,
        -(FX_ONE as int) <= r.1 <= FX_ONE as int,
{
    proof {
        let s = FX_ONE as int;
        assert(-(s * s) <= dx as int * c as int <= s * s) by (nonlinear_arith)
            requires
                -s <= dx as int <= s,
                -s <= c as int <= s,
                s == 65536,
        ;
        assert(-(s * s) <= dy as int * sn as int <= s * s) by (nonlinear_arith)
            requires
                -s <= dy as int <= s,
                -s <= sn as int <= s,
                s == 65536,
        ;
        assert(-(s * s) <= dx as int * sn as int <= s * s) by (nonlinear_arith)
            requires
                -s <= dx as int <= s,
                -s <= sn as int <= s,
                s == 65536,
        ;
        assert(-(s * s) <= dy as int * c as int <= s * s) by (nonlinear_arith)
            requires
                -s <= dy as int <= s,
                -s <= c as int <= s,
                s == 65536,
        ;
    }
    let px: i64 = dx * c - dy * sn;
    let py: i64 = dx * sn + dy * c;
    let rx = div_fx(px);
    let ry = div_fx(py);
    (clamp_i64(rx, -65536, 65536), clamp_i64(ry, -65536, 65536))
}

/// The grid cell a fixed-point coordinate falls into, clamped into `[0, n)`.
pub open spec fn spec_probe_cell(p: int, n: int) -> int {
    clamp_idx(tdiv(p, FX_ONE as int), n)
}

/// Computes the clamped grid cell of a fixed-point coordinate.
pub fn probe_cell(p: i64, n: usize) -> (r: usize)
    requires
        1 <= n <= 0x10000000,
        -0x4000_0000_0000_0000 < p < 0x4000_0000_0000_0000,
    ensures
        r as int == spec_probe_cell(p as int, n as int),
        r < n,
{
    let t = div_fx(p);
    if t < 0 {
        0
    } else if t >= n as i64 {
        n - 1
    } else {
        t as usize
    }
}

/// The trail samples of one sensor probe: the window of half-width `ss`
/// about the probe cell `(cx, cy)`, window coordinates clamped into the
/// grid.
pub open spec fn probe_fn(c: Seq<u32>, w: int, h: int, cx: int, cy: int, ss: int) -> spec_fn(
    int,
    int,
) -> int {
    |i: int, j: int|
        c[spec_idx(w, clamp_idx(cx - ss + i, w), clamp_idx(cy - ss + j, h))] as int
}

/// The total trail intensity a sensor probe at cell `(cx, cy)` reads.
pub open spec fn spec_sensor_sum(c: Seq<u32>, w: int, h: int, cx: int, cy: int, ss: int) -> int {
    grid_sum(probe_fn(c, w, h, cx, cy, ss), (2 * ss + 1) as nat, (2 * ss + 1) as nat)
}

/// Sums the trail over the sensor window of half-width `ss` about
/// `(cx, cy)`.
pub fn sensor_sum(trail: &Field, cx: usize, cy: usize, ss: u32) -> (r: u64)
    requires
        trail.wf(),
        cx < trail.width,
        cy < trail.height,
        ss <= 4096,
    ensures
        r as int == spec_sensor_sum(
            trail.cells@,
            trail.width as int,
            trail.height as int,
            cx as int,
            cy as int,
            ss as int,
        ),
{
    let w = trail.width;
    let h = trail.height;
    let n: usize = 2 * (ss as usize) + 1;
    let ghost g = probe_fn(trail.cells@, w as int, h as int, cx as int, cy as int, ss as int);
    let mut acc: u64 = 0;
    let mut j: usize = 0;
    while j < n
        invariant
            trail.wf(),
            w == trail.width,
            h == trail.height,
            cx < w,
            cy < h,
            ss <= 4096,
            n as int == 2 * (ss as int) + 1,
            j <= n,
            g == probe_fn(trail.cells@, w as int, h as int, cx as int, cy as int, ss as int),
            acc as int == sum_n(row_sums_of(g, n as nat), j as nat),
            acc as int <= j as int * 8193 * (u32::MAX as int),
        decreases n - j,
    {
        let mut racc: u64 = 0;
        let mut i: usize = 0;
        while i < n
            invariant
                trail.wf(),
                w == trail.width,
                h == trail.height,
                cx < w,
                cy < h,
                ss <= 4096,
                n as int == 2 * (ss as int) + 1,
                j < n,
                i <= n,
                g == probe_fn(trail.cells@, w as int, h as int, cx as int, cy as int, ss as int),
                racc as int == sum_n(row_of(g, j as int), i as nat),
                racc as int <= i as int * (u32::MAX as int),
            decreases n - i,
        {
            let sxi: i64 = cx as i64 - ss as i64 + i as i64;
            let syi: i64 = cy as i64 - ss as i64 + j as i64;
            let sx: usize = if sxi < 0 {
                0
            } else if sxi >= w as i64 {
                w - 1
            } else {
                sxi as usize
            };
            let sy: usize = if syi < 0 {
                0
            } else if syi >= h as i64 {
                h - 1
            } else {
                syi as usize
            };
            let v = trail.get(sx, sy);
            proof {
                assert(sx as int == clamp_idx(cx as int - ss as int + i as int, w as int));
                assert(sy as int == clamp_idx(cy as int - ss as int + j as int, h as int));
                assert(row_of(g, j as int)(i as int) == v as int);
                assert((i as int + 1) * (u32::MAX as int) == i as int * (u32::MAX as int)
                    + u32::MAX as int) by (nonlinear_arith);
                assert(i as int * (u32::MAX as int) <= 8193 * (u32::MAX as int))
                    by (nonlinear_arith)
                    requires
                        0 <= i as int <= 8193,
                ;
            }
            racc = racc + v as u64;
            i = i + 1;
        }
        proof {
            assert(row_sums_of(g, n as nat)(j as int) == racc as int);
            assert((j as int + 1) * 8193 * (u32::MAX as int) == j as int * 8193 * (u32::MAX as int)
                + 8193 * (u32::MAX as int)) by (nonlinear_arith);
            assert(j as int * 8193 * (u32::MAX as int) <= 8193 * 8193 * (u32::MAX as int))
                by (nonlinear_arith)
                requires
                    0 <= j as int <= 8193,
            ;
            assert(racc as int <= 8193 * (u32::MAX as int)) by (nonlinear_arith)
                requires
                    racc as int <= n as int * (u32::MAX as int),
                    n as int <= 8193,
            ;
        }
        acc = acc + racc;
        j = j + 1;
    }
    acc
}

/// The steered heading: the heading after comparing the three sensor
/// samples, turning left or right by the turn rotation only when a side
/// sample strictly dominates, ties broken toward no turn.
pub open spec fn spec_steer(a: Agent, c: Seq<u32>, w: int, h: int, cs: SimConstants) -> (
    int,
    int,
) {
    let s = FX_ONE as int;
    let off = cs.sensor_offset as int;
    let ss = cs.sensor_size as int;
    let left = spec_rotate(a.dx as int, a.dy as int, cs.sensor_cos as int, cs.sensor_sin as int);
    let right = spec_rotate(a.dx as int, a.dy as int, cs.sensor_cos as int, -(cs.sensor_sin as int));
    let wl = spec_sensor_sum(
        c,
        w,
        h,
        spec_probe_cell(a.x + tdiv(off * left.0, s), w),
        spec_probe_cell(a.y + tdiv(off * left.1, s), h),
        ss,
    );
    let wc = spec_sensor_sum(
        c,
        w,
        h,
        spec_probe_cell(a.x + tdiv(off * a.dx, s), w),
        spec_probe_cell(a.y + tdiv(off * a.dy, s), h),
        ss,
    );
    let wr = spec_sensor_sum(
        c,
        w,
        h,
        spec_probe_cell(a.x + tdiv(off * right.0, s), w),
        spec_probe_cell(a.y + tdiv(off * right.1, s), h),
        ss,
    );
    if wc >= wl && wc >= wr {
        (a.dx as int, a.dy as int)
    } else if wl > wr {
        spec_rotate(a.dx as int, a.dy as int, cs.turn_cos as int, cs.turn_sin as int)
    } else if wr > wl {
        spec_rotate(a.dx as int, a.dy as int, cs.turn_cos as int, -(cs.turn_sin as int))
    } else {
        (a.dx as int, a.dy as int)
    }
}

/// The distance one sub-step moves an agent, in fixed-point cells.
pub open spec fn spec_move_dist(cs: SimConstants, delta: int) -> int {
    (cs.move_speed as int * delta) / (FX_ONE as int)
}

/// The projected position along one axis before the bounds check.
pub open spec fn spec_project(pos: int, dir: int, md: int) -> int {
    pos + tdiv(md * dir, FX_ONE as int)
}

/// The edge policy along one axis: a projected coordinate outside
/// `[0, limit)` is clamped to the nearest in-bounds coordinate and the
/// heading component along that axis is sign-flipped; otherwise both pass
/// through unchanged.
pub open spec fn spec_clamp_axis(p: int, d: int, limit: int) -> (int, int) {
    if p < 0 {
        (0, -d)
    } else if p >= limit {
        (limit - 1, -d)
    } else {
        (p, d)
    }
}

/// One agent's full sub-step update against the staged trail `c`:
/// `(x, y, dx, dy, cell_x, cell_y)` — the new position, the new heading and
/// the integer cell that receives the agent's deposit.
pub open spec fn spec_agent_step(
    a: Agent,
    c: Seq<u32>,
    w: int,
    h: int,
    cs: SimConstants,
    delta: int,
) -> (int, int, int, int, int, int) {
    let s = FX_ONE as int;
    let dir = spec_steer(a, c, w, h, cs);
    let md = spec_move_dist(cs, delta);
    let px = spec_project(a.x as int, dir.0, md);
    let py = spec_project(a.y as int, dir.1, md);
    let xa = spec_clamp_axis(px, dir.0, w * s);
    let ya = spec_clamp_axis(py, dir.1, h * s);
    (xa.0, ya.0, xa.1, ya.1, xa.0 / s, ya.0 / s)
}

/// Edge clamp law: an agent whose projected next position falls outside the
/// field is repositioned to the nearest in-bounds coordinate with the
/// heading component along each violated axis sign-flipped; the stepped
/// agent is never out of bounds, and its deposit cell lies in the grid.
pub proof fn lemma_edge_clamp(a: Agent, c: Seq<u32>, w: int, h: int, cs: SimConstants, delta: int)
    requires
        1 <= w,
        1 <= h,
        a.wf(w, h),
    ensures
        ({
            let s = FX_ONE as int;
            let r = spec_agent_step(a, c, w, h, cs, delta);
            let dir = spec_steer(a, c, w, h, cs);
            let px = spec_project(a.x as int, dir.0, spec_move_dist(cs, delta));
            let py = spec_project(a.y as int, dir.1, spec_move_dist(cs, delta));
            &&& 0 <= r.0 < w * s
            &&& 0 <= r.1 < h * s
            &&& 0 <= r.4 < w
            &&& 0 <= r.5 < h
            &&& px < 0 ==> (r.0 == 0 && r.2 == -dir.0)
            &&& px >= w * s ==> (r.0 == w * s - 1 && r.2 == -dir.0)
            &&& 0 <= px < w * s ==> (r.0 == px && r.2 == dir.0)
            &&& py < 0 ==> (r.1 == 0 && r.3 == -dir.1)
            &&& py >= h * s ==> (r.1 == h * s - 1 && r.3 == -dir.1)
            &&& 0 <= py < h * s ==> (r.1 == py && r.3 == dir.1)
        }),
{
    let s = FX_ONE as int;
    let r = spec_agent_step(a, c, w, h, cs, delta);
    assert(w * s >= 1) by (nonlinear_arith)
        requires
            w >= 1,
            s == 65536,
    ;
    assert(h * s >= 1) by (nonlinear_arith)
        requires
            h >= 1,
            s == 65536,
    ;
    assert(0 <= r.0 < w * s);
    assert(0 <= r.1 < h * s);
    assert(0 <= r.0 / s < w) by {
        vstd::arithmetic::div_mod::lemma_div_pos_is_pos(r.0, s);
        vstd::arithmetic::div_mod::lemma_div_is_ordered(r.0, w * s - 1, s);
        assert((w * s - 1) / s == w - 1) by {
            vstd::arithmetic::div_mod::lemma_fundamental_div_mod_converse(w * s - 1, s, w - 1, s - 1);
        }
    }
    assert(0 <= r.1 / s < h) by {
        vstd::arithmetic::div_mod::lemma_div_pos_is_pos(r.1, s);
        vstd::arithmetic::div_mod::lemma_div_is_ordered(r.1, h * s - 1, s);
        assert((h * s - 1) / s == h - 1) by {
            vstd::arithmetic::div_mod::lemma_fundamental_div_mod_converse(h * s - 1, s, h - 1, s - 1);
        }
    }
}

/// Executes one agent's sub-step against the staged trail.
#[verifier::rlimit(100)]
pub fn agent_step(a: &Agent, trail: &Field, cs: &SimConstants, delta: u32) -> (r: (
    Agent,
    usize,
    usize,
))
    requires
        trail.wf(),
        a.wf(trail.width as int, trail.height as int),
        cs.wf(),
        delta <= FX_ONE as u32,
    ensures
        ({
            let sp = spec_agent_step(
                *a,
                trail.cells@,
                trail.width as int,
                trail.height as int,
                *cs,
                delta as int,
            );
            &&& r.0.x as int == sp.0
            &&& r.0.y as int == sp.1
            &&& r.0.dx as int == sp.2
            &&& r.0.dy as int == sp.3
            &&& r.1 as int == sp.4
            &&& r.2 as int == sp.5
            &&& r.0.wf(trail.width as int, trail.height as int)
            &&& r.1 < trail.width
            &&& r.2 < trail.height
        }),
{
    let w = trail.width;
    let h = trail.height;
    let s: i64 = FX_ONE;
    // sensor probes: ahead, and ahead rotated left / right by the sensor angle
    let (ldx, ldy) = rotate(a.dx, a.dy, cs.sensor_cos, cs.sensor_sin);
    let (rdx, rdy) = rotate(a.dx, a.dy, cs.sensor_cos, -cs.sensor_sin);
    let off: i64 = cs.sensor_offset as i64;
    proof {
        lemma_probe_products(off as int, ldx as int, ldy as int);
        lemma_probe_products(off as int, rdx as int, rdy as int);
        lemma_probe_products(off as int, a.dx as int, a.dy as int);
        assert(w as int * (FX_ONE as int) <= 0x10000000) by (nonlinear_arith)
            requires
                1 <= w as int <= 4096,
        ;
        assert(h as int * (FX_ONE as int) <= 0x10000000) by (nonlinear_arith)
            requires
                1 <= h as int <= 4096,
        ;
    }
    let lx = probe_cell(a.x + div_fx(off * ldx), w);
    let ly = probe_cell(a.y + div_fx(off * ldy), h);
    let cx = probe_cell(a.x + div_fx(off * a.dx), w);
    let cy = probe_cell(a.y + div_fx(off * a.dy), h);
    let rx = probe_cell(a.x + div_fx(off * rdx), w);
    let ry = probe_cell(a.y + div_fx(off * rdy), h);
    let wl = sensor_sum(trail, lx, ly, cs.sensor_size);
    let wc = sensor_sum(trail, cx, cy, cs.sensor_size);
    let wr = sensor_sum(trail, rx, ry, cs.sensor_size);
    let (ndx, ndy) = if wc >= wl && wc >= wr {
        (a.dx, a.dy)
    } else if wl > wr {
        rotate(a.dx, a.dy, cs.turn_cos, cs.turn_sin)
    } else if wr > wl {
        rotate(a.dx, a.dy, cs.turn_cos, -cs.turn_sin)
    } else {
        (a.dx, a.dy)
    };
    proof {
        assert((ndx as int, ndy as int) == spec_steer(
            *a,
            trail.cells@,
            w as int,
            h as int,
            *cs,
        ));
    }
    // integrate the position along the new heading
    proof {
        assert(cs.move_speed as int * delta as int <= 0x4000_0000 * (65536 as int))
            by (nonlinear_arith)
            requires
                0 <= cs.move_speed as int <= 0x4000_0000,
                0 <= delta as int <= 65536,
        ;
    }
    let md: i64 = ((cs.move_speed as u64 * delta as u64) / 65536) as i64;
    proof {
        assert(md as int == spec_move_dist(*cs, delta as int));
        assert(0 <= md as int <= 0x4000_0000) by {
            vstd::arithmetic::div_mod::lemma_div_pos_is_pos(cs.move_speed as int * delta as int, 65536);
            vstd::arithmetic::div_mod::lemma_div_is_ordered(
                cs.move_speed as int * delta as int,
                (0x4000_0000 as int) * 65536,
                65536,
            );
            vstd::arithmetic::div_mod::lemma_div_by_multiple(0x4000_0000, 65536);
        }
        assert(-(0x4000_0000 * (FX_ONE as int)) <= md as int * ndx as int <= 0x4000_0000 * (
        FX_ONE as int)) by (nonlinear_arith)
            requires
                0 <= md as int <= 0x4000_0000,
                -(FX_ONE as int) <= ndx as int <= FX_ONE as int,
        ;
        assert(-(0x4000_0000 * (FX_ONE as int)) <= md as int * ndy as int <= 0x4000_0000 * (
        FX_ONE as int)) by (nonlinear_arith)
            requires
                0 <= md as int <= 0x4000_0000,
                -(FX_ONE as int) <= ndy as int <= FX_ONE as int,
        ;
        lemma_tdiv_le(md as int * ndx as int, FX_ONE as int, 0x4000_0000);
        lemma_tdiv_le(md as int * ndy as int, FX_ONE as int, 0x4000_0000);
    }
    let px: i64 = a.x + div_fx(md * ndx);
    let py: i64 = a.y + div_fx(md * ndy);
    // edge policy: clamp back into the field, flip the violated component
    let limx: i64 = (w as i64) * s;
    let limy: i64 = (h as i64) * s;
    proof {
        assert(w as int * (FX_ONE as int) == (w as i64 * s) as int) by (nonlinear_arith)
            requires
                1 <= w as int <= 4096,
                s == 65536,
        ;
        assert(h as int * (FX_ONE as int) == (h as i64 * s) as int) by (nonlinear_arith)
            requires
                1 <= h as int <= 4096,
                s == 65536,
        ;
    }
    let (nx, fdx) = if px < 0 {
        (0i64, -ndx)
    } else if px >= limx {
        (limx - 1, -ndx)
    } else {
        (px, ndx)
    };
    let (ny, fdy) = if py < 0 {
        (0i64, -ndy)
    } else if py >= limy {
        (limy - 1, -ndy)
    } else {
        (py, ndy)
    };
    let cell_x = (nx as u64 / 65536) as usize;
    let cell_y = (ny as u64 / 65536) as usize;
    proof {
        assert(cell_x as int == nx as int / 65536);
        assert(cell_y as int == ny as int / 65536);
        assert(0 <= nx as int / 65536 < w as int) by {
            vstd::arithmetic::div_mod::lemma_div_pos_is_pos(nx as int, 65536);
            vstd::arithmetic::div_mod::lemma_div_is_ordered(nx as int, limx as int - 1, 65536);
            assert((w as int * 65536 - 1) / 65536 == w as int - 1) by {
                vstd::arithmetic::div_mod::lemma_fundamental_div_mod_converse(
                    w as int * 65536 - 1,
                    65536,
                    w as int - 1,
                    65535,
                );
            }
        }
        assert(0 <= ny as int / 65536 < h as int) by {
            vstd::arithmetic::div_mod::lemma_div_pos_is_pos(ny as int, 65536);
            vstd::arithmetic::div_mod::lemma_div_is_ordered(ny as int, limy as int - 1, 65536);
            assert((h as int * 65536 - 1) / 65536 == h as int - 1) by {
                vstd::arithmetic::div_mod::lemma_fundamental_div_mod_converse(
                    h as int * 65536 - 1,
                    65536,
                    h as int - 1,
                    65535,
                );
            }
        }
    }
    proof {
        assert((nx as int, ny as int, fdx as int, fdy as int, cell_x as int, cell_y as int)
            == spec_agent_step(*a, trail.cells@, w as int, h as int, *cs, delta as int));
    }
    (Agent { x: nx, y: ny, dx: fdx, dy: fdy }, cell_x, cell_y)
}

/// Bounds for the sensor-probe offset products.
proof fn lemma_probe_products(off: int, dx: int, dy: int)
    requires
        0 <= off <= 0x4000_0000,
        -(FX_ONE as int) <= dx <= FX_ONE as int,
        -(FX_ONE as int) <= dy <= FX_ONE as int,
    ensures
        -(0x4000_0000 * (FX_ONE as int)) <= off * dx <= 0x4000_0000 * (FX_ONE as int),
        -(0x4000_0000 * (FX_ONE as int)) <= off * dy <= 0x4000_0000 * (FX_ONE as int),
        -0x4000_0000 <= tdiv(off * dx, FX_ONE as int) <= 0x4000_0000,
        -0x4000_0000 <= tdiv(off * dy, FX_ONE as int) <= 0x4000_0000,
{
    assert(-(0x4000_0000 * (FX_ONE as int)) <= off * dx <= 0x4000_0000 * (FX_ONE as int))
        by (nonlinear_arith)
        requires
            0 <= off <= 0x4000_0000,
            -(FX_ONE as int) <= dx <= FX_ONE as int,
    ;
    assert(-(0x4000_0000 * (FX_ONE as int)) <= off * dy <= 0x4000_0000 * (FX_ONE as int))
        by (nonlinear_arith)
        requires
            0 <= off <= 0x4000_0000,
            -(FX_ONE as int) <= dy <= FX_ONE as int,
    ;
    lemma_tdiv_le(off * dx, FX_ONE as int, 0x4000_0000);
    lemma_tdiv_le(off * dy, FX_ONE as int, 0x4000_0000);
}

} // verus!
