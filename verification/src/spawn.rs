//! Creation of the agent store: a fixed population, spawned once at startup
//! at the field's centre with uniformly random headings.
//!
//! The headings come from the process's random number generator, and only
//! the raw draw is trusted. Everything derived from the drawn bits is the
//! deterministic, verified function `heading_from_bits`: rejection sampling
//! in the unit disc and fixed-point normalisation, pinned exactly to
//! `spec_heading_from_bits`. Whatever the generator returns, the heading is
//! a vector of near-unit magnitude.

use vstd::prelude::*;
use crate::agent::Agent;
use crate::field::MAX_DIM;
use crate::fixed::{FX_ONE, tdiv, lemma_tdiv_le};

verus! {

/// Relies on `rand::random`, which draws a value from the thread-local
/// generator via the `Standard` distribution. Nothing can be promised of a
/// random value, so this contract promises nothing: every caller must hold
/// for every outcome. Should the operating system's entropy source fail,
/// the generator aborts the process; that failure is environmental, like
/// running out of memory, and depends on no input.
#[verifier::external_body]
fn random_u64() -> u64 {
    rand::random::<u64>()
}

/// The integer square root, defined value by value.
pub open spec fn spec_isqrt(n: nat) -> nat
    decreases n,
{
    if n == 0 {
        0
    } else {
        let r = spec_isqrt((n - 1) as nat);
        if (r + 1) * (r + 1) <= n {
            r + 1
        } else {
            r
        }
    }
}

/// `spec_isqrt(n)` is the root rounded down: its square is at most `n` and
/// the next square is beyond `n`.
pub proof fn lemma_spec_isqrt_bounds(n: nat)
    ensures
        spec_isqrt(n) * spec_isqrt(n) <= n < (spec_isqrt(n) + 1) * (spec_isqrt(n) + 1),
    decreases n,
{
    let m = spec_isqrt(n);
    if n == 0 {
        assert(m == 0);
        assert(m * m <= n && n < (m + 1) * (m + 1)) by (nonlinear_arith)
            requires
                m == 0,
                n == 0,
        ;
    } else {
        lemma_spec_isqrt_bounds((n - 1) as nat);
        let r = spec_isqrt((n - 1) as nat);
        if (r + 1) * (r + 1) <= n {
            assert(m == r + 1);
            assert(n - 1 < (r + 1) * (r + 1));
            assert(n <= (r + 1) * (r + 1));
            assert(m * m <= n && n < (m + 1) * (m + 1)) by (nonlinear_arith)
                requires
                    m == r + 1,
                    (r + 1) * (r + 1) <= n <= (r + 1) * (r + 1),
            ;
        } else {
            assert(m == r);
            assert(r * r <= n - 1);
            assert(n < (r + 1) * (r + 1));
            assert(m * m <= n && n < (m + 1) * (m + 1)) by (nonlinear_arith)
                requires
                    m == r,
                    r * r <= n - 1,
                    n < (r + 1) * (r + 1),
            ;
        }
    }
}

/// Two integers squeezed between the same consecutive squares are equal.
pub proof fn lemma_isqrt_unique(n: int, a: int, b: int)
    requires
        a >= 0,
        b >= 0,
        a * a <= n < (a + 1) * (a + 1),
        b * b <= n < (b + 1) * (b + 1),
    ensures
        a == b,
{
    assert(a == b) by (nonlinear_arith)
        requires
            a >= 0,
            b >= 0,
            a * a <= n < (a + 1) * (a + 1),
            b * b <= n < (b + 1) * (b + 1),
    ;
}

/// Computes the integer square root.
pub fn isqrt(n: u64) -> (r: u64)
    requires
        n < 0x40_0000_0000,
    ensures
        r == spec_isqrt(n as nat),
        r * r <= n < (r + 1) * (r + 1),
        r <= 0x80000,
{
    let mut lo: u64 = 0;
    let mut hi: u64 = 0x80000;
    proof {
        assert((0x80000 as int) * (0x80000 as int) == 0x40_0000_0000);
    }
    while lo + 1 < hi
        invariant
            lo < hi,
            hi <= 0x80000,
            lo * lo <= n,
            n < hi * hi,
        decreases hi - lo,
    {
        let mid = lo + (hi - lo) / 2;
        proof {
            assert(lo < mid < hi);
            assert(mid * mid <= 0x80000 * (0x80000 as int)) by (nonlinear_arith)
                requires
                    0 <= mid <= 0x80000,
            ;
        }
        if mid * mid <= n {
            lo = mid;
        } else {
            hi = mid;
        }
    }
    proof {
        lemma_spec_isqrt_bounds(n as nat);
        lemma_isqrt_unique(n as int, lo as int, spec_isqrt(n as nat) as int);
    }
    lo
}

/// Truncating division of a machine integer by a positive divisor.
fn tdiv_i64(a: i64, d: i64) -> (r: i64)
    requires
        d >= 1,
        -0x4000_0000_0000_0000 < a < 0x4000_0000_0000_0000,
    ensures
        r == tdiv(a as int, d as int),
{
    if a >= 0 {
        ((a as u64) / (d as u64)) as i64
    } else {
        let m: u64 = (-a) as u64;
        -((m / (d as u64)) as i64)
    }
}

/// The heading one draw of the generator produces, if the draw is accepted:
/// two 17-bit coordinates centred on zero, rejected unless the point lies in
/// the punctured disc of unit radius, then normalised to fixed-point unit
/// length by the integer square root of its squared magnitude.
pub open spec fn spec_heading_from_bits(bits: u64) -> Option<(int, int)> {
    let x = ((bits & 0x1FFFF) % 131071) as int - 65535;
    let y = (((bits >> 17) & 0x1FFFF) % 131071) as int - 65535;
    let n = x * x + y * y;
    if 1 <= n <= 0x1_0000_0000 {
        let rt = spec_isqrt(n as nat) as int;
        Some((tdiv(x * 65536, rt), tdiv(y * 65536, rt)))
    } else {
        None
    }
}

/// A heading the spawner may hand out: components within one fixed-point
/// unit, near-unit magnitude, and either the fallback along the positive x
/// axis or the accepted image of some draw.
pub open spec fn spec_heading_ok(dx: int, dy: int) -> bool {
    &&& -(FX_ONE as int) <= dx <= FX_ONE as int
    &&& -(FX_ONE as int) <= dy <= FX_ONE as int
    &&& 65533 * 65533 <= dx * dx + dy * dy
    &&& ((dx == FX_ONE as int && dy == 0) || (exists|b: u64|
        #[trigger] spec_heading_from_bits(b) == Some((dx, dy))))
}

/// Computes the heading of one draw: `None` exactly where the spec rejects
/// the draw, and otherwise the exact normalised pair, which is always of
/// near-unit magnitude.
pub fn heading_from_bits(bits: u64) -> (r: Option<(i64, i64)>)
    ensures
        r is Some <==> spec_heading_from_bits(bits) is Some,
        r matches Some(h) ==> Some((h.0 as int, h.1 as int)) == spec_heading_from_bits(bits),
        r matches Some(h) ==> spec_heading_ok(h.0 as int, h.1 as int),
{
    let x: i64 = ((bits & 0x1FFFF) % 131071) as i64 - 65535;
    let y: i64 = (((bits >> 17) & 0x1FFFF) % 131071) as i64 - 65535;
    proof {
        assert(-65535 <= x <= 65535);
        assert(-65535 <= y <= 65535);
        assert(x as int * x as int <= 65535 * (65535 as int)) by (nonlinear_arith)
            requires
                -65535 <= x as int <= 65535,
        ;
        assert(y as int * y as int <= 65535 * (65535 as int)) by (nonlinear_arith)
            requires
                -65535 <= y as int <= 65535,
        ;
        assert(x as int * x as int >= 0) by (nonlinear_arith);
        assert(y as int * y as int >= 0) by (nonlinear_arith);
    }
    let n: u64 = (x * x) as u64 + (y * y) as u64;
    if 1 <= n && n <= 0x1_0000_0000 {
        let rt = isqrt(n);
        proof {
            assert(1 <= rt) by (nonlinear_arith)
                requires
                    (n as int) < (rt as int + 1) * (rt as int + 1),
                    n as int >= 1,
                    rt as int >= 0,
            ;
            assert(rt <= 65536) by (nonlinear_arith)
                requires
                    rt as int * (rt as int) <= n as int,
                    n as int <= 0x1_0000_0000,
                    rt as int >= 0,
            ;
            lemma_component_bound(x as int, rt as int, n as int);
            lemma_component_bound(y as int, rt as int, n as int);
        }
        let dx = tdiv_i64(x * 65536, rt as i64);
        let dy = tdiv_i64(y * 65536, rt as i64);
        proof {
            lemma_tdiv_le(x as int * 65536, rt as int, 65536);
            lemma_tdiv_le(y as int * 65536, rt as int, 65536);
            lemma_heading_magnitude(x as int, y as int, rt as int, n as int);
            assert(spec_heading_from_bits(bits) == Some((dx as int, dy as int)));
        }
        Some((dx, dy))
    } else {
        None
    }
}

/// A fixed-point heading vector with a direction drawn from the random
/// generator. Whatever the generator returns, the result is a heading of
/// near-unit magnitude that some accepted draw produces; after a bounded
/// number of rejected draws the heading falls back to the positive x axis.
pub fn random_heading() -> (r: (i64, i64))
    ensures
        spec_heading_ok(r.0 as int, r.1 as int),
{
    let mut tries: u64 = 0;
    while tries < 64
        invariant
            tries <= 64,
        decreases 64 - tries,
    {
        let bits = random_u64();
        match heading_from_bits(bits) {
            Some(h) => {
                return h;
            }
            None => {}
        }
        tries = tries + 1;
    }
    proof {
        assert(65533 * 65533 <= (FX_ONE as int) * (FX_ONE as int) + 0);
    }
    (65536, 0)
}

/// A coordinate of a point in the disc of squared radius `n` is bounded by
/// the disc's integer radius, and its scaled quotient by one unit.
proof fn lemma_component_bound(x: int, rt: int, n: int)
    requires
        1 <= rt <= 65536,
        x * x <= n,
        n < (rt + 1) * (rt + 1),
    ensures
        -rt <= x <= rt,
        -(65536 * rt) <= x * 65536 <= 65536 * rt,
{
    assert(-rt <= x <= rt) by (nonlinear_arith)
        requires
            x * x <= n,
            n < (rt + 1) * (rt + 1),
            rt >= 0,
    ;
    assert(-(65536 * rt) <= x * 65536 <= 65536 * rt) by (nonlinear_arith)
        requires
            -rt <= x <= rt,
    ;
}

/// Normalisation keeps near-unit magnitude: truncating each scaled
/// component by the integer radius loses less than one part per component,
/// so the squared magnitude stays above `(FX_ONE - 3)^2`.
proof fn lemma_heading_magnitude(x: int, y: int, rt: int, n: int)
    requires
        -65535 <= x <= 65535,
        -65535 <= y <= 65535,
        n == x * x + y * y,
        1 <= n <= 0x1_0000_0000,
        rt * rt <= n < (rt + 1) * (rt + 1),
        1 <= rt <= 65536,
    ensures
        65533 * 65533 <= tdiv(x * 65536, rt) * tdiv(x * 65536, rt) + tdiv(y * 65536, rt) * tdiv(
            y * 65536,
            rt,
        ),
{
    let s = 65536 as int;
    let ax = if x >= 0 {
        x
    } else {
        -x
    };
    let ay = if y >= 0 {
        y
    } else {
        -y
    };
    assert(x * x >= 0) by (nonlinear_arith);
    assert(y * y >= 0) by (nonlinear_arith);
    lemma_component_bound(x, rt, n);
    lemma_component_bound(y, rt, n);
    let a = ax * s;
    let b = ay * s;
    let dxm = a / rt;
    let dym = b / rt;
    // the truncated quotients square like the magnitudes' quotients
    assert(tdiv(x * s, rt) * tdiv(x * s, rt) == dxm * dxm) by {
        if x < 0 {
            assert(x * s < 0);
            assert(-(x * s) == ax * s);
            assert((-dxm) * (-dxm) == dxm * dxm) by (nonlinear_arith);
        }
    }
    assert(tdiv(y * s, rt) * tdiv(y * s, rt) == dym * dym) by {
        if y < 0 {
            assert(y * s < 0);
            assert(-(y * s) == ay * s);
            assert((-dym) * (-dym) == dym * dym) by (nonlinear_arith);
        }
    }
    assert(a * a == (x * x) * (s * s)) by (nonlinear_arith)
        requires
            a == ax * s,
            ax == (if x >= 0 {
                x
            } else {
                -x
            }),
    ;
    assert(b * b == (y * y) * (s * s)) by (nonlinear_arith)
        requires
            b == ay * s,
            ay == (if y >= 0 {
                y
            } else {
                -y
            }),
    ;
    if x == 0 {
        // the draw is a pure y vector; the radius is exact and the
        // normalised component is exactly one unit
        assert(ay * ay <= n < (ay + 1) * (ay + 1)) by (nonlinear_arith)
            requires
                n == x * x + y * y,
                x == 0,
                ay == (if y >= 0 {
                    y
                } else {
                    -y
                }),
                ay >= 0,
        ;
        lemma_isqrt_unique(n, rt, ay);
        assert(dym == s) by {
            vstd::arithmetic::div_mod::lemma_div_multiples_vanish(s, rt);
            assert(b == rt * s);
        }
        assert(dxm == 0) by {
            vstd::arithmetic::div_mod::lemma_div_of0(rt);
        }
        assert(65533 * 65533 <= s * s);
    } else if y == 0 {
        assert(ax * ax <= n < (ax + 1) * (ax + 1)) by (nonlinear_arith)
            requires
                n == x * x + y * y,
                y == 0,
                ax == (if x >= 0 {
                    x
                } else {
                    -x
                }),
                ax >= 0,
        ;
        lemma_isqrt_unique(n, rt, ax);
        assert(dxm == s) by {
            vstd::arithmetic::div_mod::lemma_div_multiples_vanish(s, rt);
            assert(a == rt * s);
        }
        assert(dym == 0) by {
            vstd::arithmetic::div_mod::lemma_div_of0(rt);
        }
        assert(65533 * 65533 <= s * s);
    } else {
        // both components are at least one cell, so each scaled component
        // dominates the radius and truncation loses less than one radius
        assert(ax >= 1 && ay >= 1);
        assert(a >= s && b >= s);
        vstd::arithmetic::div_mod::lemma_fundamental_div_mod(a, rt);
        vstd::arithmetic::div_mod::lemma_mod_bound(a, rt);
        vstd::arithmetic::div_mod::lemma_fundamental_div_mod(b, rt);
        vstd::arithmetic::div_mod::lemma_mod_bound(b, rt);
        assert(rt * dxm >= a - rt);
        assert(rt * dym >= b - rt);
        assert(a - rt >= 0 && b - rt >= 0);
        assert((rt * dxm) * (rt * dxm) >= (a - rt) * (a - rt)) by (nonlinear_arith)
            requires
                rt * dxm >= a - rt >= 0,
        ;
        assert((rt * dym) * (rt * dym) >= (b - rt) * (b - rt)) by (nonlinear_arith)
            requires
                rt * dym >= b - rt >= 0,
        ;
        assert((rt * dxm) * (rt * dxm) == (rt * rt) * (dxm * dxm)) by (nonlinear_arith);
        assert((rt * dym) * (rt * dym) == (rt * rt) * (dym * dym)) by (nonlinear_arith);
        assert((a - rt) * (a - rt) == a * a - 2 * a * rt + rt * rt) by (nonlinear_arith);
        assert((b - rt) * (b - rt) == b * b - 2 * b * rt + rt * rt) by (nonlinear_arith);
        assert(a * a + b * b >= (s * s) * (rt * rt)) by (nonlinear_arith)
            requires
                a * a == (x * x) * (s * s),
                b * b == (y * y) * (s * s),
                n == x * x + y * y,
                n >= rt * rt,
        ;
        assert(a <= rt * s && b <= rt * s) by (nonlinear_arith)
            requires
                -rt <= x <= rt,
                -rt <= y <= rt,
                a == ax * s,
                b == ay * s,
                ax == (if x >= 0 {
                    x
                } else {
                    -x
                }),
                ay == (if y >= 0 {
                    y
                } else {
                    -y
                }),
                s == 65536,
        ;
        assert(2 * a * rt + 2 * b * rt <= 4 * s * (rt * rt)) by (nonlinear_arith)
            requires
                a <= rt * s,
                b <= rt * s,
                rt >= 1,
        ;
        let q = dxm * dxm + dym * dym;
        assert((rt * rt) * q == (rt * rt) * (dxm * dxm) + (rt * rt) * (dym * dym))
            by (nonlinear_arith)
            requires
                q == dxm * dxm + dym * dym,
        ;
        assert((rt * rt) * q >= (s * s) * (rt * rt) - 4 * s * (rt * rt));
        assert((s * s) * (rt * rt) - 4 * s * (rt * rt) == (s * s - 4 * s) * (rt * rt))
            by (nonlinear_arith);
        assert(q >= s * s - 4 * s) by (nonlinear_arith)
            requires
                (rt * rt) * q >= (s * s - 4 * s) * (rt * rt),
                rt >= 1,
        ;
        assert(s * s - 4 * s >= 65533 * 65533);
    }
}

/// Spawns the run's agent population: every agent at the field's centre
/// with a random heading. The population is fixed for the run's lifetime;
/// no agent is ever created later or destroyed.
pub fn spawn_agents(count: usize, width: usize, height: usize) -> (r: Vec<Agent>)
    requires
        1 <= width <= MAX_DIM,
        1 <= height <= MAX_DIM,
    ensures
        r@.len() == count,
        forall|i: int|
            0 <= i < count ==> (#[trigger] r@[i]).wf(width as int, height as int),
        forall|i: int|
            0 <= i < count ==> (#[trigger] r@[i]).x == width as int * 32768 && r@[i].y
                == height as int * 32768,
        forall|i: int|
            0 <= i < count ==> spec_heading_ok(
                (#[trigger] r@[i]).dx as int,
                r@[i].dy as int,
            ),
{
    let cx: i64 = (width as i64) * 32768;
    let cy: i64 = (height as i64) * 32768;
    proof {
        assert(0 <= width as int * 32768 < width as int * (FX_ONE as int)) by (nonlinear_arith)
            requires
                1 <= width as int <= 4096,
        ;
        assert(0 <= height as int * 32768 < height as int * (FX_ONE as int)) by (nonlinear_arith)
            requires
                1 <= height as int <= 4096,
        ;
    }
    let mut agents: Vec<Agent> = Vec::new();
    let mut i: usize = 0;
    while i < count
        invariant
            agents@.len() == i,
            i <= count,
            cx as int == width as int * 32768,
            cy as int == height as int * 32768,
            1 <= width <= MAX_DIM,
            1 <= height <= MAX_DIM,
            0 <= cx as int && (cx as int) < width as int * (FX_ONE as int),
            0 <= cy as int && (cy as int) < height as int * (FX_ONE as int),
            forall|j: int|
                0 <= j < i ==> (#[trigger] agents@[j]).wf(width as int, height as int),
            forall|j: int|
                0 <= j < i ==> (#[trigger] agents@[j]).x == width as int * 32768 && agents@[j].y
                    == height as int * 32768,
            forall|j: int|
                0 <= j < i ==> spec_heading_ok(
                    (#[trigger] agents@[j]).dx as int,
                    agents@[j].dy as int,
                ),
        decreases count - i,
    {
        let (dx, dy) = random_heading();
        agents.push(Agent { x: cx, y: cy, dx, dy });
        i = i + 1;
    }
    agents
}

} // verus!
