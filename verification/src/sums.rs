//! Finite sums over integer-indexed functions, and the handful of facts the
//! diffusion mass accounting needs: linearity, monotonicity, and the exact
//! value of a sum taken over an index range shifted by one with clamping at
//! the ends.

use vstd::prelude::*;

verus! {

/// A grid index clamped into `[0, n)`.
pub open spec fn clamp_idx(v: int, n: int) -> int
    recommends
        n > 0,
{
    if v < 0 {
        0
    } else if v >= n {
        n - 1
    } else {
        v
    }
}

/// The constant function with value `k`.
pub open spec fn const_fn(k: int) -> spec_fn(int) -> int {
    |i: int| k
}

/// `f(0) + f(1) + ... + f(n - 1)`.
pub open spec fn sum_n(f: spec_fn(int) -> int, n: nat) -> int
    decreases n,
{
    if n == 0 {
        0
    } else {
        sum_n(f, (n - 1) as nat) + f(n - 1)
    }
}

/// Two functions that agree on `[0, n)` have the same sum.
pub proof fn lemma_sum_congruence(f: spec_fn(int) -> int, g: spec_fn(int) -> int, n: nat)
    requires
        forall|i: int| 0 <= i < n ==> #[trigger] f(i) == g(i),
    ensures
        sum_n(f, n) == sum_n(g, n),
    decreases n,
{
    if n > 0 {
        lemma_sum_congruence(f, g, (n - 1) as nat);
    }
}

/// A pointwise bound carries over to the sum.
pub proof fn lemma_sum_le(f: spec_fn(int) -> int, g: spec_fn(int) -> int, n: nat)
    requires
        forall|i: int| 0 <= i < n ==> #[trigger] f(i) <= g(i),
    ensures
        sum_n(f, n) <= sum_n(g, n),
    decreases n,
{
    if n > 0 {
        lemma_sum_le(f, g, (n - 1) as nat);
    }
}

/// The sum of a pointwise sum of three functions splits into three sums.
pub proof fn lemma_sum_split3(
    h: spec_fn(int) -> int,
    f0: spec_fn(int) -> int,
    f1: spec_fn(int) -> int,
    f2: spec_fn(int) -> int,
    n: nat,
)
    requires
        forall|i: int| 0 <= i < n ==> #[trigger] h(i) == f0(i) + f1(i) + f2(i),
    ensures
        sum_n(h, n) == sum_n(f0, n) + sum_n(f1, n) + sum_n(f2, n),
    decreases n,
{
    if n > 0 {
        lemma_sum_split3(h, f0, f1, f2, (n - 1) as nat);
    }
}

/// A sum scaled pointwise by a constant equals the scaled sum.
pub proof fn lemma_sum_scale(f: spec_fn(int) -> int, g: spec_fn(int) -> int, k: int, n: nat)
    requires
        forall|i: int| 0 <= i < n ==> #[trigger] g(i) == k * f(i),
    ensures
        sum_n(g, n) == k * sum_n(f, n),
    decreases n,
{
    if n == 0 {
    } else {
        lemma_sum_scale(f, g, k, (n - 1) as nat);
        let a = sum_n(f, (n - 1) as nat);
        let b = f(n - 1);
        assert(k * (a + b) == k * a + k * b) by (nonlinear_arith);
        assert(sum_n(f, n) == a + b);
    }
}

/// The sum of the constant function `k` over `n` indices is `n * k`.
pub proof fn lemma_sum_const(k: int, n: nat)
    ensures
        sum_n(const_fn(k), n) == n * k,
    decreases n,
{
    if n > 0 {
        lemma_sum_const(k, (n - 1) as nat);
        assert(const_fn(k)(n - 1) == k);
        assert(sum_n(const_fn(k), n) == sum_n(const_fn(k), (n - 1) as nat) + const_fn(k)(n - 1));
        let m = n as int;
        assert(m * k == (m - 1) * k + k) by (nonlinear_arith);
        assert(((n - 1) as nat) * k == (m - 1) * k);
        assert(sum_n(const_fn(k), n) == n * k);
    } else {
        assert(sum_n(const_fn(k), n) == 0);
        assert(n * k == 0);
    }
}

/// Helper: up to `k <= n - 1` terms, the right-clamped shifted sum is the
/// plain sum moved along by one.
proof fn lemma_sum_shift_up_partial(f: spec_fn(int) -> int, g: spec_fn(int) -> int, n: nat, k: nat)
    requires
        n >= 1,
        k <= n - 1,
        forall|i: int| 0 <= i < n ==> #[trigger] g(i) == f(clamp_idx(i + 1, n as int)),
    ensures
        sum_n(g, k) == sum_n(f, (k + 1) as nat) - f(0),
    decreases k,
{
    if k == 0 {
        assert(sum_n(g, 0) == 0);
        assert(sum_n(f, 1) == sum_n(f, 0) + f(0));
    } else {
        lemma_sum_shift_up_partial(f, g, n, (k - 1) as nat);
        assert(sum_n(g, k) == sum_n(g, (k - 1) as nat) + g(k - 1));
        assert(g(k - 1) == f(clamp_idx(k as int, n as int)));
        assert(clamp_idx(k as int, n as int) == k as int);
        assert(sum_n(f, (k + 1) as nat) == sum_n(f, k) + f(k as int));
    }
}

/// Sum of `f` over indices shifted up by one, clamped at the top:
/// the first term drops out and the last is counted twice.
pub proof fn lemma_sum_shift_up(f: spec_fn(int) -> int, g: spec_fn(int) -> int, n: nat)
    requires
        n >= 1,
        forall|i: int| 0 <= i < n ==> #[trigger] g(i) == f(clamp_idx(i + 1, n as int)),
    ensures
        sum_n(g, n) == sum_n(f, n) - f(0) + f(n - 1),
{
    lemma_sum_shift_up_partial(f, g, n, (n - 1) as nat);
    assert(g(n - 1) == f(n - 1));
}

/// Helper: from the second term on, the left-clamped shifted sum is the plain
/// sum moved back by one.
proof fn lemma_sum_shift_down_partial(
    f: spec_fn(int) -> int,
    g: spec_fn(int) -> int,
    n: nat,
    k: nat,
)
    requires
        n >= 1,
        1 <= k <= n,
        forall|i: int| 0 <= i < n ==> #[trigger] g(i) == f(clamp_idx(i - 1, n as int)),
    ensures
        sum_n(g, k) == sum_n(f, (k - 1) as nat) + f(0),
    decreases k,
{
    if k > 1 {
        lemma_sum_shift_down_partial(f, g, n, (k - 1) as nat);
        assert(sum_n(g, k) == sum_n(g, (k - 1) as nat) + g(k - 1));
        assert(g(k - 1) == f(clamp_idx(k - 2, n as int)));
        assert(clamp_idx(k - 2, n as int) == k - 2);
        assert(sum_n(f, (k - 1) as nat) == sum_n(f, (k - 2) as nat) + f(k - 2));
    } else {
        assert(sum_n(g, 1) == sum_n(g, 0) + g(0));
        assert(g(0) == f(clamp_idx(-1, n as int)));
        assert(g(0) == f(0));
    }
}

/// Sum of `f` over indices shifted down by one, clamped at the bottom:
/// the last term drops out and the first is counted twice.
pub proof fn lemma_sum_shift_down(f: spec_fn(int) -> int, g: spec_fn(int) -> int, n: nat)
    requires
        n >= 1,
        forall|i: int| 0 <= i < n ==> #[trigger] g(i) == f(clamp_idx(i - 1, n as int)),
    ensures
        sum_n(g, n) == sum_n(f, n) - f(n - 1) + f(0),
{
    lemma_sum_shift_down_partial(f, g, n, n);
}

/// The heart of mass conservation: summing, over every index, the clamped
/// window `f(i - 1) + f(i) + f(i + 1)` counts every term exactly three times.
/// The clamping repeats the boundary terms exactly as often as their
/// out-of-range neighbours drop away.
pub proof fn lemma_sum_window3(f: spec_fn(int) -> int, w: spec_fn(int) -> int, n: nat)
    requires
        n >= 1,
        forall|i: int|
            0 <= i < n ==> #[trigger] w(i) == f(clamp_idx(i - 1, n as int)) + f(i) + f(
                clamp_idx(i + 1, n as int),
            ),
    ensures
        sum_n(w, n) == 3 * sum_n(f, n),
{
    let down = |i: int| f(clamp_idx(i - 1, n as int));
    let up = |i: int| f(clamp_idx(i + 1, n as int));
    lemma_sum_split3(w, down, f, up, n);
    lemma_sum_shift_down(f, down, n);
    lemma_sum_shift_up(f, up, n);
}

/// Row `y` of a grid-indexed function, as a function of `x`.
pub open spec fn row_of(g: spec_fn(int, int) -> int, y: int) -> spec_fn(int) -> int {
    |x: int| g(x, y)
}

/// The per-row sums of a grid-indexed function over width `w`.
pub open spec fn row_sums_of(g: spec_fn(int, int) -> int, w: nat) -> spec_fn(int) -> int {
    |y: int| sum_n(row_of(g, y), w)
}

/// The sum of `g(x, y)` over the grid `[0, w) x [0, h)`.
pub open spec fn grid_sum(g: spec_fn(int, int) -> int, w: nat, h: nat) -> int {
    sum_n(row_sums_of(g, w), h)
}

/// The constant grid function with value `k`.
pub open spec fn const2_fn(k: int) -> spec_fn(int, int) -> int {
    |x: int, y: int| k
}

/// The grid sum of the constant `k` is the cell count times `k`.
pub proof fn lemma_grid_sum_const(k: int, w: nat, h: nat)
    ensures
        grid_sum(const2_fn(k), w, h) == h as int * (w as int * k),
{
    assert forall|y: int| 0 <= y < h implies #[trigger] row_sums_of(const2_fn(k), w)(y)
        == w as int * k by {
        assert forall|x: int| 0 <= x < w implies #[trigger] row_of(const2_fn(k), y)(x) == const_fn(
            k,
        )(x) by {}
        lemma_sum_congruence(row_of(const2_fn(k), y), const_fn(k), w);
        lemma_sum_const(k, w);
    }
    lemma_sum_congruence(row_sums_of(const2_fn(k), w), const_fn(w as int * k), h);
    lemma_sum_const(w as int * k, h);
}

/// A pointwise bound on the grid carries over to the grid sum.
pub proof fn lemma_grid_sum_le(g1: spec_fn(int, int) -> int, g2: spec_fn(int, int) -> int, w: nat, h: nat)
    requires
        forall|x: int, y: int| 0 <= x < w && 0 <= y < h ==> #[trigger] g1(x, y) <= g2(x, y),
    ensures
        grid_sum(g1, w, h) <= grid_sum(g2, w, h),
{
    assert forall|y: int|
        0 <= y < h implies #[trigger] row_sums_of(g1, w)(y) <= row_sums_of(g2, w)(y) by {
        assert forall|x: int| 0 <= x < w implies #[trigger] row_of(g1, y)(x) <= row_of(g2, y)(x) by {
            assert(g1(x, y) <= g2(x, y));
        }
        lemma_sum_le(row_of(g1, y), row_of(g2, y), w);
    }
    lemma_sum_le(row_sums_of(g1, w), row_sums_of(g2, w), h);
}

/// A grid function that is pointwise a sum of three grid functions sums to
/// the three grid sums.
pub proof fn lemma_grid_sum_split3(
    g: spec_fn(int, int) -> int,
    a: spec_fn(int, int) -> int,
    b: spec_fn(int, int) -> int,
    c: spec_fn(int, int) -> int,
    w: nat,
    h: nat,
)
    requires
        forall|x: int, y: int|
            0 <= x < w && 0 <= y < h ==> #[trigger] g(x, y) == a(x, y) + b(x, y) + c(x, y),
    ensures
        grid_sum(g, w, h) == grid_sum(a, w, h) + grid_sum(b, w, h) + grid_sum(c, w, h),
{
    assert forall|y: int|
        0 <= y < h implies #[trigger] row_sums_of(g, w)(y) == row_sums_of(a, w)(y) + row_sums_of(
        b,
        w,
    )(y) + row_sums_of(c, w)(y) by {
        assert forall|x: int|
            0 <= x < w implies #[trigger] row_of(g, y)(x) == row_of(a, y)(x) + row_of(b, y)(x)
            + row_of(c, y)(x) by {
            assert(g(x, y) == a(x, y) + b(x, y) + c(x, y));
        }
        lemma_sum_split3(row_of(g, y), row_of(a, y), row_of(b, y), row_of(c, y), w);
    }
    let z = |y: int| row_sums_of(a, w)(y) + row_sums_of(b, w)(y) + row_sums_of(c, w)(y);
    lemma_sum_split3(z, row_sums_of(a, w), row_sums_of(b, w), row_sums_of(c, w), h);
    lemma_sum_congruence(row_sums_of(g, w), z, h);
}

/// A grid function that is pointwise `k` times another has `k` times its
/// grid sum.
pub proof fn lemma_grid_sum_scale(
    g: spec_fn(int, int) -> int,
    f: spec_fn(int, int) -> int,
    k: int,
    w: nat,
    h: nat,
)
    requires
        forall|x: int, y: int| 0 <= x < w && 0 <= y < h ==> #[trigger] g(x, y) == k * f(x, y),
    ensures
        grid_sum(g, w, h) == k * grid_sum(f, w, h),
{
    assert forall|y: int|
        0 <= y < h implies #[trigger] row_sums_of(g, w)(y) == k * row_sums_of(f, w)(y) by {
        assert forall|x: int| 0 <= x < w implies #[trigger] row_of(g, y)(x) == k * row_of(f, y)(
            x,
        ) by {
            assert(g(x, y) == k * f(x, y));
        }
        lemma_sum_scale(row_of(f, y), row_of(g, y), k, w);
    }
    lemma_sum_scale(row_sums_of(f, w), row_sums_of(g, w), k, h);
}

} // verus!
