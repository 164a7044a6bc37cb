//! A field slot's contents: a dense 2D grid of fixed-point trail intensities.
//!
//! The grid is stored row-major. Trail intensity is the single load-bearing
//! channel of the rendered texture, so a cell is one intensity value, counted
//! in units of `1/FX_ONE`.

use vstd::prelude::*;
use crate::sums::sum_n;

verus! {

/// Largest accepted field extent along either axis.
pub const MAX_DIM: usize = 4096;

/// The row-major index of cell `(x, y)` in a grid `w` cells wide.
pub open spec fn spec_idx(w: int, x: int, y: int) -> int {
    y * w + x
}

/// The row of cells at height `y`, as a function of `x`.
pub open spec fn cell_fn(c: Seq<u32>, w: int, y: int) -> spec_fn(int) -> int {
    |x: int| c[spec_idx(w, x, y)] as int
}

/// The total intensity of row `y`.
pub open spec fn row_total(c: Seq<u32>, w: int, y: int) -> int {
    sum_n(cell_fn(c, w, y), w as nat)
}

/// The row totals of a grid, as a function of `y`.
pub open spec fn rows_fn(c: Seq<u32>, w: int) -> spec_fn(int) -> int {
    |y: int| row_total(c, w, y)
}

/// The total intensity of a `w` by `h` grid.
pub open spec fn grid_total(c: Seq<u32>, w: int, h: int) -> int {
    sum_n(rows_fn(c, w), h as nat)
}

/// The all-zero cell grid of a `w` by `h` field.
pub open spec fn zero_grid(w: int, h: int) -> Seq<u32> {
    Seq::new((w * h) as nat, |i: int| 0u32)
}

/// A row-major index splits back into its in-bounds cell coordinates.
pub proof fn lemma_grid_index(w: int, h: int, i: int)
    requires
        1 <= w,
        1 <= h,
        0 <= i < w * h,
    ensures
        0 <= i % w < w,
        0 <= i / w < h,
        spec_idx(w, i % w, i / w) == i,
{
    vstd::arithmetic::div_mod::lemma_fundamental_div_mod(i, w);
    vstd::arithmetic::div_mod::lemma_mod_bound(i, w);
    vstd::arithmetic::div_mod::lemma_div_pos_is_pos(i, w);
    vstd::arithmetic::div_mod::lemma_div_is_ordered(i, w * h - 1, w);
    assert((w * h - 1) / w == h - 1) by {
        assert((h - 1) * w + (w - 1) == w * h - 1) by (nonlinear_arith);
        vstd::arithmetic::div_mod::lemma_fundamental_div_mod_converse(w * h - 1, w, h - 1, w - 1);
    }
    assert(w * (i / w) == (i / w) * w) by (nonlinear_arith);
}

/// In-bounds cells have in-bounds row-major indices.
pub proof fn lemma_idx_bounds(w: int, h: int, x: int, y: int)
    requires
        0 <= x < w,
        0 <= y < h,
    ensures
        0 <= spec_idx(w, x, y) < w * h,
{
    assert(0 <= y * w + x < w * h) by (nonlinear_arith)
        requires
            0 <= x < w,
            0 <= y < h,
    ;
}

/// Distinct in-bounds cells have distinct row-major indices.
pub proof fn lemma_idx_injective(w: int, x1: int, y1: int, x2: int, y2: int)
    requires
        0 <= x1 < w,
        0 <= x2 < w,
        0 <= y1,
        0 <= y2,
        (x1, y1) != (x2, y2),
    ensures
        spec_idx(w, x1, y1) != spec_idx(w, x2, y2),
{
    assert(y1 * w + x1 != y2 * w + x2) by (nonlinear_arith)
        requires
            0 <= x1 < w,
            0 <= x2 < w,
            0 <= y1,
            0 <= y2,
            (x1, y1) != (x2, y2),
    ;
}

/// One field slot's contents.
pub struct Field {
    pub width: usize,
    pub height: usize,
    pub cells: Vec<u32>,
}

impl Field {
    /// Well-formedness: extents are positive, bounded, and the cell vector
    /// covers the grid exactly.
    pub open spec fn wf(self) -> bool {
        &&& 1 <= self.width <= MAX_DIM
        &&& 1 <= self.height <= MAX_DIM
        &&& self.cells@.len() == self.width * self.height
    }

    /// The intensity at cell `(x, y)`.
    pub open spec fn at(self, x: int, y: int) -> u32 {
        self.cells@[spec_idx(self.width as int, x, y)]
    }

    /// The total intensity over the whole grid.
    pub open spec fn total(self) -> int {
        grid_total(self.cells@, self.width as int, self.height as int)
    }

    /// Do `self` and `other` cover the same extents?
    pub open spec fn same_dims(self, other: Field) -> bool {
        self.width == other.width && self.height == other.height
    }

    /// A fresh field of the given extents with every cell zero.
    pub fn new(width: usize, height: usize) -> (r: Field)
        requires
            1 <= width <= MAX_DIM,
            1 <= height <= MAX_DIM,
        ensures
            r.wf(),
            r.width == width,
            r.height == height,
            forall|x: int, y: int|
                0 <= x < width && 0 <= y < height ==> #[trigger] r.at(x, y) == 0,
            r.cells@ == zero_grid(width as int, height as int),
    {
        proof {
            assert(width * height <= 0x1000000) by (nonlinear_arith)
                requires
                    1 <= width <= 4096,
                    1 <= height <= 4096,
            ;
        }
        let n = width * height;
        let mut cells: Vec<u32> = Vec::new();
        let mut i: usize = 0;
        while i < n
            invariant
                i <= n,
                cells@.len() == i,
                forall|j: int| 0 <= j < i ==> cells@[j] == 0,
            decreases n - i,
        {
            cells.push(0);
            i = i + 1;
        }
        let r = Field { width, height, cells };
        proof {
            assert forall|x: int, y: int|
                0 <= x < width && 0 <= y < height implies #[trigger] r.at(x, y) == 0 by {
                lemma_idx_bounds(width as int, height as int, x, y);
            }
            assert(r.cells@ =~= zero_grid(width as int, height as int));
        }
        r
    }

    /// Reads the intensity at `(x, y)`.
    pub fn get(&self, x: usize, y: usize) -> (r: u32)
        requires
            self.wf(),
            x < self.width,
            y < self.height,
        ensures
            r == self.at(x as int, y as int),
    {
        proof {
            lemma_idx_bounds(self.width as int, self.height as int, x as int, y as int);
            assert(self.width as int * self.height as int <= 0x1000000) by (nonlinear_arith)
                requires
                    1 <= self.width as int <= 4096,
                    1 <= self.height as int <= 4096,
            ;
        }
        self.cells[y * self.width + x]
    }

    /// Overwrites the intensity at `(x, y)`; every other cell keeps its value.
    pub fn set(&mut self, x: usize, y: usize, v: u32)
        requires
            old(self).wf(),
            x < old(self).width,
            y < old(self).height,
        ensures
            final(self).wf(),
            final(self).same_dims(*old(self)),
            final(self).cells@ == old(self).cells@.update(
                spec_idx(old(self).width as int, x as int, y as int),
                v,
            ),
            final(self).at(x as int, y as int) == v,
            forall|x2: int, y2: int|
                0 <= x2 < old(self).width && 0 <= y2 < old(self).height && (x2, y2) != (
                x as int,
                y as int,
                ) ==> #[trigger] final(self).at(x2, y2) == old(self).at(x2, y2),
    {
        proof {
            lemma_idx_bounds(self.width as int, self.height as int, x as int, y as int);
            assert(self.width as int * self.height as int <= 0x1000000) by (nonlinear_arith)
                requires
                    1 <= self.width as int <= 4096,
                    1 <= self.height as int <= 4096,
            ;
        }
        let i = y * self.width + x;
        self.cells.set(i, v);
        proof {
            assert forall|x2: int, y2: int|
                0 <= x2 < old(self).width && 0 <= y2 < old(self).height && (x2, y2) != (
                x as int,
                y as int,
                ) implies #[trigger] self.at(x2, y2) == old(self).at(x2, y2) by {
                lemma_idx_bounds(old(self).width as int, old(self).height as int, x2, y2);
                lemma_idx_injective(old(self).width as int, x2, y2, x as int, y as int);
            }
        }
    }

    /// An identical copy of this field's contents.
    pub fn snapshot(&self) -> (r: Field)
        requires
            self.wf(),
        ensures
            r.wf(),
            r.same_dims(*self),
            r.cells@ == self.cells@,
    {
        let mut cells: Vec<u32> = Vec::new();
        let n = self.cells.len();
        let mut i: usize = 0;
        while i < n
            invariant
                i <= n,
                n == self.cells@.len(),
                cells@ == self.cells@.take(i as int),
            decreases n - i,
        {
            cells.push(self.cells[i]);
            i = i + 1;
            proof {
                assert(cells@ =~= self.cells@.take(i as int));
            }
        }
        proof {
            assert(cells@ =~= self.cells@);
        }
        Field { width: self.width, height: self.height, cells }
    }

    /// The total intensity of the field, summed row by row.
    pub fn total_intensity(&self) -> (r: u64)
        requires
            self.wf(),
        ensures
            r as int == self.total(),
    {
        let w = self.width;
        let h = self.height;
        let mut acc: u64 = 0;
        let mut y: usize = 0;
        while y < h
            invariant
                self.wf(),
                w == self.width,
                h == self.height,
                y <= h,
                acc as int == sum_n(rows_fn(self.cells@, w as int), y as nat),
                acc as int <= y as int * w as int * (u32::MAX as int),
            decreases h - y,
        {
            let mut racc: u64 = 0;
            let mut x: usize = 0;
            while x < w
                invariant
                    self.wf(),
                    w == self.width,
                    h == self.height,
                    y < h,
                    x <= w,
                    racc as int == sum_n(cell_fn(self.cells@, w as int, y as int), x as nat),
                    racc as int <= x as int * (u32::MAX as int),
                decreases w - x,
            {
                proof {
                    lemma_idx_bounds(w as int, h as int, x as int, y as int);
                    assert(w as int * h as int <= 0x1000000) by (nonlinear_arith)
                        requires
                            1 <= w as int <= 4096,
                            1 <= h as int <= 4096,
                    ;
                    assert((x as int + 1) * (u32::MAX as int) == x as int * (u32::MAX as int)
                        + u32::MAX as int) by (nonlinear_arith);
                    assert(x as int * (u32::MAX as int) <= 4096 * (u32::MAX as int))
                        by (nonlinear_arith)
                        requires
                            0 <= x as int <= 4096,
                    ;
                    assert(cell_fn(self.cells@, w as int, y as int)(x as int) == self.cells@[
                        spec_idx(w as int, x as int, y as int)] as int);
                }
                racc = racc + self.cells[y * w + x] as u64;
                x = x + 1;
            }
            proof {
                assert(rows_fn(self.cells@, w as int)(y as int) == racc as int);
                assert(sum_n(rows_fn(self.cells@, w as int), (y + 1) as nat) == sum_n(
                    rows_fn(self.cells@, w as int),
                    y as nat,
                ) + rows_fn(self.cells@, w as int)(y as int));
                assert((y as int + 1) * w as int * (u32::MAX as int) == y as int * w as int * (
                u32::MAX as int) + w as int * (u32::MAX as int)) by (nonlinear_arith);
                assert(y as int * w as int * (u32::MAX as int) <= 4096 * 4096 * (u32::MAX as int))
                    by (nonlinear_arith)
                    requires
                        0 <= y as int <= 4096,
                        0 <= w as int <= 4096,
                ;
                assert(w as int * (u32::MAX as int) <= 4096 * (u32::MAX as int))
                    by (nonlinear_arith)
                    requires
                        0 <= w as int <= 4096,
                ;
            }
            acc = acc + racc;
            y = y + 1;
        }
        acc
    }
}

} // verus!
