//! A dense two-dimensional array, stored row by row.
use vstd::prelude::*;

verus! {

/// A grid of `width` by `height` cells. Cell `(x, y)` is stored at index
/// `x + y * width`, so rows follow one another from top to bottom and each
/// row runs from left to right.
pub struct Grid<T> {
    pub(crate) data: Vec<T>,
    pub(crate) width: usize,
    pub(crate) height: usize,
}

/// A cell inside a `w` by `h` grid has its index below `w * h`.
pub proof fn lemma_index_in_bounds(x: int, y: int, w: int, h: int)
    requires
        0 <= x < w,
        0 <= y < h,
    ensures
        0 <= x + y * w < w * h,
        (x + y * w) % w == x,
        (x + y * w) / w == y,
{
    assert(y * w + w <= h * w) by (nonlinear_arith)
        requires
            y + 1 <= h,
            w >= 0,
    ;
    assert(0 <= y * w) by (nonlinear_arith)
        requires
            0 <= y,
            0 <= w,
    ;
    assert(h * w == w * h) by (nonlinear_arith);
    vstd::arithmetic::div_mod::lemma_fundamental_div_mod_converse(x + y * w, w, y, x);
}

/// Row `y` of a `w` by `h` grid occupies the indices `y * w .. (y + 1) * w`,
/// all below `w * h`.
pub proof fn lemma_row_in_bounds(y: int, w: int, h: int)
    requires
        0 <= y < h,
        0 <= w,
    ensures
        0 <= y * w,
        (y + 1) * w == y * w + w,
        (y + 1) * w <= w * h,
{
    assert(0 <= y * w) by (nonlinear_arith)
        requires
            0 <= y,
            0 <= w,
    ;
    assert((y + 1) * w == y * w + w) by (nonlinear_arith);
    assert((y + 1) * w <= w * h) by (nonlinear_arith)
        requires
            y + 1 <= h,
            0 <= w,
    ;
}

/// Index `k` of a grid of `w` columns and `h` rows is the cell in column
/// `k % w` of row `k / w`.
pub proof fn lemma_cell_of_index(k: int, w: int, h: int)
    requires
        0 < w,
        0 <= k < w * h,
    ensures
        0 <= k % w < w,
        0 <= k / w < h,
        k % w + (k / w) * w == k,
{
    vstd::arithmetic::div_mod::lemma_fundamental_div_mod(k, w);
    assert(w * (k / w) == (k / w) * w) by (nonlinear_arith);
    assert(0 <= k / w) by (nonlinear_arith)
        requires
            0 <= k,
            0 < w,
    ;
    if k / w >= h {
        assert((k / w) * w >= h * w) by (nonlinear_arith)
            requires
                k / w >= h,
                0 < w,
        ;
        assert(h * w == w * h) by (nonlinear_arith);
    }
}

impl<T: Copy> Grid<T> {
    /// The cells, row by row.
    pub closed spec fn view(&self) -> Seq<T> {
        self.data@
    }

    pub closed spec fn spec_width(&self) -> nat {
        self.width as nat
    }

    pub closed spec fn spec_height(&self) -> nat {
        self.height as nat
    }

    /// The grid holds exactly `width * height` cells.
    pub closed spec fn wf(&self) -> bool {
        self.data@.len() == self.width * self.height
    }

    /// What well-formedness means for the view.
    pub proof fn lemma_wf(&self)
        ensures
            self.wf() <==> self@.len() == self.spec_width() * self.spec_height(),
    {
    }

    /// A grid with every cell set to `init`.
    pub fn new(width: usize, height: usize, init: T) -> (g: Grid<T>)
        requires
            width * height <= usize::MAX,
        ensures
            g.wf(),
            g.spec_width() == width,
            g.spec_height() == height,
            g@ == Seq::new((width * height) as nat, |i: int| init),
    {
        let n = width * height;
        let mut v: Vec<T> = Vec::new();
        let mut i: usize = 0;
        while i < n
            invariant
                i <= n,
                v@ == Seq::new(i as nat, |k: int| init),
            decreases n - i,
        {
            v.push(init);
            i += 1;
        }
        Grid { data: v, width, height }
    }

    pub fn width(&self) -> (w: usize)
        ensures
            w == self.spec_width(),
    {
        self.width
    }

    pub fn height(&self) -> (h: usize)
        ensures
            h == self.spec_height(),
    {
        self.height
    }

    /// The cell at column `x` of row `y`, which is the cell at index
    /// `x + y * width`: a column beyond the width runs on into the rows below.
    pub fn get(&self, x: usize, y: usize) -> (r: T)
        requires
            x + y * self.spec_width() < self@.len(),
        ensures
            r == self@[x + y * self.spec_width()],
    {
        assert(0 <= y * self.width) by (nonlinear_arith)
            requires
                0 <= y,
                0 <= self.width,
        ;
        assert(self.data@.len() == self.data.len());
        self.data[x + (y * self.width)]
    }

    /// Overwrites the cell at column `x` of row `y`, the one at index
    /// `x + y * width`, and leaves the others as they are.
    pub fn set(&mut self, x: usize, y: usize, value: T)
        requires
            x + y * old(self).spec_width() < old(self)@.len(),
        ensures
            final(self)@ == old(self)@.update(x + y * old(self).spec_width(), value),
            final(self).spec_width() == old(self).spec_width(),
            final(self).spec_height() == old(self).spec_height(),
            old(self).wf() ==> final(self).wf(),
    {
        assert(0 <= y * self.width) by (nonlinear_arith)
            requires
                0 <= y,
                0 <= self.width,
        ;
        assert(self.data@.len() == self.data.len());
        let i = x + (y * self.width);
        self.data[i] = value;
    }

    /// The rows from top to bottom, each a copy of `width` cells. A grid
    /// without columns has `height` rows without cells.
    pub fn iter_rows(&self) -> (rows: Vec<Vec<T>>)
        requires
            self.wf(),
        ensures
            rows@.len() == self.spec_height(),
            forall|y: int|
                0 <= y < self.spec_height() ==> (#[trigger] rows@[y])@ == self@.subrange(
                    y * self.spec_width(),
                    (y + 1) * self.spec_width(),
                ),
    {
        let w = self.width;
        let mut rows: Vec<Vec<T>> = Vec::new();
        let mut y: usize = 0;
        while y < self.height
            invariant
                self.wf(),
                w == self.width,
                y <= self.height,
                rows@.len() == y,
                forall|j: int|
                    0 <= j < y ==> (#[trigger] rows@[j])@ == self.data@.subrange(
                        j * w,
                        (j + 1) * w,
                    ),
                self.data@.len() == w * self.height,
            decreases self.height - y,
        {
            proof {
                lemma_row_in_bounds(y as int, w as int, self.height as int);
                assert(self.data@.len() == self.data.len());
            }
            let base = y * w;
            let mut row: Vec<T> = Vec::new();
            let mut x: usize = 0;
            while x < w
                invariant
                    x <= w,
                    base == y * w,
                    base + w <= self.data@.len(),
                    row@ == self.data@.subrange(base as int, base + x),
                    rows@.len() == y,
                    self.data@.len() == self.data.len(),
                decreases w - x,
            {
                row.push(self.data[base + x]);
                x += 1;
            }
            rows.push(row);
            y += 1;
        }
        rows
    }

    /// Every cell with its coordinates as `(x, y, value)`, from left to right
    /// and then from top to bottom.
    pub fn iter_coords(&self) -> (cells: Vec<(usize, usize, T)>)
        requires
            self.wf(),
        ensures
            cells@.len() == self@.len(),
            forall|k: int|
                0 <= k < self@.len() ==> #[trigger] cells@[k] == (
                    (k % self.spec_width() as int) as usize,
                    (k / self.spec_width() as int) as usize,
                    self@[k],
                ),
    {
        let w = self.width;
        let n = self.data.len();
        assert(w == 0 ==> w * self.height == 0) by (nonlinear_arith);
        let mut cells: Vec<(usize, usize, T)> = Vec::new();
        let mut k: usize = 0;
        while k < n
            invariant
                w == self.width,
                n > 0 ==> w > 0,
                n == self.data@.len(),
                k <= n,
                cells@.len() == k,
                forall|j: int|
                    0 <= j < k ==> #[trigger] cells@[j] == (
                        (j % w as int) as usize,
                        (j / w as int) as usize,
                        self.data@[j],
                    ),
            decreases n - k,
        {
            cells.push((k % w, k / w, self.data[k]));
            k += 1;
        }
        cells
    }

    /// Visits every cell, from left to right and then from top to bottom,
    /// and replaces it by what `f` makes of its column, its row and its value.
    pub fn iter_coords_mut<F: Fn(usize, usize, T) -> T>(&mut self, f: F)
        requires
            old(self).wf(),
            forall|x: usize, y: usize, v: T|
                x < old(self).spec_width() && y < old(self).spec_height() ==> call_requires(
                    f,
                    (x, y, v),
                ),
        ensures
            final(self).wf(),
            final(self).spec_width() == old(self).spec_width(),
            final(self).spec_height() == old(self).spec_height(),
            final(self)@.len() == old(self)@.len(),
            forall|k: int|
                0 <= k < old(self)@.len() ==> call_ensures(
                    f,
                    (
                        (k % old(self).spec_width() as int) as usize,
                        (k / old(self).spec_width() as int) as usize,
                        old(self)@[k],
                    ),
                    #[trigger] final(self)@[k],
                ),
    {
        let w = self.width;
        let n = self.data.len();
        assert(w == 0 ==> w * self.height == 0) by (nonlinear_arith);
        let ghost before = self.data@;
        let mut k: usize = 0;
        while k < n
            invariant
                w == self.width,
                self.height == old(self).height,
                self.width == old(self).width,
                n > 0 ==> w > 0,
                n == w * self.height,
                n == self.data@.len(),
                before == old(self).data@,
                before.len() == n,
                k <= n,
                forall|x: usize, y: usize, v: T|
                    x < w && y < self.height ==> call_requires(f, (x, y, v)),
                forall|j: int|
                    0 <= j < k ==> call_ensures(
                        f,
                        ((j % w as int) as usize, (j / w as int) as usize, before[j]),
                        #[trigger] self.data@[j],
                    ),
                forall|j: int| k <= j < n ==> self.data@[j] == before[j],
            decreases n - k,
        {
            proof {
                lemma_cell_of_index(k as int, w as int, self.height as int);
            }
            let v = f(k % w, k / w, self.data[k]);
            self.data[k] = v;
            k += 1;
        }
    }

    /// The cells as they are stored, from left to right and then from top to
    /// bottom.
    pub fn as_slice(&self) -> (cells: &[T])
        ensures
            cells@ == self@,
    {
        self.data.as_slice()
    }

    /// A copy of the cells, from left to right and then from top to bottom.
    pub fn iter(&self) -> (cells: Vec<T>)
        ensures
            cells@ == self@,
    {
        let n = self.data.len();
        let mut cells: Vec<T> = Vec::new();
        let mut k: usize = 0;
        while k < n
            invariant
                n == self.data@.len(),
                k <= n,
                cells@ == self.data@.subrange(0, k as int),
            decreases n - k,
        {
            cells.push(self.data[k]);
            k += 1;
        }
        cells
    }
}

} // verus!
