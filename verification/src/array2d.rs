use vstd::prelude::*;

verus! {

/// A two dimensional grid of values stored row after row.
pub struct Array2d<T> {
    data: Vec<T>,
    size_x: u32,
    size_y: u32,
}

impl<T> Array2d<T> {
    /// The cells in row-major order: cell `(x, y)` stands at `y * width + x`.
    pub closed spec fn cells(&self) -> Seq<T> {
        self.data@
    }

    /// Number of columns.
    pub closed spec fn spec_width(&self) -> nat {
        self.size_x as nat
    }

    /// Number of rows.
    pub closed spec fn spec_height(&self) -> nat {
        self.size_y as nat
    }

    /// The grid holds exactly `width * height` cells, a count that fits in a `u32`.
    pub open spec fn inv(&self) -> bool {
        &&& self.cells().len() == self.spec_width() * self.spec_height()
        &&& self.spec_width() * self.spec_height() <= u32::MAX
    }

    /// Position in the row-major storage of cell `(x, y)`.
    pub open spec fn index_of(&self, x: int, y: int) -> int {
        y * self.spec_width() + x
    }

    /// The value of cell `(x, y)`.
    pub open spec fn cell(&self, x: int, y: int) -> T {
        self.cells()[self.index_of(x, y)]
    }
}

impl<T: Clone> Array2d<T> {
    /// An empty grid of size 0 x 0.
    pub fn new() -> (res: Self)
        ensures
            res.inv(),
            res.spec_width() == 0,
            res.spec_height() == 0,
            res.cells() == Seq::<T>::empty(),
    {
        Self { data: Vec::new(), size_x: 0, size_y: 0 }
    }

    /// A grid of `size_x` by `size_y` cells, each a clone of `value`.
    pub fn with_size(size_x: u32, size_y: u32, value: T) -> (res: Self)
        requires
            size_x * size_y <= u32::MAX,
        ensures
            res.inv(),
            res.spec_width() == size_x,
            res.spec_height() == size_y,
            forall|i: int| 0 <= i < res.cells().len() ==> cloned::<T>(value, #[trigger] res.cells()[i]),
    {
        let n: u32 = size_x * size_y;
        let mut m_data: Vec<T> = Vec::with_capacity(n as usize);
        m_data.resize(n as usize, value);
        Self { data: m_data, size_x, size_y }
    }

    /// A grid of `size_x` by `size_y` cells holding `data` in row-major order.
    pub fn from_cells(size_x: u32, size_y: u32, data: Vec<T>) -> (res: Self)
        requires
            data@.len() == size_x * size_y,
            size_x * size_y <= u32::MAX,
        ensures
            res.inv(),
            res.spec_width() == size_x,
            res.spec_height() == size_y,
            res.cells() == data@,
    {
        Self { data, size_x, size_y }
    }

    /// A grid with the dimensions of `other` whose cells are clones of its cells.
    pub fn copy_from(other: &Self) -> (res: Self)
        requires
            other.inv(),
        ensures
            res.inv(),
            res.spec_width() == other.spec_width(),
            res.spec_height() == other.spec_height(),
            res.cells().len() == other.cells().len(),
            forall|i: int| 0 <= i < res.cells().len() ==> cloned::<T>(other.cells()[i], #[trigger] res.cells()[i]),
    {
        Self { data: other.data.clone(), size_x: other.size_x, size_y: other.size_y }
    }

    /// Resizes the grid. With the same dimensions nothing changes; otherwise the
    /// storage is truncated or extended to `size_x * size_y` cells, the new cells
    /// being clones of `value`.
    pub fn set_size(&mut self, size_x: u32, size_y: u32, value: T)
        requires
            old(self).inv(),
            size_x * size_y <= u32::MAX,
        ensures
            final(self).inv(),
            final(self).spec_width() == size_x,
            final(self).spec_height() == size_y,
            size_x == old(self).spec_width() && size_y == old(self).spec_height() ==> final(self).cells() == old(self).cells(),
            size_x * size_y <= old(self).cells().len() ==> final(self).cells() == old(self).cells().subrange(0, size_x * size_y),
            size_x * size_y > old(self).cells().len() ==> {
                &&& final(self).cells().subrange(0, old(self).cells().len() as int) == old(self).cells()
                &&& forall|i: int| old(self).cells().len() <= i < final(self).cells().len() ==> cloned::<T>(value, #[trigger] final(self).cells()[i])
            },
    {
        if size_x == self.size_x && size_y == self.size_y {
            return;
        }
        let n: u32 = size_x * size_y;
        self.data.resize(n as usize, value);
        self.size_x = size_x;
        self.size_y = size_y;
    }

    /// Sets every cell to a clone of `value`.
    pub fn reset(&mut self, value: T)
        requires
            old(self).inv(),
        ensures
            final(self).inv(),
            final(self).spec_width() == old(self).spec_width(),
            final(self).spec_height() == old(self).spec_height(),
            final(self).cells().len() == old(self).cells().len(),
            forall|i: int| 0 <= i < final(self).cells().len() ==> cloned::<T>(value, #[trigger] final(self).cells()[i]),
    {
        let n = self.data.len();
        let mut i: usize = 0;
        while i < n
            invariant
                n == self.data@.len(),
                self.inv(),
                self.size_x == old(self).size_x,
                self.size_y == old(self).size_y,
                0 <= i <= n,
                forall|j: int| 0 <= j < i ==> cloned::<T>(value, #[trigger] self.data@[j]),
            decreases n - i,
        {
            let c = value.clone();
            self.data.set(i, c);
            i = i + 1;
        }
    }

    /// Reference to cell `(x, y)`.
    pub fn at(&self, x: u32, y: u32) -> (res: &T)
        requires
            self.inv(),
            self.index_of(x as int, y as int) < self.cells().len(),
        ensures
            *res == self.cell(x as int, y as int),
    {
        let index = self.get_index_1d(x, y);
        &self.data[index]
    }

    /// Mutable reference to cell `(x, y)`.
    pub fn at_mut(&mut self, x: u32, y: u32) -> (res: &mut T)
        requires
            old(self).inv(),
            old(self).index_of(x as int, y as int) < old(self).cells().len(),
        ensures
            *res == old(self).cell(x as int, y as int),
            final(self).spec_width() == old(self).spec_width(),
            final(self).spec_height() == old(self).spec_height(),
            final(self).cells() == old(self).cells().update(old(self).index_of(x as int, y as int), *final(res)),
    {
        let index = self.get_index_1d(x, y);
        &mut self.data[index]
    }

    /// Position in the row-major storage of cell `(x, y)`.
    pub fn get_index_1d(&self, x: u32, y: u32) -> (res: usize)
        requires
            self.index_of(x as int, y as int) <= usize::MAX,
        ensures
            res == self.index_of(x as int, y as int),
    {
        y as usize * self.size_x as usize + x as usize
    }

    /// Column and row of the cell stored at position `i`.
    pub fn get_index_2d(&self, i: u32) -> (res: (u32, u32))
        requires
            self.spec_width() > 0,
        ensures
            res.0 == (i as int) % (self.spec_width() as int),
            res.1 == (i as int) / (self.spec_width() as int),
    {
        (i % self.size_x, i / self.size_x)
    }

    /// Number of columns.
    pub fn width(&self) -> (res: u32)
        ensures
            res == self.spec_width(),
    {
        self.size_x
    }

    /// Number of rows.
    pub fn height(&self) -> (res: u32)
        ensures
            res == self.spec_height(),
    {
        self.size_y
    }

    /// Number of cells.
    pub fn size(&self) -> (res: u32)
        requires
            self.inv(),
        ensures
            res == self.spec_width() * self.spec_height(),
    {
        self.size_x * self.size_y
    }

    /// Number of columns.
    pub fn size_x(&self) -> (res: u32)
        ensures
            res == self.spec_width(),
    {
        self.size_x
    }

    /// Number of rows.
    pub fn size_y(&self) -> (res: u32)
        ensures
            res == self.spec_height(),
    {
        self.size_y
    }

    /// The cells in row-major order.
    pub fn as_slice(&self) -> (res: &[T])
        ensures
            res@ == self.cells(),
    {
        self.data.as_slice()
    }

    /// Mirrors the grid upside down: row `y` receives a clone of what row
    /// `height - 1 - y` held.
    pub fn flip_vertically(&mut self)
        requires
            old(self).inv(),
        ensures
            final(self).inv(),
            final(self).spec_width() == old(self).spec_width(),
            final(self).spec_height() == old(self).spec_height(),
            flipped_clones(old(self).cells(), final(self).cells(), old(self).spec_width(), old(self).spec_height()),
    {
        let w = self.size_x as usize;
        let h = self.size_y as usize;
        let ghost orig = self.data@;
        let mut out: Vec<T> = Vec::new();
        let mut k: usize = 0;
        proof {
            assert(w * h == h * w) by (nonlinear_arith);
        }
        while k < h
            invariant
                self.data@ == orig,
                orig.len() == h * w,
                h * w <= u32::MAX,
                0 <= k <= h,
                out@.len() == k * w,
                forall|j: int, x: int| 0 <= j < k && 0 <= x < w ==>
                    cloned::<T>(orig[(h - 1 - j) * w + x], #[trigger] out@[j * w + x]),
            decreases h - k,
        {
            proof {
                lemma_row_bounds(h as int, k as int, w as int);
            }
            let start: usize = (h - 1 - k) * w;
            let mut row: Vec<T> = Vec::new();
            let mut x: usize = 0;
            while x < w
                invariant
                    self.data@ == orig,
                    orig.len() == h * w,
                    start + w <= h * w,
                    h * w <= u32::MAX,
                    start == (h - 1 - k) * w,
                    0 <= x <= w,
                    row@.len() == x,
                    forall|x2: int| 0 <= x2 < x ==> cloned::<T>(orig[start + x2], #[trigger] row@[x2]),
                decreases w - x,
            {
                let c = self.data[start + x].clone();
                row.push(c);
                x = x + 1;
            }
            let ghost before = out@;
            let ghost moved = row@;
            out.append(&mut row);
            proof {
                lemma_append_row(before, moved, out@, orig, w as int, h as int, k as int);
            }
            k = k + 1;
        }
        proof {
            assert(w * h == h * w) by (nonlinear_arith);
        }
        self.data = out;
    }
}

impl<T: Clone> Default for Array2d<T> {
    /// An empty grid of size 0 x 0.
    fn default() -> (res: Self)
        ensures
            res.inv(),
            res.spec_width() == 0,
            res.spec_height() == 0,
            res.cells() == Seq::<T>::empty(),
    {
        Self::new()
    }
}

/// `after` holds the rows of `before` in reverse order, for a grid of `w` columns and `h` rows.
pub open spec fn flipped_rows<T>(before: Seq<T>, after: Seq<T>, w: nat, h: nat) -> bool {
    &&& after.len() == before.len()
    &&& forall|x: int, y: int| 0 <= x < w && 0 <= y < h ==>
        #[trigger] after[y * w + x] == before[(h - 1 - y) * w + x]
}

/// `after` holds clones of the rows of `before` in reverse order, for a grid
/// of `w` columns and `h` rows.
pub open spec fn flipped_clones<T: Clone>(before: Seq<T>, after: Seq<T>, w: nat, h: nat) -> bool {
    &&& after.len() == before.len()
    &&& forall|x: int, y: int| 0 <= x < w && 0 <= y < h ==>
        cloned::<T>(before[(h - 1 - y) * w + x], #[trigger] after[y * w + x])
}

/// For cells whose clone equals the original, flipping reverses the rows exactly.
pub proof fn lemma_flip_exact<T: Clone>(a: Seq<T>, b: Seq<T>, w: nat, h: nat)
    requires
        flipped_clones(a, b, w, h),
        forall|v: T, c: T| #[trigger] cloned::<T>(v, c) ==> c == v,
    ensures
        flipped_rows(a, b, w, h),
{
    assert forall|x: int, y: int| 0 <= x < w && 0 <= y < h implies
        #[trigger] b[y * w + x] == a[(h - 1 - y) * w + x] by {
        assert(cloned::<T>(a[(h - 1 - y) * w + x], b[y * w + x]));
    }
}

/// Flipping a grid twice gives it back: if `b` is `a` flipped and `c` is `b`
/// flipped, for a grid of `w` columns and `h` rows, then `c` is `a`.
pub proof fn lemma_flip_involution<T>(a: Seq<T>, b: Seq<T>, c: Seq<T>, w: nat, h: nat)
    requires
        a.len() == w * h,
        flipped_rows(a, b, w, h),
        flipped_rows(b, c, w, h),
    ensures
        c == a,
{
    assert forall|i: int| 0 <= i < a.len() implies #[trigger] c[i] == a[i] by {
        let x = i % (w as int);
        let y = i / (w as int);
        lemma_cell_of_index(w as int, h as int, i);
        assert(c[y * w + x] == b[(h - 1 - y) * w + x]);
        assert(b[(h - 1 - y) * w + x] == a[(h - 1 - (h - 1 - y)) * w + x]);
    }
    assert(c =~= a);
}

/// Position `i` of a grid of `w` columns and `h` rows is cell `(i % w, i / w)`, which lies in the grid.
pub proof fn lemma_cell_of_index(w: int, h: int, i: int)
    requires
        0 <= h,
        0 <= i < w * h,
    ensures
        w > 0,
        0 <= i % w < w,
        0 <= i / w < h,
        i == (i / w) * w + i % w,
{
    if w <= 0 {
        assert(w * h <= 0) by (nonlinear_arith)
            requires w <= 0, h >= 0;
    }
    vstd::arithmetic::div_mod::lemma_fundamental_div_mod(i, w);
    vstd::arithmetic::div_mod::lemma_mod_bound(i, w);
    assert(i / w >= 0) by (nonlinear_arith)
        requires i == w * (i / w) + i % w, 0 <= i % w < w, 0 <= i;
    assert(i / w < h) by (nonlinear_arith)
        requires i == w * (i / w) + i % w, 0 <= i % w, i < w * h, w > 0;
    assert(i == (i / w) * w + i % w) by (nonlinear_arith)
        requires i == w * (i / w) + i % w;
}

/// The column and row that `get_index_2d` computes from the position that
/// `get_index_1d` gives for cell `(x, y)` are `x` and `y` again.
pub proof fn lemma_index_roundtrip(w: int, x: int, y: int)
    requires
        0 <= x < w,
        0 <= y,
    ensures
        (y * w + x) % w == x,
        (y * w + x) / w == y,
{
    vstd::arithmetic::div_mod::lemma_fundamental_div_mod_converse(y * w + x, w, y, x);
}

/// Reading a cell after writing it through `at_mut` gives the written value,
/// and every other cell keeps its value.
pub proof fn lemma_write_then_read<T>(before: Array2d<T>, after: Array2d<T>, x: int, y: int, v: T)
    requires
        before.inv(),
        0 <= x < before.spec_width(),
        0 <= y < before.spec_height(),
        after.spec_width() == before.spec_width(),
        after.spec_height() == before.spec_height(),
        after.cells() == before.cells().update(before.index_of(x, y), v),
    ensures
        after.inv(),
        after.cell(x, y) == v,
        forall|x2: int, y2: int| 0 <= x2 < before.spec_width() && 0 <= y2 < before.spec_height() && (x2 != x || y2 != y)
            ==> #[trigger] after.cell(x2, y2) == before.cell(x2, y2),
{
    let w = before.spec_width() as int;
    let h = before.spec_height() as int;
    assert(0 <= y * w + x < w * h) by (nonlinear_arith)
        requires 0 <= x < w, 0 <= y < h;
    assert forall|x2: int, y2: int| 0 <= x2 < w && 0 <= y2 < h && (x2 != x || y2 != y) implies
        #[trigger] after.cell(x2, y2) == before.cell(x2, y2) by {
        assert(0 <= y2 * w + x2 < w * h) by (nonlinear_arith)
            requires 0 <= x2 < w, 0 <= y2 < h;
        if y2 * w + x2 == y * w + x {
            if y2 < y {
                assert(y2 * w + w <= y * w) by (nonlinear_arith)
                    requires y2 + 1 <= y, w >= 0;
            } else if y < y2 {
                assert(y * w + w <= y2 * w) by (nonlinear_arith)
                    requires y + 1 <= y2, w >= 0;
            }
        }
    }
}

proof fn lemma_append_row<T: Clone>(before: Seq<T>, row: Seq<T>, out: Seq<T>, orig: Seq<T>, w: int, h: int, k: int)
    requires
        0 <= k < h,
        0 <= w,
        orig.len() == h * w,
        before.len() == k * w,
        row.len() == w,
        out == before + row,
        forall|x: int| 0 <= x < w ==> cloned::<T>(orig[(h - k - 1) * w + x], #[trigger] row[x]),
        forall|j: int, x: int| 0 <= j < k && 0 <= x < w ==>
            cloned::<T>(orig[(h - 1 - j) * w + x], #[trigger] before[j * w + x]),
    ensures
        out.len() == (k + 1) * w,
        forall|j: int, x: int| 0 <= j < k + 1 && 0 <= x < w ==>
            cloned::<T>(orig[(h - 1 - j) * w + x], #[trigger] out[j * w + x]),
{
    assert((k + 1) * w == k * w + w) by (nonlinear_arith);
    assert forall|j: int, x: int| 0 <= j < k + 1 && 0 <= x < w implies
        cloned::<T>(orig[(h - 1 - j) * w + x], #[trigger] out[j * w + x]) by {
        if j < k {
            lemma_row_bounds(k, j, w);
        } else {
            assert(out[j * w + x] == row[x]);
        }
    }
}

proof fn lemma_row_bounds(h: int, k: int, w: int)
    requires
        0 <= k < h,
        0 <= w,
    ensures
        (h - k) * w == (h - k - 1) * w + w,
        (h - k - 1) * w >= 0,
        (k + 1) * w == k * w + w,
        (k + 1) * w <= h * w,
        (h - k) * w <= h * w,
{
    assert((h - k) * w <= h * w) by (nonlinear_arith)
        requires 0 <= h - k <= h, w >= 0;
    assert((h - k) * w == (h - k - 1) * w + w) by (nonlinear_arith);
    assert((h - k - 1) * w >= 0) by (nonlinear_arith)
        requires h - k - 1 >= 0, w >= 0;
    assert((k + 1) * w <= h * w) by (nonlinear_arith)
        requires k + 1 <= h, w >= 0;
    assert((k + 1) * w == k * w + w) by (nonlinear_arith);
}

} // verus!
