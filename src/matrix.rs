//! A dense square matrix stored row by row in a flat vector.

use vstd::prelude::*;

verus! {

/// A square matrix of `width * width` cells, indexed by `(x, y)` where `x`
/// is the column and `y` the row: cell `(x, y)` lives at `y * width + x`.
pub struct Matrix<T> {
    data: Vec<T>,
    width: usize,
}

impl<T> Matrix<T> {
    /// The cells, row after row.
    pub closed spec fn cells(&self) -> Seq<T> {
        self.data@
    }

    /// The number of columns (and of rows).
    pub closed spec fn dim(&self) -> nat {
        self.width as nat
    }

    /// Every cell is present.
    pub open spec fn wf(&self) -> bool {
        self.cells().len() == self.dim() * self.dim()
    }

    /// The cell in column `x` and row `y`.
    pub open spec fn at(&self, x: int, y: int) -> T {
        self.cells()[y * self.dim() + x]
    }

    pub fn width(&self) -> (r: usize)
        ensures
            r == self.dim(),
    {
        self.width
    }

    /// Row `i`, as a slice of `width` cells.
    pub fn row(&self, i: usize) -> (r: &[T])
        requires
            self.wf(),
            i < self.dim(),
        ensures
            r@ == self.cells().subrange(i * self.dim(), i * self.dim() + self.dim()),
    {
        let w = self.width;
        // the cells fit in memory, which bounds the index arithmetic below
        let len = self.data.len();
        proof {
            assert(len == self.dim() * self.dim());
            lemma_cell_in_bounds(w as int, 0, i as int);
            assert(i * w + w <= w * w) by (nonlinear_arith)
                requires
                    i < w,
            ;
        }
        vstd::slice::slice_subrange(self.data.as_slice(), i * w, i * w + w)
    }

    /// An empty matrix of width `size`, with room for `size * size` cells;
    /// cells are then added with `push`, row after row.
    pub fn with_capacity(size: usize) -> (r: Matrix<T>)
        requires
            size * size <= usize::MAX,
        ensures
            r.cells() == Seq::<T>::empty(),
            r.dim() == size,
    {
        Matrix { data: Vec::with_capacity(size * size), width: size }
    }

    /// Appends a cell after the last one.
    pub fn push(&mut self, value: T)
        ensures
            final(self).cells() == old(self).cells().push(value),
            final(self).dim() == old(self).dim(),
    {
        self.data.push(value);
    }

    /// Replaces the cell in column `x` and row `y`.
    pub fn set(&mut self, pos: (usize, usize), value: T)
        requires
            old(self).wf(),
            pos.0 < old(self).dim(),
            pos.1 < old(self).dim(),
        ensures
            final(self).cells() == old(self).cells().update(
                pos.1 * old(self).dim() + pos.0,
                value,
            ),
            final(self).dim() == old(self).dim(),
            final(self).wf(),
    {
        let (x, y) = pos;
        // the cells fit in memory, which bounds the index arithmetic below
        let len = self.data.len();
        proof {
            assert(len == self.dim() * self.dim());
            lemma_cell_in_bounds(self.width as int, x as int, y as int);
        }
        let i = y * self.width + x;
        self.data.set(i, value);
    }
}

impl<T: Copy> Matrix<T> {
    /// Cell `(x, y)` always equals cell `(y, x)`.
    pub open spec fn is_symmetric(&self) -> bool {
        forall|x: int, y: int|
            0 <= x < self.dim() && 0 <= y < self.dim() ==> #[trigger] self.at(x, y) == self.at(y, x)
    }

    /// Writes `value` into cell `(i, j)` and into its mirror `(j, i)`; every
    /// other cell keeps its value, so a symmetric matrix stays symmetric.
    pub fn set_mirrored(&mut self, pos: (usize, usize), value: T)
        requires
            old(self).wf(),
            pos.0 < old(self).dim(),
            pos.1 < old(self).dim(),
        ensures
            final(self).wf(),
            final(self).dim() == old(self).dim(),
            final(self).at(pos.0 as int, pos.1 as int) == value,
            final(self).at(pos.1 as int, pos.0 as int) == value,
            forall|x: int, y: int|
                0 <= x < old(self).dim() && 0 <= y < old(self).dim() && !(x == pos.0 && y
                    == pos.1) && !(x == pos.1 && y == pos.0) ==> #[trigger] final(self).at(x, y)
                    == old(self).at(x, y),
            old(self).is_symmetric() ==> final(self).is_symmetric(),
    {
        let ghost w = self.dim() as int;
        let ghost before = *self;
        let (i, j) = pos;
        self.set((i, j), value);
        self.set((j, i), value);
        proof {
            lemma_cell_in_bounds(w, i as int, j as int);
            lemma_cell_in_bounds(w, j as int, i as int);
            assert forall|x: int, y: int|
                0 <= x < w && 0 <= y < w && !(x == i && y == j) && !(x == j && y == i) implies #[trigger] self.at(x, y)
                    == before.at(x, y) by {
                lemma_cell_in_bounds(w, x, y);
                if y * w + x == j * w + i {
                    lemma_cell_index_injective(w, x, y, i as int, j as int);
                }
                if y * w + x == i * w + j {
                    lemma_cell_index_injective(w, x, y, j as int, i as int);
                }
            }
            if before.is_symmetric() {
                assert forall|x: int, y: int| 0 <= x < w && 0 <= y < w implies #[trigger] self.at(x, y)
                    == self.at(y, x) by {
                    assert(before.at(x, y) == before.at(y, x));
                }
            }
        }
    }
}

impl<T: Clone> Matrix<T> {
    /// A `size * size` matrix with `element` in every cell.
    pub fn with_element(size: usize, element: T) -> (r: Matrix<T>)
        requires
            size * size <= usize::MAX,
        ensures
            r.wf(),
            r.dim() == size,
            forall|i: int| 0 <= i < size * size ==> cloned(element, #[trigger] r.cells()[i]),
    {
        Matrix { data: vec![element; size * size], width: size }
    }
}

/// Cell `(x, y)` of a `w`-wide matrix lies before the end of its `w * w` cells.
pub proof fn lemma_cell_in_bounds(w: int, x: int, y: int)
    requires
        0 <= x < w,
        0 <= y < w,
    ensures
        0 <= y * w + x < w * w,
{
    assert(0 <= y * w + x < w * w) by (nonlinear_arith)
        requires
            0 <= x < w,
            0 <= y < w,
    ;
}

/// Distinct cells of a `w`-wide matrix have distinct positions in its cells.
pub proof fn lemma_cell_index_injective(w: int, x1: int, y1: int, x2: int, y2: int)
    requires
        0 <= x1 < w,
        0 <= y1 < w,
        0 <= x2 < w,
        0 <= y2 < w,
        y1 * w + x1 == y2 * w + x2,
    ensures
        x1 == x2,
        y1 == y2,
{
    if y1 < y2 {
        assert(y2 * w - y1 * w == (y2 - y1) * w) by (nonlinear_arith);
        assert((y2 - y1) * w >= w) by (nonlinear_arith)
            requires
                y2 - y1 >= 1,
                w >= 0,
        ;
    } else if y2 < y1 {
        assert(y1 * w - y2 * w == (y1 - y2) * w) by (nonlinear_arith);
        assert((y1 - y2) * w >= w) by (nonlinear_arith)
            requires
                y1 - y2 >= 1,
                w >= 0,
        ;
    }
}

impl<T> core::ops::Index<(usize, usize)> for Matrix<T> {
    type Output = T;

    fn index(&self, pos: (usize, usize)) -> (r: &T)
        ensures
            *r == self.at(pos.0 as int, pos.1 as int),
    {
        let (x, y) = pos;
        // the cells fit in memory, which bounds the index arithmetic below
        let len = self.data.len();
        proof {
            assert(len == self.dim() * self.dim());
            lemma_cell_in_bounds(self.width as int, x as int, y as int);
        }
        let i = y * self.width + x;
        &self.data[i]
    }
}

impl<T> vstd::std_specs::core::IndexSpecImpl<(usize, usize)> for Matrix<T> {
    open spec fn index_req(&self, index: &(usize, usize)) -> bool {
        &&& self.wf()
        &&& index.0 < self.dim()
        &&& index.1 < self.dim()
    }
}

} // verus!
