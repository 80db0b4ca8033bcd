//! A dense row-major matrix over an arbitrary cell type.
//!
//! The solvers only move cells around here; they never compute with them, so the
//! cell type is left open and the caller picks the scalar.

use vstd::prelude::*;

verus! {

/// Mathematical model of a dense matrix: its shape and its cells in row-major order.
pub struct Grid<T> {
    pub rows: nat,
    pub cols: nat,
    pub cells: Seq<T>,
}

impl<T> Grid<T> {
    /// The cell sequence holds exactly `rows * cols` cells.
    pub open spec fn wf(self) -> bool {
        self.cells.len() == self.rows * self.cols
    }

    /// Well formed, with the given shape.
    pub open spec fn has_shape(self, rows: nat, cols: nat) -> bool {
        self.wf() && self.rows == rows && self.cols == cols
    }

    /// The cell in row `i` and column `j`.
    pub open spec fn at(self, i: int, j: int) -> T
        recommends
            0 <= i < self.rows,
            0 <= j < self.cols,
    {
        self.cells[i * self.cols + j]
    }

    /// The grid of the given shape whose cell `(i, j)` is `f(i, j)`.
    pub open spec fn build(rows: nat, cols: nat, f: spec_fn(int, int) -> T) -> Grid<T> {
        Grid {
            rows,
            cols,
            cells: Seq::new(rows * cols, |k: int| f(k / (cols as int), k % (cols as int))),
        }
    }

    /// Cell `(i, j)` equals cell `(j, i)` everywhere.
    pub open spec fn is_symmetric(self) -> bool {
        &&& self.rows == self.cols
        &&& forall|i: int, j: int|
            0 <= i < self.rows && 0 <= j < self.cols ==> #[trigger] self.at(i, j) == self.at(j, i)
    }
}

/// The row-major position of cell `(i, j)` lies inside a `rows * cols` cell sequence.
pub proof fn lemma_cell_index(rows: nat, cols: nat, i: int, j: int)
    requires
        0 <= i < rows,
        0 <= j < cols,
    ensures
        0 <= i * cols + j < rows * cols,
        (i * cols + j) / (cols as int) == i,
        (i * cols + j) % (cols as int) == j,
{
    assert(0 <= i * cols + j < rows * cols) by (nonlinear_arith)
        requires
            0 <= i < rows,
            0 <= j < cols,
    ;
    vstd::arithmetic::div_mod::lemma_fundamental_div_mod_converse(i * cols + j, cols as int, i, j);
}

/// Every position of a `rows * cols` cell sequence is the position of one cell.
pub proof fn lemma_cell_position(rows: nat, cols: nat, k: int)
    requires
        0 <= k < rows * cols,
    ensures
        0 <= k / (cols as int) < rows,
        0 <= k % (cols as int) < cols,
        (k / (cols as int)) * cols + k % (cols as int) == k,
{
    assert(cols > 0) by (nonlinear_arith)
        requires
            0 <= k < rows * cols,
    ;
    vstd::arithmetic::div_mod::lemma_fundamental_div_mod(k, cols as int);
    let q = k / (cols as int);
    let r = k % (cols as int);
    assert(0 <= r < cols);
    assert(cols * q == q * cols) by (nonlinear_arith);
    assert(0 <= q < rows) by (nonlinear_arith)
        requires
            0 <= k < rows * cols,
            k == q * cols + r,
            0 <= r < cols,
    ;
}

/// A built grid is well formed and holds `f(i, j)` in cell `(i, j)`.
pub proof fn lemma_build<T>(rows: nat, cols: nat, f: spec_fn(int, int) -> T)
    ensures
        Grid::build(rows, cols, f).has_shape(rows, cols),
        forall|i: int, j: int|
            0 <= i < rows && 0 <= j < cols ==> #[trigger] Grid::build(rows, cols, f).at(i, j) == f(
                i,
                j,
            ),
{
    let g = Grid::build(rows, cols, f);
    assert forall|i: int, j: int| 0 <= i < rows && 0 <= j < cols implies #[trigger] g.at(i, j)
        == f(i, j) by {
        lemma_cell_index(rows, cols, i, j);
    }
}

/// Two well-formed grids of one shape that agree in every cell are equal.
pub proof fn lemma_grid_ext<T>(a: Grid<T>, b: Grid<T>)
    requires
        a.wf(),
        b.wf(),
        a.rows == b.rows,
        a.cols == b.cols,
        forall|i: int, j: int| 0 <= i < a.rows && 0 <= j < a.cols ==> a.at(i, j) == b.at(i, j),
    ensures
        a == b,
{
    assert forall|k: int| 0 <= k < a.cells.len() implies a.cells[k] == b.cells[k] by {
        lemma_cell_position(a.rows, a.cols, k);
        let i = k / (a.cols as int);
        let j = k % (a.cols as int);
        assert(a.at(i, j) == b.at(i, j));
    }
    assert(a.cells =~= b.cells);
}

/// A dense matrix stored row by row.
pub struct Matrix<T> {
    rows: usize,
    cols: usize,
    data: Vec<T>,
}

impl<T> View for Matrix<T> {
    type V = Grid<T>;

    closed spec fn view(&self) -> Grid<T> {
        Grid { rows: self.rows as nat, cols: self.cols as nat, cells: self.data@ }
    }
}

impl<T> Matrix<T> {
    /// Wraps `data` as a `rows` by `cols` matrix, or returns `None` when the
    /// number of cells is not `rows * cols`.
    pub fn from_vec(rows: usize, cols: usize, data: Vec<T>) -> (r: Option<Matrix<T>>)
        ensures
            r.is_some() <==> data@.len() == rows * cols,
            r matches Some(m) ==> m@.wf() && m@ == (Grid {
                rows: rows as nat,
                cols: cols as nat,
                cells: data@,
            }),
    {
        let len: usize = data.len();
        match rows.checked_mul(cols) {
            Some(n) => {
                if len == n {
                    Some(Matrix { rows, cols, data })
                } else {
                    None
                }
            },
            None => None,
        }
    }

    /// Number of rows.
    pub fn nrows(&self) -> (r: usize)
        ensures
            r == self@.rows,
    {
        self.rows
    }

    /// Number of columns.
    pub fn ncols(&self) -> (r: usize)
        ensures
            r == self@.cols,
    {
        self.cols
    }

    /// The cells in row-major order.
    pub fn as_slice(&self) -> (s: &[T])
        ensures
            s@ == self@.cells,
    {
        self.data.as_slice()
    }

    /// Gives up the matrix for its cells in row-major order.
    pub fn into_vec(self) -> (v: Vec<T>)
        ensures
            v@ == self@.cells,
    {
        self.data
    }
}

impl<T: Copy> Matrix<T> {
    /// The `rows` by `cols` matrix with `value` in every cell.
    pub fn filled(rows: usize, cols: usize, value: T) -> (m: Matrix<T>)
        requires
            rows * cols <= usize::MAX,
        ensures
            m@.has_shape(rows as nat, cols as nat),
            forall|k: int| 0 <= k < rows * cols ==> m@.cells[k] == value,
            forall|i: int, j: int| 0 <= i < rows && 0 <= j < cols ==> #[trigger] m@.at(i, j) == value,
    {
        let n: usize = rows * cols;
        let mut data: Vec<T> = Vec::with_capacity(n);
        let mut k: usize = 0;
        while k < n
            invariant
                k <= n,
                data@.len() == k,
                forall|p: int| 0 <= p < k ==> data@[p] == value,
            decreases n - k,
        {
            data.push(value);
            k += 1;
        }
        let m = Matrix { rows, cols, data };
        proof {
            assert forall|i: int, j: int| 0 <= i < rows && 0 <= j < cols implies #[trigger] m@.at(
                i,
                j,
            ) == value by {
                lemma_cell_index(rows as nat, cols as nat, i, j);
            }
        }
        m
    }

    /// The cell in row `i` and column `j`.
    pub fn get(&self, i: usize, j: usize) -> (r: T)
        requires
            self@.wf(),
            i < self@.rows,
            j < self@.cols,
        ensures
            r == self@.at(i as int, j as int),
    {
        let len: usize = self.data.len();
        proof {
            lemma_cell_index(self.rows as nat, self.cols as nat, i as int, j as int);
            assert(0 <= i * self.cols <= i * self.cols + j < len) by (nonlinear_arith)
                requires
                    0 <= i * self.cols + j < len,
                    0 <= j,
            ;
        }
        self.data[i * self.cols + j]
    }

    /// Overwrites the cell in row `i` and column `j`, leaving every other cell as it was.
    pub fn set(&mut self, i: usize, j: usize, value: T)
        requires
            old(self)@.wf(),
            i < old(self)@.rows,
            j < old(self)@.cols,
        ensures
            final(self)@.has_shape(old(self)@.rows, old(self)@.cols),
            final(self)@.cells == old(self)@.cells.update(i * old(self)@.cols + j, value),
            final(self)@.at(i as int, j as int) == value,
            forall|a: int, b: int|
                0 <= a < old(self)@.rows && 0 <= b < old(self)@.cols && (a != i || b != j)
                    ==> #[trigger] final(self)@.at(a, b) == old(self)@.at(a, b),
    {
        let len: usize = self.data.len();
        proof {
            lemma_cell_index(self.rows as nat, self.cols as nat, i as int, j as int);
            assert(0 <= i * self.cols <= i * self.cols + j < len) by (nonlinear_arith)
                requires
                    0 <= i * self.cols + j < len,
                    0 <= j,
            ;
        }
        let k: usize = i * self.cols + j;
        self.data.set(k, value);
        proof {
            let rows = self.rows as nat;
            let cols = self.cols as nat;
            assert forall|a: int, b: int|
                0 <= a < rows && 0 <= b < cols && (a != i || b != j) implies #[trigger] self@.at(
                a,
                b,
            ) == old(self)@.at(a, b) by {
                lemma_cell_index(rows, cols, a, b);
            }
        }
    }

    /// A copy of the cells in row-major order.
    pub fn to_vec(&self) -> (v: Vec<T>)
        ensures
            v@ == self@.cells,
    {
        vstd::slice::slice_to_vec(self.data.as_slice())
    }
}

} // verus!
