//! The translation-only problem: a parameter vector of dimension 4.
//!
//! Entries 0 to 2 of the parameter vector are the translation; entry 3
//! equals one on valid solutions.

use vstd::prelude::*;
use crate::error::SolveError;
use crate::matrix::{lemma_build, lemma_cell_index, lemma_grid_ext, Grid, Matrix};
use crate::shape::{clouds_match, Shape, POINT_DIM};
use crate::solver::{Control, DiagnosticEngine, Engine};

verus! {

/// Dimension of the parameter vector.
pub const DIM: usize = 4;

/// The parameter vector of a translation: its three coordinates, then `one`.
pub open spec fn trans_encoding<T>(trans: Grid<T>, one: T) -> Grid<T> {
    Grid::build(
        4,
        1,
        |k: int, z: int|
            if k < 3 {
                trans.at(k, 0)
            } else {
                one
            },
    )
}

/// The first three rows of a parameter vector.
pub open spec fn trans_decoding<T>(v: Grid<T>) -> Grid<T> {
    Grid { rows: 3, cols: v.cols, cells: v.cells.subrange(0, 3 * (v.cols as int)) }
}

/// The decoded translation holds the first three rows, cell by cell.
pub proof fn lemma_trans_decoding_cells<T>(v: Grid<T>)
    requires
        v.wf(),
        v.rows >= 3,
    ensures
        trans_decoding(v).has_shape(3, v.cols),
        forall|i: int, j: int|
            0 <= i < 3 && 0 <= j < v.cols ==> #[trigger] trans_decoding(v).at(i, j) == v.at(i, j),
{
    assert(3 * v.cols <= v.rows * v.cols) by (nonlinear_arith)
        requires
            v.rows >= 3,
    ;
    assert forall|i: int, j: int| 0 <= i < 3 && 0 <= j < v.cols implies #[trigger] trans_decoding(
        v,
    ).at(i, j) == v.at(i, j) by {
        lemma_cell_index(3, v.cols, i, j);
    }
}

/// Decoding an encoded translation gives the translation back.
pub proof fn lemma_trans_decode_encode<T>(trans: Grid<T>, one: T)
    requires
        trans.has_shape(3, 1),
    ensures
        trans_encoding(trans, one).has_shape(4, 1),
        trans_decoding(trans_encoding(trans, one)) == trans,
{
    let v = trans_encoding(trans, one);
    lemma_build(
        4,
        1,
        |k: int, z: int|
            if k < 3 {
                trans.at(k, 0)
            } else {
                one
            },
    );
    lemma_trans_decoding_cells(v);
    lemma_grid_ext(trans_decoding(v), trans);
}

/// Encoding the translation decoded from a parameter vector whose last
/// entry is `one` gives the vector back.
pub proof fn lemma_trans_encode_decode<T>(v: Grid<T>, one: T)
    requires
        v.has_shape(4, 1),
        v.at(3, 0) == one,
    ensures
        trans_encoding(trans_decoding(v), one) == v,
{
    let t = trans_decoding(v);
    lemma_trans_decoding_cells(v);
    lemma_build(
        4,
        1,
        |k: int, z: int|
            if k < 3 {
                t.at(k, 0)
            } else {
                one
            },
    );
    lemma_grid_ext(trans_encoding(t, one), v);
}

/// Whether `m` is the term matrix of correspondence `i`: the 4 by 4
/// identity, except that the last column and the last row hold the
/// difference `d` that `subtract` gave for point `i` of `pc1` and point `i`
/// of `pc2`, and the corner holds what `norm2` gave for `d`, its squared
/// length.
pub open spec fn is_term_matrix<T, D: Fn(T, T) -> T, Q: Fn(T, T, T) -> T>(
    m: Grid<T>,
    pc1: Grid<T>,
    pc2: Grid<T>,
    i: int,
    zero: T,
    one: T,
    subtract: D,
    norm2: Q,
) -> bool {
    &&& m.has_shape(4, 4)
    &&& forall|r: int, c: int|
        0 <= r < 3 && 0 <= c < 3 ==> #[trigger] m.at(r, c) == (if r == c {
            one
        } else {
            zero
        })
    &&& forall|r: int|
        0 <= r < 3 ==> call_ensures(subtract, (pc1.at(i, r), pc2.at(i, r)), #[trigger] m.at(r, 3))
    &&& forall|r: int| 0 <= r < 3 ==> #[trigger] m.at(3, r) == m.at(r, 3)
    &&& call_ensures(norm2, (m.at(0, 3), m.at(1, 3), m.at(2, 3)), m.at(3, 3))
}

/// Every term matrix equals its transpose.
pub proof fn lemma_term_matrix_symmetric<T, D: Fn(T, T) -> T, Q: Fn(T, T, T) -> T>(
    m: Grid<T>,
    pc1: Grid<T>,
    pc2: Grid<T>,
    i: int,
    zero: T,
    one: T,
    subtract: D,
    norm2: Q,
)
    requires
        is_term_matrix(m, pc1, pc2, i, zero, one, subtract, norm2),
    ensures
        m.is_symmetric(),
{
    assert forall|r: int, c: int| 0 <= r < 4 && 0 <= c < 4 implies #[trigger] m.at(r, c) == m.at(
        c,
        r,
    ) by {
        if r < 3 && c < 3 {
            assert(m.at(r, c) == (if r == c {
                one
            } else {
                zero
            }));
            assert(m.at(c, r) == (if c == r {
                one
            } else {
                zero
            }));
        } else if r == 3 && c < 3 {
            assert(m.at(3, c) == m.at(c, 3));
        } else if c == 3 && r < 3 {
            assert(m.at(3, r) == m.at(r, 3));
        }
    }
}

/// The term matrix of every correspondence, in order.
pub fn compute_term_matrices<T: Copy, D: Fn(T, T) -> T, Q: Fn(T, T, T) -> T>(
    pc1: &Matrix<T>,
    pc2: &Matrix<T>,
    zero: T,
    one: T,
    subtract: D,
    norm2: Q,
) -> (mats: Vec<Matrix<T>>)
    requires
        pc1@.wf(),
        pc2@.wf(),
        pc1@.cols == POINT_DIM,
        pc2@.cols == POINT_DIM,
        pc1@.rows == pc2@.rows,
        forall|a: T, b: T| call_requires(subtract, (a, b)),
        forall|a: T, b: T, c: T| call_requires(norm2, (a, b, c)),
    ensures
        mats@.len() == pc1@.rows,
        forall|i: int|
            0 <= i < pc1@.rows ==> is_term_matrix(
                (#[trigger] mats@[i])@,
                pc1@,
                pc2@,
                i,
                zero,
                one,
                subtract,
                norm2,
            ),
        forall|i: int| 0 <= i < pc1@.rows ==> (#[trigger] mats@[i])@.is_symmetric(),
{
    let n: usize = pc1.nrows();
    let mut mats: Vec<Matrix<T>> = Vec::new();
    let mut i: usize = 0;
    while i < n
        invariant
            pc1@.wf(),
            pc2@.wf(),
            pc1@.cols == 3,
            pc2@.cols == 3,
            pc1@.rows == n,
            pc2@.rows == n,
            i <= n,
            forall|a: T, b: T| call_requires(subtract, (a, b)),
            forall|a: T, b: T, c: T| call_requires(norm2, (a, b, c)),
            mats@.len() == i,
            forall|p: int|
                0 <= p < i ==> is_term_matrix(
                    (#[trigger] mats@[p])@,
                    pc1@,
                    pc2@,
                    p,
                    zero,
                    one,
                    subtract,
                    norm2,
                ),
            forall|p: int| 0 <= p < i ==> (#[trigger] mats@[p])@.is_symmetric(),
        decreases n - i,
    {
        let d0 = subtract(pc1.get(i, 0), pc2.get(i, 0));
        let d1 = subtract(pc1.get(i, 1), pc2.get(i, 1));
        let d2 = subtract(pc1.get(i, 2), pc2.get(i, 2));
        let corner = norm2(d0, d1, d2);
        let mut m = Matrix::filled(DIM, DIM, zero);
        m.set(0, 0, one);
        m.set(1, 1, one);
        m.set(2, 2, one);
        m.set(0, 3, d0);
        m.set(1, 3, d1);
        m.set(2, 3, d2);
        m.set(3, 0, d0);
        m.set(3, 1, d1);
        m.set(3, 2, d2);
        m.set(3, 3, corner);
        proof {
            assert(is_term_matrix(m@, pc1@, pc2@, i as int, zero, one, subtract, norm2));
            lemma_term_matrix_symmetric(m@, pc1@, pc2@, i as int, zero, one, subtract, norm2);
        }
        mats.push(m);
        i += 1;
    }
    mats
}

/// Puts a translation into a parameter vector whose last entry is `one`.
pub fn trans_mat_to_vec<T: Copy>(trans: &Matrix<T>, one: T) -> (v: Matrix<T>)
    requires
        trans@.has_shape(3, 1),
    ensures
        v@ == trans_encoding(trans@, one),
        v@.has_shape(DIM as nat, 1),
{
    let mut v = Matrix::filled(DIM, 1, one);
    v.set(0, 0, trans.get(0, 0));
    v.set(1, 0, trans.get(1, 0));
    v.set(2, 0, trans.get(2, 0));
    proof {
        lemma_build(
            4,
            1,
            |k: int, z: int|
                if k < 3 {
                    trans@.at(k, 0)
                } else {
                    one
                },
        );
        lemma_grid_ext(v@, trans_encoding(trans@, one));
    }
    v
}

/// Reads the translation, the first three rows, out of a parameter vector.
pub fn trans_vec_to_mat<T: Copy>(v: &Matrix<T>) -> (trans: Matrix<T>)
    requires
        v@.wf(),
        v@.rows >= 3,
    ensures
        trans@ == trans_decoding(v@),
        trans@.has_shape(3, v@.cols),
{
    let cols: usize = v.ncols();
    let rows: usize = v.nrows();
    let cells = v.as_slice();
    let total: usize = cells.len();
    proof {
        assert(3 * cols <= rows * cols) by (nonlinear_arith)
            requires
                rows >= 3,
        ;
        assert(3 * cols <= total);
    }
    let n: usize = 3 * cols;
    let mut data: Vec<T> = Vec::with_capacity(n);
    let mut k: usize = 0;
    while k < n
        invariant
            k <= n,
            n <= cells@.len(),
            data@.len() == k,
            forall|p: int| 0 <= p < k ==> data@[p] == cells@[p],
        decreases n - k,
    {
        data.push(cells[k]);
        k += 1;
    }
    proof {
        assert(data@ =~= v@.cells.subrange(0, 3 * (v@.cols as int)));
    }
    let r = Matrix::from_vec(3, cols, data);
    r.unwrap()
}

/// The translation-only solver: its settings and the parts of its work
/// that do not compute with scalars.
pub struct LinearTranslationSolver<S> {
    /// The maximum number of iterations allowed.
    pub max_iteration: usize,
    /// The tolerance of the convergence test.
    pub tol: S,
    /// The noise bound of the measurements.
    pub noise_bound: S,
    /// The parameter `c` of the Geman-McClure loss.
    pub c: S,
}

impl<S: Copy> LinearTranslationSolver<S> {
    /// A solver with the given settings.
    pub fn new(max_iteration: usize, tol: S, noise_bound: S, c: S) -> (solver: Self)
        ensures
            solver == (LinearTranslationSolver { max_iteration, tol, noise_bound, c }),
    {
        LinearTranslationSolver { max_iteration, tol, noise_bound, c }
    }

    /// Dimension of the parameter vector.
    pub fn dim(&self) -> (d: usize)
        ensures
            d == DIM,
    {
        DIM
    }

    /// The maximum number of iterations allowed.
    pub fn max_iteration(&self) -> (r: usize)
        ensures
            r == self.max_iteration,
    {
        self.max_iteration
    }

    /// The tolerance of the convergence test.
    pub fn tol(&self) -> (r: S)
        ensures
            r == self.tol,
    {
        self.tol
    }

    /// The parameter `c` of the Geman-McClure loss.
    pub fn c(&self) -> (r: S)
        ensures
            r == self.c,
    {
        self.c
    }

    /// Puts a translation into a parameter vector whose last entry is `one`.
    pub fn mat_to_vec(&self, mat: &Matrix<S>, one: S) -> (v: Matrix<S>)
        requires
            mat@.has_shape(3, 1),
        ensures
            v@ == trans_encoding(mat@, one),
            v@.has_shape(DIM as nat, 1),
    {
        trans_mat_to_vec(mat, one)
    }

    /// Reads the translation out of a parameter vector.
    pub fn vec_to_mat(&self, v: &Matrix<S>) -> (mat: Matrix<S>)
        requires
            v@.wf(),
            v@.rows >= 3,
        ensures
            mat@ == trans_decoding(v@),
            mat@.has_shape(3, v@.cols),
    {
        trans_vec_to_mat(v)
    }

    /// Every translation is feasible: the projection returns its argument.
    pub fn project(&self, mat: &Matrix<S>) -> (r: Matrix<S>)
        requires
            mat@.wf(),
        ensures
            r@ == mat@,
    {
        let rows: usize = mat.nrows();
        let cols: usize = mat.ncols();
        let r = Matrix::from_vec(rows, cols, mat.to_vec());
        r.unwrap()
    }

    /// Opens a solve on two clouds of the given shapes: fails with
    /// `ShapeMismatch` when they cannot be aligned, and otherwise returns the
    /// engine that controls the iteration, capped at this solver's maximum.
    pub fn start_solve(&self, src: Shape, dst: Shape) -> (r: Result<Engine, SolveError>)
        ensures
            clouds_match(src, dst) <==> r.is_ok(),
            r matches Ok(e) ==> e@ == Control::initial(self.max_iteration as nat, src.rows as nat),
            r matches Err(e) ==> e == SolveError::ShapeMismatch,
    {
        Engine::new(self.max_iteration, src, dst)
    }

    /// As `start_solve`, with an engine that keeps the entry of every iteration.
    pub fn start_solve_with_diagnostic<M>(&self, src: Shape, dst: Shape) -> (r: Result<
        DiagnosticEngine<M, S>,
        SolveError,
    >)
        ensures
            clouds_match(src, dst) <==> r.is_ok(),
            r matches Ok(e) ==> e@.wf() && e@.control == Control::initial(
                self.max_iteration as nat,
                src.rows as nat,
            ) && e@.iterations.len() == 0,
            r matches Err(e) ==> e == SolveError::ShapeMismatch,
    {
        DiagnosticEngine::new(self.max_iteration, src, dst)
    }
}

} // verus!
