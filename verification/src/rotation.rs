//! The rotation-only problem: a parameter vector of dimension 10.
//!
//! Entries 0 to 8 of the parameter vector are the rotation matrix read
//! column by column; entry 9 is an auxiliary that equals one on valid
//! solutions.

use vstd::prelude::*;
use crate::error::SolveError;
use crate::matrix::{lemma_build, lemma_grid_ext, Grid, Matrix};
use crate::shape::{clouds_match, Shape, POINT_DIM};
use crate::solver::{Control, DiagnosticEngine, Engine};

verus! {

/// Dimension of the parameter vector.
pub const DIM: usize = 10;

/// The parameter vector of a rotation: the matrix read column by column, then `one`.
pub open spec fn rot_encoding<T>(rot: Grid<T>, one: T) -> Grid<T> {
    Grid::build(
        10,
        1,
        |k: int, z: int|
            if k < 9 {
                rot.at(k % 3, k / 3)
            } else {
                one
            },
    )
}

/// The rotation matrix held in entries 0 to 8 of a parameter vector.
pub open spec fn rot_decoding<T>(v: Grid<T>) -> Grid<T> {
    Grid::build(3, 3, |r: int, c: int| v.at(3 * c + r, 0))
}

/// Decoding an encoded rotation gives the rotation back.
pub proof fn lemma_rot_decode_encode<T>(rot: Grid<T>, one: T)
    requires
        rot.has_shape(3, 3),
    ensures
        rot_encoding(rot, one).has_shape(10, 1),
        rot_decoding(rot_encoding(rot, one)) == rot,
{
    let v = rot_encoding(rot, one);
    lemma_build(
        10,
        1,
        |k: int, z: int|
            if k < 9 {
                rot.at(k % 3, k / 3)
            } else {
                one
            },
    );
    lemma_build(3, 3, |r: int, c: int| v.at(3 * c + r, 0));
    assert forall|r: int, c: int| 0 <= r < 3 && 0 <= c < 3 implies rot_decoding(v).at(r, c)
        == rot.at(r, c) by {
        let k = 3 * c + r;
        assert(v.at(k, 0) == rot.at(k % 3, k / 3));
    }
    lemma_grid_ext(rot_decoding(v), rot);
}

/// Encoding the rotation decoded from a parameter vector whose last entry
/// is `one` gives the vector back.
pub proof fn lemma_rot_encode_decode<T>(v: Grid<T>, one: T)
    requires
        v.has_shape(10, 1),
        v.at(9, 0) == one,
    ensures
        rot_decoding(v).has_shape(3, 3),
        rot_encoding(rot_decoding(v), one) == v,
{
    let rot = rot_decoding(v);
    lemma_build(3, 3, |r: int, c: int| v.at(3 * c + r, 0));
    lemma_build(
        10,
        1,
        |k: int, z: int|
            if k < 9 {
                rot.at(k % 3, k / 3)
            } else {
                one
            },
    );
    assert forall|k: int, z: int| 0 <= k < 10 && 0 <= z < 1 implies rot_encoding(rot, one).at(k, z)
        == v.at(k, z) by {
        if k < 9 {
            assert(rot.at(k % 3, k / 3) == v.at(3 * (k / 3) + k % 3, 0));
        }
    }
    lemma_grid_ext(rot_encoding(rot, one), v);
}

/// Flattens a rotation matrix into a parameter vector whose last entry is `one`.
pub fn rot_mat_to_vec<T: Copy>(rot: &Matrix<T>, one: T) -> (rot_vec: Matrix<T>)
    requires
        rot@.has_shape(3, 3),
    ensures
        rot_vec@ == rot_encoding(rot@, one),
        rot_vec@.has_shape(DIM as nat, 1),
{
    let mut rot_vec = Matrix::filled(DIM, 1, one);
    let mut k: usize = 0;
    while k < 9
        invariant
            k <= 9,
            rot@.has_shape(3, 3),
            rot_vec@.has_shape(10, 1),
            rot_vec@.at(9, 0) == one,
            forall|p: int| 0 <= p < k ==> #[trigger] rot_vec@.at(p, 0) == rot@.at(p % 3, p / 3),
        decreases 9 - k,
    {
        let value = rot.get(k % 3, k / 3);
        rot_vec.set(k, 0, value);
        k += 1;
    }
    proof {
        lemma_build(
            10,
            1,
            |k: int, z: int|
                if k < 9 {
                    rot@.at(k % 3, k / 3)
                } else {
                    one
                },
        );
        lemma_grid_ext(rot_vec@, rot_encoding(rot@, one));
    }
    rot_vec
}

/// Reads the rotation matrix out of entries 0 to 8 of the first column of `rot_vec`.
pub fn rot_vec_to_mat<T: Copy>(rot_vec: &Matrix<T>) -> (rot: Matrix<T>)
    requires
        rot_vec@.wf(),
        rot_vec@.rows >= 9,
        rot_vec@.cols >= 1,
    ensures
        rot@ == rot_decoding(rot_vec@),
        rot@.has_shape(3, 3),
{
    let mut rot = Matrix::filled(3, 3, rot_vec.get(0, 0));
    let mut c: usize = 0;
    while c < 3
        invariant
            c <= 3,
            rot_vec@.wf(),
            rot_vec@.rows >= 9,
            rot_vec@.cols >= 1,
            rot@.has_shape(3, 3),
            forall|a: int, b: int|
                0 <= a < 3 && 0 <= b < c ==> #[trigger] rot@.at(a, b) == rot_vec@.at(3 * b + a, 0),
        decreases 3 - c,
    {
        let mut r: usize = 0;
        while r < 3
            invariant
                c < 3,
                r <= 3,
                rot_vec@.wf(),
                rot_vec@.rows >= 9,
                rot_vec@.cols >= 1,
                rot@.has_shape(3, 3),
                forall|a: int, b: int|
                    0 <= a < 3 && ((0 <= b < c) || (b == c && a < r)) ==> #[trigger] rot@.at(a, b)
                        == rot_vec@.at(3 * b + a, 0),
            decreases 3 - r,
        {
            let value = rot_vec.get(3 * c + r, 0);
            rot.set(r, c, value);
            r += 1;
        }
        c += 1;
    }
    proof {
        lemma_build(3, 3, |r: int, c: int| rot_vec@.at(3 * c + r, 0));
        lemma_grid_ext(rot@, rot_decoding(rot_vec@));
    }
    rot
}

/// Whether `m` is the measurement matrix of correspondence `i`: three rows
/// and ten columns, where columns 0 to 8 hold point `i` of `pc1` spread over
/// three shifted diagonals, so that the matrix times an encoded rotation is
/// the rotated point, and column 9 holds what `negate` gave for point `i`
/// of `pc2`.
pub open spec fn is_measurement_matrix<T, N: Fn(T) -> T>(
    m: Grid<T>,
    pc1: Grid<T>,
    pc2: Grid<T>,
    i: int,
    zero: T,
    negate: N,
) -> bool {
    &&& m.has_shape(3, 10)
    &&& forall|r: int, k: int|
        0 <= r < 3 && 0 <= k < 9 ==> #[trigger] m.at(r, k) == (if k % 3 == r {
            pc1.at(i, k / 3)
        } else {
            zero
        })
    &&& forall|r: int| 0 <= r < 3 ==> call_ensures(negate, (pc2.at(i, r),), #[trigger] m.at(r, 9))
}

/// The measurement matrix of every correspondence, in order.
pub fn compute_measurement_matrices<T: Copy, N: Fn(T) -> T>(
    pc1: &Matrix<T>,
    pc2: &Matrix<T>,
    zero: T,
    negate: N,
) -> (mats: Vec<Matrix<T>>)
    requires
        pc1@.wf(),
        pc2@.wf(),
        pc1@.cols == POINT_DIM,
        pc2@.cols == POINT_DIM,
        pc1@.rows == pc2@.rows,
        forall|a: T| call_requires(negate, (a,)),
    ensures
        mats@.len() == pc1@.rows,
        forall|i: int|
            0 <= i < pc1@.rows ==> is_measurement_matrix(
                (#[trigger] mats@[i])@,
                pc1@,
                pc2@,
                i,
                zero,
                negate,
            ),
{
    let n: usize = pc1.nrows();
    let mut mats: Vec<Matrix<T>> = Vec::new();
    let mut i: usize = 0;
    while i < n
        invariant
            pc1@.wf(),
            pc2@.wf(),
            pc1@.cols == 3,
            pc2@.cols == 3,
            pc1@.rows == n,
            pc2@.rows == n,
            i <= n,
            forall|a: T| call_requires(negate, (a,)),
            mats@.len() == i,
            forall|p: int|
                0 <= p < i ==> is_measurement_matrix(
                    (#[trigger] mats@[p])@,
                    pc1@,
                    pc2@,
                    p,
                    zero,
                    negate,
                ),
        decreases n - i,
    {
        let mut m = Matrix::filled(3, DIM, zero);
        let mut r: usize = 0;
        while r < 3
            invariant
                pc1@.wf(),
                pc2@.wf(),
                pc1@.cols == 3,
                pc2@.cols == 3,
                pc1@.rows == n,
                pc2@.rows == n,
                i < n,
                r <= 3,
                forall|a: T| call_requires(negate, (a,)),
                m@.has_shape(3, 10),
                forall|a: int, k: int|
                    0 <= a < 3 && 0 <= k < 9 ==> #[trigger] m@.at(a, k) == (if k % 3 == a && a < r {
                        pc1@.at(i as int, k / 3)
                    } else {
                        zero
                    }),
                forall|a: int|
                    0 <= a < r ==> call_ensures(
                        negate,
                        (pc2@.at(i as int, a),),
                        #[trigger] m@.at(a, 9),
                    ),
            decreases 3 - r,
        {
            m.set(r, r, pc1.get(i, 0));
            m.set(r, 3 + r, pc1.get(i, 1));
            m.set(r, 6 + r, pc1.get(i, 2));
            m.set(r, 9, negate(pc2.get(i, r)));
            r += 1;
        }
        mats.push(m);
        i += 1;
    }
    mats
}

/// The rotation-only solver: its settings and the parts of its work that
/// do not compute with scalars.
pub struct LinearRotationSolver<S> {
    /// The maximum number of iterations allowed.
    pub max_iteration: usize,
    /// The tolerance of the convergence test.
    pub tol: S,
    /// The noise bound of the measurements.
    pub noise_bound: S,
    /// The parameter `c` of the Geman-McClure loss.
    pub c: S,
}

impl<S: Copy> LinearRotationSolver<S> {
    /// A solver with the given settings.
    pub fn new(max_iteration: usize, tol: S, noise_bound: S, c: S) -> (solver: Self)
        ensures
            solver == (LinearRotationSolver { max_iteration, tol, noise_bound, c }),
    {
        LinearRotationSolver { max_iteration, tol, noise_bound, c }
    }

    /// Dimension of the parameter vector.
    pub fn dim(&self) -> (d: usize)
        ensures
            d == DIM,
    {
        DIM
    }

    /// The maximum number of iterations allowed.
    pub fn max_iteration(&self) -> (r: usize)
        ensures
            r == self.max_iteration,
    {
        self.max_iteration
    }

    /// The tolerance of the convergence test.
    pub fn tol(&self) -> (r: S)
        ensures
            r == self.tol,
    {
        self.tol
    }

    /// The parameter `c` of the Geman-McClure loss.
    pub fn c(&self) -> (r: S)
        ensures
            r == self.c,
    {
        self.c
    }

    /// Flattens a rotation matrix into a parameter vector whose last entry is `one`.
    pub fn mat_to_vec(&self, mat: &Matrix<S>, one: S) -> (v: Matrix<S>)
        requires
            mat@.has_shape(3, 3),
        ensures
            v@ == rot_encoding(mat@, one),
            v@.has_shape(DIM as nat, 1),
    {
        rot_mat_to_vec(mat, one)
    }

    /// Reads the rotation matrix out of a parameter vector.
    pub fn vec_to_mat(&self, v: &Matrix<S>) -> (mat: Matrix<S>)
        requires
            v@.wf(),
            v@.rows >= 9,
            v@.cols >= 1,
        ensures
            mat@ == rot_decoding(v@),
            mat@.has_shape(3, 3),
    {
        rot_vec_to_mat(v)
    }

    /// Opens a solve on two clouds of the given shapes: fails with
    /// `ShapeMismatch` when they cannot be aligned, and otherwise returns the
    /// engine that controls the iteration, capped at this solver's maximum.
    pub fn start_solve(&self, src: Shape, dst: Shape) -> (r: Result<Engine, SolveError>)
        ensures
            clouds_match(src, dst) <==> r.is_ok(),
            r matches Ok(e) ==> e@ == Control::initial(self.max_iteration as nat, src.rows as nat),
            r matches Err(e) ==> e == SolveError::ShapeMismatch,
    {
        Engine::new(self.max_iteration, src, dst)
    }

    /// As `start_solve`, with an engine that keeps the entry of every iteration.
    pub fn start_solve_with_diagnostic<M>(&self, src: Shape, dst: Shape) -> (r: Result<
        DiagnosticEngine<M, S>,
        SolveError,
    >)
        ensures
            clouds_match(src, dst) <==> r.is_ok(),
            r matches Ok(e) ==> e@.wf() && e@.control == Control::initial(
                self.max_iteration as nat,
                src.rows as nat,
            ) && e@.iterations.len() == 0,
            r matches Err(e) ==> e == SolveError::ShapeMismatch,
    {
        DiagnosticEngine::new(self.max_iteration, src, dst)
    }
}

} // verus!
