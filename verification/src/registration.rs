//! The coupled rotation and translation problem: a parameter vector of dimension 13.
//!
//! Entries 0 to 8 of the parameter vector are the rotation matrix read
//! column by column, entries 9 to 11 are the translation, and entry 12
//! equals one on valid solutions. In matrix form a rigid motion is a 4 by 4
//! homogeneous transform.

use vstd::prelude::*;
use crate::error::SolveError;
use crate::matrix::{lemma_build, lemma_grid_ext, Grid, Matrix};
use crate::shape::{clouds_match, Shape, POINT_DIM};
use crate::solver::{Control, DiagnosticEngine, Engine};

verus! {

/// Dimension of the parameter vector.
pub const DIM: usize = 13;

/// A 4 by 4 matrix whose last row is `(zero, zero, zero, one)`.
pub open spec fn is_homogeneous<T>(m: Grid<T>, zero: T, one: T) -> bool {
    &&& m.has_shape(4, 4)
    &&& m.at(3, 0) == zero
    &&& m.at(3, 1) == zero
    &&& m.at(3, 2) == zero
    &&& m.at(3, 3) == one
}

/// The parameter vector of a rigid motion: the rotation block read column
/// by column, then the translation column, then `one`.
pub open spec fn se3_encoding<T>(mat: Grid<T>, one: T) -> Grid<T> {
    Grid::build(
        13,
        1,
        |k: int, z: int|
            if k < 9 {
                mat.at(k % 3, k / 3)
            } else if k < 12 {
                mat.at(k - 9, 3)
            } else {
                one
            },
    )
}

/// The homogeneous transform held in entries 0 to 11 of a parameter vector.
pub open spec fn se3_decoding<T>(v: Grid<T>, zero: T, one: T) -> Grid<T> {
    Grid::build(
        4,
        4,
        |r: int, c: int|
            if r < 3 {
                if c < 3 {
                    v.at(3 * c + r, 0)
                } else {
                    v.at(9 + r, 0)
                }
            } else if c == 3 {
                one
            } else {
                zero
            },
    )
}

/// The top-left 3 by 3 block of a matrix.
pub open spec fn rotation_block_of<T>(mat: Grid<T>) -> Grid<T> {
    Grid::build(3, 3, |r: int, c: int| mat.at(r, c))
}

/// The matrix `mat` with its top-left 3 by 3 block replaced by `rot`.
pub open spec fn with_rotation_block_of<T>(mat: Grid<T>, rot: Grid<T>) -> Grid<T> {
    Grid::build(
        mat.rows,
        mat.cols,
        |r: int, c: int|
            if r < 3 && c < 3 {
                rot.at(r, c)
            } else {
                mat.at(r, c)
            },
    )
}

/// Decoding an encoded homogeneous transform gives the transform back.
pub proof fn lemma_se3_decode_encode<T>(mat: Grid<T>, zero: T, one: T)
    requires
        is_homogeneous(mat, zero, one),
    ensures
        se3_encoding(mat, one).has_shape(13, 1),
        se3_decoding(se3_encoding(mat, one), zero, one) == mat,
{
    let v = se3_encoding(mat, one);
    lemma_build(
        13,
        1,
        |k: int, z: int|
            if k < 9 {
                mat.at(k % 3, k / 3)
            } else if k < 12 {
                mat.at(k - 9, 3)
            } else {
                one
            },
    );
    lemma_build(
        4,
        4,
        |r: int, c: int|
            if r < 3 {
                if c < 3 {
                    v.at(3 * c + r, 0)
                } else {
                    v.at(9 + r, 0)
                }
            } else if c == 3 {
                one
            } else {
                zero
            },
    );
    assert forall|r: int, c: int| 0 <= r < 4 && 0 <= c < 4 implies se3_decoding(v, zero, one).at(
        r,
        c,
    ) == mat.at(r, c) by {
        if r < 3 && c < 3 {
            let k = 3 * c + r;
            assert(v.at(k, 0) == mat.at(k % 3, k / 3));
        } else if r < 3 {
            let k = 9 + r;
            assert(v.at(k, 0) == mat.at(k - 9, 3));
        }
    }
    lemma_grid_ext(se3_decoding(v, zero, one), mat);
}

/// Encoding the transform decoded from a parameter vector whose last entry
/// is `one` gives the vector back, and the decoded transform is homogeneous.
pub proof fn lemma_se3_encode_decode<T>(v: Grid<T>, zero: T, one: T)
    requires
        v.has_shape(13, 1),
        v.at(12, 0) == one,
    ensures
        is_homogeneous(se3_decoding(v, zero, one), zero, one),
        se3_encoding(se3_decoding(v, zero, one), one) == v,
{
    let mat = se3_decoding(v, zero, one);
    lemma_build(
        4,
        4,
        |r: int, c: int|
            if r < 3 {
                if c < 3 {
                    v.at(3 * c + r, 0)
                } else {
                    v.at(9 + r, 0)
                }
            } else if c == 3 {
                one
            } else {
                zero
            },
    );
    lemma_build(
        13,
        1,
        |k: int, z: int|
            if k < 9 {
                mat.at(k % 3, k / 3)
            } else if k < 12 {
                mat.at(k - 9, 3)
            } else {
                one
            },
    );
    assert forall|k: int, z: int| 0 <= k < 13 && 0 <= z < 1 implies se3_encoding(mat, one).at(k, z)
        == v.at(k, z) by {
        if k < 9 {
            assert(mat.at(k % 3, k / 3) == v.at(3 * (k / 3) + k % 3, 0));
        } else if k < 12 {
            assert(mat.at(k - 9, 3) == v.at(9 + (k - 9), 0));
        }
    }
    lemma_grid_ext(se3_encoding(mat, one), v);
}

/// Replacing the rotation block leaves the shape and every cell outside
/// the block as they were, and the block read back is the one put in.
pub proof fn lemma_rotation_block_replaced<T>(mat: Grid<T>, rot: Grid<T>)
    requires
        mat.wf(),
        mat.rows >= 3,
        mat.cols >= 3,
        rot.has_shape(3, 3),
    ensures
        with_rotation_block_of(mat, rot).has_shape(mat.rows, mat.cols),
        rotation_block_of(with_rotation_block_of(mat, rot)) == rot,
        forall|r: int, c: int|
            0 <= r < mat.rows && 0 <= c < mat.cols && !(r < 3 && c < 3)
                ==> #[trigger] with_rotation_block_of(mat, rot).at(r, c) == mat.at(r, c),
{
    let out = with_rotation_block_of(mat, rot);
    lemma_build(
        mat.rows,
        mat.cols,
        |r: int, c: int|
            if r < 3 && c < 3 {
                rot.at(r, c)
            } else {
                mat.at(r, c)
            },
    );
    lemma_build(3, 3, |r: int, c: int| out.at(r, c));
    lemma_grid_ext(rotation_block_of(out), rot);
}

/// Flattens a rigid motion into a parameter vector whose last entry is `one`.
pub fn se3_mat_to_vec<T: Copy>(mat: &Matrix<T>, one: T) -> (v: Matrix<T>)
    requires
        mat@.wf(),
        mat@.rows >= 3,
        mat@.cols >= 4,
    ensures
        v@ == se3_encoding(mat@, one),
        v@.has_shape(DIM as nat, 1),
{
    let mut v = Matrix::filled(DIM, 1, one);
    let mut k: usize = 0;
    while k < 9
        invariant
            k <= 9,
            mat@.wf(),
            mat@.rows >= 3,
            mat@.cols >= 4,
            v@.has_shape(13, 1),
            v@.at(12, 0) == one,
            forall|p: int| 0 <= p < k ==> #[trigger] v@.at(p, 0) == mat@.at(p % 3, p / 3),
        decreases 9 - k,
    {
        let value = mat.get(k % 3, k / 3);
        v.set(k, 0, value);
        k += 1;
    }
    while k < 12
        invariant
            9 <= k <= 12,
            mat@.wf(),
            mat@.rows >= 3,
            mat@.cols >= 4,
            v@.has_shape(13, 1),
            v@.at(12, 0) == one,
            forall|p: int| 0 <= p < 9 ==> #[trigger] v@.at(p, 0) == mat@.at(p % 3, p / 3),
            forall|p: int| 9 <= p < k ==> #[trigger] v@.at(p, 0) == mat@.at(p - 9, 3),
        decreases 12 - k,
    {
        let value = mat.get(k - 9, 3);
        v.set(k, 0, value);
        k += 1;
    }
    proof {
        lemma_build(
            13,
            1,
            |k: int, z: int|
                if k < 9 {
                    mat@.at(k % 3, k / 3)
                } else if k < 12 {
                    mat@.at(k - 9, 3)
                } else {
                    one
                },
        );
        lemma_grid_ext(v@, se3_encoding(mat@, one));
    }
    v
}

/// Reads the homogeneous transform out of entries 0 to 11 of the first column of `v`.
pub fn se3_vec_to_mat<T: Copy>(v: &Matrix<T>, zero: T, one: T) -> (mat: Matrix<T>)
    requires
        v@.wf(),
        v@.rows >= 12,
        v@.cols >= 1,
    ensures
        mat@ == se3_decoding(v@, zero, one),
        is_homogeneous(mat@, zero, one),
{
    let mut mat = Matrix::filled(4, 4, zero);
    mat.set(3, 3, one);
    let mut c: usize = 0;
    while c < 4
        invariant
            c <= 4,
            v@.wf(),
            v@.rows >= 12,
            v@.cols >= 1,
            mat@.has_shape(4, 4),
            mat@.at(3, 0) == zero,
            mat@.at(3, 1) == zero,
            mat@.at(3, 2) == zero,
            mat@.at(3, 3) == one,
            forall|a: int, b: int|
                0 <= a < 3 && 0 <= b < c ==> #[trigger] mat@.at(a, b) == v@.at(3 * b + a, 0),
        decreases 4 - c,
    {
        let mut r: usize = 0;
        while r < 3
            invariant
                c < 4,
                r <= 3,
                v@.wf(),
                v@.rows >= 12,
                v@.cols >= 1,
                mat@.has_shape(4, 4),
                mat@.at(3, 0) == zero,
                mat@.at(3, 1) == zero,
                mat@.at(3, 2) == zero,
                mat@.at(3, 3) == one,
                forall|a: int, b: int|
                    0 <= a < 3 && ((0 <= b < c) || (b == c && a < r)) ==> #[trigger] mat@.at(a, b)
                        == v@.at(3 * b + a, 0),
            decreases 3 - r,
        {
            let value = v.get(3 * c + r, 0);
            mat.set(r, c, value);
            r += 1;
        }
        c += 1;
    }
    proof {
        lemma_build(
            4,
            4,
            |r: int, c: int|
                if r < 3 {
                    if c < 3 {
                        v@.at(3 * c + r, 0)
                    } else {
                        v@.at(9 + r, 0)
                    }
                } else if c == 3 {
                    one
                } else {
                    zero
                },
        );
        lemma_grid_ext(mat@, se3_decoding(v@, zero, one));
    }
    mat
}

/// A copy of the top-left 3 by 3 block of `mat`.
pub fn rotation_block<T: Copy>(mat: &Matrix<T>) -> (rot: Matrix<T>)
    requires
        mat@.wf(),
        mat@.rows >= 3,
        mat@.cols >= 3,
    ensures
        rot@ == rotation_block_of(mat@),
        rot@.has_shape(3, 3),
{
    let mut rot = Matrix::filled(3, 3, mat.get(0, 0));
    let mut r: usize = 0;
    while r < 3
        invariant
            r <= 3,
            mat@.wf(),
            mat@.rows >= 3,
            mat@.cols >= 3,
            rot@.has_shape(3, 3),
            forall|a: int, b: int| 0 <= a < r && 0 <= b < 3 ==> #[trigger] rot@.at(a, b) == mat@.at(a, b),
        decreases 3 - r,
    {
        rot.set(r, 0, mat.get(r, 0));
        rot.set(r, 1, mat.get(r, 1));
        rot.set(r, 2, mat.get(r, 2));
        r += 1;
    }
    proof {
        lemma_build(3, 3, |r: int, c: int| mat@.at(r, c));
        lemma_grid_ext(rot@, rotation_block_of(mat@));
    }
    rot
}

/// A copy of `mat` whose top-left 3 by 3 block is `rot`.
pub fn with_rotation_block<T: Copy>(mat: &Matrix<T>, rot: &Matrix<T>) -> (out: Matrix<T>)
    requires
        mat@.wf(),
        mat@.rows >= 3,
        mat@.cols >= 3,
        rot@.has_shape(3, 3),
    ensures
        out@ == with_rotation_block_of(mat@, rot@),
        out@.has_shape(mat@.rows, mat@.cols),
{
    let rows: usize = mat.nrows();
    let cols: usize = mat.ncols();
    let copied = Matrix::from_vec(rows, cols, mat.to_vec());
    let mut out = copied.unwrap();
    let mut r: usize = 0;
    while r < 3
        invariant
            r <= 3,
            mat@.wf(),
            mat@.rows >= 3,
            mat@.cols >= 3,
            rot@.has_shape(3, 3),
            out@.has_shape(mat@.rows, mat@.cols),
            forall|a: int, b: int|
                0 <= a < mat@.rows && 0 <= b < mat@.cols ==> #[trigger] out@.at(a, b) == (if a < r
                    && b < 3 {
                    rot@.at(a, b)
                } else {
                    mat@.at(a, b)
                }),
        decreases 3 - r,
    {
        out.set(r, 0, rot.get(r, 0));
        out.set(r, 1, rot.get(r, 1));
        out.set(r, 2, rot.get(r, 2));
        r += 1;
    }
    proof {
        lemma_build(
            mat@.rows,
            mat@.cols,
            |r: int, c: int|
                if r < 3 && c < 3 {
                    rot@.at(r, c)
                } else {
                    mat@.at(r, c)
                },
        );
        lemma_grid_ext(out@, with_rotation_block_of(mat@, rot@));
    }
    out
}

/// Whether `m` is the measurement matrix of correspondence `i`: three rows
/// and thirteen columns, where columns 0 to 8 hold point `i` of `pc1`
/// spread over three shifted diagonals, columns 9 to 11 hold the identity,
/// and column 12 holds what `negate` gave for point `i` of `pc2`.
pub open spec fn is_measurement_matrix<T, N: Fn(T) -> T>(
    m: Grid<T>,
    pc1: Grid<T>,
    pc2: Grid<T>,
    i: int,
    zero: T,
    one: T,
    negate: N,
) -> bool {
    &&& m.has_shape(3, 13)
    &&& forall|r: int, k: int|
        0 <= r < 3 && 0 <= k < 9 ==> #[trigger] m.at(r, k) == (if k % 3 == r {
            pc1.at(i, k / 3)
        } else {
            zero
        })
    &&& forall|r: int, k: int|
        0 <= r < 3 && 9 <= k < 12 ==> #[trigger] m.at(r, k) == (if k - 9 == r {
            one
        } else {
            zero
        })
    &&& forall|r: int| 0 <= r < 3 ==> call_ensures(negate, (pc2.at(i, r),), #[trigger] m.at(r, 12))
}

/// The measurement matrix of every correspondence, in order.
pub fn compute_measurement_matrices<T: Copy, N: Fn(T) -> T>(
    pc1: &Matrix<T>,
    pc2: &Matrix<T>,
    zero: T,
    one: T,
    negate: N,
) -> (mats: Vec<Matrix<T>>)
    requires
        pc1@.wf(),
        pc2@.wf(),
        pc1@.cols == POINT_DIM,
        pc2@.cols == POINT_DIM,
        pc1@.rows == pc2@.rows,
        forall|a: T| call_requires(negate, (a,)),
    ensures
        mats@.len() == pc1@.rows,
        forall|i: int|
            0 <= i < pc1@.rows ==> is_measurement_matrix(
                (#[trigger] mats@[i])@,
                pc1@,
                pc2@,
                i,
                zero,
                one,
                negate,
            ),
{
    let n: usize = pc1.nrows();
    let mut mats: Vec<Matrix<T>> = Vec::new();
    let mut i: usize = 0;
    while i < n
        invariant
            pc1@.wf(),
            pc2@.wf(),
            pc1@.cols == 3,
            pc2@.cols == 3,
            pc1@.rows == n,
            pc2@.rows == n,
            i <= n,
            forall|a: T| call_requires(negate, (a,)),
            mats@.len() == i,
            forall|p: int|
                0 <= p < i ==> is_measurement_matrix(
                    (#[trigger] mats@[p])@,
                    pc1@,
                    pc2@,
                    p,
                    zero,
                    one,
                    negate,
                ),
        decreases n - i,
    {
        let mut m = Matrix::filled(3, DIM, zero);
        let mut r: usize = 0;
        while r < 3
            invariant
                pc1@.wf(),
                pc2@.wf(),
                pc1@.cols == 3,
                pc2@.cols == 3,
                pc1@.rows == n,
                pc2@.rows == n,
                i < n,
                r <= 3,
                forall|a: T| call_requires(negate, (a,)),
                m@.has_shape(3, 13),
                forall|a: int, k: int|
                    0 <= a < 3 && 0 <= k < 9 ==> #[trigger] m@.at(a, k) == (if k % 3 == a && a < r {
                        pc1@.at(i as int, k / 3)
                    } else {
                        zero
                    }),
                forall|a: int, k: int|
                    0 <= a < 3 && 9 <= k < 12 ==> #[trigger] m@.at(a, k) == (if k - 9 == a && a
                        < r {
                        one
                    } else {
                        zero
                    }),
                forall|a: int|
                    0 <= a < r ==> call_ensures(
                        negate,
                        (pc2@.at(i as int, a),),
                        #[trigger] m@.at(a, 12),
                    ),
            decreases 3 - r,
        {
            m.set(r, r, pc1.get(i, 0));
            m.set(r, 3 + r, pc1.get(i, 1));
            m.set(r, 6 + r, pc1.get(i, 2));
            m.set(r, 9 + r, one);
            m.set(r, 12, negate(pc2.get(i, r)));
            r += 1;
        }
        mats.push(m);
        i += 1;
    }
    mats
}

/// The coupled solver: its settings and the parts of its work that do not
/// compute with scalars.
pub struct LinearRegistrationSolver<S> {
    /// The maximum number of iterations allowed.
    pub max_iteration: usize,
    /// The tolerance of the convergence test.
    pub tol: S,
    /// The noise bound of the measurements.
    pub noise_bound: S,
    /// The parameter `c` of the Geman-McClure loss.
    pub c: S,
}

impl<S: Copy> LinearRegistrationSolver<S> {
    /// A solver with the given settings.
    pub fn new(max_iteration: usize, tol: S, noise_bound: S, c: S) -> (solver: Self)
        ensures
            solver == (LinearRegistrationSolver { max_iteration, tol, noise_bound, c }),
    {
        LinearRegistrationSolver { max_iteration, tol, noise_bound, c }
    }

    /// Dimension of the parameter vector.
    pub fn dim(&self) -> (d: usize)
        ensures
            d == DIM,
    {
        DIM
    }

    /// The maximum number of iterations allowed.
    pub fn max_iteration(&self) -> (r: usize)
        ensures
            r == self.max_iteration,
    {
        self.max_iteration
    }

    /// The tolerance of the convergence test.
    pub fn tol(&self) -> (r: S)
        ensures
            r == self.tol,
    {
        self.tol
    }

    /// The parameter `c` of the Geman-McClure loss.
    pub fn c(&self) -> (r: S)
        ensures
            r == self.c,
    {
        self.c
    }

    /// Flattens a rigid motion into a parameter vector whose last entry is `one`.
    pub fn mat_to_vec(&self, mat: &Matrix<S>, one: S) -> (v: Matrix<S>)
        requires
            mat@.wf(),
            mat@.rows >= 3,
            mat@.cols >= 4,
        ensures
            v@ == se3_encoding(mat@, one),
            v@.has_shape(DIM as nat, 1),
    {
        se3_mat_to_vec(mat, one)
    }

    /// Reads the homogeneous transform out of a parameter vector.
    pub fn vec_to_mat(&self, v: &Matrix<S>, zero: S, one: S) -> (mat: Matrix<S>)
        requires
            v@.wf(),
            v@.rows >= 12,
            v@.cols >= 1,
        ensures
            mat@ == se3_decoding(v@, zero, one),
            is_homogeneous(mat@, zero, one),
    {
        se3_vec_to_mat(v, zero, one)
    }

    /// Projects a transform onto the rigid motions: its rotation block is
    /// replaced by what `project_rotation` gives for it, and the translation
    /// and the last row stay as they are.
    pub fn project<P: FnOnce(Matrix<S>) -> Matrix<S>>(
        &self,
        mat: &Matrix<S>,
        project_rotation: P,
    ) -> (out: Matrix<S>)
        requires
            mat@.wf(),
            mat@.rows >= 3,
            mat@.cols >= 3,
            forall|block: Matrix<S>|
                block@ == rotation_block_of(mat@) ==> call_requires(project_rotation, (block,)),
            forall|block: Matrix<S>, rot: Matrix<S>|
                call_ensures(project_rotation, (block,), rot) ==> rot@.has_shape(3, 3),
        ensures
            out@.has_shape(mat@.rows, mat@.cols),
            exists|block: Matrix<S>, rot: Matrix<S>|
                {
                    &&& block@ == rotation_block_of(mat@)
                    &&& #[trigger] call_ensures(project_rotation, (block,), rot)
                    &&& out@ == with_rotation_block_of(mat@, rot@)
                },
    {
        let block = rotation_block(mat);
        let ghost block_copy = block;
        let rot = project_rotation(block);
        let out = with_rotation_block(mat, &rot);
        proof {
            assert(call_ensures(project_rotation, (block_copy,), rot));
        }
        out
    }

    /// Opens a solve on two clouds of the given shapes: fails with
    /// `ShapeMismatch` when they cannot be aligned, and otherwise returns the
    /// engine that controls the iteration, capped at this solver's maximum.
    pub fn start_solve(&self, src: Shape, dst: Shape) -> (r: Result<Engine, SolveError>)
        ensures
            clouds_match(src, dst) <==> r.is_ok(),
            r matches Ok(e) ==> e@ == Control::initial(self.max_iteration as nat, src.rows as nat),
            r matches Err(e) ==> e == SolveError::ShapeMismatch,
    {
        Engine::new(self.max_iteration, src, dst)
    }

    /// As `start_solve`, with an engine that keeps the entry of every iteration.
    pub fn start_solve_with_diagnostic<M>(&self, src: Shape, dst: Shape) -> (r: Result<
        DiagnosticEngine<M, S>,
        SolveError,
    >)
        ensures
            clouds_match(src, dst) <==> r.is_ok(),
            r matches Ok(e) ==> e@.wf() && e@.control == Control::initial(
                self.max_iteration as nat,
                src.rows as nat,
            ) && e@.iterations.len() == 0,
            r matches Err(e) ==> e == SolveError::ShapeMismatch,
    {
        DiagnosticEngine::new(self.max_iteration, src, dst)
    }
}

} // verus!
