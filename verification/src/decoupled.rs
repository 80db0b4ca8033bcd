//! The decoupled rigid solver: a rotation estimated on translation-invariant
//! measurements, then a translation estimated on the rotated source.

use vstd::prelude::*;
use crate::error::SolveError;
use crate::matrix::{lemma_build, lemma_grid_ext, Grid, Matrix};
use crate::registration::{is_homogeneous, rotation_block_of};
use crate::rotation::LinearRotationSolver;
use crate::shape::{check_clouds, clouds_match, Shape, POINT_DIM};
use crate::solver::{Control, Engine};
use crate::translation::LinearTranslationSolver;
use crate::utils::{
    chain_partner, complete_measurement_count,
    compute_chain_translation_invariant_measurements,
    compute_complete_translation_invariant_measurements, pair_count, pair_row,
};

verus! {

/// Which pairs of points the translation-invariant measurements are taken from.
#[allow(non_camel_case_types)]
#[derive(Clone, Copy, Debug, PartialEq, Eq, Structural)]
pub enum TIMPolicy {
    /// Each point with its successor, the last with the first.
    CHAIN,
    /// Every unordered pair of points.
    COMPLETE,
}

/// The number of measurements that a policy takes from `n` points.
pub open spec fn measurement_count(policy: TIMPolicy, n: int) -> int {
    match policy {
        TIMPolicy::CHAIN => n,
        TIMPolicy::COMPLETE => pair_count(n),
    }
}

/// The 4 by 4 homogeneous transform with rotation block `rot` and translation column `trans`.
pub open spec fn transform_of<T>(rot: Grid<T>, trans: Grid<T>, zero: T, one: T) -> Grid<T> {
    Grid::build(
        4,
        4,
        |r: int, c: int|
            if r < 3 {
                if c < 3 {
                    rot.at(r, c)
                } else {
                    trans.at(r, 0)
                }
            } else if c == 3 {
                one
            } else {
                zero
            },
    )
}

/// An assembled transform is homogeneous, its rotation block is the
/// rotation it was made of and its last column holds the translation.
pub proof fn lemma_transform_parts<T>(rot: Grid<T>, trans: Grid<T>, zero: T, one: T)
    requires
        rot.has_shape(3, 3),
        trans.has_shape(3, 1),
    ensures
        is_homogeneous(transform_of(rot, trans, zero, one), zero, one),
        rotation_block_of(transform_of(rot, trans, zero, one)) == rot,
        forall|r: int|
            0 <= r < 3 ==> #[trigger] transform_of(rot, trans, zero, one).at(r, 3) == trans.at(r, 0),
{
    let t = transform_of(rot, trans, zero, one);
    lemma_build(
        4,
        4,
        |r: int, c: int|
            if r < 3 {
                if c < 3 {
                    rot.at(r, c)
                } else {
                    trans.at(r, 0)
                }
            } else if c == 3 {
                one
            } else {
                zero
            },
    );
    lemma_build(3, 3, |r: int, c: int| t.at(r, c));
    lemma_grid_ext(rotation_block_of(t), rot);
}

/// Puts a rotation and a translation together into a homogeneous transform.
pub fn assemble_transform<T: Copy>(rot: &Matrix<T>, trans: &Matrix<T>, zero: T, one: T) -> (out:
    Matrix<T>)
    requires
        rot@.has_shape(3, 3),
        trans@.has_shape(3, 1),
    ensures
        out@ == transform_of(rot@, trans@, zero, one),
        is_homogeneous(out@, zero, one),
{
    let mut out = Matrix::filled(4, 4, zero);
    out.set(3, 3, one);
    let mut r: usize = 0;
    while r < 3
        invariant
            r <= 3,
            rot@.has_shape(3, 3),
            trans@.has_shape(3, 1),
            out@.has_shape(4, 4),
            out@.at(3, 0) == zero,
            out@.at(3, 1) == zero,
            out@.at(3, 2) == zero,
            out@.at(3, 3) == one,
            forall|a: int, b: int|
                0 <= a < r && 0 <= b < 4 ==> #[trigger] out@.at(a, b) == (if b < 3 {
                    rot@.at(a, b)
                } else {
                    trans@.at(a, 0)
                }),
        decreases 3 - r,
    {
        out.set(r, 0, rot.get(r, 0));
        out.set(r, 1, rot.get(r, 1));
        out.set(r, 2, rot.get(r, 2));
        out.set(r, 3, trans.get(r, 0));
        r += 1;
    }
    proof {
        lemma_build(
            4,
            4,
            |r: int, c: int|
                if r < 3 {
                    if c < 3 {
                        rot@.at(r, c)
                    } else {
                        trans@.at(r, 0)
                    }
                } else if c == 3 {
                    one
                } else {
                    zero
                },
        );
        lemma_grid_ext(out@, transform_of(rot@, trans@, zero, one));
    }
    out
}

/// The decoupled solver: a rotation solver that works on measurements whose
/// noise is doubled, a translation solver, and the measurement policy.
pub struct DecoupledRegistrationSolver<S> {
    pub rotation_solver: LinearRotationSolver<S>,
    pub translation_solver: LinearTranslationSolver<S>,
    pub tim_policy: TIMPolicy,
}

impl<S: Copy> DecoupledRegistrationSolver<S> {
    /// A solver with the given settings and the chain policy. The rotation
    /// solver gets the noise bound that `double` makes of `noise_bound`: a
    /// measurement is the difference of two points, so its noise is twice theirs.
    pub fn new<D: FnOnce(S) -> S>(
        max_iteration: usize,
        tol: S,
        noise_bound: S,
        c: S,
        double: D,
    ) -> (solver: Self)
        requires
            call_requires(double, (noise_bound,)),
        ensures
            solver.translation_solver == (LinearTranslationSolver {
                max_iteration,
                tol,
                noise_bound,
                c,
            }),
            solver.rotation_solver.max_iteration == max_iteration,
            solver.rotation_solver.tol == tol,
            solver.rotation_solver.c == c,
            call_ensures(double, (noise_bound,), solver.rotation_solver.noise_bound),
            solver.tim_policy == TIMPolicy::CHAIN,
    {
        let translation_solver = LinearTranslationSolver::new(max_iteration, tol, noise_bound, c);
        let rotation_solver = LinearRotationSolver::new(
            max_iteration,
            tol,
            double(translation_solver.noise_bound),
            c,
        );
        DecoupledRegistrationSolver {
            rotation_solver,
            translation_solver,
            tim_policy: TIMPolicy::CHAIN,
        }
    }

    /// Chooses the measurement policy and leaves the two solvers as they are.
    pub fn set_tim_policy(&mut self, tim_policy: TIMPolicy)
        ensures
            final(self).tim_policy == tim_policy,
            final(self).rotation_solver == old(self).rotation_solver,
            final(self).translation_solver == old(self).translation_solver,
    {
        self.tim_policy = tim_policy;
    }

    /// The translation-invariant measurements of a cloud under the chosen policy.
    pub fn compute_measurements<F: Fn(S, S) -> S>(&self, pc: &Matrix<S>, subtract: F) -> (tims:
        Matrix<S>)
        requires
            pc@.wf(),
            pc@.cols == POINT_DIM,
            self.tim_policy == TIMPolicy::COMPLETE ==> 3 * pair_count(pc@.rows as int)
                <= usize::MAX,
            forall|a: S, b: S| call_requires(subtract, (a, b)),
        ensures
            tims@.has_shape(
                measurement_count(self.tim_policy, pc@.rows as int) as nat,
                POINT_DIM as nat,
            ),
            self.tim_policy == TIMPolicy::CHAIN ==> forall|i: int, c: int|
                0 <= i < pc@.rows && 0 <= c < POINT_DIM ==> call_ensures(
                    subtract,
                    (pc@.at(i, c), pc@.at(chain_partner(i, pc@.rows as int), c)),
                    #[trigger] tims@.at(i, c),
                ),
            self.tim_policy == TIMPolicy::COMPLETE ==> forall|i: int, j: int, c: int|
                0 <= i < j < pc@.rows && 0 <= c < POINT_DIM ==> call_ensures(
                    subtract,
                    (pc@.at(i, c), pc@.at(j, c)),
                    #[trigger] tims@.at(pair_row(pc@.rows as int, i, j), c),
                ),
    {
        match self.tim_policy {
            TIMPolicy::CHAIN => compute_chain_translation_invariant_measurements(pc, subtract),
            TIMPolicy::COMPLETE => compute_complete_translation_invariant_measurements(
                pc,
                subtract,
            ),
        }
    }

    /// Opens a solve on two clouds of the given shapes: fails with
    /// `ShapeMismatch` when they cannot be aligned. Otherwise returns the
    /// engine of the rotation solve, which has one term per measurement,
    /// and the engine of the translation solve, which has one term per
    /// correspondence.
    pub fn start_solve(&self, src: Shape, dst: Shape) -> (r: Result<(Engine, Engine), SolveError>)
        requires
            self.tim_policy == TIMPolicy::COMPLETE ==> pair_count(src.rows as int) <= usize::MAX,
        ensures
            clouds_match(src, dst) <==> r.is_ok(),
            r matches Ok(engines) ==> {
                &&& engines.0@ == Control::initial(
                    self.rotation_solver.max_iteration as nat,
                    measurement_count(self.tim_policy, src.rows as int) as nat,
                )
                &&& engines.1@ == Control::initial(
                    self.translation_solver.max_iteration as nat,
                    src.rows as nat,
                )
            },
            r matches Err(e) ==> e == SolveError::ShapeMismatch,
    {
        match check_clouds(src, dst) {
            Err(e) => Err(e),
            Ok(n) => {
                let n_tims: usize = match self.tim_policy {
                    TIMPolicy::CHAIN => n,
                    TIMPolicy::COMPLETE => complete_measurement_count(n),
                };
                let tims = Shape { rows: n_tims, cols: POINT_DIM };
                let rotation = self.rotation_solver.start_solve(tims, tims);
                let translation = self.translation_solver.start_solve(src, dst);
                match (rotation, translation) {
                    (Ok(re), Ok(te)) => Ok((re, te)),
                    (Err(e), _) => Err(e),
                    (_, Err(e)) => Err(e),
                }
            },
        }
    }
}

} // verus!
