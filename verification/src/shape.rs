//! Shapes of point clouds and the check that a pair of clouds can be aligned.

use vstd::prelude::*;
use crate::error::SolveError;

verus! {

/// Number of coordinates of a point.
pub const POINT_DIM: usize = 3;

/// Rows and columns of a dense matrix.
#[derive(Clone, Copy, Debug, PartialEq, Eq, Structural)]
pub struct Shape {
    pub rows: usize,
    pub cols: usize,
}

/// Two clouds can be aligned when they are both three columns wide and have the
/// same number of rows.
pub open spec fn clouds_match(src: Shape, dst: Shape) -> bool {
    src.rows == dst.rows && src.cols == POINT_DIM && dst.cols == POINT_DIM
}

/// Returns the number of correspondences of a pair of clouds, or
/// `ShapeMismatch` when the clouds cannot be aligned.
pub fn check_clouds(src: Shape, dst: Shape) -> (r: Result<usize, SolveError>)
    ensures
        clouds_match(src, dst) ==> r == Ok::<usize, SolveError>(src.rows),
        !clouds_match(src, dst) ==> r == Err::<usize, SolveError>(SolveError::ShapeMismatch),
{
    if src.rows != dst.rows || src.cols != POINT_DIM || dst.cols != POINT_DIM {
        Err(SolveError::ShapeMismatch)
    } else {
        Ok(src.rows)
    }
}

/// Whether a matrix is square with three rows, the only shape that can be
/// projected onto the rotations.
pub fn is_rotation_shape(shape: Shape) -> (r: bool)
    ensures
        r == (shape.rows == POINT_DIM && shape.cols == POINT_DIM),
{
    shape.rows == POINT_DIM && shape.cols == POINT_DIM
}

} // verus!
