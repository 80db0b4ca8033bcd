//! Failure kinds reported by the solvers.

use vstd::prelude::*;

verus! {

/// Why a solve could not be carried out.
#[derive(Clone, Copy, Debug, PartialEq, Eq, Structural)]
pub enum SolveError {
    /// The two clouds differ in their number of rows, or one of them is not three columns wide.
    ShapeMismatch,
    /// A factorisation failed or the pivot used to rescale the solution was zero.
    DegenerateSystem,
}

} // verus!
