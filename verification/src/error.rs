//! The error kinds that the calibration and fusion pipeline reports.

use vstd::prelude::*;

verus! {

/// Everything that can go wrong while building views, calibrating depth, or
/// blending point clouds. Each operation's contract says exactly which
/// variant it returns, and when.
#[derive(Clone, Copy, Debug, PartialEq, Eq, Structural)]
pub enum DepthError {
    /// Two grids that must share dimensions do not.
    DimensionMismatch,
    /// A pixel coordinate lies outside the grid extent.
    BoundsError,
    /// Calibration was requested but the two views share no landmark names.
    NoMatchedLandmarks,
    /// Fewer matched landmarks than regression parameters.
    UnderdeterminedSystem,
    /// The least-squares solve could not produce a solution.
    SingularSystem,
    /// Blending was requested against a cloud with zero points.
    EmptyReferenceCloud,
}

} // verus!
