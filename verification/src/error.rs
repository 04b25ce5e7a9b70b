use vstd::prelude::*;

verus! {

/// Failure taxonomy shared by the scheduler and the rasterizer.
///
/// Every failure is a contract violation by the caller; there is nothing to
/// retry. A degenerate data range (zero-width or zero-height axis) is not an
/// error: the coordinate mapping collapses that axis instead.
#[derive(Clone, Copy, Debug, PartialEq, Eq, Structural)]
pub enum ChartError {
    /// Empty series, zero duration, or pixel dimensions too small to hold
    /// the plot area.
    InvalidInput,
    /// A visible-count outside `[0, N]` handed to the rasterizer.
    ArgumentOutOfRange,
}

} // verus!
