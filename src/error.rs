use vstd::prelude::*;

verus! {

/// Why an input was rejected.
#[derive(Debug, Clone, Copy, PartialEq, Eq, Structural)]
pub enum InputError {
    /// A spline needs at least four control points.
    TooFewControlPoints,
    /// A path with no points has no start and no end.
    EmptyPath,
    /// A crossing names a sample that its path does not have.
    IndexOutOfRange,
    /// Crossings must come in ascending order of their index into the first path.
    Unsorted,
}

} // verus!
