use vstd::prelude::*;

verus! {

/// Why a run was abandoned. Every error ends the run at once; none is retried.
#[derive(Debug, Clone, Copy, PartialEq, Eq, Structural)]
pub enum ErrorKind {
    /// The start timestamp cannot be read, or a simulated time leaves the
    /// calendar range that the timestamp format can express.
    InvalidDate,
    /// A parameter of a random distribution lies outside its domain.
    InvalidDistributionParameter,
    /// A username too short to distort, an empty identity pool, or samples
    /// that do not fit the run they are handed to.
    InvalidInput,
    /// A file could not be read or written at the boundary of the engine.
    IO,
}

} // verus!
