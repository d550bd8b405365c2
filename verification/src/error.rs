//! Typed failure reasons. Every fallible operation of the generator
//! reports one of these; nothing in the library panics.

use vstd::prelude::*;

verus! {

/// The distinct ways a generation operation can fail.
#[derive(Clone, Copy, Debug, PartialEq, Eq, Structural)]
pub enum GenError {
    /// An area or shift operation referenced a cell outside the grid.
    OutOfBounds,
    /// A kernel footprint would exceed the grid bounds.
    KernelOutOfBounds,
    /// The configuration fails validation.
    InvalidConfig,
}

impl GenError {
    /// A short human-readable description of the failure.
    pub fn message(&self) -> (m: &'static str)
        ensures
            m@ == spec_message(*self),
    {
        match self {
            GenError::OutOfBounds => "operation out of bounds",
            GenError::KernelOutOfBounds => "kernel out of bounds",
            GenError::InvalidConfig => "invalid configuration",
        }
    }
}

/// The text each failure reason describes itself with.
pub open spec fn spec_message(e: GenError) -> Seq<char> {
    match e {
        GenError::OutOfBounds => "operation out of bounds"@,
        GenError::KernelOutOfBounds => "kernel out of bounds"@,
        GenError::InvalidConfig => "invalid configuration"@,
    }
}

} // verus!
