//! The errors of a build.

use std::collections::TryReserveError;
use vstd::prelude::*;
use vstd::std_specs::convert::FromSpecImpl;

verus! {

/// Why a builder refused an operation.
#[derive(Debug, PartialEq, Eq)]
pub enum BuildError {
    /// A builder was used while a nested builder that it handed out is still
    /// unfinished.
    InnerUncompletedError,
    /// The number of values pushed differs from the element count declared at
    /// creation: `finish` found fewer, or a push would have made it more.
    InconsistentElementCount { expected: u16, actual: u32 },
    /// The buffer could not reserve the space that an operation needs.
    TryReserveError(TryReserveError),
    /// A string is longer than `MAX_STRING_LENGTH` bytes.
    StringTooLong(usize),
    /// A key is longer than `MAX_KEY_LENGTH` bytes.
    KeyTooLong(usize),
    /// An object declared as sorted by key was given a key that is not greater
    /// than the key before it.
    KeyNotSorted,
}

/// The result of an operation of a builder.
pub type BuildResult<T> = Result<T, BuildError>;

impl From<TryReserveError> for BuildError {
    fn from(e: TryReserveError) -> (r: BuildError) {
        BuildError::TryReserveError(e)
    }
}

impl FromSpecImpl<TryReserveError> for BuildError {
    open spec fn obeys_from_spec() -> bool {
        true
    }

    open spec fn from_spec(e: TryReserveError) -> BuildError {
        BuildError::TryReserveError(e)
    }
}

/// What a build makes of the answer to a request for space: the failure
/// becomes the error of the build, unchanged.
pub open spec fn reservation(reserved: Result<(), TryReserveError>) -> BuildResult<()> {
    match reserved {
        Ok(()) => Ok(()),
        Err(e) => Err(BuildError::TryReserveError(e)),
    }
}

} // verus!
