//! Shared error type for electrical-power-system command APIs.

use vstd::prelude::*;

verus! {

/// The kind of a host I/O error, carried through for diagnostics.
#[verifier::external_type_specification]
#[verifier::external_body]
pub struct ExIoErrorKind(std::io::ErrorKind);

/// Errors which may result from using EPS command APIs.
#[derive(Debug, PartialEq, Eq)]
pub enum EpsError {
    /// Generic error condition.
    GenericError,
    /// Error resulting from underlying I/O functions.
    IoError {
        /// Underlying cause captured from the I/O function.
        cause: std::io::ErrorKind,
        /// Error description.
        description: String,
    },
    /// Error resulting from receiving invalid data from the EPS.
    ParsingFailure {
        /// Source where invalid data was received.
        source_description: String,
    },
    /// Error resulting from a failure with an EPS command.
    CommandFailure {
        /// EPS command which failed.
        command: String,
    },
}

impl EpsError {
    /// Convenience function for creating an [`EpsError::ParsingFailure`].
    pub fn parsing_failure(source: &str) -> (r: EpsError)
        ensures
            r matches EpsError::ParsingFailure { source_description } && source_description@
                == source@,
    {
        EpsError::ParsingFailure { source_description: String::from_str(source) }
    }
}

/// Universal return type for EPS API functions.
pub type EpsResult<T> = Result<T, EpsError>;

} // verus!
