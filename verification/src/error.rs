//! Failures that the service reports to its callers.

use vstd::prelude::*;

verus! {

/// Why a process could not be launched.
#[derive(Clone, Copy, Debug, PartialEq, Eq, Structural)]
pub enum LaunchError {
    /// The command is empty or could not be resolved.
    CommandNotFound,
    /// The caller may not execute the command.
    PermissionDenied,
    /// The operating system or the service ran out of processes, descriptors
    /// or identifiers.
    ResourceExhausted,
    /// Rows or columns are zero or above the accepted maximum.
    InvalidDimensions,
}

/// Every failure that an operation of the service can report.
#[derive(Clone, Copy, Debug, PartialEq, Eq, Structural)]
pub enum ServiceError {
    /// The process could not be launched.
    Launch(LaunchError),
    /// The session is not in a state that admits the operation.
    SessionNotRunning,
    /// The registry already holds the maximum number of active sessions.
    RegistryFull,
    /// A resize asked for rows or columns outside the accepted range.
    InvalidDimensions,
    /// No session has the given identifier.
    NotFound,
    /// Reading from or writing to the pseudo-terminal failed.
    InternalIoError,
}

} // verus!
