//! The errors of the loop, of the pool and of the operating system.

use vstd::prelude::*;

verus! {

/// Code the operating system reports for a path that does not exist.
pub const ENOENT: i32 = 2;

/// Why an operation did not produce a value.
#[derive(Clone, Copy, Debug, PartialEq, Eq, Structural)]
pub enum ErrorKind {
    /// End of a stream: the expected way for reading to finish, not a failure.
    Eof,
    /// The operation was aborted because its handle was closed first.
    Canceled,
    /// Backing storage for a buffer could not be obtained.
    NoMemory,
    /// The allocator handed no buffer to a read.
    NoBuffers,
    /// The operation is not valid in the current state of its target.
    InvalidState,
    /// The handle, request or buffer is not known to the loop or pool it was given to.
    Unknown,
    /// The loop is running, or still has handles that are not closed.
    Busy,
    /// No connection is waiting to be accepted.
    WouldBlock,
    /// As many connections wait on the listener as its backlog allows.
    Refused,
    /// An error code reported by the operating system.
    Os(i32),
    /// A failure of the operating system of which no code is known.
    Other,
}

impl ErrorKind {
    /// Whether the error is a failure to report. End of stream is the one
    /// error that is not.
    pub open spec fn spec_is_failure(self) -> bool {
        self != ErrorKind::Eof
    }

    /// Whether the error is a failure to report.
    #[verifier::when_used_as_spec(spec_is_failure)]
    pub fn is_failure(self) -> (r: bool)
        ensures
            r == self.spec_is_failure(),
    {
        match self {
            ErrorKind::Eof => false,
            _ => true,
        }
    }
}

} // verus!
