//! Requests: the operations that can be submitted, what arrives on
//! streams, and the callbacks that the loop hands out.

use crate::buffer::Buffer;
use crate::error::ErrorKind;
use crate::flags::{ModeFlags, OpenFlags};
use crate::handle::Endpoint;
use vstd::prelude::*;

verus! {

/// Descriptor of the standard input stream.
pub const STDIN: i32 = 0;

/// Descriptor of the standard output stream.
pub const STDOUT: i32 = 1;

/// The offset that means: at the current position of the file.
pub const CURRENT_POSITION: i64 = -1;

/// The sorts of asynchronous operation.
#[derive(Clone, Copy, Debug, PartialEq, Eq, Structural)]
pub enum RequestKind {
    Open,
    Read,
    Write,
    Close,
    Connect,
}

/// One asynchronous operation with all that belongs to it. A buffer that
/// an operation works on is owned by the operation until it completes.
#[derive(Debug)]
pub enum Operation {
    /// Open the file at `path`.
    Open { path: String, flags: OpenFlags, mode: ModeFlags },
    /// Read from a file into `buffer`, as far as its capacity goes.
    Read { file: i32, buffer: Buffer, offset: i64 },
    /// Write the content of `buffer` to a file.
    Write { file: i32, buffer: Buffer, offset: i64 },
    /// Close a file.
    Close { file: i32 },
    /// Write the content of `buffer` to a stream handle.
    Send { handle: usize, buffer: Buffer },
    /// Connect a TCP handle to `peer`.
    Connect { handle: usize, peer: Endpoint },
}

impl Operation {
    /// The sort of the operation.
    pub open spec fn spec_kind(&self) -> RequestKind {
        match self {
            Operation::Open { .. } => RequestKind::Open,
            Operation::Read { .. } => RequestKind::Read,
            Operation::Write { .. } => RequestKind::Write,
            Operation::Close { .. } => RequestKind::Close,
            Operation::Send { .. } => RequestKind::Write,
            Operation::Connect { .. } => RequestKind::Connect,
        }
    }

    /// The sort of the operation.
    #[verifier::when_used_as_spec(spec_kind)]
    pub fn kind(&self) -> (r: RequestKind)
        ensures
            r == self.spec_kind(),
    {
        match self {
            Operation::Open { .. } => RequestKind::Open,
            Operation::Read { .. } => RequestKind::Read,
            Operation::Write { .. } => RequestKind::Write,
            Operation::Close { .. } => RequestKind::Close,
            Operation::Send { .. } => RequestKind::Write,
            Operation::Connect { .. } => RequestKind::Connect,
        }
    }

    /// The bytes that the operation is to write, if it writes.
    pub open spec fn payload(&self) -> Option<Seq<u8>> {
        match self {
            Operation::Write { buffer, .. } => Some(buffer@),
            Operation::Send { buffer, .. } => Some(buffer@),
            _ => None,
        }
    }

    /// How many bytes the operation can read at most, if it reads.
    pub open spec fn room(&self) -> Option<nat> {
        match self {
            Operation::Read { buffer, .. } => Some(buffer.spec_capacity()),
            _ => None,
        }
    }

    /// The handle that the operation was submitted on, if it was submitted on one.
    pub open spec fn spec_handle(&self) -> Option<usize> {
        match self {
            Operation::Send { handle, .. } => Some(*handle),
            Operation::Connect { handle, .. } => Some(*handle),
            _ => None,
        }
    }

    /// The handle that the operation was submitted on, if it was submitted on one.
    #[verifier::when_used_as_spec(spec_handle)]
    pub fn handle(&self) -> (r: Option<usize>)
        ensures
            r == self.spec_handle(),
    {
        match self {
            Operation::Send { handle, .. } => Some(*handle),
            Operation::Connect { handle, .. } => Some(*handle),
            _ => None,
        }
    }
}

/// An operation in flight. It has no outcome while the operating system
/// works on it, and keeps its outcome from then until its callback fires.
#[derive(Debug)]
pub struct Request {
    pub id: u64,
    pub operation: Operation,
    pub outcome: Option<Result<usize, ErrorKind>>,
}

impl Request {
    /// Whether the request waits for its outcome on the given handle.
    pub open spec fn pending_on(&self, handle: usize) -> bool {
        self.outcome is None && self.operation.spec_handle() == Some(handle)
    }
}

/// What the operating system reports of a stream that is being read.
#[derive(Debug)]
pub enum Incoming {
    /// Bytes that arrived; none at all means: nothing yet, read again.
    Data(Vec<u8>),
    /// Reading ended, at the end of the stream or with a failure.
    End(ErrorKind),
}

/// Something that arrived on a stream handle and waits for its read callback.
#[derive(Debug)]
pub struct Arrival {
    pub handle: usize,
    pub incoming: Incoming,
}

/// A callback that is due: what the loop hands out for the caller to run.
#[derive(Debug)]
pub enum Fired {
    /// A request completed. The operation comes back with its buffer.
    Completed { id: u64, operation: Operation, result: Result<usize, ErrorKind> },
    /// Something arrived on a stream that is being read: bytes for the
    /// allocator's buffer, or the end of reading.
    Read { handle: usize, incoming: Incoming },
    /// A connection waits on a listening handle.
    Connection { handle: usize },
    /// One iteration went by on an active idle handle.
    Idle { handle: usize },
    /// The handle is closed for good.
    Closed { handle: usize },
}

} // verus!
