//! Handles: their kinds, the states of their life, and what the loop
//! records of each.

use crate::flags::BindFlags;
use vstd::prelude::*;

verus! {

/// What a handle is, which decides what it can do.
#[derive(Clone, Copy, Debug, PartialEq, Eq, Structural)]
pub enum HandleKind {
    /// A TCP socket: a stream that can also listen and accept.
    Tcp,
    /// A pipe: a stream over a descriptor that is already open.
    Pipe,
    /// An idle watcher: its callback runs once in every loop iteration.
    Idle,
}

impl HandleKind {
    /// Whether handles of this kind read and write bytes.
    pub open spec fn spec_is_stream(self) -> bool {
        self != HandleKind::Idle
    }

    /// Whether handles of this kind read and write bytes.
    #[verifier::when_used_as_spec(spec_is_stream)]
    pub fn is_stream(self) -> (r: bool)
        ensures
            r == self.spec_is_stream(),
    {
        match self {
            HandleKind::Idle => false,
            _ => true,
        }
    }
}

/// Where a handle stands in its life.
#[derive(Clone, Copy, Debug, PartialEq, Eq, Structural)]
pub enum HandleState {
    /// Made, and not started yet.
    Created,
    /// Registered with the loop: reading, listening or idling.
    Active,
    /// Open, with nothing started on it.
    Stopped,
    /// Close was requested; the close callback has not fired yet.
    Closing,
    /// The close callback has fired. The handle can do nothing any more.
    Closed,
}

impl HandleState {
    /// Whether reading or idling can be started in this state.
    pub open spec fn spec_can_start(self) -> bool {
        self == HandleState::Created || self == HandleState::Stopped
    }

    /// Whether reading or idling can be started in this state.
    #[verifier::when_used_as_spec(spec_can_start)]
    pub fn can_start(self) -> (r: bool)
        ensures
            r == self.spec_can_start(),
    {
        match self {
            HandleState::Created => true,
            HandleState::Stopped => true,
            _ => false,
        }
    }

    /// Whether reading or idling can be stopped in this state.
    pub open spec fn spec_can_stop(self) -> bool {
        self == HandleState::Active
    }

    /// Whether reading or idling can be stopped in this state.
    #[verifier::when_used_as_spec(spec_can_stop)]
    pub fn can_stop(self) -> (r: bool)
        ensures
            r == self.spec_can_stop(),
    {
        match self {
            HandleState::Active => true,
            _ => false,
        }
    }

    /// Whether a write can be submitted in this state.
    pub open spec fn spec_can_write(self) -> bool {
        self == HandleState::Active || self == HandleState::Stopped
    }

    /// Whether a write can be submitted in this state.
    #[verifier::when_used_as_spec(spec_can_write)]
    pub fn can_write(self) -> (r: bool)
        ensures
            r == self.spec_can_write(),
    {
        match self {
            HandleState::Active => true,
            HandleState::Stopped => true,
            _ => false,
        }
    }

    /// Whether close can be requested in this state.
    pub open spec fn spec_can_close(self) -> bool {
        self != HandleState::Closed
    }

    /// Whether close can be requested in this state.
    #[verifier::when_used_as_spec(spec_can_close)]
    pub fn can_close(self) -> (r: bool)
        ensures
            r == self.spec_can_close(),
    {
        match self {
            HandleState::Closed => false,
            _ => true,
        }
    }

    /// Whether a handle in this state keeps its loop alive.
    pub open spec fn spec_keeps_alive(self) -> bool {
        self == HandleState::Active || self == HandleState::Closing
    }

    /// Whether a handle in this state keeps its loop alive.
    #[verifier::when_used_as_spec(spec_keeps_alive)]
    pub fn keeps_alive(self) -> (r: bool)
        ensures
            r == self.spec_keeps_alive(),
    {
        match self {
            HandleState::Active => true,
            HandleState::Closing => true,
            _ => false,
        }
    }
}

/// An IPv4 address and a port.
#[derive(Clone, Copy, Debug, PartialEq, Eq, Structural)]
pub struct Endpoint {
    pub address: u32,
    pub port: u16,
}

/// A local address with the options that it was bound with.
#[derive(Clone, Copy, Debug, PartialEq, Eq, Structural)]
pub struct Binding {
    pub local: Endpoint,
    pub flags: BindFlags,
}

/// What the loop records of one handle.
#[derive(Clone, Copy, Debug, PartialEq, Eq, Structural)]
pub struct Handle {
    pub kind: HandleKind,
    pub state: HandleState,
    /// The local address that the handle was bound to, with the options
    /// of the bind.
    pub bound: Option<Binding>,
    /// The descriptor that the handle was opened over.
    pub descriptor: Option<i32>,
    /// A connect request is in flight on the handle.
    pub connecting: bool,
    /// The handle listens for connections.
    pub listening: bool,
    /// The most connections that may wait to be accepted.
    pub backlog: usize,
    /// The connections that wait to be accepted.
    pub waiting: usize,
    /// The loop iteration in which close was requested.
    pub closed_in: u64,
}

impl Handle {
    /// A handle as it is right after creation.
    pub open spec fn fresh(kind: HandleKind) -> Handle {
        Handle {
            kind,
            state: HandleState::Created,
            bound: None,
            descriptor: None,
            connecting: false,
            listening: false,
            backlog: 0,
            waiting: 0,
            closed_in: 0,
        }
    }

    /// Whether the handle is a stream that is not used for listening.
    pub open spec fn carries_bytes(self) -> bool {
        self.kind.is_stream() && !self.listening
    }

    /// Whether read callbacks may fire for the handle.
    pub open spec fn reading(self) -> bool {
        self.carries_bytes() && self.state == HandleState::Active
    }

    /// The same handle in another state.
    pub open spec fn at(self, state: HandleState) -> Handle {
        Handle { state, ..self }
    }
}

} // verus!
