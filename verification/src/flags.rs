//! Run modes and the flags of files and sockets.

use vstd::prelude::*;

verus! {

/// How long a call of the loop's run operation goes on.
#[derive(Clone, Copy, Debug, PartialEq, Eq, Structural)]
pub enum RunMode {
    /// Go on until no handle is active and no request is in flight.
    Default,
    /// Process one batch of ready events.
    Once,
    /// Process what is ready and return at once.
    NoWait,
}

/// How a file is opened; values combine bitwise.
#[derive(Clone, Copy, Debug, PartialEq, Eq, Structural)]
pub struct OpenFlags {
    pub bits: u32,
}

impl OpenFlags {
    /// Open for reading only.
    pub fn readonly() -> (r: OpenFlags)
        ensures
            r.bits == 0,
    {
        OpenFlags { bits: 0 }
    }

    /// Open for reading and writing.
    pub fn read_write() -> (r: OpenFlags)
        ensures
            r.bits == 0x2,
    {
        OpenFlags { bits: 0x2 }
    }

    /// Create the file if it does not exist.
    pub fn create() -> (r: OpenFlags)
        ensures
            r.bits == 0x40,
    {
        OpenFlags { bits: 0x40 }
    }

    /// Whether every bit of `other` is set in `self`.
    pub open spec fn spec_contains(self, other: OpenFlags) -> bool {
        self.bits & other.bits == other.bits
    }

    /// Whether every bit of `other` is set in `self`.
    #[verifier::when_used_as_spec(spec_contains)]
    pub fn contains(self, other: OpenFlags) -> (r: bool)
        ensures
            r == self.spec_contains(other),
    {
        self.bits & other.bits == other.bits
    }

    /// The flags set in either operand.
    pub fn union(self, other: OpenFlags) -> (r: OpenFlags)
        ensures
            r.bits == self.bits | other.bits,
            r.contains(self),
            r.contains(other),
    {
        let a: u32 = self.bits;
        let b: u32 = other.bits;
        assert((a | b) & a == a && (a | b) & b == b) by (bit_vector);
        OpenFlags { bits: a | b }
    }
}

/// Permission bits given to a file that is created; values combine bitwise.
#[derive(Clone, Copy, Debug, PartialEq, Eq, Structural)]
pub struct ModeFlags {
    pub bits: u32,
}

impl ModeFlags {
    /// No permission at all.
    pub fn empty() -> (r: ModeFlags)
        ensures
            r.bits == 0,
    {
        ModeFlags { bits: 0 }
    }

    /// The owner may read.
    pub fn owner_read() -> (r: ModeFlags)
        ensures
            r.bits == 0x100,
    {
        ModeFlags { bits: 0x100 }
    }

    /// The owner may write.
    pub fn owner_write() -> (r: ModeFlags)
        ensures
            r.bits == 0x80,
    {
        ModeFlags { bits: 0x80 }
    }

    /// The group may read.
    pub fn group_read() -> (r: ModeFlags)
        ensures
            r.bits == 0x20,
    {
        ModeFlags { bits: 0x20 }
    }

    /// Everyone else may read.
    pub fn others_read() -> (r: ModeFlags)
        ensures
            r.bits == 0x4,
    {
        ModeFlags { bits: 0x4 }
    }

    /// Whether every bit of `other` is set in `self`.
    pub open spec fn spec_contains(self, other: ModeFlags) -> bool {
        self.bits & other.bits == other.bits
    }

    /// Whether every bit of `other` is set in `self`.
    #[verifier::when_used_as_spec(spec_contains)]
    pub fn contains(self, other: ModeFlags) -> (r: bool)
        ensures
            r == self.spec_contains(other),
    {
        self.bits & other.bits == other.bits
    }

    /// The permissions granted by either operand.
    pub fn union(self, other: ModeFlags) -> (r: ModeFlags)
        ensures
            r.bits == self.bits | other.bits,
            r.contains(self),
            r.contains(other),
    {
        let a: u32 = self.bits;
        let b: u32 = other.bits;
        assert((a | b) & a == a && (a | b) & b == b) by (bit_vector);
        ModeFlags { bits: a | b }
    }
}

/// Options of a TCP bind. The bits are reserved; the default is empty.
#[derive(Clone, Copy, Debug, PartialEq, Eq, Structural)]
pub struct BindFlags {
    pub bits: u32,
}

impl BindFlags {
    /// No option set.
    pub fn empty() -> (r: BindFlags)
        ensures
            r.bits == 0,
    {
        BindFlags { bits: 0 }
    }
}

} // verus!
