//! Binding regions: an owner or a borrow, the buffer it concerns, and the
//! span over which it is live.

use vstd::prelude::*;
use crate::span::Span;

verus! {

/// What a region stands for.
#[derive(Clone, Copy, Debug, PartialEq, Eq)]
pub enum Kind {
    /// The binding that owns a buffer. It is live from the point that
    /// creates the buffer to the last point that uses it, directly or
    /// through a borrow, before the buffer is dropped or given away.
    Owner,
    /// A shared borrow: it may read the buffer, beside other shared borrows.
    Shared,
    /// An exclusive borrow: it may read and write the buffer, alone.
    Exclusive,
}

/// One binding of a program: its kind, the buffer that it owns or borrows,
/// and its liveness span. Buffers are told apart by number.
#[derive(Clone, Copy, Debug, PartialEq, Eq)]
pub struct Region {
    pub kind: Kind,
    pub buffer: u64,
    pub span: Span,
}

impl Region {
    /// Whether the region is a borrow, shared or exclusive.
    pub open spec fn is_borrow(self) -> bool {
        !(self.kind is Owner)
    }

    /// Two exclusive borrows of one buffer that are live together.
    pub open spec fn exclusive_clash(self, other: Region) -> bool {
        &&& self.kind is Exclusive
        &&& other.kind is Exclusive
        &&& self.buffer == other.buffer
        &&& self.span@.overlaps(other.span@)
    }

    /// An exclusive borrow (`self`) and a shared borrow (`other`) of one
    /// buffer that are live together.
    pub open spec fn mixed_clash(self, other: Region) -> bool {
        &&& self.kind is Exclusive
        &&& other.kind is Shared
        &&& self.buffer == other.buffer
        &&& self.span@.overlaps(other.span@)
    }

    /// Whether `self` is an owner of the buffer that `borrow` concerns and
    /// is live for the whole of the borrow's span.
    pub open spec fn anchors(self, borrow: Region) -> bool {
        &&& self.kind is Owner
        &&& self.buffer == borrow.buffer
        &&& self.span@.covers(borrow.span@)
    }

    /// The region of the binding that owns `buffer`.
    pub fn owner(buffer: u64, span: Span) -> (region: Region)
        ensures
            region == (Region { kind: Kind::Owner, buffer, span }),
    {
        Region { kind: Kind::Owner, buffer, span }
    }

    /// The region of a shared borrow of `buffer`.
    pub fn shared(buffer: u64, span: Span) -> (region: Region)
        ensures
            region == (Region { kind: Kind::Shared, buffer, span }),
    {
        Region { kind: Kind::Shared, buffer, span }
    }

    /// The region of an exclusive borrow of `buffer`.
    pub fn exclusive(buffer: u64, span: Span) -> (region: Region)
        ensures
            region == (Region { kind: Kind::Exclusive, buffer, span }),
    {
        Region { kind: Kind::Exclusive, buffer, span }
    }
}

} // verus!
