//! Notifications delivered on the fault channel.

use vstd::prelude::*;

verus! {

/// The class of a page fault.
#[derive(Clone, Copy, Debug, PartialEq, Eq)]
pub enum FaultKind {
    /// First touch of a page with no backing content yet; resolved by zero-fill.
    Missing,
    /// The page's backing content exists (staged through the shadow mapping)
    /// but is not yet present in the guarded mapping; resolved by a
    /// continue action.
    Minor,
}

/// Whether a page fault was raised by a read or by a write.
#[derive(Clone, Copy, Debug, PartialEq, Eq)]
pub enum AccessKind {
    Read,
    Write,
}

/// One notification read from the fault channel. Addresses are byte offsets
/// into the guarded region.
#[derive(Clone, Copy, Debug, PartialEq, Eq)]
pub enum FaultEvent {
    /// A consumer thread is suspended on a touch of `offset`.
    Pagefault { kind: FaultKind, access: AccessKind, offset: usize },
    /// The range `[start, end)` was removed from the guarded mapping;
    /// informational, no thread is blocked on it.
    Remove { start: usize, end: usize },
    /// The range `[start, end)` was unmapped.
    Unmap { start: usize, end: usize },
    /// The faulting process forked; the child has its own channel.
    Fork,
}

/// What woke the fault monitor up.
#[derive(Clone, Copy, Debug, PartialEq, Eq)]
pub enum Wake {
    /// The channel reported an error condition; it cannot recover.
    ChannelError,
    /// One event was read from the channel.
    Event(FaultEvent),
}

} // verus!
