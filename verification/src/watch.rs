//! Decisions of the live-refresh watcher.  The filesystem watcher and the
//! debounced loop are I/O plumbing; the library states which events feed
//! the queue and how long a burst settles.

use vstd::prelude::*;

verus! {

/// The milliseconds a burst of filesystem events settles before one refresh
/// runs.
pub const DEBOUNCE_WINDOW_MS: u64 = 500;

/// The kinds of filesystem events, as plain data.
#[derive(Debug, Clone, Copy, PartialEq, Eq, Structural)]
pub enum FsEventKind {
    Create,
    Modify,
    Remove,
    Other,
}

/// Only creations, modifications and removals feed the refresh queue.
pub open spec fn relevant_event_spec(k: FsEventKind) -> bool {
    k == FsEventKind::Create || k == FsEventKind::Modify || k == FsEventKind::Remove
}

/// Executable mirror of [`relevant_event_spec`].
pub fn event_triggers_refresh(k: FsEventKind) -> (r: bool)
    ensures
        r == relevant_event_spec(k),
{
    match k {
        FsEventKind::Create => true,
        FsEventKind::Modify => true,
        FsEventKind::Remove => true,
        FsEventKind::Other => false,
    }
}

} // verus!
