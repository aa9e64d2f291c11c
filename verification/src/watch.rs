//! Watching a directory: which changes count and how bursts of them are
//! coalesced into one refresh. The watcher itself, the channel it reports
//! on and the waiting stay with the application, which hands each batch of
//! events (or a timeout) to [`Debouncer`] and does what it answers.

use vstd::prelude::*;

verus! {

/// How long to wait for more events before reporting a change, in
/// milliseconds.
pub const DEBOUNCE_MS: u64 = 400;

/// How long to let a burst settle after reporting it, in milliseconds;
/// events arriving meanwhile are dropped.
pub const SETTLE_MS: u64 = 300;

/// The kind of a change the watcher reports.
#[derive(Debug, Clone, Copy, PartialEq, Eq, Structural)]
pub enum ChangeKind {
    Create,
    Remove,
    Modify,
    /// A change of unknown kind.
    Any,
    /// An access or another kind that does not alter the listing.
    Other,
}

/// Changes that alter a listing: creations, removals, modifications and
/// changes of unknown kind.
pub open spec fn alters_listing(k: ChangeKind) -> bool {
    k != ChangeKind::Other
}

/// Whether a change alters a listing (see [`alters_listing`]).
pub fn is_relevant(k: ChangeKind) -> (r: bool)
    ensures
        r == alters_listing(k),
{
    match k {
        ChangeKind::Other => false,
        _ => true,
    }
}

/// What the watching loop does next.
#[derive(Debug, Clone, Copy, PartialEq, Eq, Structural)]
pub enum WatchAction {
    /// Keep waiting for events.
    Wait,
    /// Report a change, then let the burst settle for [`SETTLE_MS`] and drop
    /// what arrived meanwhile.
    NotifyAndSettle,
    /// Report a change.
    Notify,
}

/// Whether a change is waiting to be reported.
#[derive(Debug, Clone, Copy, PartialEq, Eq, Structural)]
pub struct Debouncer {
    pub pending: bool,
}

/// Some change of `kinds` alters a listing.
pub open spec fn any_relevant(kinds: Seq<ChangeKind>) -> bool {
    exists|i: int| 0 <= i < kinds.len() && alters_listing(#[trigger] kinds[i])
}

impl Debouncer {
    /// Nothing pending.
    pub fn new() -> (r: Self)
        ensures
            !r.pending,
    {
        Debouncer { pending: false }
    }

    /// A batch of events arrived (the first one waited for, the rest already
    /// queued): when some change alters a listing, or one was pending, report
    /// it and settle; nothing is pending afterwards.
    pub fn on_batch(&mut self, kinds: &[ChangeKind]) -> (r: WatchAction)
        ensures
            r == (if old(self).pending || any_relevant(kinds@) {
                WatchAction::NotifyAndSettle
            } else {
                WatchAction::Wait
            }),
            !final(self).pending,
    {
        let mut pending = self.pending;
        let mut i: usize = 0;
        while i < kinds.len()
            invariant
                i <= kinds@.len(),
                pending == (old(self).pending || exists|k: int|
                    0 <= k < i && alters_listing(#[trigger] kinds@[k])),
            decreases kinds@.len() - i,
        {
            if is_relevant(kinds[i]) {
                pending = true;
            }
            i = i + 1;
        }
        self.pending = false;
        if pending {
            WatchAction::NotifyAndSettle
        } else {
            WatchAction::Wait
        }
    }

    /// No event came within [`DEBOUNCE_MS`]: report a pending change.
    pub fn on_timeout(&mut self) -> (r: WatchAction)
        ensures
            r == (if old(self).pending {
                WatchAction::Notify
            } else {
                WatchAction::Wait
            }),
            !final(self).pending,
    {
        let was = self.pending;
        self.pending = false;
        if was {
            WatchAction::Notify
        } else {
            WatchAction::Wait
        }
    }
}

} // verus!
