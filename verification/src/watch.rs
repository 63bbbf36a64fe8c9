//! The decisions of the watcher that reports reader presence: which events
//! from the device directory call for a rescan, and which rescans are
//! reported.

use vstd::prelude::*;
use crate::presence::{ReaderStatus, copy_status, same_status};

verus! {

/// The kind of a change in the device directory.
#[derive(Clone, Copy, Debug, PartialEq, Eq)]
pub enum DevEventKind {
    Any,
    Access,
    Create,
    Modify,
    Remove,
    Other,
}

/// What the watcher receives while it waits.
#[derive(Clone, Copy, Debug, PartialEq, Eq)]
pub enum WatchEvent {
    /// A change in the device directory.
    Changed(DevEventKind),
    /// The directory watch reported an error.
    Failed,
    /// Nothing arrived within the polling interval.
    Timeout,
    /// The event source has closed.
    Closed,
}

/// What the watcher does next.
#[derive(Clone, Copy, Debug, PartialEq, Eq)]
pub enum WatchStep {
    /// Look at the device directory again.
    Rescan,
    /// Keep waiting.
    Wait,
    /// Stop watching.
    Stop,
}

/// Whether a change of the device directory may have added or removed a
/// device: every kind but a mere access.
pub open spec fn handles_kind(kind: DevEventKind) -> bool {
    !(kind is Access)
}

/// Whether a change of this kind calls for a rescan.
pub fn should_handle_dev_event(kind: &DevEventKind) -> (res: bool)
    ensures
        res == handles_kind(*kind),
{
    match kind {
        DevEventKind::Access => false,
        _ => true,
    }
}

/// The watcher's response to an event: a relevant change, or a timeout (a
/// fallback for systems that miss removals), calls for a rescan; errors and
/// irrelevant changes are waited out; a closed source stops the watcher.
pub open spec fn step_for(event: WatchEvent) -> WatchStep {
    match event {
        WatchEvent::Changed(kind) => if handles_kind(kind) {
            WatchStep::Rescan
        } else {
            WatchStep::Wait
        },
        WatchEvent::Failed => WatchStep::Wait,
        WatchEvent::Timeout => WatchStep::Rescan,
        WatchEvent::Closed => WatchStep::Stop,
    }
}

/// Decides the watcher's response to an event.
pub fn next_step(event: &WatchEvent) -> (res: WatchStep)
    ensures
        res == step_for(*event),
{
    match event {
        WatchEvent::Changed(kind) => {
            if should_handle_dev_event(kind) {
                WatchStep::Rescan
            } else {
                WatchStep::Wait
            }
        },
        WatchEvent::Failed => WatchStep::Wait,
        WatchEvent::Timeout => WatchStep::Rescan,
        WatchEvent::Closed => WatchStep::Stop,
    }
}

/// A rescan seen from the last reported status: the status becomes the last
/// reported one, and it is reported when it differs from the previous one.
pub open spec fn observe_step(last: (bool, usize, Seq<char>), current: (bool, usize, Seq<char>)) -> (
    (bool, usize, Seq<char>),
    Option<(bool, usize, Seq<char>)>,
) {
    (current, if current == last {
        None
    } else {
        Some(current)
    })
}

/// The watcher's memory: the status it last reported.
pub struct PresenceWatch {
    last: ReaderStatus,
}

impl View for PresenceWatch {
    type V = (bool, usize, Seq<char>);

    closed spec fn view(&self) -> (bool, usize, Seq<char>) {
        self.last@
    }
}

/// The view of an optional status.
pub open spec fn opt_status(s: Option<ReaderStatus>) -> Option<(bool, usize, Seq<char>)> {
    match s {
        Some(st) => Some(st@),
        None => None,
    }
}

impl PresenceWatch {
    /// Starts watching from the status found (and reported) at start-up.
    pub fn new(initial: ReaderStatus) -> (res: PresenceWatch)
        ensures
            res@ == initial@,
    {
        PresenceWatch { last: initial }
    }

    /// The status last reported.
    pub fn last(&self) -> (res: &ReaderStatus)
        ensures
            res@ == self@,
    {
        &self.last
    }

    /// Takes the status found by a rescan; gives it back for reporting when
    /// it differs from the last reported one.
    pub fn observe(&mut self, current: ReaderStatus) -> (res: Option<ReaderStatus>)
        ensures
            (final(self)@, opt_status(res)) == observe_step(old(self)@, current@),
    {
        if same_status(&current, &self.last) {
            self.last = current;
            None
        } else {
            let report = copy_status(&current);
            self.last = current;
            Some(report)
        }
    }
}

/// A rescan is reported exactly when the status changed, and afterwards the
/// watcher remembers the new status.
pub proof fn lemma_observe_reports_changes(
    last: (bool, usize, Seq<char>),
    current: (bool, usize, Seq<char>),
)
    ensures
        observe_step(last, current).0 == current,
        observe_step(last, current).1 is Some <==> current != last,
        observe_step(last, current).1 matches Some(r) ==> r == current,
{
}

/// Rescanning twice to the same status reports it at most once: the second
/// rescan reports nothing.
pub proof fn lemma_observe_repeat_is_silent(
    last: (bool, usize, Seq<char>),
    current: (bool, usize, Seq<char>),
)
    ensures
        observe_step(observe_step(last, current).0, current).1 is None,
        observe_step(observe_step(last, current).0, current).0 == observe_step(last, current).0,
{
}

/// A change in the device directory calls for a rescan exactly when the
/// change is accepted as relevant, and every kind but a mere access is
/// relevant: creations, removals (an unplugged reader), modifications and
/// unknown kinds all rescan. Timeouts rescan too, errors are waited out, and
/// only a closed source stops the watcher.
pub proof fn lemma_watch_steps(kind: DevEventKind)
    ensures
        (step_for(WatchEvent::Changed(kind)) == WatchStep::Rescan) <==> handles_kind(kind),
        (step_for(WatchEvent::Changed(kind)) == WatchStep::Wait) <==> !handles_kind(kind),
        handles_kind(kind) <==> kind != DevEventKind::Access,
        step_for(WatchEvent::Changed(DevEventKind::Remove)) == WatchStep::Rescan,
        step_for(WatchEvent::Changed(DevEventKind::Create)) == WatchStep::Rescan,
        step_for(WatchEvent::Changed(DevEventKind::Modify)) == WatchStep::Rescan,
        step_for(WatchEvent::Changed(DevEventKind::Any)) == WatchStep::Rescan,
        step_for(WatchEvent::Changed(DevEventKind::Other)) == WatchStep::Rescan,
        step_for(WatchEvent::Changed(DevEventKind::Access)) == WatchStep::Wait,
        step_for(WatchEvent::Timeout) == WatchStep::Rescan,
        step_for(WatchEvent::Failed) == WatchStep::Wait,
        step_for(WatchEvent::Closed) == WatchStep::Stop,
{
}

} // verus!
