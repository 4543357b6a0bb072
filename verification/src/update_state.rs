//! Bookkeeping of the direct-address update runs.
//!
//! A direct-address update (port-mapper query, reachability probe, interface
//! enumeration) can be triggered by a timer, by link changes, by port-map
//! changes, or on demand for hole punching.  At most one update runs at a
//! time: a trigger that arrives while one is running is remembered — later
//! triggers overwrite earlier ones — and exactly one new run starts when the
//! current one completes.

use vstd::prelude::*;

verus! {

/// Why a direct-address update was asked for.
#[derive(Clone, Copy, Debug, PartialEq, Eq, Structural)]
pub enum UpdateReason {
    /// The periodic re-probe timer fired.
    Periodic,
    /// The port mapper reported a new external address.
    PortmapUpdated,
    /// A major link change: routes or interfaces changed.
    LinkChangeMajor,
    /// A minor link change.
    LinkChangeMinor,
    /// Hole punching needs fresh addresses to advertise.
    RefreshForPeering,
}

/// The update state: the reason of the run in progress, if one is, and the
/// reason of the run to start when it completes, if one is wanted.
#[derive(Clone, Copy, Debug, PartialEq, Eq, Structural)]
pub struct DirectAddrUpdateState {
    /// Set while an update runs.
    pub running: Option<UpdateReason>,
    /// Set when a trigger arrived while one was running.
    pub want_update: Option<UpdateReason>,
}

/// What scheduling a run does: start it at once when none is running, else
/// remember it for later.
pub open spec fn schedule_spec(s: DirectAddrUpdateState, why: UpdateReason) -> DirectAddrUpdateState {
    if s.running is Some {
        DirectAddrUpdateState { running: s.running, want_update: Some(why) }
    } else {
        DirectAddrUpdateState { running: Some(why), want_update: s.want_update }
    }
}

/// What completing the running update does: the remembered trigger, if any,
/// starts the next run; otherwise the state goes idle.  The second component
/// is the reason of the run that starts now, if one does.
pub open spec fn finalize_spec(s: DirectAddrUpdateState) -> (DirectAddrUpdateState, Option<
    UpdateReason,
>) {
    match s.want_update {
        Some(w) => (DirectAddrUpdateState { running: Some(w), want_update: None }, Some(w)),
        None => (DirectAddrUpdateState { running: None, want_update: None }, None),
    }
}

impl DirectAddrUpdateState {
    /// Idle, with nothing wanted.
    pub fn new() -> (r: DirectAddrUpdateState)
        ensures
            r.running is None,
            r.want_update is None,
    {
        DirectAddrUpdateState { running: None, want_update: None }
    }

    /// True while an update runs.
    pub fn is_running(&self) -> (r: bool)
        ensures
            r == (self.running is Some),
    {
        self.running.is_some()
    }

    /// Schedules a run: starts it at once when none is running, else
    /// remembers it.  Returns whether a run starts now.
    pub fn schedule_run(&mut self, why: UpdateReason) -> (started: bool)
        ensures
            *final(self) == schedule_spec(*old(self), why),
            started == (old(self).running is None),
    {
        if self.running.is_some() {
            self.want_update = Some(why);
            false
        } else {
            self.running = Some(why);
            true
        }
    }

    /// Completes the running update.  If a trigger was remembered, the next
    /// run starts immediately and its reason is returned; otherwise the
    /// state goes idle.
    pub fn finish_run(&mut self) -> (next: Option<UpdateReason>)
        ensures
            *final(self) == finalize_spec(*old(self)).0,
            next == finalize_spec(*old(self)).1,
    {
        match self.want_update {
            Some(w) => {
                self.running = Some(w);
                self.want_update = None;
                Some(w)
            },
            None => {
                self.running = None;
                self.want_update = None;
                None
            },
        }
    }
}

/// Law of the single update: while an update runs, any number of further
/// triggers start nothing — the one update keeps running — and after it
/// completes exactly one coalesced run starts (with the latest reason), and
/// only one: completing that run with no new trigger starts nothing.
pub proof fn lemma_update_coalesces(s: DirectAddrUpdateState, w1: UpdateReason, w2: UpdateReason)
    requires
        s.running is Some,
    ensures
        ({
            let s1 = schedule_spec(s, w1);
            let s2 = schedule_spec(s1, w2);
            &&& s1.running == s.running
            &&& s2.running == s.running
            &&& finalize_spec(s2).1 == Some(w2)
            &&& finalize_spec(finalize_spec(s2).0).1 is None
        }),
{
}

} // verus!
