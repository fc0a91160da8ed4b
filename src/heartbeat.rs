//! The heartbeat monitor's decisions. Each period the monitor takes a
//! snapshot of the registry to probe; when the outcomes are in, it evicts
//! the entries that failed and hands back their removal events.

use vstd::prelude::*;
use crate::registry::{
    ChangeEvent, Entry, EntryView, Registry, event_view, failed, removal_event, retained, taken,
    views_of,
};

verus! {

/// Waiting for the next period, or waiting for the outcomes of probing a
/// snapshot.
pub struct Heartbeat {
    probing: Option<Vec<Entry>>,
}

impl Heartbeat {
    /// The snapshot being probed, if any.
    pub closed spec fn pending(&self) -> Option<Seq<EntryView>> {
        match self.probing {
            Some(v) => Some(views_of(v@)),
            None => None,
        }
    }

    /// Whether the monitor waits for exactly `n` probe outcomes.
    pub open spec fn awaits(&self, n: nat) -> bool {
        self.pending() is Some && self.pending().unwrap().len() == n
    }

    /// A sleeping monitor.
    pub fn new() -> (r: Heartbeat)
        ensures
            r.pending() is None,
    {
        Heartbeat { probing: None }
    }

    /// Whether the monitor is waiting for probe outcomes.
    pub fn is_probing(&self) -> (r: bool)
        ensures
            r == self.pending() is Some,
    {
        self.probing.is_some()
    }

    /// The period elapsed: takes a snapshot of `registry` to probe. A
    /// snapshot still being probed is replaced.
    pub fn tick(&mut self, registry: &Registry)
        ensures
            final(self).pending() == Some(registry@),
    {
        self.probing = Some(registry.snapshot());
    }

    /// The entries to probe, in order, while the monitor waits for outcomes.
    pub fn targets(&self) -> (r: Option<&Vec<Entry>>)
        ensures
            r is Some <==> self.pending() is Some,
            r matches Some(v) ==> views_of(v@) == self.pending().unwrap(),
    {
        match &self.probing {
            Some(v) => Some(v),
            None => None,
        }
    }

    /// The probe outcomes arrived, `reachable[i]` for the `i`-th entry of
    /// the snapshot. Evicts the failed entries and returns their removal
    /// events. Outcomes that do not match the snapshot in number, or that
    /// arrive while sleeping, change nothing. Either way the monitor goes
    /// back to sleep.
    pub fn probed(&mut self, registry: &mut Registry, reachable: &Vec<bool>) -> (r: Vec<ChangeEvent>)
        requires
            old(registry).wf(),
        ensures
            final(self).pending() is None,
            final(registry).wf(),
            old(self).awaits(reachable@.len()) ==> {
                &&& final(registry)@ == retained(old(registry)@, failed(old(self).pending().unwrap(), reachable@))
                &&& r@.len() == taken(old(registry)@, failed(old(self).pending().unwrap(), reachable@)).len()
                &&& forall|i: int| 0 <= i < r@.len() ==> event_view(#[trigger] r@[i]) == removal_event(
                    taken(old(registry)@, failed(old(self).pending().unwrap(), reachable@))[i],
                )
            },
            !old(self).awaits(reachable@.len()) ==> {
                &&& final(registry)@ == old(registry)@
                &&& r@.len() == 0
            },
    {
        let current = self.probing.take();
        match current {
            Some(snap) => {
                proof {
                    assert(views_of(snap@).len() == snap@.len());
                }
                if snap.len() == reachable.len() {
                    registry.evict_unreachable(&snap, reachable)
                } else {
                    Vec::new()
                }
            },
            None => Vec::new(),
        }
    }
}

} // verus!
