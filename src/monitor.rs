use vstd::prelude::*;
use crate::detect::{detect_round, events_view, host_keys, labels_of, round_events, round_store, ChangeEvent};
use crate::probe::{collect_round, round_outcomes, ProbeOutcome, StatusLabel};
use crate::store::{stored, StatusStore};

verus! {

/// Where the poll loop stands: before the first round has been processed,
/// or in the steady repetition of rounds that follows it.
#[derive(Clone, Copy, Debug, PartialEq, Eq, Structural)]
pub enum Phase {
    Initial,
    Steady,
}

/// What the driver has to do after a round was processed.
#[derive(Clone, Debug)]
pub struct RoundReport {
    /// The events to write, in host order.
    pub events: Vec<ChangeEvent>,
    /// Readiness is signalled once, after the first round.
    pub notify_ready: bool,
}

/// The state of the poll loop: the fixed host list, the status store and
/// the phase.
pub struct Monitor {
    hosts: Vec<String>,
    store: StatusStore,
    phase: Phase,
}

impl Monitor {
    pub closed spec fn wf(&self) -> bool {
        self.store.wf()
    }

    pub closed spec fn host_list(&self) -> Seq<String> {
        self.hosts@
    }

    /// The recorded label of each host probed so far.
    pub closed spec fn statuses(&self) -> Map<Seq<char>, StatusLabel> {
        self.store@
    }

    pub closed spec fn spec_phase(&self) -> Phase {
        self.phase
    }

    pub fn new(hosts: Vec<String>) -> (r: Self)
        ensures
            r.wf(),
            r.host_list() == hosts@,
            r.statuses() == Map::<Seq<char>, StatusLabel>::empty(),
            r.spec_phase() == Phase::Initial,
    {
        Monitor { hosts, store: StatusStore::new(), phase: Phase::Initial }
    }

    pub fn hosts(&self) -> (r: &Vec<String>)
        ensures
            r@ == self.host_list(),
    {
        &self.hosts
    }

    pub fn phase(&self) -> (r: Phase)
        ensures
            r == self.spec_phase(),
    {
        self.phase
    }

    /// The label recorded for `host`, if it has been probed.
    pub fn status(&self, host: &String) -> (r: Option<StatusLabel>)
        requires
            self.wf(),
        ensures
            r == stored(self.statuses(), host@),
    {
        self.store.get(host)
    }

    /// Whether the loop sleeps for the poll interval before its next round:
    /// the first round starts at once, every later one after a pause.
    pub fn sleeps_before_round(&self) -> (r: bool)
        ensures
            r == (self.spec_phase() == Phase::Steady),
    {
        match self.phase {
            Phase::Initial => false,
            Phase::Steady => true,
        }
    }

    /// Processes a round once every host's probe unit has been joined:
    /// `joined` holds, in host order, each unit's outcome or `None` where the
    /// unit aborted. Records the labels, returns the events, and asks for the
    /// readiness signal after the first round.
    pub fn complete_round(&mut self, joined: Vec<Option<ProbeOutcome>>) -> (r: RoundReport)
        requires
            old(self).wf(),
            joined@.len() == old(self).host_list().len(),
        ensures
            final(self).wf(),
            final(self).host_list() == old(self).host_list(),
            final(self).spec_phase() == Phase::Steady,
            r.notify_ready == (old(self).spec_phase() == Phase::Initial),
            final(self).statuses() == round_store(
                old(self).statuses(),
                host_keys(old(self).host_list()),
                labels_of(round_outcomes(joined@)),
            ),
            events_view(r.events@) == round_events(
                old(self).statuses(),
                host_keys(old(self).host_list()),
                labels_of(round_outcomes(joined@)),
            ),
    {
        let outcomes = collect_round(&joined);
        let events = detect_round(&mut self.store, &self.hosts, &outcomes);
        let notify_ready = match self.phase {
            Phase::Initial => true,
            Phase::Steady => false,
        };
        self.phase = Phase::Steady;
        RoundReport { events, notify_ready }
    }
}

} // verus!
