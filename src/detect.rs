use vstd::prelude::*;
use crate::probe::{label_of, label_text, ProbeOutcome, StatusLabel};
use crate::store::{stored, StatusStore};

verus! {

#[derive(Clone, Copy, Debug, PartialEq, Eq, Structural)]
pub enum EventKind {
    /// The host was probed for the first time: its baseline status.
    FirstObservation,
    /// The host's label differs from the one recorded in the round before.
    StatusChange,
}

/// A change of a host's status, as written to the event log.
#[derive(Clone, Debug)]
pub struct ChangeEvent {
    pub host: String,
    pub new_status: StatusLabel,
    pub old_status: Option<StatusLabel>,
    pub kind: EventKind,
}

/// An event as a value: host, new label, previous label, kind.
pub type EventView = (Seq<char>, StatusLabel, Option<StatusLabel>, EventKind);

impl View for ChangeEvent {
    type V = EventView;

    open spec fn view(&self) -> EventView {
        (self.host@, self.new_status, self.old_status, self.kind)
    }
}

/// The events owed when `host`, last recorded as `prev`, is now labelled `new`:
/// one first observation, one change, or none when the label is unchanged.
pub open spec fn event_for(host: Seq<char>, prev: Option<StatusLabel>, new: StatusLabel) -> Seq<
    EventView,
> {
    match prev {
        None => seq![(host, new, None, EventKind::FirstObservation)],
        Some(p) => if p == new {
            Seq::empty()
        } else {
            seq![(host, new, Some(p), EventKind::StatusChange)]
        },
    }
}

pub open spec fn event_seq(e: Option<ChangeEvent>) -> Seq<EventView> {
    match e {
        None => Seq::empty(),
        Some(ev) => seq![ev@],
    }
}

pub open spec fn host_keys(hosts: Seq<String>) -> Seq<Seq<char>> {
    hosts.map_values(|h: String| h@)
}

pub open spec fn labels_of(outcomes: Seq<ProbeOutcome>) -> Seq<StatusLabel> {
    outcomes.map_values(|o: ProbeOutcome| label_of(o))
}

pub open spec fn events_view(evs: Seq<ChangeEvent>) -> Seq<EventView> {
    evs.map_values(|e: ChangeEvent| e@)
}

/// The store after the hosts' labels are folded into `m`, in host order.
pub open spec fn round_store(
    m: Map<Seq<char>, StatusLabel>,
    hosts: Seq<Seq<char>>,
    labels: Seq<StatusLabel>,
) -> Map<Seq<char>, StatusLabel>
    decreases hosts.len(),
{
    if hosts.len() == 0 || labels.len() == 0 {
        m
    } else {
        round_store(m, hosts.drop_last(), labels.drop_last()).insert(hosts.last(), labels.last())
    }
}

/// The events of one round, in host order.
pub open spec fn round_events(
    m: Map<Seq<char>, StatusLabel>,
    hosts: Seq<Seq<char>>,
    labels: Seq<StatusLabel>,
) -> Seq<EventView>
    decreases hosts.len(),
{
    if hosts.len() == 0 || labels.len() == 0 {
        Seq::empty()
    } else {
        let before = round_store(m, hosts.drop_last(), labels.drop_last());
        round_events(m, hosts.drop_last(), labels.drop_last()) + event_for(
            hosts.last(),
            stored(before, hosts.last()),
            labels.last(),
        )
    }
}

pub open spec fn for_host(h: Seq<char>) -> spec_fn(EventView) -> bool {
    |e: EventView| e.0 == h
}

/// The events of `evs` that concern host `h`.
pub open spec fn events_of(evs: Seq<EventView>, h: Seq<char>) -> Seq<EventView> {
    evs.filter(for_host(h))
}

/// The log message of an event: "Host <host> starts as <label>" for a first
/// observation, "Host <host> turns <label>" for a change.
pub open spec fn message_text(e: EventView) -> Seq<char> {
    let verb = match e.3 {
        EventKind::FirstObservation => seq![' ', 's', 't', 'a', 'r', 't', 's', ' ', 'a', 's', ' '],
        EventKind::StatusChange => seq![' ', 't', 'u', 'r', 'n', 's', ' '],
    };
    seq!['H', 'o', 's', 't', ' '] + e.0 + verb + label_text(e.1)
}

pub open spec fn kind_text(k: EventKind) -> Seq<char> {
    match k {
        EventKind::FirstObservation => seq!['F', 'I', 'R', 'S', 'T', 'P', 'I', 'N', 'G'],
        EventKind::StatusChange => seq![
            'S', 'T', 'A', 'T', 'U', 'S', 'C', 'H', 'A', 'N', 'G', 'E',
        ],
    }
}

impl EventKind {
    /// The tag under which the kind is logged.
    pub fn tag(&self) -> (r: String)
        ensures
            r@ == kind_text(*self),
    {
        match self {
            EventKind::FirstObservation => {
                proof { reveal_strlit("FIRSTPING"); }
                "FIRSTPING".to_owned()
            },
            EventKind::StatusChange => {
                proof { reveal_strlit("STATUSCHANGE"); }
                "STATUSCHANGE".to_owned()
            },
        }
    }
}

impl ChangeEvent {
    /// The human-readable message of the event.
    pub fn message(&self) -> (r: String)
        ensures
            r@ == message_text(self@),
    {
        let mut m = "Host ".to_owned();
        proof { reveal_strlit("Host "); }
        m.append(self.host.as_str());
        match self.kind {
            EventKind::FirstObservation => {
                proof { reveal_strlit(" starts as "); }
                m.append(" starts as ");
            },
            EventKind::StatusChange => {
                proof { reveal_strlit(" turns "); }
                m.append(" turns ");
            },
        }
        let label = self.new_status.text();
        m.append(label.as_str());
        m
    }
}

/// Compares a host's new outcome with its recorded label, records the new
/// label, and returns the event that the comparison calls for, if any.
pub fn observe(store: &mut StatusStore, host: &String, outcome: ProbeOutcome) -> (r: Option<
    ChangeEvent,
>)
    requires
        old(store).wf(),
    ensures
        final(store).wf(),
        final(store)@ == old(store)@.insert(host@, label_of(outcome)),
        event_seq(r) == event_for(host@, stored(old(store)@, host@), label_of(outcome)),
{
    let label = outcome.label();
    match store.set(host, label) {
        None => Some(
            ChangeEvent {
                host: host.clone(),
                new_status: label,
                old_status: None,
                kind: EventKind::FirstObservation,
            },
        ),
        Some(prev) => {
            if prev == label {
                None
            } else {
                Some(
                    ChangeEvent {
                        host: host.clone(),
                        new_status: label,
                        old_status: Some(prev),
                        kind: EventKind::StatusChange,
                    },
                )
            }
        },
    }
}

/// Runs change detection over a completed round: one outcome for each host,
/// processed in host order.
pub fn detect_round(
    store: &mut StatusStore,
    hosts: &Vec<String>,
    outcomes: &Vec<ProbeOutcome>,
) -> (r: Vec<ChangeEvent>)
    requires
        old(store).wf(),
        hosts.len() == outcomes.len(),
    ensures
        final(store).wf(),
        final(store)@ == round_store(old(store)@, host_keys(hosts@), labels_of(outcomes@)),
        events_view(r@) == round_events(old(store)@, host_keys(hosts@), labels_of(outcomes@)),
{
    let ghost m0 = store@;
    let mut events: Vec<ChangeEvent> = Vec::new();
    let mut i: usize = 0;
    while i < hosts.len()
        invariant
            i <= hosts.len(),
            hosts.len() == outcomes.len(),
            store.wf(),
            store@ == round_store(
                m0,
                host_keys(hosts@.subrange(0, i as int)),
                labels_of(outcomes@.subrange(0, i as int)),
            ),
            events_view(events@) == round_events(
                m0,
                host_keys(hosts@.subrange(0, i as int)),
                labels_of(outcomes@.subrange(0, i as int)),
            ),
        decreases hosts.len() - i,
    {
        let ghost hs = host_keys(hosts@.subrange(0, i + 1));
        let ghost ls = labels_of(outcomes@.subrange(0, i + 1));
        assert(hs.drop_last() =~= host_keys(hosts@.subrange(0, i as int)));
        assert(ls.drop_last() =~= labels_of(outcomes@.subrange(0, i as int)));
        let ghost before = events_view(events@);
        let ev = observe(store, &hosts[i], outcomes[i]);
        match ev {
            Some(e) => {
                events.push(e);
                assert(events_view(events@) =~= before + event_seq(ev));
            },
            None => {
                assert(events_view(events@) =~= before + event_seq(ev));
            },
        }
        i = i + 1;
    }
    assert(hosts@.subrange(0, i as int) =~= hosts@);
    assert(outcomes@.subrange(0, i as int) =~= outcomes@);
    events
}

proof fn lemma_event_for_filter(
    host: Seq<char>,
    prev: Option<StatusLabel>,
    new: StatusLabel,
    h: Seq<char>,
)
    ensures
        event_for(host, prev, new).filter(for_host(h)) == (if host == h {
            event_for(host, prev, new)
        } else {
            Seq::<EventView>::empty()
        }),
{
    reveal_with_fuel(Seq::filter, 2);
    let t = event_for(host, prev, new);
    if t.len() == 1 {
        assert(t.drop_last() =~= Seq::<EventView>::empty());
    }
    if host == h {
        assert(t.filter(for_host(h)) =~= t);
    } else {
        assert(t.filter(for_host(h)) =~= Seq::<EventView>::empty());
    }
}

/// Hosts that a round does not probe keep their label and get no event.
proof fn lemma_untouched(
    m: Map<Seq<char>, StatusLabel>,
    hosts: Seq<Seq<char>>,
    labels: Seq<StatusLabel>,
    h: Seq<char>,
)
    requires
        hosts.len() == labels.len(),
        forall|j: int| 0 <= j < hosts.len() ==> hosts[j] != h,
    ensures
        stored(round_store(m, hosts, labels), h) == stored(m, h),
        events_of(round_events(m, hosts, labels), h) == Seq::<EventView>::empty(),
    decreases hosts.len(),
{
    if hosts.len() > 0 {
        let hd = hosts.drop_last();
        let ld = labels.drop_last();
        assert forall|j: int| 0 <= j < hd.len() implies hd[j] != h by {
            assert(hd[j] == hosts[j]);
        }
        lemma_untouched(m, hd, ld, h);
        let before = round_store(m, hd, ld);
        let tail = event_for(hosts.last(), stored(before, hosts.last()), labels.last());
        Seq::filter_distributes_over_add(round_events(m, hd, ld), tail, for_host(h));
        lemma_event_for_filter(hosts.last(), stored(before, hosts.last()), labels.last(), h);
        assert(round_events(m, hosts, labels).filter(for_host(h)) =~= Seq::<EventView>::empty());
    }
}

/// Over a round whose hosts are distinct, the events that concern the host
/// at position `j` are exactly those owed for its previous and new label.
pub proof fn lemma_events_of_host(
    m: Map<Seq<char>, StatusLabel>,
    hosts: Seq<Seq<char>>,
    labels: Seq<StatusLabel>,
    j: int,
)
    requires
        hosts.len() == labels.len(),
        hosts.no_duplicates(),
        0 <= j < hosts.len(),
    ensures
        events_of(round_events(m, hosts, labels), hosts[j]) == event_for(
            hosts[j],
            stored(m, hosts[j]),
            labels[j],
        ),
    decreases hosts.len(),
{
    let h = hosts[j];
    let n = hosts.len() - 1;
    let hd = hosts.drop_last();
    let ld = labels.drop_last();
    let before = round_store(m, hd, ld);
    let tail = event_for(hosts.last(), stored(before, hosts.last()), labels.last());
    Seq::filter_distributes_over_add(round_events(m, hd, ld), tail, for_host(h));
    if j == n {
        assert forall|k: int| 0 <= k < hd.len() implies hd[k] != h by {
            assert(hd[k] == hosts[k]);
        }
        lemma_untouched(m, hd, ld, h);
        lemma_event_for_filter(hosts.last(), stored(before, hosts.last()), labels.last(), h);
        assert(round_events(m, hosts, labels).filter(for_host(h)) =~= tail);
    } else {
        assert(hd.no_duplicates());
        assert(hd[j] == h);
        assert(ld[j] == labels[j]);
        lemma_events_of_host(m, hd, ld, j);
        assert(hosts[n] != h);
        lemma_event_for_filter(hosts.last(), stored(before, hosts.last()), labels.last(), h);
        assert(round_events(m, hosts, labels).filter(for_host(h)) =~= events_of(
            round_events(m, hd, ld),
            h,
        ));
    }
}

/// A host that had never been probed gets exactly one event in the round
/// that first probes it: a first observation carrying its new label.
pub proof fn lemma_first_observation(
    m: Map<Seq<char>, StatusLabel>,
    hosts: Seq<Seq<char>>,
    labels: Seq<StatusLabel>,
    j: int,
)
    requires
        hosts.len() == labels.len(),
        hosts.no_duplicates(),
        0 <= j < hosts.len(),
        !m.contains_key(hosts[j]),
    ensures
        events_of(round_events(m, hosts, labels), hosts[j]) == seq![
            (hosts[j], labels[j], None::<StatusLabel>, EventKind::FirstObservation),
        ],
{
    lemma_events_of_host(m, hosts, labels, j);
}

/// A host whose new label equals its recorded one gets no event.
pub proof fn lemma_steady_state_silent(
    m: Map<Seq<char>, StatusLabel>,
    hosts: Seq<Seq<char>>,
    labels: Seq<StatusLabel>,
    j: int,
)
    requires
        hosts.len() == labels.len(),
        hosts.no_duplicates(),
        0 <= j < hosts.len(),
        stored(m, hosts[j]) == Some(labels[j]),
    ensures
        events_of(round_events(m, hosts, labels), hosts[j]) == Seq::<EventView>::empty(),
{
    lemma_events_of_host(m, hosts, labels, j);
}

/// A host whose label turns from `was` to a different one gets exactly one
/// event: a status change from `was` to the new label.
pub proof fn lemma_status_change(
    m: Map<Seq<char>, StatusLabel>,
    hosts: Seq<Seq<char>>,
    labels: Seq<StatusLabel>,
    j: int,
    was: StatusLabel,
)
    requires
        hosts.len() == labels.len(),
        hosts.no_duplicates(),
        0 <= j < hosts.len(),
        stored(m, hosts[j]) == Some(was),
        was != labels[j],
    ensures
        events_of(round_events(m, hosts, labels), hosts[j]) == seq![
            (hosts[j], labels[j], Some(was), EventKind::StatusChange),
        ],
{
    lemma_events_of_host(m, hosts, labels, j);
}

/// After a round, every host of the round has a label in the store; with
/// distinct hosts it is the label of that round. Hosts outside the round keep
/// their label.
pub proof fn lemma_round_covers_hosts(
    m: Map<Seq<char>, StatusLabel>,
    hosts: Seq<Seq<char>>,
    labels: Seq<StatusLabel>,
)
    requires
        hosts.len() == labels.len(),
    ensures
        forall|j: int|
            0 <= j < hosts.len() ==> #[trigger] round_store(m, hosts, labels).contains_key(
                hosts[j],
            ),
        hosts.no_duplicates() ==> forall|j: int|
            0 <= j < hosts.len() ==> #[trigger] round_store(m, hosts, labels)[hosts[j]]
                == labels[j],
        forall|h: Seq<char>|
            !hosts.contains(h) ==> #[trigger] stored(round_store(m, hosts, labels), h) == stored(
                m,
                h,
            ),
    decreases hosts.len(),
{
    if hosts.len() > 0 {
        let hd = hosts.drop_last();
        let ld = labels.drop_last();
        lemma_round_covers_hosts(m, hd, ld);
        let r = round_store(m, hosts, labels);
        assert forall|j: int| 0 <= j < hosts.len() implies #[trigger] r.contains_key(hosts[j]) by {
            if j < hosts.len() - 1 {
                assert(hd[j] == hosts[j]);
            }
        }
        if hosts.no_duplicates() {
            assert(hd.no_duplicates());
            assert forall|j: int| 0 <= j < hosts.len() implies #[trigger] r[hosts[j]]
                == labels[j] by {
                if j < hosts.len() - 1 {
                    assert(hd[j] == hosts[j]);
                    assert(ld[j] == labels[j]);
                    assert(hosts[j] != hosts[hosts.len() - 1]);
                }
            }
        }
        assert forall|h: Seq<char>| !hosts.contains(h) implies #[trigger] stored(r, h) == stored(
            m,
            h,
        ) by {
            assert(hosts[hosts.len() - 1] != h);
            assert forall|k: int| 0 <= k < hd.len() implies hd[k] != h by {
                assert(hd[k] == hosts[k]);
                assert(hosts.contains(hosts[k]));
            }
            assert(!hd.contains(h));
            assert(stored(round_store(m, hd, ld), h) == stored(m, h));
        }
    }
}

} // verus!
