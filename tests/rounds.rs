use pingmon::detect::{detect_round, observe, ChangeEvent, EventKind};
use pingmon::monitor::{Monitor, Phase};
use pingmon::probe::{classify, collect_round, ProbeOutcome, ProbeReport, StatusLabel};
use pingmon::store::StatusStore;

fn hosts(names: &[&str]) -> Vec<String> {
    names.iter().map(|h| h.to_string()).collect()
}

fn summary(events: &[ChangeEvent]) -> Vec<(String, StatusLabel, Option<StatusLabel>, EventKind)> {
    events
        .iter()
        .map(|e| (e.host.clone(), e.new_status, e.old_status, e.kind))
        .collect()
}

#[test]
fn two_hosts_over_three_rounds() {
    let mut m = Monitor::new(hosts(&["A", "B"]));
    let r1 = m.complete_round(vec![Some(ProbeOutcome::Reachable), Some(ProbeOutcome::Unreachable)]);
    assert_eq!(
        summary(&r1.events),
        vec![
            ("A".to_string(), StatusLabel::Up, None, EventKind::FirstObservation),
            ("B".to_string(), StatusLabel::Down, None, EventKind::FirstObservation),
        ]
    );
    assert_eq!(m.status(&"A".to_string()), Some(StatusLabel::Up));
    assert_eq!(m.status(&"B".to_string()), Some(StatusLabel::Down));

    let r2 = m.complete_round(vec![Some(ProbeOutcome::Reachable), Some(ProbeOutcome::Reachable)]);
    assert_eq!(
        summary(&r2.events),
        vec![("B".to_string(), StatusLabel::Up, Some(StatusLabel::Down), EventKind::StatusChange)]
    );
    assert_eq!(m.status(&"A".to_string()), Some(StatusLabel::Up));
    assert_eq!(m.status(&"B".to_string()), Some(StatusLabel::Up));

    let r3 = m.complete_round(vec![Some(ProbeOutcome::Reachable), Some(ProbeOutcome::Reachable)]);
    assert!(r3.events.is_empty());
}

#[test]
fn resolver_failure_is_distinct_and_recovers() {
    let unresolved = classify(Some(ProbeReport { success: false, code: Some(2) }));
    assert_eq!(unresolved, ProbeOutcome::Unresolvable);
    let mut m = Monitor::new(hosts(&["nowhere.invalid"]));
    let r1 = m.complete_round(vec![Some(unresolved)]);
    assert_eq!(m.status(&"nowhere.invalid".to_string()), Some(StatusLabel::Unresolvable));
    assert_ne!(StatusLabel::Unresolvable, StatusLabel::Down);
    assert_eq!(r1.events[0].new_status.text(), "UNRESOLVABLE");

    let up = classify(Some(ProbeReport { success: true, code: Some(0) }));
    let r2 = m.complete_round(vec![Some(up)]);
    assert_eq!(
        summary(&r2.events),
        vec![(
            "nowhere.invalid".to_string(),
            StatusLabel::Up,
            Some(StatusLabel::Unresolvable),
            EventKind::StatusChange
        )]
    );
}

#[test]
fn classification_of_reports() {
    assert_eq!(classify(None), ProbeOutcome::ProbeFailed);
    assert_eq!(classify(Some(ProbeReport { success: true, code: Some(0) })), ProbeOutcome::Reachable);
    assert_eq!(classify(Some(ProbeReport { success: false, code: Some(1) })), ProbeOutcome::Unreachable);
    assert_eq!(classify(Some(ProbeReport { success: false, code: None })), ProbeOutcome::Unreachable);
    assert_eq!(classify(Some(ProbeReport { success: false, code: Some(2) })), ProbeOutcome::Unresolvable);
}

#[test]
fn labels_and_texts() {
    assert_eq!(ProbeOutcome::Reachable.label().text(), "UP");
    assert_eq!(ProbeOutcome::Unreachable.label().text(), "DOWN");
    assert_eq!(ProbeOutcome::Unresolvable.label().text(), "UNRESOLVABLE");
    assert_eq!(ProbeOutcome::ProbeFailed.label().text(), "THREAD_ERROR");
    assert_eq!(EventKind::FirstObservation.tag(), "FIRSTPING");
    assert_eq!(EventKind::StatusChange.tag(), "STATUSCHANGE");
}

#[test]
fn launch_failure_touches_one_host_only() {
    let joined = vec![Some(ProbeOutcome::Reachable), None, Some(ProbeOutcome::Unresolvable)];
    assert_eq!(
        collect_round(&joined),
        vec![ProbeOutcome::Reachable, ProbeOutcome::ProbeFailed, ProbeOutcome::Unresolvable]
    );
    let mut m = Monitor::new(hosts(&["a", "b", "c"]));
    m.complete_round(joined);
    assert_eq!(m.status(&"a".to_string()), Some(StatusLabel::Up));
    assert_eq!(m.status(&"b".to_string()), Some(StatusLabel::ThreadError));
    assert_eq!(m.status(&"c".to_string()), Some(StatusLabel::Unresolvable));
}

#[test]
fn every_host_recorded_after_round() {
    let mut m = Monitor::new(hosts(&["x", "y", "z"]));
    assert_eq!(m.status(&"x".to_string()), None);
    let r = m.complete_round(vec![None, Some(ProbeOutcome::Unreachable), Some(ProbeOutcome::Reachable)]);
    assert_eq!(r.events.len(), 3);
    for h in ["x", "y", "z"] {
        assert!(m.status(&h.to_string()).is_some());
    }
    assert!(r.events.iter().all(|e| e.kind == EventKind::FirstObservation));
}

#[test]
fn readiness_once_and_sleep_after_first_round() {
    let mut m = Monitor::new(hosts(&["h"]));
    assert_eq!(m.phase(), Phase::Initial);
    assert!(!m.sleeps_before_round());
    let r1 = m.complete_round(vec![Some(ProbeOutcome::Reachable)]);
    assert!(r1.notify_ready);
    assert_eq!(m.phase(), Phase::Steady);
    assert!(m.sleeps_before_round());
    let r2 = m.complete_round(vec![Some(ProbeOutcome::Unreachable)]);
    assert!(!r2.notify_ready);
    assert_eq!(m.hosts(), &hosts(&["h"]));
}

#[test]
fn empty_host_list_round() {
    let mut m = Monitor::new(Vec::new());
    let r = m.complete_round(Vec::new());
    assert!(r.events.is_empty());
    assert!(r.notify_ready);
}

#[test]
fn duplicate_host_in_one_round() {
    let mut store = StatusStore::new();
    let hs = hosts(&["d", "d"]);
    let ev = detect_round(&mut store, &hs, &vec![ProbeOutcome::Reachable, ProbeOutcome::Unreachable]);
    assert_eq!(
        summary(&ev),
        vec![
            ("d".to_string(), StatusLabel::Up, None, EventKind::FirstObservation),
            ("d".to_string(), StatusLabel::Down, Some(StatusLabel::Up), EventKind::StatusChange),
        ]
    );
    assert_eq!(store.len(), 1);
    assert_eq!(store.get(&"d".to_string()), Some(StatusLabel::Down));
}

#[test]
fn store_set_returns_previous() {
    let mut store = StatusStore::new();
    let k = "host".to_string();
    assert_eq!(store.len(), 0);
    assert_eq!(store.set(&k, StatusLabel::Down), None);
    assert_eq!(store.set(&k, StatusLabel::Up), Some(StatusLabel::Down));
    assert_eq!(store.get(&k), Some(StatusLabel::Up));
    assert_eq!(store.get(&"other".to_string()), None);
    assert_eq!(store.len(), 1);
}

#[test]
fn observe_same_label_is_silent() {
    let mut store = StatusStore::new();
    let k = "s".to_string();
    assert!(observe(&mut store, &k, ProbeOutcome::Unreachable).is_some());
    assert!(observe(&mut store, &k, ProbeOutcome::Unreachable).is_none());
    let e = observe(&mut store, &k, ProbeOutcome::ProbeFailed).unwrap();
    assert_eq!(e.old_status, Some(StatusLabel::Down));
    assert_eq!(e.new_status, StatusLabel::ThreadError);
}

#[test]
fn event_messages() {
    let mut store = StatusStore::new();
    let k = "gw".to_string();
    let first = observe(&mut store, &k, ProbeOutcome::Reachable).unwrap();
    assert_eq!(first.message(), "Host gw starts as UP");
    let change = observe(&mut store, &k, ProbeOutcome::Unreachable).unwrap();
    assert_eq!(change.message(), "Host gw turns DOWN");
}
