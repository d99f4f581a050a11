use trace_matcher::error::TraceError;
use trace_matcher::event::{Action, ExecTrace};
use trace_matcher::matcher::{build_call_hierarchy, construct_parity_trace};
use trace_matcher::positioned::TraceWithPosition;

fn events_of(kinds: &[Action]) -> Vec<ExecTrace> {
    kinds.iter().enumerate().map(|(id, kind)| ExecTrace::new(*kind, id as u64)).collect()
}

fn brief(entry: &TraceWithPosition) -> (u64, usize, Vec<usize>) {
    match entry {
        TraceWithPosition::CallCreate(e) => (e.action.id, e.child_count, e.trace_path.clone()),
        TraceWithPosition::Suicide(e) => (e.action.id, e.child_count, e.trace_path.clone()),
    }
}

/// call(0) { suicide(1) create(2) { suicide(3) } call(5) {} }
fn family() -> Vec<ExecTrace> {
    events_of(&[
        Action::Call,
        Action::SelfDestruct,
        Action::Create,
        Action::SelfDestruct,
        Action::CreateResult,
        Action::Call,
        Action::CallResult,
        Action::CallResult,
    ])
}

#[test]
fn builder_reports_incomplete_for_bookkeeping_alone() {
    let events = events_of(&[Action::SetAuth]);
    assert_eq!(build_call_hierarchy(&events).err(), Some(TraceError::IncompleteTrace));
}

#[test]
fn builder_reports_incomplete_for_empty_record() {
    assert_eq!(build_call_hierarchy(&[]).err(), Some(TraceError::IncompleteTrace));
}

#[test]
fn builder_gives_no_tree_for_a_faulty_record() {
    let events = events_of(&[Action::Call, Action::Call, Action::CallResult, Action::CreateResult]);
    assert_eq!(
        build_call_hierarchy(&events).err(),
        Some(TraceError::TypeMismatch { action: events[0], result: events[3] })
    );
}

#[test]
fn listing_starts_at_the_given_path() {
    let events = family();
    let root = build_call_hierarchy(&events).unwrap();
    let entries: Vec<_> =
        root.flatten_into_traces(vec![4, 2]).collect().iter().map(brief).collect();
    assert_eq!(
        entries,
        vec![
            (0, 4, vec![4, 2]),
            (1, 0, vec![4, 2, 0]),
            (2, 1, vec![4, 2, 1]),
            (3, 0, vec![4, 2, 1, 0]),
            (5, 0, vec![4, 2, 2]),
        ]
    );
}

#[test]
fn listing_again_gives_the_same_entries() {
    let events = family();
    let first: Vec<_> = build_call_hierarchy(&events)
        .unwrap()
        .flatten_into_traces(vec![7])
        .collect()
        .iter()
        .map(brief)
        .collect();
    let second: Vec<_> = build_call_hierarchy(&events)
        .unwrap()
        .flatten_into_traces(vec![7])
        .collect()
        .iter()
        .map(brief)
        .collect();
    assert_eq!(first.len(), 5);
    assert_eq!(first, second);
}

#[test]
fn driver_lists_from_the_empty_path() {
    let events = family();
    let by_driver: Vec<_> =
        construct_parity_trace(&events).unwrap().collect().iter().map(brief).collect();
    let by_hand: Vec<_> = build_call_hierarchy(&events)
        .unwrap()
        .flatten_into_traces(Vec::new())
        .collect()
        .iter()
        .map(brief)
        .collect();
    assert_eq!(by_driver, by_hand);
    assert_eq!(by_driver[0], (0, 4, vec![]));
}

#[test]
fn children_stand_in_order_each_in_one_piece() {
    let events = family();
    let entries: Vec<_> =
        construct_parity_trace(&events).unwrap().collect().iter().map(brief).collect();
    let first_segments: Vec<usize> = entries[1..].iter().map(|entry| entry.2[0]).collect();
    assert_eq!(first_segments, vec![0, 1, 1, 2]);
}

#[test]
fn entries_come_one_at_a_time() {
    let events = family();
    let mut cursor = construct_parity_trace(&events).unwrap();
    assert_eq!(cursor.next().as_ref().map(brief), Some((0, 4, vec![])));
    assert_eq!(cursor.next().as_ref().map(brief), Some((1, 0, vec![0])));
    assert_eq!(cursor.next().as_ref().map(brief), Some((2, 1, vec![1])));
    assert_eq!(cursor.next().as_ref().map(brief), Some((3, 0, vec![1, 0])));
    assert_eq!(cursor.next().as_ref().map(brief), Some((5, 0, vec![2])));
    assert!(cursor.next().is_none());
    assert!(cursor.next().is_none());
}

#[test]
fn listing_may_be_left_early() {
    let events = family();
    let mut cursor = construct_parity_trace(&events).unwrap();
    let first = cursor.next().unwrap();
    let second = cursor.next().unwrap();
    drop(cursor);
    assert_eq!(brief(&first), (0, 4, vec![]));
    assert_eq!(brief(&second), (1, 0, vec![0]));
}

#[test]
fn collect_takes_up_where_next_left_off() {
    let events = family();
    let mut cursor = construct_parity_trace(&events).unwrap();
    cursor.next();
    cursor.next();
    let rest: Vec<_> = cursor.collect().iter().map(brief).collect();
    assert_eq!(rest, vec![(2, 1, vec![1]), (3, 0, vec![1, 0]), (5, 0, vec![2])]);
}

#[test]
fn listing_of_bookkeeping_alone_has_no_first_entry() {
    let events = events_of(&[Action::InternalTransferAction]);
    let mut cursor = construct_parity_trace(&events).unwrap();
    assert!(cursor.next().is_none());
}

#[test]
fn many_siblings_are_numbered_in_order() {
    let mut kinds = vec![Action::Create];
    for _ in 0..50 {
        kinds.push(Action::SelfDestruct);
        kinds.push(Action::Call);
        kinds.push(Action::CallResult);
    }
    kinds.push(Action::CreateResult);
    let events = events_of(&kinds);
    let entries: Vec<_> =
        construct_parity_trace(&events).unwrap().collect().iter().map(brief).collect();
    assert_eq!(entries.len(), 101);
    assert_eq!(entries[0], (0, 100, vec![]));
    for (index, entry) in entries[1..].iter().enumerate() {
        assert_eq!(entry.1, 0);
        assert_eq!(entry.2, vec![index]);
    }
}
