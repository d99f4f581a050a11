use trace_matcher::error::TraceError;
use trace_matcher::event::{Action, ExecTrace};
use trace_matcher::matcher::construct_parity_trace;
use trace_matcher::positioned::TraceWithPosition;

fn record(kinds: &[Action]) -> Vec<ExecTrace> {
    let mut events = Vec::new();
    for (id, kind) in kinds.iter().enumerate() {
        events.push(ExecTrace::new(*kind, id as u64));
    }
    events
}

/// Kind of entry, id of its opener or self-destruct, id of its closer,
/// descendant count and path.
fn summary(entry: &TraceWithPosition) -> (&'static str, u64, Option<u64>, usize, Vec<usize>) {
    match entry {
        TraceWithPosition::CallCreate(e) => {
            ("call_create", e.action.id, Some(e.result.id), e.child_count, e.trace_path.clone())
        }
        TraceWithPosition::Suicide(e) => {
            ("suicide", e.action.id, None, e.child_count, e.trace_path.clone())
        }
    }
}

fn listed(events: &[ExecTrace]) -> Vec<(&'static str, u64, Option<u64>, usize, Vec<usize>)> {
    let entries = construct_parity_trace(events).unwrap().collect();
    entries.iter().map(summary).collect()
}

fn fault(events: &[ExecTrace]) -> TraceError {
    match construct_parity_trace(events) {
        Ok(_) => panic!("the record was taken for well nested"),
        Err(fault) => fault,
    }
}

#[test]
fn single_call_without_children() {
    let events = record(&[Action::Call, Action::CallResult]);
    assert_eq!(listed(&events), vec![("call_create", 0, Some(1), 0, vec![])]);
}

#[test]
fn single_create_without_children() {
    let events = record(&[Action::Create, Action::CreateResult]);
    assert_eq!(listed(&events), vec![("call_create", 0, Some(1), 0, vec![])]);
}

#[test]
fn create_nested_in_call() {
    let events =
        record(&[Action::Call, Action::Create, Action::CreateResult, Action::CallResult]);
    assert_eq!(
        listed(&events),
        vec![("call_create", 0, Some(3), 1, vec![]), ("call_create", 1, Some(2), 0, vec![0])]
    );
}

#[test]
fn self_destruct_inside_call() {
    let events = record(&[Action::Call, Action::SelfDestruct, Action::CallResult]);
    assert_eq!(
        listed(&events),
        vec![("call_create", 0, Some(2), 1, vec![]), ("suicide", 1, None, 0, vec![0])]
    );
}

#[test]
fn bookkeeping_events_alone_give_nothing() {
    let events = record(&[
        Action::InternalTransferAction,
        Action::SetAuth,
        Action::InternalTransferAction,
    ]);
    assert!(listed(&events).is_empty());
}

#[test]
fn empty_record_gives_nothing() {
    assert!(listed(&[]).is_empty());
}

#[test]
fn result_alone_is_orphaned() {
    let events = record(&[Action::CallResult]);
    assert_eq!(fault(&events), TraceError::OrphanedResult { result: events[0] });
}

#[test]
fn create_result_alone_is_orphaned() {
    let events = record(&[Action::SetAuth, Action::CreateResult]);
    assert_eq!(fault(&events), TraceError::OrphanedResult { result: events[1] });
}

#[test]
fn second_root_is_trailing() {
    let events = record(&[Action::Call, Action::CallResult, Action::Call, Action::CallResult]);
    assert_eq!(fault(&events), TraceError::TrailingTraces { trace: events[2] });
}

#[test]
fn self_destruct_after_root_is_trailing() {
    let events = record(&[Action::Call, Action::CallResult, Action::SelfDestruct]);
    assert_eq!(fault(&events), TraceError::TrailingTraces { trace: events[2] });
}

#[test]
fn result_after_root_is_trailing() {
    let events = record(&[Action::Create, Action::CreateResult, Action::CallResult]);
    assert_eq!(fault(&events), TraceError::TrailingTraces { trace: events[2] });
}

#[test]
fn first_traceable_event_after_root_is_the_trailing_one() {
    let events = record(&[
        Action::Call,
        Action::CallResult,
        Action::InternalTransferAction,
        Action::Create,
        Action::SelfDestruct,
    ]);
    assert_eq!(fault(&events), TraceError::TrailingTraces { trace: events[3] });
}

#[test]
fn bookkeeping_after_root_is_no_fault() {
    let events = record(&[
        Action::Call,
        Action::CallResult,
        Action::InternalTransferAction,
        Action::SetAuth,
    ]);
    assert_eq!(listed(&events), vec![("call_create", 0, Some(1), 0, vec![])]);
}

#[test]
fn call_alone_is_incomplete() {
    let events = record(&[Action::Call]);
    assert_eq!(fault(&events), TraceError::IncompleteTrace);
}

#[test]
fn open_inner_frame_is_incomplete() {
    let events = record(&[Action::Call, Action::Create, Action::CreateResult, Action::Call]);
    assert_eq!(fault(&events), TraceError::IncompleteTrace);
}

#[test]
fn self_destruct_alone_has_no_parent() {
    let events = record(&[Action::SelfDestruct]);
    assert_eq!(fault(&events), TraceError::OrphanSelfDestruct);
}

#[test]
fn self_destruct_before_first_call_has_no_parent() {
    let events = record(&[Action::SetAuth, Action::SelfDestruct, Action::Call, Action::CallResult]);
    assert_eq!(fault(&events), TraceError::OrphanSelfDestruct);
}

#[test]
fn call_closed_by_create_result_is_mismatch() {
    let events = record(&[Action::Call, Action::CreateResult]);
    assert_eq!(fault(&events), TraceError::TypeMismatch { action: events[0], result: events[1] });
}

#[test]
fn create_closed_by_call_result_is_mismatch() {
    let events = record(&[Action::Create, Action::CallResult]);
    assert_eq!(fault(&events), TraceError::TypeMismatch { action: events[0], result: events[1] });
}

#[test]
fn mismatch_in_inner_frame_names_the_inner_opener() {
    let events = record(&[Action::Call, Action::Create, Action::CallResult, Action::CallResult]);
    assert_eq!(fault(&events), TraceError::TypeMismatch { action: events[1], result: events[2] });
}

#[test]
fn first_fault_wins() {
    let events = record(&[Action::Call, Action::CreateResult, Action::SelfDestruct]);
    assert_eq!(fault(&events), TraceError::TypeMismatch { action: events[0], result: events[1] });
}

#[test]
fn bookkeeping_between_events_is_passed_over() {
    let events = record(&[
        Action::InternalTransferAction,
        Action::Call,
        Action::SetAuth,
        Action::SelfDestruct,
        Action::InternalTransferAction,
        Action::CallResult,
    ]);
    assert_eq!(
        listed(&events),
        vec![("call_create", 1, Some(5), 1, vec![]), ("suicide", 3, None, 0, vec![0])]
    );
}

/// call(0) { create(1) { suicide(2) call(3){} } suicide(6) call(7) { call(8){} } }
fn busy_record() -> Vec<ExecTrace> {
    record(&[
        Action::Call,
        Action::Create,
        Action::SelfDestruct,
        Action::Call,
        Action::CallResult,
        Action::CreateResult,
        Action::SelfDestruct,
        Action::Call,
        Action::Call,
        Action::CallResult,
        Action::CallResult,
        Action::CallResult,
    ])
}

#[test]
fn siblings_share_one_numbering() {
    assert_eq!(
        listed(&busy_record()),
        vec![
            ("call_create", 0, Some(11), 6, vec![]),
            ("call_create", 1, Some(5), 2, vec![0]),
            ("suicide", 2, None, 0, vec![0, 0]),
            ("call_create", 3, Some(4), 0, vec![0, 1]),
            ("suicide", 6, None, 0, vec![1]),
            ("call_create", 7, Some(10), 1, vec![2]),
            ("call_create", 8, Some(9), 0, vec![2, 0]),
        ]
    );
}

#[test]
fn listing_is_as_long_as_the_record_has_openers_and_self_destructs() {
    let events = busy_record();
    let nodes = events
        .iter()
        .filter(|e| matches!(e.action, Action::Call | Action::Create | Action::SelfDestruct))
        .count();
    assert_eq!(nodes, 7);
    assert_eq!(listed(&events).len(), nodes);
}

#[test]
fn entries_follow_the_order_of_the_record() {
    let events = busy_record();
    let made: Vec<u64> = events
        .iter()
        .filter(|e| matches!(e.action, Action::Call | Action::Create | Action::SelfDestruct))
        .map(|e| e.id)
        .collect();
    let entries: Vec<u64> = listed(&events).iter().map(|entry| entry.1).collect();
    assert_eq!(entries, made);
}

#[test]
fn descendant_count_is_the_number_of_longer_paths() {
    let entries = listed(&busy_record());
    for entry in entries.iter() {
        let beneath = entries
            .iter()
            .filter(|other| other.4.len() > entry.4.len() && other.4.starts_with(&entry.4))
            .count();
        assert_eq!(entry.3, beneath);
    }
}

#[test]
fn entries_borrow_the_events_of_the_record() {
    let events = busy_record();
    let entries = construct_parity_trace(&events).unwrap().collect();
    match &entries[1] {
        TraceWithPosition::CallCreate(entry) => {
            assert!(std::ptr::eq(entry.action, &events[1]));
            assert!(std::ptr::eq(entry.result, &events[5]));
        }
        TraceWithPosition::Suicide(_) => panic!("the second entry is a frame"),
    }
    match &entries[4] {
        TraceWithPosition::Suicide(entry) => assert!(std::ptr::eq(entry.action, &events[6])),
        TraceWithPosition::CallCreate(_) => panic!("the fifth entry is a self-destruct"),
    }
}

#[test]
fn deep_nesting_gives_a_chain_of_paths() {
    let depth: usize = 200;
    let mut kinds = Vec::new();
    for _ in 0..depth {
        kinds.push(Action::Call);
    }
    for _ in 0..depth {
        kinds.push(Action::CallResult);
    }
    let entries = listed(&record(&kinds));
    assert_eq!(entries.len(), depth);
    for (level, entry) in entries.iter().enumerate() {
        assert_eq!(entry.1, level as u64);
        assert_eq!(entry.2, Some((2 * depth - 1 - level) as u64));
        assert_eq!(entry.3, depth - 1 - level);
        assert_eq!(entry.4, vec![0; level]);
    }
}
