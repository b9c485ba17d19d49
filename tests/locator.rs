use timeline_locator::locator::{
    find_backward, search_bound, EditError, LocateRequest, LocateResult, Locator, PendingSearch,
    RequestOutcome, SearchStep,
};
use timeline_locator::timeline::{verify_result, Edit, Event, Timeline};
use timeline_locator::{next_inbound, Inbound};

fn event(id: &str) -> Event {
    Event::new(id.to_string(), format!("Message {}", id))
}

fn numbered(n: usize) -> Timeline {
    let mut items = Vec::new();
    for i in 0..n {
        items.push(Event::new(format!("event_{}", i), format!("Message {}", i)));
    }
    Timeline::from_events(items)
}

fn request(target: &str, hint_index: usize, observed_len: usize) -> LocateRequest {
    LocateRequest { target_id: target.to_string(), hint_index, observed_len }
}

fn found_index(outcome: &RequestOutcome) -> Option<usize> {
    match outcome {
        RequestOutcome::Answered(LocateResult::Found { index, .. }) => Some(*index),
        _ => None,
    }
}

#[test]
fn test_snapshot_validation_detects_changes() {
    let mut timeline = numbered(10);
    let snapshot_len = timeline.length();
    assert_eq!(snapshot_len, 10);

    assert!(timeline.apply(Edit::Append(Event::new("new".to_string(), "New".to_string()))));

    let current_len = timeline.length();
    assert_eq!(current_len, 11);
    assert_ne!(snapshot_len, current_len);
    assert_eq!(search_bound(5, snapshot_len, current_len), current_len);
}

#[test]
fn test_index_adjustment_on_prepend() {
    let mut timeline = numbered(10);
    let mut search =
        PendingSearch { target_id: "event_5".to_string(), found_index: Some(5) };
    for i in 0..2 {
        let step = search.on_edit(&Edit::Prepend(event(&format!("old_{}", i))), timeline.length());
        match step {
            SearchStep::Found(j) => search.found_index = Some(j),
            other => panic!("unexpected step {:?}", other),
        }
        timeline.apply(Edit::Prepend(event(&format!("old_{}", i))));
    }
    assert_eq!(search.found_index, Some(7));
    assert_eq!(timeline.get(7).unwrap().id, "event_5");
}

#[test]
fn test_index_adjustment_on_insert() {
    let search = PendingSearch { target_id: "t".to_string(), found_index: Some(10) };
    assert_eq!(search.on_edit(&Edit::InsertAt(5, event("x")), 20), SearchStep::Found(11));

    let search = PendingSearch { target_id: "t".to_string(), found_index: Some(11) };
    assert_eq!(search.on_edit(&Edit::InsertAt(15, event("y")), 21), SearchStep::Found(11));
}

#[test]
fn test_index_adjustment_on_remove() {
    let search = PendingSearch { target_id: "t".to_string(), found_index: Some(10) };
    assert_eq!(search.on_edit(&Edit::RemoveAt(5), 20), SearchStep::Found(9));

    let search = PendingSearch { target_id: "t".to_string(), found_index: Some(9) };
    assert_eq!(search.on_edit(&Edit::RemoveAt(15), 19), SearchStep::Found(9));
}

#[test]
fn test_full_workflow_with_concurrent_modifications() {
    let mut locator = Locator::new(numbered(10), 10);
    let snapshot_len = locator.timeline().length();

    let outcome = locator.handle_request(request("event_3", 8, snapshot_len));
    let index = found_index(&outcome).expect("event_3 is in the timeline");

    let item = locator.timeline().get(index);
    assert!(item.is_some());
    assert_eq!(item.unwrap().id, "event_3");
    assert_eq!(index, 3);
}

#[test]
fn request_found_without_edits() {
    let mut locator = Locator::new(numbered(15), 10);
    let outcome = locator.handle_request(request("event_5", 10, 15));
    match outcome {
        RequestOutcome::Answered(LocateResult::Found { target_id, index }) => {
            assert_eq!(target_id, "event_5");
            assert_eq!(index, 5);
        }
        other => panic!("unexpected outcome {:?}", other),
    }
    assert_eq!(locator.pending_count(), 0);
}

#[test]
fn stale_request_after_two_prepends() {
    let mut locator = Locator::new(numbered(15), 10);
    let observed_len = locator.timeline().length();
    assert!(locator.handle_edit(Edit::Prepend(event("old_0"))).unwrap().is_empty());
    assert!(locator.handle_edit(Edit::Prepend(event("old_1"))).unwrap().is_empty());
    assert_eq!(locator.timeline().length(), 17);

    let outcome = locator.handle_request(request("event_5", 10, observed_len));
    assert_eq!(found_index(&outcome), Some(7));
    assert_eq!(locator.timeline().get(7).unwrap().id, "event_5");
}

#[test]
fn stale_snapshot_searches_whole_timeline() {
    let mut locator = Locator::new(numbered(15), 10);
    // The hint would hide event_12, but the snapshot is stale.
    let outcome = locator.handle_request(request("event_12", 3, 14));
    assert_eq!(found_index(&outcome), Some(12));
}

#[test]
fn current_snapshot_trusts_hint_as_bound() {
    let mut locator = Locator::new(numbered(15), 10);
    let outcome = locator.handle_request(request("event_12", 3, 15));
    assert!(matches!(outcome, RequestOutcome::Waiting));
    assert_eq!(locator.pending_count(), 1);
}

#[test]
fn backward_scan_finds_nearest_below_bound() {
    let timeline = Timeline::from_events(vec![event("a"), event("b"), event("a"), event("c")]);
    assert_eq!(find_backward(&timeline, &"a".to_string(), 4), Some(2));
    assert_eq!(find_backward(&timeline, &"a".to_string(), 2), Some(0));
    assert_eq!(find_backward(&timeline, &"c".to_string(), 3), None);
    assert_eq!(find_backward(&timeline, &"a".to_string(), 0), None);
}

#[test]
fn pending_target_found_by_later_prepend() {
    let mut locator = Locator::new(numbered(15), 10);
    let outcome = locator.handle_request(request("e5", 15, 15));
    assert!(matches!(outcome, RequestOutcome::Waiting));

    let results = locator.handle_edit(Edit::Prepend(event("e5"))).unwrap();
    assert_eq!(results.len(), 1);
    match &results[0] {
        LocateResult::Found { target_id, index } => {
            assert_eq!(target_id, "e5");
            assert_eq!(*index, 0);
        }
        other => panic!("unexpected result {:?}", other),
    }
    assert_eq!(locator.timeline().get(0).unwrap().id, "e5");
    assert_eq!(locator.pending_count(), 0);
}

#[test]
fn pending_target_found_by_append_at_new_end() {
    let mut locator = Locator::new(numbered(3), 10);
    assert!(matches!(locator.handle_request(request("late", 3, 3)), RequestOutcome::Waiting));
    let results = locator.handle_edit(Edit::Append(event("late"))).unwrap();
    assert_eq!(results.len(), 1);
    match &results[0] {
        LocateResult::Found { index, .. } => {
            assert_eq!(*index, 3);
            assert_eq!(locator.timeline().get(3).unwrap().id, "late");
        }
        other => panic!("unexpected result {:?}", other),
    }
}

#[test]
fn pending_target_found_by_insert() {
    let mut locator = Locator::new(numbered(5), 10);
    assert!(matches!(locator.handle_request(request("mid", 5, 5)), RequestOutcome::Waiting));
    let results = locator.handle_edit(Edit::InsertAt(2, event("mid"))).unwrap();
    match &results[0] {
        LocateResult::Found { index, .. } => assert_eq!(*index, 2),
        other => panic!("unexpected result {:?}", other),
    }
    assert_eq!(locator.timeline().get(2).unwrap().id, "mid");
    assert_eq!(locator.timeline().get(3).unwrap().id, "event_2");
}

#[test]
fn located_search_removed_resolves_to_removed() {
    let search = PendingSearch { target_id: "e3".to_string(), found_index: Some(3) };
    assert_eq!(search.on_edit(&Edit::RemoveAt(3), 10), SearchStep::Removed);
}

#[test]
fn located_search_follows_removal_below() {
    let search = PendingSearch { target_id: "e3".to_string(), found_index: Some(10) };
    assert_eq!(search.on_edit(&Edit::RemoveAt(2), 15), SearchStep::Found(9));
}

#[test]
fn located_search_prepend_and_append() {
    let search = PendingSearch { target_id: "e3".to_string(), found_index: Some(4) };
    assert_eq!(search.on_edit(&Edit::Prepend(event("p")), 10), SearchStep::Found(5));
    assert_eq!(search.on_edit(&Edit::Append(event("q")), 10), SearchStep::Found(4));
    assert_eq!(search.on_edit(&Edit::InsertAt(4, event("r")), 10), SearchStep::Found(5));
    assert_eq!(search.on_edit(&Edit::RemoveAt(5), 10), SearchStep::Found(4));
}

#[test]
fn unrelated_edits_leave_waiting_search_alone() {
    let search = PendingSearch::new("ghost".to_string());
    assert_eq!(search.on_edit(&Edit::RemoveAt(0), 3), SearchStep::Waiting);
    assert_eq!(search.on_edit(&Edit::Append(event("other")), 3), SearchStep::Waiting);

    let mut locator = Locator::new(numbered(3), 10);
    assert!(matches!(locator.handle_request(request("ghost", 3, 3)), RequestOutcome::Waiting));
    assert!(locator.handle_edit(Edit::RemoveAt(0)).unwrap().is_empty());
    assert_eq!(locator.pending_count(), 1);
}

#[test]
fn out_of_range_edits_are_dropped() {
    let mut locator = Locator::new(numbered(3), 10);
    assert!(matches!(locator.handle_request(request("x", 3, 3)), RequestOutcome::Waiting));
    assert_eq!(locator.handle_edit(Edit::RemoveAt(3)).unwrap_err(), EditError::OutOfRange);
    assert_eq!(locator.handle_edit(Edit::InsertAt(4, event("x"))).unwrap_err(), EditError::OutOfRange);
    assert_eq!(locator.timeline().length(), 3);
    assert_eq!(locator.pending_count(), 1);
    // Inserting at the very end is in range.
    assert_eq!(locator.handle_edit(Edit::InsertAt(3, event("x"))).unwrap().len(), 1);
}

#[test]
fn duplicate_request_is_refused() {
    let mut locator = Locator::new(numbered(3), 10);
    assert!(matches!(locator.handle_request(request("x", 3, 3)), RequestOutcome::Waiting));
    assert!(matches!(locator.handle_request(request("x", 3, 3)), RequestOutcome::Duplicate));
    assert_eq!(locator.pending_count(), 1);
    let results = locator.handle_edit(Edit::Append(event("x"))).unwrap();
    assert_eq!(results.len(), 1);
}

#[test]
fn full_pending_set_is_busy() {
    let mut locator = Locator::new(numbered(3), 2);
    assert!(matches!(locator.handle_request(request("a", 3, 3)), RequestOutcome::Waiting));
    assert!(matches!(locator.handle_request(request("b", 3, 3)), RequestOutcome::Waiting));
    assert!(matches!(locator.handle_request(request("c", 3, 3)), RequestOutcome::Busy));
    // A target already in the timeline is answered even when the pending set is full.
    assert_eq!(found_index(&locator.handle_request(request("event_1", 3, 3))), Some(1));
    assert_eq!(locator.pending_count(), 2);
}

#[test]
fn cancel_drops_search_without_result() {
    let mut locator = Locator::new(numbered(3), 10);
    assert!(matches!(locator.handle_request(request("x", 3, 3)), RequestOutcome::Waiting));
    assert!(locator.cancel(&"x".to_string()));
    assert!(!locator.cancel(&"x".to_string()));
    assert!(locator.handle_edit(Edit::Append(event("x"))).unwrap().is_empty());
    assert!(locator.close().is_empty());
}

#[test]
fn close_flushes_pending_as_not_found() {
    let mut locator = Locator::new(numbered(3), 10);
    assert!(matches!(locator.handle_request(request("a", 3, 3)), RequestOutcome::Waiting));
    assert!(matches!(locator.handle_request(request("b", 3, 3)), RequestOutcome::Waiting));
    let results = locator.close();
    assert_eq!(results.len(), 2);
    assert!(matches!(&results[0], LocateResult::NotFound { target_id } if target_id == "a"));
    assert!(matches!(&results[1], LocateResult::NotFound { target_id } if target_id == "b"));
    assert_eq!(locator.pending_count(), 0);
    assert!(locator.close().is_empty());
}

#[test]
fn each_request_yields_one_result() {
    let mut locator = Locator::new(numbered(3), 10);
    assert!(matches!(locator.handle_request(request("a", 3, 3)), RequestOutcome::Waiting));
    assert!(matches!(locator.handle_request(request("b", 3, 3)), RequestOutcome::Waiting));
    let first = locator.handle_edit(Edit::Prepend(event("a"))).unwrap();
    assert_eq!(first.len(), 1);
    assert_eq!(first[0].target_id(), "a");
    // A second event with the same id no longer reports the answered request.
    assert!(locator.handle_edit(Edit::Append(event("a"))).unwrap().is_empty());
    let rest = locator.close();
    assert_eq!(rest.len(), 1);
    assert_eq!(rest[0].target_id(), "b");
}

#[test]
fn read_after_result_sees_target() {
    let mut locator = Locator::new(numbered(6), 10);
    assert!(matches!(locator.handle_request(request("z", 6, 6)), RequestOutcome::Waiting));
    let results = locator.handle_edit(Edit::InsertAt(4, event("z"))).unwrap();
    for result in &results {
        if let LocateResult::Found { target_id, index } = result {
            assert_eq!(&locator.timeline().get(*index).unwrap().id, target_id);
        }
    }
    assert_eq!(results.len(), 1);
}

#[test]
fn timeline_get_out_of_range() {
    let timeline = numbered(2);
    assert!(timeline.get(2).is_none());
    assert_eq!(timeline.get(1).unwrap().content, "Message 1");
    assert_eq!(Timeline::new().length(), 0);
}

#[test]
fn requests_before_edits() {
    assert_eq!(next_inbound(true, true), Some(Inbound::Request));
    assert_eq!(next_inbound(true, false), Some(Inbound::Request));
    assert_eq!(next_inbound(false, true), Some(Inbound::Edit));
    assert_eq!(next_inbound(false, false), None);
}

#[test]
fn verify_result_reads_back() {
    let timeline = numbered(4);
    assert!(verify_result(&timeline, 2, "event_2"));
    assert!(!verify_result(&timeline, 2, "event_3"));
    assert!(!verify_result(&timeline, 4, "event_2"));
}
