use hume_editor::buffer_store::BufferId;
use hume_editor::parse_worker::{
    coalesce_one, language_changed, make_done, ParseOutcome, ParseRequest, ParseTracker,
};
use std::collections::HashMap;

fn request(bid: u64, text_gen: u64, lang: u64, source: &[u8]) -> ParseRequest {
    ParseRequest { bid: BufferId(bid), text_gen, lang, source_bytes: source.to_vec() }
}

#[test]
fn coalesce_one_keeps_higher_gen() {
    let bid = 1;
    let lang = 5;
    let mut batch: HashMap<u64, ParseRequest> = HashMap::new();

    // Gen 2 lands first.
    coalesce_one(&mut batch, request(bid, 2, lang, b"22"));
    // Gen 1 must not overwrite gen 2.
    coalesce_one(&mut batch, request(bid, 1, lang, b"1"));
    assert_eq!(batch[&bid].text_gen, 2, "lower-gen request must not overwrite");
    assert_eq!(batch[&bid].source_bytes, b"22", "source must match the winning gen");

    // Gen 3 must overwrite gen 2.
    coalesce_one(&mut batch, request(bid, 3, lang, b"333"));
    assert_eq!(batch[&bid].text_gen, 3, "higher-gen request must win");
    assert_eq!(batch[&bid].source_bytes, b"333");

    // Equal gen must not overwrite (no-op).
    coalesce_one(&mut batch, request(bid, 3, lang, b"REPLACED"));
    assert_eq!(batch[&bid].source_bytes, b"333", "equal-gen request must be dropped");
}

#[test]
fn coalesce_keeps_buffers_apart() {
    let mut batch: HashMap<u64, ParseRequest> = HashMap::new();
    coalesce_one(&mut batch, request(1, 4, 5, b"a"));
    coalesce_one(&mut batch, request(2, 1, 5, b"b"));
    assert_eq!(batch.len(), 2);
    assert_eq!(batch[&1].text_gen, 4);
    assert_eq!(batch[&2].text_gen, 1);
}

#[test]
fn requests_are_in_flight_until_answered() {
    let mut t = ParseTracker::new();
    let r = request(1, 4, 5, b"a");
    t.post(&r, true);
    assert!(t.has_in_flight());
    assert!(t.is_in_flight(BufferId(1), 4));
    assert!(!t.is_in_flight(BufferId(1), 3));
    let done = make_done(&r, ParseOutcome::Parsed);
    assert_eq!(done.text_gen, 4);
    // An answer for an older text does not count.
    t.clear_in_flight_if_matches(BufferId(1), 3, 5);
    assert!(t.is_in_flight(BufferId(1), 4));
    // Nor does one with another grammar.
    t.clear_in_flight_if_matches(BufferId(1), 4, 6);
    assert!(t.is_in_flight(BufferId(1), 4));
    t.clear_in_flight_if_matches(BufferId(1), 4, 5);
    assert!(!t.has_in_flight());
}

#[test]
fn a_lost_worker_owes_nothing() {
    let mut t = ParseTracker::new();
    t.post(&request(1, 4, 5, b"a"), true);
    t.post(&request(2, 4, 5, b"a"), false);
    assert!(t.is_disconnected());
    assert!(!t.has_in_flight());
    t.post(&request(3, 4, 5, b"a"), true);
    assert!(!t.has_in_flight());
    assert!(!t.is_disconnect_logged());
    t.mark_disconnect_logged();
    assert!(t.is_disconnect_logged());
}

#[test]
fn removed_requests_are_not_waited_for() {
    let mut t = ParseTracker::new();
    t.post(&request(1, 4, 5, b"a"), true);
    t.remove_in_flight(BufferId(1));
    assert!(!t.is_in_flight(BufferId(1), 4));
}

#[test]
fn parser_is_set_to_another_language_only_when_it_changes() {
    assert!(language_changed(None, 3));
    assert!(language_changed(Some(2), 3));
    assert!(!language_changed(Some(3), 3));
}
