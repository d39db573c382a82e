use giantd::events::TrafficRecord;
use giantd::traffic::{CaptureState, TrafficBuffer};

fn make_record(id: u64) -> TrafficRecord {
    TrafficRecord {
        id,
        timestamp: format!("00:00:00.{:03}", id),
        method: "GET".to_string(),
        url: format!("https://example.com/{}", id),
        status: 200,
        duration_ms: 10,
        rule_id: None,
        request_headers: vec![],
        response_headers: vec![],
    }
}

#[test]
fn new_buffer_is_empty() {
    let buf = TrafficBuffer::new(10);
    assert!(buf.list().is_empty());
    assert!(buf.get(1).is_none());
}

#[test]
fn push_and_list_returns_entry() {
    let mut buf = TrafficBuffer::new(10);
    buf.push(make_record(1));
    let list = buf.list();
    assert_eq!(list.len(), 1);
    assert_eq!(list[0].id, 1);
    assert_eq!(list[0].method, "GET");
}

#[test]
fn list_returns_entries_in_reverse_order() {
    let mut buf = TrafficBuffer::new(10);
    buf.push(make_record(1));
    buf.push(make_record(2));
    buf.push(make_record(3));
    let list = buf.list();
    assert_eq!(list[0].id, 3);
    assert_eq!(list[1].id, 2);
    assert_eq!(list[2].id, 1);
}

#[test]
fn get_returns_correct_entry() {
    let mut buf = TrafficBuffer::new(10);
    buf.push(make_record(1));
    buf.push(make_record(2));
    let entry = buf.get(2).unwrap();
    assert_eq!(entry.id, 2);
    assert_eq!(entry.url, "https://example.com/2");
}

#[test]
fn get_missing_id_returns_none() {
    let mut buf = TrafficBuffer::new(10);
    buf.push(make_record(1));
    assert!(buf.get(999).is_none());
}

#[test]
fn clear_empties_buffer() {
    let mut buf = TrafficBuffer::new(10);
    buf.push(make_record(1));
    buf.push(make_record(2));
    buf.clear();
    assert!(buf.list().is_empty());
    assert!(buf.get(1).is_none());
}

#[test]
fn evicts_oldest_at_capacity() {
    let mut buf = TrafficBuffer::new(3);
    buf.push(make_record(1));
    buf.push(make_record(2));
    buf.push(make_record(3));
    buf.push(make_record(4));
    let list = buf.list();
    assert_eq!(list.len(), 3);
    // oldest (id=1) should be gone
    assert!(buf.get(1).is_none());
    assert!(buf.get(4).is_some());
}

#[test]
fn exact_capacity_does_not_evict() {
    let mut buf = TrafficBuffer::new(3);
    buf.push(make_record(1));
    buf.push(make_record(2));
    buf.push(make_record(3));
    assert_eq!(buf.list().len(), 3);
    assert!(buf.get(1).is_some());
}

#[test]
fn capacity_one_holds_latest() {
    let mut buf = TrafficBuffer::new(1);
    buf.push(make_record(1));
    buf.push(make_record(2));
    assert_eq!(buf.list().len(), 1);
    assert_eq!(buf.list()[0].id, 2);
}

#[test]
fn capture_toggle() {
    let mut state = CaptureState::new();
    state.set_capture_enabled(true);
    assert!(state.is_capture_enabled());
    state.set_capture_enabled(false);
    assert!(!state.is_capture_enabled());
}

#[test]
fn next_id_increments() {
    let mut state = CaptureState::new();
    let a = state.next_id();
    let b = state.next_id();
    assert_eq!(b, a + 1);
}

#[test]
fn capacity_zero_keeps_only_the_latest() {
    let mut buf = TrafficBuffer::new(0);
    buf.push(make_record(1));
    buf.push(make_record(2));
    assert_eq!(buf.list().len(), 1);
    assert_eq!(buf.list()[0].id, 2);
}

#[test]
fn push_keeps_newest_records_in_order() {
    let mut buf = TrafficBuffer::new(2);
    for id in 1..=5 {
        buf.push(make_record(id));
    }
    let ids: Vec<u64> = buf.list().iter().map(|s| s.id).collect();
    assert_eq!(ids, vec![5, 4]);
}

#[test]
fn get_returns_oldest_of_repeated_ids() {
    let mut buf = TrafficBuffer::new(5);
    let mut first = make_record(7);
    first.url = "first".to_string();
    buf.push(first);
    buf.push(make_record(7));
    assert_eq!(buf.get(7).unwrap().url, "first");
}

#[test]
fn first_request_id_is_one_and_capture_starts_off() {
    let mut state = CaptureState::new();
    assert!(!state.is_capture_enabled());
    assert_eq!(state.next_id(), 1);
    state.set_capture_enabled(true);
    assert_eq!(state.next_id(), 2);
}

#[test]
fn request_ids_wrap_after_the_largest() {
    let mut state = CaptureState { capture_enabled: false, next_request_id: u64::MAX };
    assert_eq!(state.next_id(), u64::MAX);
    assert_eq!(state.next_id(), 0);
}
