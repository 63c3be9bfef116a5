use goose::pending::{IdAllocator, PendingRequests};

#[test]
fn response_removes_the_slot_once() {
    let mut pending: PendingRequests<&str> = PendingRequests::new();
    assert_eq!(pending.insert(1, "caller"), Ok(()));
    assert!(pending.contains(1));
    assert_eq!(pending.take(1), Some("caller"));
    assert_eq!(pending.take(1), None);
    assert!(!pending.contains(1));
}

#[test]
fn duplicate_id_is_refused() {
    let mut pending: PendingRequests<u8> = PendingRequests::new();
    assert_eq!(pending.insert(7, 1), Ok(()));
    assert_eq!(pending.insert(7, 2), Err(2));
    assert_eq!(pending.take(7), Some(1));
}

#[test]
fn clear_drops_every_waiting_slot() {
    let mut pending: PendingRequests<u8> = PendingRequests::new();
    pending.insert(1, 10).unwrap();
    pending.insert(2, 20).unwrap();
    pending.clear();
    assert_eq!(pending.take(1), None);
    assert_eq!(pending.take(2), None);
}

#[test]
fn late_response_is_ignored() {
    let mut pending: PendingRequests<u8> = PendingRequests::new();
    assert_eq!(pending.take(42), None);
}

#[test]
fn ids_increase() {
    let mut ids = IdAllocator::new();
    assert_eq!(ids.next_id(), Some(1));
    assert_eq!(ids.next_id(), Some(2));
    assert_eq!(ids.next_id(), Some(3));
}
