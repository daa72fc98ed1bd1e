//! The in-memory metadata gateway adapter.

use websocket_server::errors::RelayError;
use websocket_server::store::{IRoomRepository, InMemoryRoomRepository, UnavailableRoomRepository};

fn s(v: &str) -> String {
    v.to_string()
}

#[test]
fn created_records_can_be_found() {
    let mut store = InMemoryRoomRepository::new();
    let rec = store.create(&s("abc"), &s("Team Standup"), 42).unwrap();
    assert_eq!(rec.id, "abc");
    assert_eq!(rec.name, "Team Standup");
    assert_eq!(rec.created_at, 42);
    assert_eq!(rec.ended_at, None);

    let found = store.find_by_id(&s("abc")).unwrap().unwrap();
    assert_eq!(found.id, "abc");
    assert_eq!(found.name, "Team Standup");
    assert!(store.find_by_id(&s("zzz")).unwrap().is_none());
}

#[test]
fn creating_a_stored_id_again_is_a_conflict() {
    let mut store = InMemoryRoomRepository::new();
    store.create(&s("abc"), &s("first"), 1).unwrap();
    let r = store.create(&s("abc"), &s("second"), 2);
    assert_eq!(r.unwrap_err(), RelayError::Conflict);
    let all = store.find_all().unwrap();
    assert_eq!(all.len(), 1);
    assert_eq!(all[0].name, "first");
}

#[test]
fn find_all_returns_records_in_storage_order() {
    let mut store = InMemoryRoomRepository::new();
    store.create(&s("a11"), &s("room one"), 1).unwrap();
    store.create(&s("b22"), &s("room two"), 2).unwrap();
    let all = store.find_all().unwrap();
    let ids: Vec<String> = all.iter().map(|r| r.id.clone()).collect();
    assert_eq!(ids, vec![s("a11"), s("b22")]);
}

#[test]
fn room_ended_marks_the_record() {
    let mut store = InMemoryRoomRepository::new();
    store.create(&s("abc"), &s("Team Standup"), 1).unwrap();
    let rec = store.room_ended(&s("abc"), 77).unwrap();
    assert_eq!(rec.id, "abc");
    assert_eq!(rec.ended_at, Some(77));
    let found = store.find_by_id(&s("abc")).unwrap().unwrap();
    assert_eq!(found.ended_at, Some(77));
}

#[test]
fn ending_twice_keeps_the_first_timestamp() {
    let mut store = InMemoryRoomRepository::new();
    store.create(&s("abc"), &s("Team Standup"), 1).unwrap();
    store.room_ended(&s("abc"), 50).unwrap();
    let again = store.room_ended(&s("abc"), 99).unwrap();
    assert_eq!(again.ended_at, Some(50));
    let found = store.find_by_id(&s("abc")).unwrap().unwrap();
    assert_eq!(found.ended_at, Some(50));
}

#[test]
fn ending_a_missing_record_is_not_found() {
    let mut store = InMemoryRoomRepository::new();
    let r = store.room_ended(&s("abc"), 77);
    assert_eq!(r.unwrap_err(), RelayError::NotFound);
}

#[test]
fn unreachable_store_fails_every_call() {
    let mut store = UnavailableRoomRepository { reason: s("connection refused") };
    assert_eq!(
        store.create(&s("abc"), &s("x y z"), 1).unwrap_err(),
        RelayError::StoreUnavailable
    );
    assert_eq!(store.find_by_id(&s("abc")).unwrap_err(), RelayError::StoreUnavailable);
    assert_eq!(store.find_all().unwrap_err(), RelayError::StoreUnavailable);
    assert_eq!(store.room_ended(&s("abc"), 2).unwrap_err(), RelayError::StoreUnavailable);
}
