//! Room registry lifecycle: creation, lookup, join, leave, end, eviction.

use websocket_server::errors::RelayError;
use websocket_server::registry::Registry;
use websocket_server::store::{IRoomRepository, InMemoryRoomRepository, UnavailableRoomRepository};

fn s(v: &str) -> String {
    v.to_string()
}

#[test]
fn create_then_get_returns_matching_room() {
    let mut reg = Registry::new();
    let mut store = InMemoryRoomRepository::new();
    let created = reg
        .create_room(&mut store, &s("abc"), &s("Team Standup"), 100)
        .unwrap();
    assert_eq!(created.id, "abc");
    assert_eq!(created.name, "Team Standup");
    assert_eq!(created.created_at, 100);
    assert!(created.ended_at.is_none());

    let got = reg.get_room(&s("abc")).unwrap();
    assert_eq!(got.id, "abc");
    assert_eq!(got.name, "Team Standup");
    assert!(got.ended_at.is_none());
    assert_eq!(got.members.len(), 0);
}

#[test]
fn create_duplicate_fails_with_conflict_and_mutates_nothing() {
    let mut reg = Registry::new();
    let mut store = InMemoryRoomRepository::new();
    reg.create_room(&mut store, &s("abc"), &s("first"), 5).unwrap();

    let second = reg.create_room(&mut store, &s("abc"), &s("second"), 9);
    assert_eq!(second.unwrap_err(), RelayError::Conflict);

    let got = reg.get_room(&s("abc")).unwrap();
    assert_eq!(got.name, "first");
    assert_eq!(got.created_at, 5);
    assert_eq!(reg.room_count(), 1);
    let rec = store.find_by_id(&s("abc")).unwrap().unwrap();
    assert_eq!(rec.name, "first");
    assert_eq!(rec.created_at, 5);
}

#[test]
fn create_rolls_back_when_store_is_unavailable() {
    let mut reg = Registry::new();
    let mut store = UnavailableRoomRepository { reason: s("down for the test") };
    let r = reg.create_room(&mut store, &s("abc"), &s("Team Standup"), 1);
    assert_eq!(r.unwrap_err(), RelayError::StoreUnavailable);
    assert_eq!(reg.room_count(), 0);
    assert_eq!(
        reg.get_room(&s("abc")).unwrap_err(),
        RelayError::NotFound
    );
}

#[test]
fn get_missing_room_is_not_found() {
    let reg = Registry::new();
    assert_eq!(reg.get_room(&s("nope")).unwrap_err(), RelayError::NotFound);
}

#[test]
fn join_missing_room_is_not_found() {
    let mut reg = Registry::new();
    assert_eq!(reg.join(&s("abc"), 1).unwrap_err(), RelayError::NotFound);
}

#[test]
fn join_ended_room_is_rejected_and_adds_nobody() {
    let mut reg = Registry::new();
    let mut store = InMemoryRoomRepository::new();
    reg.create_room(&mut store, &s("abc"), &s("Team Standup"), 1).unwrap();
    reg.end_room(&mut store, &s("abc"), 50).unwrap();

    let r = reg.join(&s("abc"), 7);
    assert_eq!(r.unwrap_err(), RelayError::RoomEnded);
    let got = reg.get_room(&s("abc")).unwrap();
    assert_eq!(got.members.len(), 0);
    assert_eq!(got.ended_at, Some(50));
}

#[test]
fn many_distinct_joins_all_commit() {
    let mut reg = Registry::new();
    let mut store = InMemoryRoomRepository::new();
    reg.create_room(&mut store, &s("abc"), &s("Team Standup"), 1).unwrap();
    for c in 0..10u64 {
        reg.join(&s("abc"), c).unwrap();
    }
    assert_eq!(reg.get_room(&s("abc")).unwrap().members.len(), 10);
}

#[test]
fn join_twice_is_idempotent() {
    let mut reg = Registry::new();
    let mut store = InMemoryRoomRepository::new();
    reg.create_room(&mut store, &s("abc"), &s("Team Standup"), 1).unwrap();
    reg.join(&s("abc"), 3).unwrap();
    reg.join(&s("abc"), 3).unwrap();
    assert_eq!(reg.get_room(&s("abc")).unwrap().members.len(), 1);
}

#[test]
fn leave_twice_has_the_effect_of_leaving_once() {
    let mut reg = Registry::new();
    let mut store = InMemoryRoomRepository::new();
    reg.create_room(&mut store, &s("abc"), &s("Team Standup"), 1).unwrap();
    reg.join(&s("abc"), 1).unwrap();
    reg.join(&s("abc"), 2).unwrap();

    reg.leave(&s("abc"), 1);
    let after_once = reg.get_room(&s("abc")).unwrap().members;
    reg.leave(&s("abc"), 1);
    let after_twice = reg.get_room(&s("abc")).unwrap().members;
    assert_eq!(after_once, after_twice);
    assert_eq!(after_twice, vec![2]);
}

#[test]
fn leave_absent_connection_or_room_is_a_no_op() {
    let mut reg = Registry::new();
    let mut store = InMemoryRoomRepository::new();
    reg.create_room(&mut store, &s("abc"), &s("Team Standup"), 1).unwrap();
    reg.leave(&s("abc"), 42);
    reg.leave(&s("zzz"), 42);
    assert_eq!(reg.room_count(), 1);
    assert_eq!(reg.get_room(&s("abc")).unwrap().members.len(), 0);
}

#[test]
fn empty_room_can_be_evicted() {
    let mut reg = Registry::new();
    let mut store = InMemoryRoomRepository::new();
    reg.create_room(&mut store, &s("abc"), &s("Team Standup"), 1).unwrap();
    reg.join(&s("abc"), 1).unwrap();
    assert!(!reg.evict_room_if_empty(&s("abc")));
    reg.leave(&s("abc"), 1);
    assert!(reg.evict_room_if_empty(&s("abc")));
    assert_eq!(reg.get_room(&s("abc")).unwrap_err(), RelayError::NotFound);
    assert!(!reg.evict_room_if_empty(&s("abc")));
}

#[test]
fn end_room_persists_and_is_one_time() {
    let mut reg = Registry::new();
    let mut store = InMemoryRoomRepository::new();
    reg.create_room(&mut store, &s("abc"), &s("Team Standup"), 1).unwrap();
    let ended = reg.end_room(&mut store, &s("abc"), 99).unwrap();
    assert_eq!(ended.ended_at, Some(99));
    let rec = store.find_by_id(&s("abc")).unwrap().unwrap();
    assert_eq!(rec.ended_at, Some(99));

    let again = reg.end_room(&mut store, &s("abc"), 123).unwrap();
    assert_eq!(again.ended_at, Some(99));
    let rec2 = store.find_by_id(&s("abc")).unwrap().unwrap();
    assert_eq!(rec2.ended_at, Some(99));
}

#[test]
fn end_missing_room_is_not_found() {
    let mut reg = Registry::new();
    let mut store = InMemoryRoomRepository::new();
    let r = reg.end_room(&mut store, &s("abc"), 99);
    assert_eq!(r.unwrap_err(), RelayError::NotFound);
}
