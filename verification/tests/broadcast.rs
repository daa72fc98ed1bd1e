//! Fan-out over connection tables: exclude-sender delivery, ordering,
//! slow-consumer isolation, and the relay scenario end to end.

use websocket_server::broadcast::{broadcast_to_room, ConnectionTable};
use websocket_server::connection::Connection;
use websocket_server::errors::RelayError;
use websocket_server::models::Room;
use websocket_server::registry::Registry;
use websocket_server::session::{handle_frame, Frame, InboundAction};
use websocket_server::store::InMemoryRoomRepository;

fn s(v: &str) -> String {
    v.to_string()
}

fn room_with_members(members: &[u64]) -> Room {
    let mut room = Room::new(s("abc"), s("Team Standup"), 0);
    for &m in members {
        room.add_member(m);
    }
    room
}

#[test]
fn broadcast_reaches_every_member_but_the_sender_in_order() {
    let mut table = ConnectionTable::new();
    for id in [1u64, 2, 3] {
        table.register(Connection::new(id, s("abc"), 16)).unwrap();
    }
    let room = room_with_members(&[1, 2, 3]);

    table.broadcast(&room, &s("m1"), 1);
    table.broadcast(&room, &s("m2"), 1);

    for peer in [2u64, 3] {
        assert_eq!(table.pop_outbound(peer), Some(s("m1")));
        assert_eq!(table.pop_outbound(peer), Some(s("m2")));
        assert_eq!(table.pop_outbound(peer), None);
    }
    assert_eq!(table.pop_outbound(1), None);
}

#[test]
fn broadcast_skips_connections_outside_the_room() {
    let mut table = ConnectionTable::new();
    table.register(Connection::new(1, s("abc"), 16)).unwrap();
    table.register(Connection::new(9, s("other"), 16)).unwrap();
    let room = room_with_members(&[1]);

    table.broadcast(&room, &s("hello"), 7);
    assert_eq!(table.pop_outbound(1), Some(s("hello")));
    assert_eq!(table.pop_outbound(9), None);
}

#[test]
fn full_queue_drops_for_that_recipient_only() {
    let mut table = ConnectionTable::new();
    table.register(Connection::new(1, s("abc"), 1)).unwrap();
    table.register(Connection::new(2, s("abc"), 16)).unwrap();
    let room = room_with_members(&[1, 2]);

    table.broadcast(&room, &s("m1"), 0);
    table.broadcast(&room, &s("m2"), 0);

    assert_eq!(table.dropped_of(1), Some(1));
    assert_eq!(table.dropped_of(2), Some(0));
    assert_eq!(table.pop_outbound(1), Some(s("m1")));
    assert_eq!(table.pop_outbound(1), None);
    assert_eq!(table.pop_outbound(2), Some(s("m1")));
    assert_eq!(table.pop_outbound(2), Some(s("m2")));
}

#[test]
fn enqueue_reports_queue_full_without_blocking() {
    let mut c = Connection::new(1, s("abc"), 1);
    assert!(c.enqueue(s("first")).is_ok());
    let r = c.enqueue(s("second"));
    assert_eq!(r.unwrap_err(), RelayError::QueueFull);
    assert_eq!(c.pending(), 1);
    assert_eq!(c.dropped_count(), 1);
}

#[test]
fn outbound_queue_is_first_in_first_out() {
    let mut c = Connection::new(1, s("abc"), 8);
    c.enqueue(s("a")).unwrap();
    c.enqueue(s("b")).unwrap();
    c.enqueue(s("c")).unwrap();
    let mut drained: Vec<String> = Vec::new();
    while let Some(m) = c.next_outbound() {
        drained.push(m);
    }
    assert_eq!(drained, vec![s("a"), s("b"), s("c")]);
}

#[test]
fn registering_a_duplicate_connection_is_a_conflict() {
    let mut table = ConnectionTable::new();
    table.register(Connection::new(1, s("abc"), 4)).unwrap();
    let r = table.register(Connection::new(1, s("abc"), 4));
    assert_eq!(r.unwrap_err(), RelayError::Conflict);
    assert_eq!(table.len(), 1);
}

#[test]
fn removing_a_connection_is_idempotent() {
    let mut table = ConnectionTable::new();
    table.register(Connection::new(1, s("abc"), 4)).unwrap();
    table.remove(1);
    table.remove(1);
    assert_eq!(table.len(), 0);
    assert_eq!(table.dropped_of(1), None);
}

#[test]
fn broadcast_to_room_resolves_the_room_first() {
    let mut reg = Registry::new();
    let mut store = InMemoryRoomRepository::new();
    let mut table = ConnectionTable::new();
    table.register(Connection::new(1, s("abc"), 8)).unwrap();

    let r = broadcast_to_room(&reg, &mut table, &s("abc"), &s("hello"), 2);
    assert_eq!(r.unwrap_err(), RelayError::NotFound);
    assert_eq!(table.pop_outbound(1), None);

    reg.create_room(&mut store, &s("abc"), &s("Team Standup"), 1).unwrap();
    reg.join(&s("abc"), 1).unwrap();
    let room = reg.get_room(&s("abc")).unwrap();
    assert_eq!(room.members, vec![1]);
    broadcast_to_room(&reg, &mut table, &s("abc"), &s("hello"), 2).unwrap();
    assert_eq!(table.pop_outbound(1), Some(s("hello")));
}

#[test]
fn relay_scenario_two_clients_then_one_disconnects() {
    let mut reg = Registry::new();
    let mut store = InMemoryRoomRepository::new();
    let mut table = ConnectionTable::new();

    reg.create_room(&mut store, &s("abc"), &s("Team Standup"), 10).unwrap();
    table.register(Connection::new(1, s("abc"), 16)).unwrap();
    table.register(Connection::new(2, s("abc"), 16)).unwrap();
    reg.join(&s("abc"), 1).unwrap();
    reg.join(&s("abc"), 2).unwrap();

    // client 1 sends "hello"
    let action = handle_frame(Frame::Text(s("hello")));
    let payload = match action {
        InboundAction::Broadcast(p) => p,
        _ => panic!("a text frame must be fanned out"),
    };
    let room = reg.get_room(&s("abc")).unwrap();
    table.broadcast(&room, &payload, 1);
    assert_eq!(table.pop_outbound(2), Some(s("hello")));
    assert_eq!(table.pop_outbound(1), None);

    // client 2 disconnects
    reg.leave(&s("abc"), 2);
    table.remove(2);

    // client 1 sends "ping": delivered to nobody, no error raised
    let room = reg.get_room(&s("abc")).unwrap();
    table.broadcast(&room, &s("ping"), 1);
    assert_eq!(table.pop_outbound(1), None);
    assert_eq!(table.pop_outbound(2), None);
    assert_eq!(table.dropped_of(1), Some(0));
}
