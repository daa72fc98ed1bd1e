//! Session decisions: frame handling, binary normalization, teardown gate,
//! request validation, configuration and error descriptions.

use websocket_server::config::Config;
use websocket_server::dtos::CreateRoomDto;
use websocket_server::errors::RelayError;
use websocket_server::session::{handle_frame, Frame, InboundAction, SessionTeardown};

fn s(v: &str) -> String {
    v.to_string()
}

fn broadcast_payload(a: InboundAction) -> String {
    match a {
        InboundAction::Broadcast(p) => p,
        _ => panic!("expected a broadcast"),
    }
}

#[test]
fn text_frames_are_relayed_as_they_are() {
    let a = handle_frame(Frame::Text(s("hello")));
    assert_eq!(broadcast_payload(a), "hello");
}

#[test]
fn binary_frames_are_normalized_to_standard_base64() {
    let a = handle_frame(Frame::Binary(b"hello".to_vec()));
    assert_eq!(broadcast_payload(a), "aGVsbG8=");
    let b = handle_frame(Frame::Binary(Vec::new()));
    assert_eq!(broadcast_payload(b), "");
    let c = handle_frame(Frame::Binary(vec![0, 1, 2, 253, 254, 255]));
    assert_eq!(broadcast_payload(c), "AAEC/f7/");
}

#[test]
fn liveness_probe_is_answered_inline_with_its_data() {
    let a = handle_frame(Frame::Ping(vec![9, 9, 9]));
    match a {
        InboundAction::ReplyPong(d) => assert_eq!(d, vec![9, 9, 9]),
        _ => panic!("a ping must be answered with a pong"),
    }
}

#[test]
fn pong_is_ignored_and_close_tears_down() {
    assert!(matches!(handle_frame(Frame::Pong(vec![1])), InboundAction::Ignore));
    assert!(matches!(handle_frame(Frame::Close), InboundAction::Teardown));
}

#[test]
fn teardown_runs_exactly_once() {
    let mut gate = SessionTeardown::new();
    assert!(gate.begin());
    assert!(!gate.begin());
    assert!(!gate.begin());
}

#[test]
fn create_room_request_lengths_are_validated_in_characters() {
    let ok = CreateRoomDto { id: s("abc"), name: s("Team Standup") };
    assert!(ok.validate());

    let id_too_short = CreateRoomDto { id: s("ab"), name: s("Team Standup") };
    assert!(!id_too_short.validate());

    let name_too_short = CreateRoomDto { id: s("abc"), name: s("ab") };
    assert!(!name_too_short.validate());

    let thirty = "x".repeat(30);
    let at_max = CreateRoomDto { id: thirty.clone(), name: thirty.clone() };
    assert!(at_max.validate());

    let thirty_one = "x".repeat(31);
    let over_max = CreateRoomDto { id: thirty_one, name: thirty };
    assert!(!over_max.validate());

    // lengths count characters, not bytes
    let umlauts = CreateRoomDto { id: s("\u{e4}\u{f6}\u{fc}"), name: s("caf\u{e9} room") };
    assert!(umlauts.validate());
}

#[test]
fn config_uses_the_default_port() {
    let c = Config::new(s("sqlite://relay.db"));
    assert_eq!(c.port, 8000);
    assert_eq!(c.database_url, "sqlite://relay.db");
}

#[test]
fn errors_describe_themselves() {
    assert_eq!(RelayError::NotFound.describe(), "room not found");
    assert_eq!(RelayError::Conflict.describe(), "room already exists");
    assert_eq!(RelayError::RoomEnded.describe(), "room has ended");
    assert_eq!(RelayError::StoreUnavailable.describe(), "store unavailable");
    assert_eq!(RelayError::TransportError.describe(), "transport error");
    assert_eq!(RelayError::QueueFull.describe(), "outbound queue full");
}
