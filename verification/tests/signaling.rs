use clip_bridge::signaling::{ClientEvent, SessionAction, SignalingPeer};

fn join(room: &str, peer: &str) -> ClientEvent {
    ClientEvent::Join { room: room.to_string(), peer_id: peer.to_string() }
}

fn signal(to: &str) -> ClientEvent {
    ClientEvent::Signal { to: to.to_string() }
}

#[test]
fn signals_before_join_are_dropped() {
    let mut peer = SignalingPeer::new();
    assert!(matches!(peer.on_event(signal("b")), SessionAction::Ignore));
}

#[test]
fn join_then_signal_is_stamped_with_own_identity() {
    let mut peer = SignalingPeer::new();
    match peer.on_event(join("room", "a")) {
        SessionAction::Join { room, peer_id } => {
            assert_eq!(room, "room");
            assert_eq!(peer_id, "a");
        }
        _ => panic!("expected a join"),
    }
    match peer.on_event(signal("b")) {
        SessionAction::Forward { room, from, to } => {
            assert_eq!((room.as_str(), from.as_str(), to.as_str()), ("room", "a", "b"));
        }
        _ => panic!("expected a forward"),
    }
}

#[test]
fn second_join_is_ignored() {
    let mut peer = SignalingPeer::new();
    peer.on_event(join("room", "a"));
    assert!(matches!(peer.on_event(join("elsewhere", "mallory")), SessionAction::Ignore));
    match peer.on_event(signal("b")) {
        SessionAction::Forward { room, from, .. } => {
            assert_eq!(room, "room");
            assert_eq!(from, "a");
        }
        _ => panic!("expected a forward"),
    }
}

#[test]
fn malformed_messages_are_rejected_without_changing_membership() {
    let mut peer = SignalingPeer::new();
    assert!(matches!(peer.on_event(ClientEvent::Malformed), SessionAction::RejectMalformed));
    peer.on_event(join("room", "a"));
    assert!(matches!(peer.on_event(ClientEvent::Malformed), SessionAction::RejectMalformed));
    assert!(matches!(peer.on_event(signal("b")), SessionAction::Forward { .. }));
}

#[test]
fn closing_leaves_the_joined_room() {
    let mut peer = SignalingPeer::new();
    peer.on_event(join("room", "a"));
    match peer.on_event(ClientEvent::Closed) {
        SessionAction::Leave { room, peer_id } => {
            assert_eq!(room, "room");
            assert_eq!(peer_id, "a");
        }
        _ => panic!("expected a leave"),
    }
    let mut idle = SignalingPeer::new();
    assert!(matches!(idle.on_event(ClientEvent::Closed), SessionAction::Close));
}
