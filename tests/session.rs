use ovos_bus::config::Config;
use ovos_bus::session::{exceeds_limit, Frame, Session, SessionAction, SessionEvent, SessionState};

fn open_session(limit: u64) -> Session {
    let mut s = Session::new(limit);
    assert!(matches!(s.step(SessionEvent::HandshakeSucceeded), SessionAction::Register));
    assert_eq!(s.state(), SessionState::Open);
    s
}

#[test]
fn ping_within_limit_is_relayed() {
    let limit = Config::defaults().max_msg_bytes();
    let mut s = open_session(limit);
    match s.step(SessionEvent::Inbound(Frame::Text("ping".to_string()))) {
        SessionAction::Relay(t) => assert_eq!(t, "ping"),
        _ => panic!("ping should be relayed"),
    }
    assert_eq!(s.state(), SessionState::Open);
}

#[test]
fn oversize_message_closes_session_without_relay() {
    let limit: u64 = 25 * 1024 * 1024;
    let mut s = open_session(limit);
    let big = "a".repeat(limit as usize + 1);
    assert!(matches!(s.step(SessionEvent::Inbound(Frame::Text(big))), SessionAction::Deregister));
    assert_eq!(s.state(), SessionState::Closing);
    assert!(matches!(s.step(SessionEvent::Inbound(Frame::Text("x".to_string()))), SessionAction::Idle));
    assert!(matches!(s.step(SessionEvent::Finished), SessionAction::Idle));
    assert_eq!(s.state(), SessionState::Closed);
}

#[test]
fn message_exactly_at_limit_is_relayed() {
    let mut s = open_session(4);
    assert!(matches!(s.step(SessionEvent::Inbound(Frame::Text("ping".to_string()))), SessionAction::Relay(_)));
    assert!(matches!(s.step(SessionEvent::Inbound(Frame::Text("pings".to_string()))), SessionAction::Deregister));
}

#[test]
fn size_is_counted_in_utf8_bytes() {
    let mut s = open_session(3);
    // two characters, four bytes
    assert!(matches!(s.step(SessionEvent::Inbound(Frame::Text("éé".to_string()))), SessionAction::Deregister));
}

#[test]
fn handshake_failure_ends_without_registration() {
    let mut s = Session::new(10);
    assert!(matches!(s.step(SessionEvent::HandshakeFailed), SessionAction::Idle));
    assert_eq!(s.state(), SessionState::Closed);
    assert!(matches!(s.step(SessionEvent::Outbound("m".to_string())), SessionAction::Idle));
}

#[test]
fn writes_follow_dequeue_order() {
    let mut s = open_session(10);
    for m in ["a", "b", "c"] {
        match s.step(SessionEvent::Outbound(m.to_string())) {
            SessionAction::Write(w) => assert_eq!(w, m),
            _ => panic!("expected a write"),
        }
    }
}

#[test]
fn deregistration_happens_once_from_either_path() {
    let mut s = open_session(10);
    assert!(matches!(s.step(SessionEvent::WriteFailed), SessionAction::Deregister));
    assert!(matches!(s.step(SessionEvent::Inbound(Frame::Close)), SessionAction::Idle));
    assert!(matches!(s.step(SessionEvent::Inbound(Frame::Failed)), SessionAction::Idle));
    assert!(matches!(s.step(SessionEvent::Finished), SessionAction::Idle));
    assert_eq!(s.state(), SessionState::Closed);
}

#[test]
fn close_frame_and_read_error_deregister() {
    let mut s = open_session(10);
    assert!(matches!(s.step(SessionEvent::Inbound(Frame::Close)), SessionAction::Deregister));
    let mut t = open_session(10);
    assert!(matches!(t.step(SessionEvent::Inbound(Frame::Failed)), SessionAction::Deregister));
    let mut u = open_session(10);
    assert!(matches!(u.step(SessionEvent::Inbound(Frame::Other)), SessionAction::Idle));
    assert_eq!(u.state(), SessionState::Open);
}

#[test]
fn exceeds_limit_compares_strictly() {
    assert!(!exceeds_limit(4, 4));
    assert!(exceeds_limit(5, 4));
    assert!(!exceeds_limit(0, 0));
}
