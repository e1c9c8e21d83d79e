use tunnelproto::error::ProtocolError;
use tunnelproto::handshake::{InitializationMessage, IpAddress, SocketAddress};
use tunnelproto::message::{Message, MessageType};
use tunnelproto::registry::SessionRegistry;
use tunnelproto::session::{Session, SessionAction, SessionState};

fn handshake_payload() -> InitializationMessage {
    InitializationMessage::new(
        SocketAddress { ip: IpAddress::V4(0x7F00_0001), port: 20000 },
        SocketAddress { ip: IpAddress::V4(0x7F00_0001), port: 3000 },
    )
    .expect("IPv4 endpoints must be accepted")
}

fn initial_message(connection_id: u128) -> Message {
    Message::new(MessageType::Initial, connection_id, handshake_payload().encode())
}

#[test]
fn data_before_handshake_is_a_violation() {
    let mut session = Session::new(1, 1 << 20);
    let data = Message::new(MessageType::Data, 1, vec![1, 2, 3]);
    assert_eq!(session.handle(data), Err(ProtocolError::ProtocolViolation));
    assert!(matches!(session.state, SessionState::Pending));
}

#[test]
fn handshake_activates_the_session() {
    let mut session = Session::new(1, 1 << 20);
    let payload = handshake_payload();
    match session.handle(initial_message(1)) {
        Ok(SessionAction::RouteEstablished(p)) => assert_eq!(p, payload),
        _ => panic!("the handshake must establish the route"),
    }
    assert!(matches!(session.state, SessionState::Active));
    assert_eq!(session.route, Some(payload));
}

#[test]
fn duplicate_initial_is_a_violation() {
    let mut session = Session::new(1, 1 << 20);
    session.handle(initial_message(1)).expect("handshake must succeed");
    assert_eq!(
        session.handle(initial_message(1)),
        Err(ProtocolError::ProtocolViolation)
    );
}

#[test]
fn undecodable_handshake_payload_is_a_violation() {
    let mut session = Session::new(1, 1 << 20);
    let short = Message::new(MessageType::Initial, 1, vec![0; 5]);
    assert_eq!(session.handle(short), Err(ProtocolError::ProtocolViolation));
    assert!(matches!(session.state, SessionState::Pending));
}

#[test]
fn active_session_forwards_data() {
    let mut session = Session::new(1, 1 << 20);
    session.handle(initial_message(1)).expect("handshake must succeed");
    let data = Message::new(MessageType::Data, 1, vec![10, 20, 30]);
    match session.handle(data) {
        Ok(SessionAction::Forward(bytes)) => assert_eq!(bytes, vec![10, 20, 30]),
        _ => panic!("data must be forwarded"),
    }
}

#[test]
fn active_session_acknowledges_ping() {
    let mut session = Session::new(1, 1 << 20);
    session.handle(initial_message(1)).expect("handshake must succeed");
    let ping = Message::new(MessageType::Ping, 1, Vec::new());
    assert!(matches!(session.handle(ping), Ok(SessionAction::LivenessAck)));
}

#[test]
fn close_makes_the_session_terminal() {
    let mut session = Session::new(1, 1 << 20);
    session.handle(initial_message(1)).expect("handshake must succeed");
    let close = Message::new(MessageType::Close, 1, Vec::new());
    assert!(matches!(
        session.handle(close),
        Ok(SessionAction::ConnectionClosed)
    ));
    assert!(matches!(session.state, SessionState::Closed));
    let ping = Message::new(MessageType::Ping, 1, Vec::new());
    assert_eq!(session.handle(ping), Err(ProtocolError::ProtocolViolation));
}

#[test]
fn session_feed_reassembles_its_stream() {
    let mut session = Session::new(1, 1 << 20);
    let m = Message::new(MessageType::Data, 1, vec![0xEE; 700]);
    let frame = m.encode();
    let first = frame[..300].to_vec();
    let second = frame[300..].to_vec();
    assert_eq!(session.feed(&first).expect("no fatal error"), Vec::<Message>::new());
    assert_eq!(session.feed(&second).expect("no fatal error"), vec![m]);
}

#[test]
fn registry_routes_initial_then_data_then_close() {
    let mut registry = SessionRegistry::new(1 << 20);
    let cid = 77;
    match registry.deliver(initial_message(cid)) {
        Ok(SessionAction::RouteEstablished(p)) => assert_eq!(p, handshake_payload()),
        _ => panic!("handshake must establish the route"),
    }
    assert!(registry.contains(cid));
    let data = Message::new(MessageType::Data, cid, vec![5, 6]);
    match registry.deliver(data) {
        Ok(SessionAction::Forward(bytes)) => assert_eq!(bytes, vec![5, 6]),
        _ => panic!("data must be forwarded"),
    }
    let close = Message::new(MessageType::Close, cid, Vec::new());
    assert!(matches!(
        registry.deliver(close),
        Ok(SessionAction::ConnectionClosed)
    ));
    assert!(!registry.contains(cid));
}

#[test]
fn data_for_unknown_connection_creates_no_session() {
    let mut registry = SessionRegistry::new(1 << 20);
    let data = Message::new(MessageType::Data, 5, vec![1]);
    assert_eq!(
        registry.deliver(data),
        Err(ProtocolError::ProtocolViolation)
    );
    assert!(!registry.contains(5));
}

#[test]
fn duplicate_initial_removes_the_session() {
    let mut registry = SessionRegistry::new(1 << 20);
    let cid = 8;
    registry.deliver(initial_message(cid)).expect("handshake must succeed");
    assert!(registry.contains(cid));
    assert_eq!(
        registry.deliver(initial_message(cid)),
        Err(ProtocolError::ProtocolViolation)
    );
    assert!(!registry.contains(cid));
}

#[test]
fn failed_handshake_leaves_no_session_behind() {
    let mut registry = SessionRegistry::new(1 << 20);
    let bad = Message::new(MessageType::Initial, 9, vec![0; 3]);
    assert_eq!(
        registry.deliver(bad),
        Err(ProtocolError::ProtocolViolation)
    );
    assert!(!registry.contains(9));
}

#[test]
fn removal_is_idempotent_and_scoped() {
    let mut registry = SessionRegistry::new(1 << 20);
    registry.deliver(initial_message(1)).expect("handshake must succeed");
    registry.deliver(initial_message(2)).expect("handshake must succeed");
    registry.remove(1);
    registry.remove(1);
    assert!(!registry.contains(1));
    assert!(registry.contains(2));
}

#[test]
fn data_to_pending_registry_session_is_rejected_and_removed() {
    let mut registry = SessionRegistry::new(1 << 20);
    registry.get_or_create(11);
    assert!(registry.contains(11));
    let data = Message::new(MessageType::Data, 11, vec![1]);
    assert_eq!(registry.deliver(data), Err(ProtocolError::ProtocolViolation));
    assert!(!registry.contains(11));
}

#[test]
fn get_or_create_is_stable_per_connection() {
    let mut registry = SessionRegistry::new(1 << 20);
    let a = registry.get_or_create(4);
    let b = registry.get_or_create(4);
    assert_eq!(a, b);
    let c = registry.get_or_create(6);
    assert_ne!(a, c);
}

#[test]
fn closed_connection_can_start_over() {
    let mut registry = SessionRegistry::new(1 << 20);
    let cid = 3;
    registry.deliver(initial_message(cid)).expect("handshake must succeed");
    let close = Message::new(MessageType::Close, cid, Vec::new());
    registry.deliver(close).expect("close must succeed");
    match registry.deliver(initial_message(cid)) {
        Ok(SessionAction::RouteEstablished(_)) => {},
        _ => panic!("a fresh handshake must be accepted after close"),
    }
    assert!(registry.contains(cid));
}
