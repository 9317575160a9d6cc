use proto_server::message::{AuthRequestMessage, HeartBeatRequestMessage, RequestMessage};
use proto_server::protocol::{generate_client_id, Protocol, ProtocolState};
use proto_server::session::SessionManagerImpl;

#[test]
fn test_state_idempotence() {
    let mut mgr: SessionManagerImpl<i32> = SessionManagerImpl::new();
    let mut proto = Protocol::new(String::from("conn-1"));
    proto.create_client_conn(&mut mgr);
    assert!(matches!(proto.state, ProtocolState::Unauthenticated));
    let msg1 = RequestMessage::Auth(AuthRequestMessage {
        auth_type: 1,
        connect_code: String::from("X1"),
        connect_id: String::from("a"),
    });
    let terminate1 = proto.process(&mut mgr, msg1, 1);
    assert!(!terminate1);
    assert!(matches!(proto.state, ProtocolState::Authenticated));
    let msg2 = RequestMessage::Auth(AuthRequestMessage {
        auth_type: 1,
        connect_code: String::from("X2"),
        connect_id: String::from("a"),
    });
    let terminate2 = proto.process(&mut mgr, msg2, 2);
    assert!(!terminate2);
    assert!(matches!(proto.state, ProtocolState::Authenticated));
    assert!(mgr.get_session("X1").is_none());
    let s = mgr.get_session("X2").expect("the second code must resolve");
    assert_eq!(s.client_id().as_str(), "conn-1");
    assert_eq!(*s.sender(), 2);
}

#[test]
fn test_heartbeat_changes_nothing() {
    let mut mgr: SessionManagerImpl<i32> = SessionManagerImpl::new();
    let mut proto = Protocol::new(String::from("conn-1"));
    proto.create_client_conn(&mut mgr);
    let msg = RequestMessage::HeartBeat(HeartBeatRequestMessage {});
    let terminate = proto.process(&mut mgr, msg, 1);
    assert!(!terminate);
    assert!(matches!(proto.state, ProtocolState::Unauthenticated));
    assert!(mgr.connect_codes().is_empty());
}

#[test]
fn test_teardown_removes_session() {
    let mut mgr: SessionManagerImpl<i32> = SessionManagerImpl::new();
    let mut proto = Protocol::new(String::from("conn-1"));
    proto.create_client_conn(&mut mgr);
    let msg = RequestMessage::Auth(AuthRequestMessage {
        auth_type: 1,
        connect_code: String::from("X1"),
        connect_id: String::from(""),
    });
    proto.process(&mut mgr, msg, 1);
    assert!(mgr.get_session("X1").is_some());
    proto.teardown(&mut mgr);
    assert!(mgr.get_session("X1").is_none());
    assert!(!proto.has_session);
    proto.teardown(&mut mgr);
    assert!(mgr.get_session("X1").is_none());
}

#[test]
fn test_generate_client_id_form() {
    let id = generate_client_id();
    assert_eq!(id.len(), 36);
}
