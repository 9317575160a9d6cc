use proto_server::session::SessionManagerImpl;

#[test]
fn test_session_rebind() {
    let mut mgr: SessionManagerImpl<i32> = SessionManagerImpl::new();
    mgr.new_client(String::from("c1"));
    mgr.create_session(String::from("c1"), String::from("X1"), 10);
    mgr.create_session(String::from("c1"), String::from("X2"), 20);
    assert!(mgr.get_session("X1").is_none());
    let s = mgr.get_session("X2").expect("X2 must resolve");
    assert_eq!(s.client_id().as_str(), "c1");
    assert_eq!(s.connect_code().as_str(), "X2");
    assert_eq!(*s.sender(), 20);
}

#[test]
fn test_removal_by_connection() {
    let mut mgr: SessionManagerImpl<i32> = SessionManagerImpl::new();
    mgr.new_client(String::from("c1"));
    mgr.create_session(String::from("c1"), String::from("X1"), 1);
    assert!(mgr.connect_codes().iter().any(|c| c == "X1"));
    mgr.remove_session("c1");
    assert!(!mgr.connect_codes().iter().any(|c| c == "X1"));
    assert!(mgr.get_session("X1").is_none());
}

#[test]
fn test_connect_codes_snapshot() {
    let mut mgr: SessionManagerImpl<i32> = SessionManagerImpl::new();
    mgr.new_client(String::from("c1"));
    mgr.new_client(String::from("c2"));
    mgr.create_session(String::from("c1"), String::from("A"), 1);
    mgr.create_session(String::from("c2"), String::from("B"), 2);
    let codes = mgr.connect_codes();
    assert_eq!(codes.len(), 2);
    assert!(codes.iter().any(|c| c == "A"));
    assert!(codes.iter().any(|c| c == "B"));
}

#[test]
fn test_default_registry_is_empty() {
    let mgr: SessionManagerImpl<i32> = Default::default();
    assert!(mgr.connect_codes().is_empty());
    assert!(mgr.get_session("A").is_none());
}

#[test]
fn test_removal_follows_identity_mapping() {
    // Two connections bound the same code in turn: the second bind owns the
    // code, but the first connection's identity still maps to it. Removal by
    // the first identity goes identity to code, so the code's session goes.
    let mut mgr: SessionManagerImpl<i32> = SessionManagerImpl::new();
    mgr.new_client(String::from("c1"));
    mgr.new_client(String::from("c2"));
    mgr.create_session(String::from("c1"), String::from("X"), 1);
    mgr.create_session(String::from("c2"), String::from("X"), 2);
    assert_eq!(*mgr.get_session("X").unwrap().sender(), 2);
    mgr.remove_session("c1");
    assert!(mgr.get_session("X").is_none());
}

#[test]
fn test_duplicate_new_client_keeps_binding() {
    let mut mgr: SessionManagerImpl<i32> = SessionManagerImpl::new();
    mgr.new_client(String::from("c1"));
    mgr.create_session(String::from("c1"), String::from("X"), 1);
    mgr.new_client(String::from("c1"));
    assert!(mgr.get_session("X").is_some());
    mgr.remove_session("c1");
    assert!(mgr.get_session("X").is_none());
}
