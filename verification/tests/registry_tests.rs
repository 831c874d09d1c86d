use rshell_core::errors::{ConnectError, PtyError};
use rshell_core::registry::{ConnectOutcome, ConnectionManager, ProtocolKind};

fn connect_ssh(mgr: &mut ConnectionManager, id: &str, token: u64) {
    mgr.register_pending_connection(id);
    mgr.complete_connection(id, ConnectOutcome::Connected(token))
        .expect("connect should succeed");
}

#[test]
fn test_new_manager_has_no_connections() {
    let mgr = ConnectionManager::new();
    let connections = mgr.list_connections();
    assert!(connections.is_empty());
}

#[test]
fn test_get_connection_type_returns_none_for_unknown() {
    let mgr = ConnectionManager::new();
    assert!(mgr.get_connection_type("unknown-id").is_none());
}

#[test]
fn test_connection_type_set_for_sftp() {
    let mut mgr = ConnectionManager::new();
    mgr.create_sftp_connection("sftp-1", 7);
    assert_eq!(mgr.get_connection_type("sftp-1"), Some(ProtocolKind::Sftp));
}

#[test]
fn test_connection_type_set_for_ftp() {
    let mut mgr = ConnectionManager::new();
    mgr.create_ftp_connection("ftp-1", 8);
    assert_eq!(mgr.get_connection_type("ftp-1"), Some(ProtocolKind::Ftp));
}

#[test]
fn test_close_sftp_removes_connection_type() {
    let mut mgr = ConnectionManager::new();
    mgr.create_sftp_connection("sftp-close", 7);
    let closed = mgr.close_sftp_connection("sftp-close");
    assert_eq!(closed, Some(7));
    assert!(mgr.get_connection_type("sftp-close").is_none());
    // Idempotent: a second close removes nothing.
    assert_eq!(mgr.close_sftp_connection("sftp-close"), None);
}

#[test]
fn test_close_ftp_removes_connection_type() {
    let mut mgr = ConnectionManager::new();
    mgr.create_ftp_connection("ftp-close", 9);
    let closed = mgr.close_ftp_connection("ftp-close");
    assert_eq!(closed, Some(9));
    assert!(mgr.get_connection_type("ftp-close").is_none());
}

#[test]
fn test_cancel_nonexistent_pending_connection() {
    let mut mgr = ConnectionManager::new();
    let cancelled = mgr.cancel_pending_connection("ghost");
    assert!(!cancelled);
}

#[test]
fn test_multiple_protocol_types_tracked() {
    let mut mgr = ConnectionManager::new();
    connect_ssh(&mut mgr, "ssh-1", 1);
    mgr.create_sftp_connection("sftp-1", 2);
    mgr.create_ftp_connection("ftp-1", 3);
    assert_eq!(mgr.get_connection_type("ssh-1"), Some(ProtocolKind::Ssh));
    assert_eq!(mgr.get_connection_type("sftp-1"), Some(ProtocolKind::Sftp));
    assert_eq!(mgr.get_connection_type("ftp-1"), Some(ProtocolKind::Ftp));
}

#[test]
fn test_dispatch_routing_sftp_vs_ftp() {
    let mut mgr = ConnectionManager::new();
    mgr.create_sftp_connection("conn-sftp", 4);
    mgr.create_ftp_connection("conn-ftp", 5);

    assert_eq!(mgr.get_connection_type("conn-sftp"), Some(ProtocolKind::Sftp));
    assert_eq!(mgr.get_sftp_connection("conn-sftp"), Some(4));
    assert_eq!(mgr.get_ftp_connection("conn-sftp"), None);

    assert_eq!(mgr.get_connection_type("conn-ftp"), Some(ProtocolKind::Ftp));
    assert_eq!(mgr.get_ftp_connection("conn-ftp"), Some(5));
    assert_eq!(mgr.get_sftp_connection("conn-ftp"), None);

    assert!(mgr.get_connection_type("conn-unknown").is_none());
}

#[test]
fn test_cancel_pending_lifecycle() {
    // A cancel returns true exactly while a connect is pending: not
    // before any connect was registered, not after it resolved.
    let mut mgr = ConnectionManager::new();
    assert!(!mgr.cancel_pending_connection("c1"));
    mgr.register_pending_connection("c1");
    assert!(mgr.cancel_pending_connection("c1"));
    assert!(!mgr.cancel_pending_connection("c1"));

    mgr.register_pending_connection("c1");
    let r = mgr.complete_connection("c1", ConnectOutcome::Connected(11));
    assert!(r.is_ok());
    assert!(!mgr.cancel_pending_connection("c1"));
}

#[test]
fn test_cancelled_connect_installs_nothing() {
    let mut mgr = ConnectionManager::new();
    mgr.register_pending_connection("c1");
    assert!(mgr.cancel_pending_connection("c1"));
    let r = mgr.complete_connection("c1", ConnectOutcome::Cancelled);
    assert_eq!(r, Err(ConnectError::Cancelled));
    assert!(mgr.get_connection("c1").is_none());
    assert!(mgr.list_connections().is_empty());
}

#[test]
fn test_failed_connect_leaves_no_connection() {
    // An unreachable host resolves as a network error (or a timeout)
    // and the identifier does not appear in the connection list.
    let mut mgr = ConnectionManager::new();
    mgr.register_pending_connection("c2");
    let r = mgr.complete_connection("c2", ConnectOutcome::Failed(ConnectError::NetworkError));
    assert_eq!(r, Err(ConnectError::NetworkError));
    assert!(!mgr.list_connections().iter().any(|id| id == "c2"));

    mgr.register_pending_connection("c2");
    let r = mgr.complete_connection("c2", ConnectOutcome::Failed(ConnectError::Timeout));
    assert_eq!(r, Err(ConnectError::Timeout));
    assert!(!mgr.list_connections().iter().any(|id| id == "c2"));
}

#[test]
fn test_closed_connection_leaves_list() {
    let mut mgr = ConnectionManager::new();
    connect_ssh(&mut mgr, "c1", 21);
    connect_ssh(&mut mgr, "c2", 22);
    assert_eq!(mgr.list_connections().len(), 2);

    let closed = mgr.close_connection("c1");
    assert_eq!(closed.handle, Some(21));
    let listed = mgr.list_connections();
    assert!(!listed.iter().any(|id| id == "c1"));
    assert!(listed.iter().any(|id| id == "c2"));

    // Recreating the connection lists it again.
    connect_ssh(&mut mgr, "c1", 23);
    assert!(mgr.list_connections().iter().any(|id| id == "c1"));
}

#[test]
fn test_pty_generation_lifecycle() {
    // Generations count up from one; a stale close is a silent no-op;
    // a matching close removes the session.
    let mut mgr = ConnectionManager::new();
    connect_ssh(&mut mgr, "c1", 31);

    let started = mgr.start_pty_connection("c1", 80, 24, 100).expect("first start");
    assert_eq!(started.generation, 1);
    assert_eq!(started.replaced_channel, None);

    let started2 = mgr.start_pty_connection("c1", 80, 24, 101).expect("second start");
    assert_eq!(started2.generation, 2);
    assert_eq!(started2.replaced_channel, Some(100));
    // The first session is no longer reachable.
    assert_eq!(mgr.get_pty_cancel_token("c1"), Some(101));

    // Closing with the stale stamp removes nothing.
    assert_eq!(mgr.close_pty_connection("c1", Some(1)), None);
    assert_eq!(mgr.get_pty_cancel_token("c1"), Some(101));

    // Closing with the current stamp removes the session.
    assert_eq!(mgr.close_pty_connection("c1", Some(2)), Some(101));
    assert_eq!(mgr.get_pty_cancel_token("c1"), None);
}

#[test]
fn test_start_pty_requires_ssh_connection() {
    let mut mgr = ConnectionManager::new();
    assert_eq!(mgr.start_pty_connection("nope", 80, 24, 1), Err(PtyError::NotFound));
    mgr.create_sftp_connection("s", 2);
    assert_eq!(mgr.start_pty_connection("s", 80, 24, 1), Err(PtyError::NotFound));
}

#[test]
fn test_pty_write_then_read_round_trip() {
    // Bytes written into a session come back out exactly, in order,
    // however they were chunked.
    let mut mgr = ConnectionManager::new();
    connect_ssh(&mut mgr, "c1", 41);
    mgr.start_pty_connection("c1", 80, 24, 100).expect("start");

    mgr.write_to_pty("c1", b"ls -la".to_vec()).expect("write");
    mgr.write_to_pty("c1", b"\n".to_vec()).expect("write");
    assert_eq!(mgr.take_pty_input("c1"), Some(b"ls -la".to_vec()));
    assert_eq!(mgr.take_pty_input("c1"), Some(b"\n".to_vec()));
    assert_eq!(mgr.take_pty_input("c1"), None);

    mgr.push_pty_output("c1", b"total 0".to_vec()).expect("push");
    mgr.push_pty_output("c1", b"\r\n".to_vec()).expect("push");
    assert_eq!(mgr.read_from_pty("c1").expect("read"), b"total 0".to_vec());
    assert_eq!(mgr.read_from_pty("c1").expect("read"), b"\r\n".to_vec());
    // An empty result means nothing is queued right now.
    assert_eq!(mgr.read_from_pty("c1").expect("read"), Vec::<u8>::new());

    assert_eq!(mgr.write_to_pty("gone", b"x".to_vec()), Err(PtyError::NotFound));
    assert_eq!(mgr.read_from_pty("gone"), Err(PtyError::NotFound));
}

#[test]
fn test_pty_pause_suspends_output() {
    let mut mgr = ConnectionManager::new();
    connect_ssh(&mut mgr, "c1", 51);
    mgr.start_pty_connection("c1", 80, 24, 100).expect("start");
    mgr.push_pty_output("c1", b"held".to_vec()).expect("push");

    mgr.pause_pty("c1", true).expect("pause");
    assert_eq!(mgr.read_from_pty("c1").expect("read"), Vec::<u8>::new());
    mgr.pause_pty("c1", false).expect("resume");
    assert_eq!(mgr.read_from_pty("c1").expect("read"), b"held".to_vec());
}

#[test]
fn test_pty_resize_queue() {
    let mut mgr = ConnectionManager::new();
    connect_ssh(&mut mgr, "c1", 61);
    mgr.start_pty_connection("c1", 80, 24, 100).expect("start");
    mgr.resize_pty("c1", 100, 40).expect("resize");
    mgr.resize_pty("c1", 120, 50).expect("resize");
    assert_eq!(mgr.take_pty_resize("c1"), Some((100, 40)));
    assert_eq!(mgr.take_pty_resize("c1"), Some((120, 50)));
    assert_eq!(mgr.take_pty_resize("c1"), None);
    assert_eq!(mgr.resize_pty("gone", 1, 1), Err(PtyError::NotFound));
}

#[test]
fn test_close_connection_tears_down_pty() {
    let mut mgr = ConnectionManager::new();
    connect_ssh(&mut mgr, "c1", 71);
    mgr.start_pty_connection("c1", 80, 24, 200).expect("start");
    let closed = mgr.close_connection("c1");
    assert_eq!(closed.handle, Some(71));
    assert_eq!(closed.pty_channel, Some(200));
    assert!(mgr.get_connection("c1").is_none());
    assert!(mgr.get_pty_cancel_token("c1").is_none());

    // Generations survive the close: a new session continues counting.
    connect_ssh(&mut mgr, "c1", 72);
    let started = mgr.start_pty_connection("c1", 80, 24, 201).expect("start");
    assert_eq!(started.generation, 2);
}

#[test]
fn test_connect_error_messages() {
    assert_eq!(ConnectError::Timeout.message(), "connection timed out");
    assert_eq!(ConnectError::AuthFailed.message(), "authentication failed");
    assert_eq!(
        ConnectError::KeyError { decrypt_failure: true }.message(),
        "failed to decrypt the key file"
    );
    assert_eq!(
        ConnectError::KeyError { decrypt_failure: false }.message(),
        "key file not found or unreadable"
    );
    assert_eq!(ConnectError::NetworkError.message(), "network error");
    assert_eq!(ConnectError::Cancelled.message(), "connection cancelled");
}
