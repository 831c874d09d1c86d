use rshell_core::errors::ExecError;
use rshell_core::exec_cmd::{ChannelEvent, ExecState};

#[test]
fn test_exec_success_with_zero_exit() {
    let mut s = ExecState::new();
    s.exec_step(&ChannelEvent::Data(b"hello\n".to_vec()));
    s.exec_step(&ChannelEvent::ExitStatus(0));
    assert!(!s.done);
    s.exec_step(&ChannelEvent::Eof);
    assert!(s.done);
    assert_eq!(s.exec_outcome(), Ok(b"hello\n".to_vec()));
}

#[test]
fn test_exec_success_without_exit_status() {
    // A server that closes without reporting an exit status still
    // counts as success when output arrived.
    let mut s = ExecState::new();
    s.exec_step(&ChannelEvent::Data(b"output".to_vec()));
    s.exec_step(&ChannelEvent::Close);
    assert!(s.done);
    assert_eq!(s.exec_outcome(), Ok(b"output".to_vec()));
}

#[test]
fn test_exec_failure_nonzero_exit() {
    let mut s = ExecState::new();
    s.exec_step(&ChannelEvent::Data(b"oops".to_vec()));
    s.exec_step(&ChannelEvent::Eof);
    assert!(!s.done);
    s.exec_step(&ChannelEvent::ExitStatus(2));
    assert!(s.done);
    assert_eq!(s.exec_outcome(), Err(ExecError { exit_code: Some(2) }));
}

#[test]
fn test_exec_failure_no_output_no_status() {
    let mut s = ExecState::new();
    s.exec_step(&ChannelEvent::Disconnected);
    assert!(s.done);
    assert_eq!(s.exec_outcome(), Err(ExecError { exit_code: None }));
}

#[test]
fn test_exec_output_order_preserved() {
    let mut s = ExecState::new();
    s.exec_step(&ChannelEvent::Data(b"a".to_vec()));
    s.exec_step(&ChannelEvent::Other);
    s.exec_step(&ChannelEvent::Data(b"b".to_vec()));
    s.exec_step(&ChannelEvent::Data(b"c".to_vec()));
    s.exec_step(&ChannelEvent::ExitStatus(0));
    s.exec_step(&ChannelEvent::Eof);
    assert_eq!(s.exec_outcome(), Ok(b"abc".to_vec()));
}

#[test]
fn test_exec_concurrent_runs_do_not_mix() {
    // Each execution runs on its own channel with its own state, so
    // interleaved commands cannot contaminate each other.
    let mut a = ExecState::new();
    let mut b = ExecState::new();
    a.exec_step(&ChannelEvent::Data(b"a\n".to_vec()));
    b.exec_step(&ChannelEvent::Data(b"b\n".to_vec()));
    b.exec_step(&ChannelEvent::ExitStatus(0));
    a.exec_step(&ChannelEvent::ExitStatus(0));
    a.exec_step(&ChannelEvent::Eof);
    b.exec_step(&ChannelEvent::Eof);
    assert_eq!(a.exec_outcome(), Ok(b"a\n".to_vec()));
    assert_eq!(b.exec_outcome(), Ok(b"b\n".to_vec()));
}
