use navigate::lock::{next_lock_action, LockAction, LockState, MAX_WAIT_MS, RETRY_DELAY_MS, STALE_AFTER_MS};
use navigate::session::{record_file_name, resolve, SessionId, SessionResolutionError};
use navigate::operation::{run_operation, Reply, StackOperation};

#[test]
fn resolve_uses_the_shell_pid() {
    assert_eq!(resolve(Some(4242)), Ok(SessionId { pid: 4242 }));
    assert_eq!(resolve(None), Err(SessionResolutionError::NoProcessId));
    assert_eq!(resolve(Some(0)), Err(SessionResolutionError::NoProcessId));
}

#[test]
fn record_names_are_per_session() {
    assert_eq!(record_file_name(SessionId { pid: 42 }), b"stack-42".to_vec());
    assert_eq!(record_file_name(SessionId { pid: 7 }), b"stack-7".to_vec());
    assert_eq!(record_file_name(SessionId { pid: 4294967295 }), b"stack-4294967295".to_vec());
    assert_ne!(record_file_name(SessionId { pid: 12 }), record_file_name(SessionId { pid: 120 }));
}

#[test]
fn sessions_do_not_share_stacks() {
    let a = record_file_name(SessionId { pid: 100 });
    let b = record_file_name(SessionId { pid: 200 });
    assert_ne!(a, b);
    let pushed = run_operation(None, StackOperation::Push(Some(b"/tmp".to_vec())));
    assert!(pushed.write.is_some());
    // session B has no record of its own yet
    let listed = run_operation(None, StackOperation::List);
    match listed.reply {
        Ok(Reply::Listed(v)) => assert!(v.is_empty()),
        _ => panic!("expected a listing"),
    }
}

#[test]
fn lock_decisions() {
    assert_eq!(next_lock_action(LockState::Free, 0), LockAction::Take);
    assert_eq!(
        next_lock_action(LockState::Held { holder_alive: false, age_ms: 0 }, 0),
        LockAction::Reclaim
    );
    assert_eq!(
        next_lock_action(LockState::Held { holder_alive: true, age_ms: STALE_AFTER_MS + 1 }, 0),
        LockAction::Reclaim
    );
    assert_eq!(
        next_lock_action(LockState::Held { holder_alive: true, age_ms: 10 }, 0),
        LockAction::Wait(RETRY_DELAY_MS)
    );
    assert_eq!(
        next_lock_action(LockState::Held { holder_alive: true, age_ms: 10 }, MAX_WAIT_MS),
        LockAction::GiveUp
    );
}
