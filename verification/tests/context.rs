use libzmq::context::ContextState;

#[test]
fn context_shutdown_is_idempotent_after_first_transition() {
    assert_eq!(ContextState::Running.shutdown(), ContextState::ShuttingDown);
    assert_eq!(
        ContextState::ShuttingDown.shutdown(),
        ContextState::ShuttingDown
    );
}

#[test]
fn context_terminate_moves_active_states_to_terminating() {
    assert_eq!(ContextState::Running.terminate(), ContextState::Terminating);
    assert_eq!(
        ContextState::ShuttingDown.terminate(),
        ContextState::Terminating
    );
}

#[test]
fn terminated_context_stays_terminated() {
    assert_eq!(ContextState::Terminated.shutdown(), ContextState::Terminated);
    assert_eq!(ContextState::Terminated.terminate(), ContextState::Terminated);
    assert_eq!(ContextState::Terminating.shutdown(), ContextState::Terminating);
    assert_eq!(ContextState::Terminating.terminate(), ContextState::Terminating);
}

#[test]
fn repeated_requests_change_nothing() {
    let all = [
        ContextState::Running,
        ContextState::ShuttingDown,
        ContextState::Terminating,
        ContextState::Terminated,
    ];
    for s in all {
        assert_eq!(s.shutdown().shutdown(), s.shutdown());
        assert_eq!(s.terminate().terminate(), s.terminate());
        assert_eq!(s.shutdown().terminate(), s.terminate());
    }
}
