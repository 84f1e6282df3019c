use libzmq::poller::PollTargetKind;

#[test]
fn poller_plan_keeps_socket_and_fd_targets() {
    assert_ne!(PollTargetKind::Socket, PollTargetKind::FileDescriptor);
}
