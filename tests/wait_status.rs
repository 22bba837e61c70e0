use udbg::wait_status::{classify_status, finish_status, StatusClass, WaitStatus};

#[test]
fn exit_status_gives_exit_code() {
    assert_eq!(classify_status(0x0000), Some(StatusClass::Ready(WaitStatus::Exit(0))));
    assert_eq!(classify_status(0x0300), Some(StatusClass::Ready(WaitStatus::Exit(3))));
    assert_eq!(classify_status(0xff00), Some(StatusClass::Ready(WaitStatus::Exit(255))));
}

#[test]
fn killed_by_signal() {
    assert_eq!(classify_status(9), Some(StatusClass::Ready(WaitStatus::Signal(9))));
    // core-dump bit set beside SIGSEGV
    assert_eq!(classify_status(0x8b), Some(StatusClass::Ready(WaitStatus::Signal(11))));
}

#[test]
fn plain_stop_gives_signal() {
    assert_eq!(classify_status(0x137f), Some(StatusClass::Ready(WaitStatus::Stop(19))));
    assert_eq!(classify_status(0x057f), Some(StatusClass::Ready(WaitStatus::Stop(5))));
}

#[test]
fn clone_and_exec_events() {
    assert_eq!(classify_status((3 << 16) | 0x057f), Some(StatusClass::CloneEvent));
    assert_eq!(classify_status((4 << 16) | 0x057f), Some(StatusClass::Ready(WaitStatus::Exec)));
    // another event number is a plain stop
    assert_eq!(classify_status((5 << 16) | 0x057f), Some(StatusClass::Ready(WaitStatus::Stop(5))));
}

#[test]
fn continued_and_invalid() {
    assert_eq!(classify_status(0xffff), Some(StatusClass::Ready(WaitStatus::Continue)));
    assert_eq!(classify_status(0x1ffff), None);
}

#[test]
fn clone_event_needs_new_tid() {
    assert_eq!(finish_status(StatusClass::CloneEvent, Some(4242)), Some(WaitStatus::Clone(4242)));
    assert_eq!(finish_status(StatusClass::CloneEvent, None), None);
    assert_eq!(
        finish_status(StatusClass::Ready(WaitStatus::Exit(0)), None),
        Some(WaitStatus::Exit(0))
    );
}
