use voice_input::ready::{
    notify_recording_ready, ready_timeout_message, recording_ready_signal, reset_recording_ready,
    wait_recording_ready, WaitStep, READY_TIMEOUT_NANOS,
};

#[test]
fn signal_starts_unready() {
    let s = recording_ready_signal();
    assert!(!s.ready);
}

#[test]
fn notify_wakes_once_per_recording() {
    let mut s = recording_ready_signal();
    assert!(notify_recording_ready(&mut s));
    assert!(s.ready);
    assert!(!notify_recording_ready(&mut s));
    reset_recording_ready(&mut s);
    assert!(!s.ready);
    assert!(notify_recording_ready(&mut s));
}

#[test]
fn waiting_steps() {
    let mut s = recording_ready_signal();
    assert!(matches!(wait_recording_ready(&s, 0), WaitStep::WaitFor(2_000_000_000)));
    assert!(matches!(wait_recording_ready(&s, 1_500_000_000), WaitStep::WaitFor(500_000_000)));
    assert!(matches!(wait_recording_ready(&s, READY_TIMEOUT_NANOS), WaitStep::TimedOut));
    assert!(matches!(wait_recording_ready(&s, u64::MAX), WaitStep::TimedOut));
    notify_recording_ready(&mut s);
    assert!(matches!(wait_recording_ready(&s, u64::MAX), WaitStep::Ready));
}

#[test]
fn timeout_message() {
    assert_eq!(ready_timeout_message(), "録音デバイスの開始確認がタイムアウトしました");
}
