//! The "recording is ready" signal: a start of recording waits until the
//! first samples arrive, or gives up after a timeout.
//!
//! The waiting itself (lock, condition variable, clock) belongs to the
//! caller; this module decides what each step does.

use vstd::prelude::*;

verus! {

/// How long a start waits for the first samples, in nanoseconds.
pub const READY_TIMEOUT_NANOS: u64 = 2_000_000_000;

/// Whether the first samples of the current recording have arrived.
pub struct ReadySignal {
    pub ready: bool,
}

/// The signal as first created: not ready.
pub fn recording_ready_signal() -> (s: ReadySignal)
    ensures
        !s.ready,
{
    ReadySignal { ready: false }
}

/// Clears the signal before a new recording starts.
pub fn reset_recording_ready(s: &mut ReadySignal)
    ensures
        !final(s).ready,
{
    s.ready = false;
}

/// Readiness after a notify, and whether the notify wakes waiters.
pub open spec fn notified(ready: bool) -> (bool, bool) {
    (true, !ready)
}

/// Marks the signal ready.  Returns whether waiters are to be woken, which
/// is only on the change from not ready to ready.
pub fn notify_recording_ready(s: &mut ReadySignal) -> (wake: bool)
    ensures
        (final(s).ready, wake) == notified(old(s).ready),
{
    if !s.ready {
        s.ready = true;
        true
    } else {
        false
    }
}

/// What a waiting start does next.
pub enum WaitStep {
    /// The first samples are there: the start succeeds.
    Ready,
    /// The timeout has passed without them: the start fails.
    TimedOut,
    /// Wait on the condition variable for at most this many nanoseconds.
    WaitFor(u64),
}

pub open spec fn wait_step(ready: bool, elapsed_nanos: u64) -> WaitStep {
    if ready {
        WaitStep::Ready
    } else if elapsed_nanos >= READY_TIMEOUT_NANOS {
        WaitStep::TimedOut
    } else {
        WaitStep::WaitFor((READY_TIMEOUT_NANOS - elapsed_nanos) as u64)
    }
}

/// One step of waiting for the signal, `elapsed_nanos` after the wait began.
pub fn wait_recording_ready(s: &ReadySignal, elapsed_nanos: u64) -> (step: WaitStep)
    ensures
        step == wait_step(s.ready, elapsed_nanos),
        step matches WaitStep::WaitFor(d) ==> 0 < d <= READY_TIMEOUT_NANOS && elapsed_nanos + d == READY_TIMEOUT_NANOS,
{
    if s.ready {
        WaitStep::Ready
    } else if elapsed_nanos >= READY_TIMEOUT_NANOS {
        WaitStep::TimedOut
    } else {
        WaitStep::WaitFor(READY_TIMEOUT_NANOS - elapsed_nanos)
    }
}

/// The text of the error a start reports when the device never delivered.
pub fn ready_timeout_message() -> (m: String)
    ensures
        m@ == "録音デバイスの開始確認がタイムアウトしました"@,
{
    String::from_str("録音デバイスの開始確認がタイムアウトしました")
}

/// Waiters are woken once per recording: after a reset the first notify
/// wakes them and makes the signal ready, a further notify wakes no one, and
/// a wait on a ready signal ends at once.
pub proof fn lemma_notify_wakes_once()
    ensures
        notified(false) == (true, true),
        notified(notified(false).0) == (true, false),
        forall|elapsed: u64| wait_step(notified(false).0, elapsed) == WaitStep::Ready,
{
}

/// A wait never outlasts the timeout: each step waits at most until the
/// timeout is reached, and once it is reached an unready signal fails.
pub proof fn lemma_wait_bounded(ready: bool, elapsed_nanos: u64)
    ensures
        wait_step(ready, elapsed_nanos) matches WaitStep::WaitFor(d) ==> elapsed_nanos + d == READY_TIMEOUT_NANOS,
        !ready && elapsed_nanos >= READY_TIMEOUT_NANOS ==> wait_step(ready, elapsed_nanos) == WaitStep::TimedOut,
{
}

} // verus!
