//! The session state machine on concrete event traces: retries, backoff,
//! recovery, heartbeats and dispatch order.
use gate_client::session::{
    default_policy, initial_state, step, Action, Event, Phase, RetryPolicy, SessionState,
    HEARTBEAT_INTERVAL, MAX_RETRY_ATTEMPTS, MAX_RETRY_DELAY, RESUBSCRIBE_INTERVAL, RETRY_DELAY,
};

fn active_state(p: &RetryPolicy) -> SessionState {
    let s = initial_state(p);
    let (s, a) = step(p, s, Event::ConnectSucceeded);
    assert_eq!(a, Action::SendSubscribe);
    let (s, _) = step(p, s, Event::SubscribeSent);
    assert_eq!(s.phase, Phase::Active);
    s
}

#[test]
fn configured_intervals() {
    assert_eq!(HEARTBEAT_INTERVAL, 20);
    assert_eq!(RESUBSCRIBE_INTERVAL, 60);
    assert_eq!(RETRY_DELAY, 5);
    assert_eq!(MAX_RETRY_DELAY, 60);
    assert_eq!(MAX_RETRY_ATTEMPTS, 10);
}

#[test]
fn retry_delays_double_and_cap() {
    // Starting at 5: the successive waits are 5, 10, 20, 40, 60, 60, ...
    let p = default_policy();
    let mut s = initial_state(&p);
    let mut waits: Vec<u64> = Vec::new();
    for _ in 0..6 {
        let (s2, a) = step(&p, s, Event::ConnectFailed);
        match a {
            Action::Wait(d) => waits.push(d),
            other => panic!("expected a wait, got {:?}", other),
        }
        let (s3, a3) = step(&p, s2, Event::BackoffElapsed);
        assert_eq!(a3, Action::OpenConnection);
        s = s3;
    }
    assert_eq!(waits, vec![5, 10, 20, 40, 60, 60]);
}

#[test]
fn retries_exhaust_and_session_terminates() {
    // As many consecutive connect failures as the policy allows end the
    // session; afterwards no event produces any activity.
    let p = default_policy();
    let mut s = initial_state(&p);
    let mut last = Action::Idle;
    for _ in 0..MAX_RETRY_ATTEMPTS {
        let (s2, a) = step(&p, s, Event::ConnectFailed);
        s = s2;
        last = a;
        if s.phase == Phase::Terminated {
            break;
        }
        let (s3, _) = step(&p, s2, Event::BackoffElapsed);
        s = s3;
    }
    assert_eq!(s.phase, Phase::Terminated);
    assert_eq!(last, Action::Exit);
    for e in [
        Event::ConnectFailed,
        Event::BackoffElapsed,
        Event::ConnectSucceeded,
        Event::HeartbeatTick,
    ] {
        let (s2, a) = step(&p, s, e);
        assert_eq!(s2.phase, Phase::Terminated);
        assert_eq!(a, Action::Idle);
        s = s2;
    }
}

#[test]
fn subscribe_failure_counts_like_connect_failure() {
    let p = default_policy();
    let s = initial_state(&p);
    let (s, _) = step(&p, s, Event::ConnectSucceeded);
    assert_eq!(s.phase, Phase::Subscribing);
    let (s, a) = step(&p, s, Event::SubscribeFailed);
    assert_eq!(s.phase, Phase::Backoff);
    assert_eq!(s.retry_count, 1);
    assert_eq!(a, Action::Wait(5));
}

#[test]
fn active_entry_resets_retry_state() {
    // Fail once, succeed, fail again: the second failure waits the initial
    // delay, not the doubled one.
    let p = default_policy();
    let s = initial_state(&p);
    let (s, a) = step(&p, s, Event::ConnectFailed);
    assert_eq!(a, Action::Wait(5));
    assert_eq!(s.retry_delay, 10);
    let (s, _) = step(&p, s, Event::BackoffElapsed);
    let (s, _) = step(&p, s, Event::ConnectSucceeded);
    let (s, _) = step(&p, s, Event::SubscribeSent);
    assert_eq!(s.phase, Phase::Active);
    assert_eq!(s.retry_count, 0);
    assert_eq!(s.retry_delay, 5);
    let (s, a) = step(&p, s, Event::ReadError);
    assert_eq!(a, Action::CancelTasks);
    let (_, a) = step(&p, s, Event::Drained);
    assert_eq!(a, Action::Wait(5));
}

#[test]
fn heartbeat_only_while_active() {
    let p = default_policy();
    let s0 = initial_state(&p);
    let (_, a) = step(&p, s0, Event::HeartbeatTick);
    assert_eq!(a, Action::Idle);
    let s = active_state(&p);
    let (s, a) = step(&p, s, Event::HeartbeatTick);
    assert_eq!(a, Action::EnqueueHeartbeat);
    // After teardown begins, a straggling tick enqueues nothing.
    let (s, a) = step(&p, s, Event::StreamClosed);
    assert_eq!(a, Action::CancelTasks);
    assert_eq!(s.phase, Phase::Draining);
    let (_, a) = step(&p, s, Event::HeartbeatTick);
    assert_eq!(a, Action::Idle);
}

#[test]
fn periodic_resubscribe_while_active() {
    let p = default_policy();
    let s = active_state(&p);
    let (_, a) = step(&p, s, Event::ResubscribeTick);
    assert_eq!(a, Action::SendSubscribe);
}

#[test]
fn frames_dispatch_in_arrival_order() {
    let p = default_policy();
    let s = active_state(&p);
    let (s, a1) = step(&p, s, Event::TextFrame("first".to_string()));
    let (s, ab) = step(&p, s, Event::BinaryFrame);
    let (_, a2) = step(&p, s, Event::TextFrame("second".to_string()));
    assert_eq!(a1, Action::Dispatch("first".to_string()));
    assert_eq!(ab, Action::Idle);
    assert_eq!(a2, Action::Dispatch("second".to_string()));
}

#[test]
fn read_error_drains_and_retries() {
    let p = default_policy();
    let s = active_state(&p);
    let (s, a) = step(&p, s, Event::ReadError);
    assert_eq!(s.phase, Phase::Draining);
    assert_eq!(a, Action::CancelTasks);
    let (s, a) = step(&p, s, Event::Drained);
    assert_eq!(s.phase, Phase::Backoff);
    assert_eq!(a, Action::Wait(5));
    let (s, a) = step(&p, s, Event::BackoffElapsed);
    assert_eq!(s.phase, Phase::Connecting);
    assert_eq!(a, Action::OpenConnection);
}
