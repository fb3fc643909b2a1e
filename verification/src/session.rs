//! The streaming session state machine: connect, subscribe, stay active with
//! heartbeats and periodic resubscription, tear down on failure, retry with a
//! doubling capped backoff, and give up for good after too many failures.
//!
//! The machine is a pure function from state and event to state and action;
//! the surrounding runtime performs each action and feeds back what happened.
use vstd::prelude::*;

verus! {

/// Seconds between two heartbeat pings on a live connection.
pub const HEARTBEAT_INTERVAL: u64 = 20;

/// Seconds between two defensive resubscriptions on a live connection.
pub const RESUBSCRIBE_INTERVAL: u64 = 60;

/// The first retry delay, in seconds.
pub const RETRY_DELAY: u64 = 5;

/// The ceiling of the doubling retry delay, in seconds.
pub const MAX_RETRY_DELAY: u64 = 60;

/// Consecutive failures after which the session terminates.
pub const MAX_RETRY_ATTEMPTS: u32 = 10;

/// The retry policy of one session.
#[derive(Debug, Clone, Copy)]
pub struct RetryPolicy {
    pub initial_delay: u64,
    pub max_delay: u64,
    pub max_attempts: u32,
}

/// A sensible policy: at least one attempt, and an initial delay no larger
/// than the cap.
pub open spec fn policy_wf(p: RetryPolicy) -> bool {
    1 <= p.max_attempts && p.initial_delay <= p.max_delay
}

/// The stock policy: delays start at 5 s and double up to 60 s, and the
/// tenth consecutive failure is fatal.
pub fn default_policy() -> (p: RetryPolicy)
    ensures
        p.initial_delay == RETRY_DELAY,
        p.max_delay == MAX_RETRY_DELAY,
        p.max_attempts == MAX_RETRY_ATTEMPTS,
        policy_wf(p),
{
    RetryPolicy { initial_delay: RETRY_DELAY, max_delay: MAX_RETRY_DELAY, max_attempts: MAX_RETRY_ATTEMPTS }
}

/// Where the session stands.
#[derive(Debug, Clone, Copy, PartialEq, Eq, Structural)]
pub enum Phase {
    /// Opening a socket.
    Connecting,
    /// Socket open, initial subscribe being sent.
    Subscribing,
    /// Live: heartbeats, resubscription and the read loop run.
    Active,
    /// A failure was seen; the connection's tasks are being cancelled.
    Draining,
    /// Waiting out the retry delay.
    Backoff,
    /// Given up for good; the session returns.
    Terminated,
}

/// The session state: the phase and the retry bookkeeping.
#[derive(Debug, Clone, Copy, PartialEq, Eq, Structural)]
pub struct SessionState {
    pub phase: Phase,
    pub retry_count: u32,
    pub retry_delay: u64,
}

/// What the state is allowed to look like under a policy: the delay never
/// exceeds the cap, and the counter stays below the maximum until the
/// terminal phase.
pub open spec fn state_wf(p: RetryPolicy, s: SessionState) -> bool {
    s.retry_delay <= p.max_delay && (s.phase is Terminated || s.retry_count < p.max_attempts)
}

/// What the runtime reports to the machine.
#[derive(Debug, Clone, PartialEq, Eq)]
pub enum Event {
    ConnectSucceeded,
    ConnectFailed,
    SubscribeSent,
    SubscribeFailed,
    HeartbeatTick,
    ResubscribeTick,
    /// A text frame arrived with this payload.
    TextFrame(String),
    /// A non-text frame arrived; it is discarded.
    BinaryFrame,
    ReadError,
    StreamClosed,
    Drained,
    BackoffElapsed,
}

/// What the runtime must do next.
#[derive(Debug, Clone, PartialEq, Eq)]
pub enum Action {
    /// Open a new socket connection.
    OpenConnection,
    /// Send the subscribe frame over the live connection.
    SendSubscribe,
    /// Enqueue one heartbeat ping on the live connection's queue.
    EnqueueHeartbeat,
    /// Hand this text to the session's handler or callback.
    Dispatch(String),
    /// Cancel the connection's heartbeat, resubscribe and sender tasks and
    /// drop its queue.
    CancelTasks,
    /// Sleep this many seconds before reconnecting.
    Wait(u64),
    /// Return from the session: retries are exhausted.
    Exit,
    /// Nothing to do.
    Idle,
}

/// The session starts connecting with a fresh retry budget.
pub open spec fn initial_state_spec(p: RetryPolicy) -> SessionState {
    SessionState { phase: Phase::Connecting, retry_count: 0, retry_delay: p.initial_delay }
}

/// The fresh state a `run` invocation starts from.
pub fn initial_state(p: &RetryPolicy) -> (s: SessionState)
    ensures
        s == initial_state_spec(*p),
        policy_wf(*p) ==> state_wf(*p, s),
{
    SessionState { phase: Phase::Connecting, retry_count: 0, retry_delay: p.initial_delay }
}

/// One failure: count it; at the maximum terminate, otherwise wait the
/// current delay and double it, capped.
pub open spec fn fail_step_spec(p: RetryPolicy, s: SessionState) -> (SessionState, Action) {
    if s.retry_count + 1 >= p.max_attempts {
        (
            SessionState {
                phase: Phase::Terminated,
                retry_count: (s.retry_count + 1) as u32,
                retry_delay: s.retry_delay,
            },
            Action::Exit,
        )
    } else {
        (
            SessionState {
                phase: Phase::Backoff,
                retry_count: (s.retry_count + 1) as u32,
                retry_delay: if 2 * s.retry_delay <= p.max_delay {
                    (2 * s.retry_delay) as u64
                } else {
                    p.max_delay
                },
            },
            Action::Wait(s.retry_delay),
        )
    }
}

/// The transition function: what the session does with one event.
pub open spec fn step_spec(p: RetryPolicy, s: SessionState, e: Event) -> (SessionState, Action) {
    match (s.phase, e) {
        (Phase::Connecting, Event::ConnectSucceeded) => (
            SessionState { phase: Phase::Subscribing, ..s },
            Action::SendSubscribe,
        ),
        (Phase::Connecting, Event::ConnectFailed) => fail_step_spec(p, s),
        (Phase::Subscribing, Event::SubscribeSent) => (
            SessionState {
                phase: Phase::Active,
                retry_count: 0,
                retry_delay: p.initial_delay,
            },
            Action::Idle,
        ),
        (Phase::Subscribing, Event::SubscribeFailed) => fail_step_spec(p, s),
        (Phase::Active, Event::HeartbeatTick) => (s, Action::EnqueueHeartbeat),
        (Phase::Active, Event::ResubscribeTick) => (s, Action::SendSubscribe),
        (Phase::Active, Event::TextFrame(t)) => (s, Action::Dispatch(t)),
        (Phase::Active, Event::BinaryFrame) => (s, Action::Idle),
        (Phase::Active, Event::ReadError) => (
            SessionState { phase: Phase::Draining, ..s },
            Action::CancelTasks,
        ),
        (Phase::Active, Event::StreamClosed) => (
            SessionState { phase: Phase::Draining, ..s },
            Action::CancelTasks,
        ),
        (Phase::Draining, Event::Drained) => fail_step_spec(p, s),
        (Phase::Backoff, Event::BackoffElapsed) => (
            SessionState { phase: Phase::Connecting, ..s },
            Action::OpenConnection,
        ),
        _ => (s, Action::Idle),
    }
}

/// Runs one step of the session: the executable mirror of [`step_spec`].
pub fn step(p: &RetryPolicy, s: SessionState, e: Event) -> (r: (SessionState, Action))
    requires
        policy_wf(*p),
        state_wf(*p, s),
    ensures
        r == step_spec(*p, s, e),
        state_wf(*p, r.0),
{
    match (s.phase, e) {
        (Phase::Connecting, Event::ConnectSucceeded) => (
            SessionState { phase: Phase::Subscribing, ..s },
            Action::SendSubscribe,
        ),
        (Phase::Connecting, Event::ConnectFailed) => fail_step(p, s),
        (Phase::Subscribing, Event::SubscribeSent) => (
            SessionState { phase: Phase::Active, retry_count: 0, retry_delay: p.initial_delay },
            Action::Idle,
        ),
        (Phase::Subscribing, Event::SubscribeFailed) => fail_step(p, s),
        (Phase::Active, Event::HeartbeatTick) => (s, Action::EnqueueHeartbeat),
        (Phase::Active, Event::ResubscribeTick) => (s, Action::SendSubscribe),
        (Phase::Active, Event::TextFrame(t)) => (s, Action::Dispatch(t)),
        (Phase::Active, Event::BinaryFrame) => (s, Action::Idle),
        (Phase::Active, Event::ReadError) => (
            SessionState { phase: Phase::Draining, ..s },
            Action::CancelTasks,
        ),
        (Phase::Active, Event::StreamClosed) => (
            SessionState { phase: Phase::Draining, ..s },
            Action::CancelTasks,
        ),
        (Phase::Draining, Event::Drained) => fail_step(p, s),
        (Phase::Backoff, Event::BackoffElapsed) => (
            SessionState { phase: Phase::Connecting, ..s },
            Action::OpenConnection,
        ),
        _ => (s, Action::Idle),
    }
}

/// Doubles a delay, saturating at `cap`.
pub fn double_capped(delay: u64, cap: u64) -> (r: u64)
    ensures
        r == if 2 * delay <= cap { 2 * delay } else { cap as int },
{
    if delay <= cap / 2 {
        2 * delay
    } else {
        cap
    }
}

/// The executable mirror of [`fail_step_spec`].
fn fail_step(p: &RetryPolicy, s: SessionState) -> (r: (SessionState, Action))
    requires
        policy_wf(*p),
        s.retry_count < p.max_attempts,
        s.retry_delay <= p.max_delay,
    ensures
        r == fail_step_spec(*p, s),
        state_wf(*p, r.0),
{
    let rc = s.retry_count + 1;
    if rc >= p.max_attempts {
        (
            SessionState { phase: Phase::Terminated, retry_count: rc, retry_delay: s.retry_delay },
            Action::Exit,
        )
    } else {
        (
            SessionState {
                phase: Phase::Backoff,
                retry_count: rc,
                retry_delay: double_capped(s.retry_delay, p.max_delay),
            },
            Action::Wait(s.retry_delay),
        )
    }
}

/// The state after folding a sequence of events through the machine.
pub open spec fn run_steps(p: RetryPolicy, s: SessionState, events: Seq<Event>) -> SessionState
    decreases events.len(),
{
    if events.len() == 0 {
        s
    } else {
        run_steps(p, step_spec(p, s, events[0]).0, events.drop_first())
    }
}

/// The actions a sequence of events makes the machine emit, in order.
pub open spec fn actions_of(p: RetryPolicy, s: SessionState, events: Seq<Event>) -> Seq<Action>
    decreases events.len(),
{
    if events.len() == 0 {
        Seq::empty()
    } else {
        seq![step_spec(p, s, events[0]).1] + actions_of(
            p,
            step_spec(p, s, events[0]).0,
            events.drop_first(),
        )
    }
}

/// The texts the machine dispatches while folding a sequence of events.
pub open spec fn dispatches_of(p: RetryPolicy, s: SessionState, events: Seq<Event>) -> Seq<
    Seq<char>,
>
    decreases events.len(),
{
    if events.len() == 0 {
        Seq::empty()
    } else {
        (match step_spec(p, s, events[0]).1 {
            Action::Dispatch(t) => seq![t@],
            _ => Seq::empty(),
        }) + dispatches_of(p, step_spec(p, s, events[0]).0, events.drop_first())
    }
}

/// The payloads of the text frames of an event sequence, in arrival order.
pub open spec fn text_frames_of(events: Seq<Event>) -> Seq<Seq<char>>
    decreases events.len(),
{
    if events.len() == 0 {
        Seq::empty()
    } else {
        (match events[0] {
            Event::TextFrame(t) => seq![t@],
            _ => Seq::empty(),
        }) + text_frames_of(events.drop_first())
    }
}

/// An event a live connection can produce while it stays live.
pub open spec fn live_event(e: Event) -> bool {
    e is TextFrame || e is BinaryFrame || e is HeartbeatTick || e is ResubscribeTick
}

/// A heartbeat is enqueued exactly on a heartbeat tick in the `Active`
/// phase: no other phase and no other event ever enqueues one.
pub proof fn lemma_heartbeat_only_when_active(p: RetryPolicy, s: SessionState, e: Event)
    ensures
        step_spec(p, s, e).1 is EnqueueHeartbeat <==> (s.phase is Active && e is HeartbeatTick),
{
}

/// A terminated session stays terminated and answers every further event
/// with no action at all: in particular it never connects again.
pub proof fn lemma_terminated_stays(p: RetryPolicy, s: SessionState, events: Seq<Event>)
    requires
        s.phase is Terminated,
    ensures
        run_steps(p, s, events).phase is Terminated,
        actions_of(p, s, events).len() == events.len(),
        forall|i: int|
            0 <= i < events.len() ==> actions_of(p, s, events)[i] is Idle,
    decreases events.len(),
{
    if events.len() > 0 {
        assert(step_spec(p, s, events[0]).0 == s);
        assert(step_spec(p, s, events[0]).1 is Idle);
        lemma_terminated_stays(p, s, events.drop_first());
        assert forall|i: int| 0 <= i < events.len() implies actions_of(p, s, events)[i]
            is Idle by {
            if i > 0 {
                assert(actions_of(p, s, events)[i] == actions_of(
                    p,
                    s,
                    events.drop_first(),
                )[i - 1]);
            }
        }
    }
}

/// The event trace of `n` consecutive failed connection attempts: each
/// failure, then the backoff running out.
pub open spec fn fail_retry_events(n: nat) -> Seq<Event>
    decreases n,
{
    if n == 0 {
        Seq::empty()
    } else {
        seq![Event::ConnectFailed, Event::BackoffElapsed] + fail_retry_events((n - 1) as nat)
    }
}

proof fn lemma_retries_exhaust_from(p: RetryPolicy, s: SessionState, n: nat)
    requires
        policy_wf(p),
        state_wf(p, s),
        s.phase is Connecting,
        n >= 1,
        s.retry_count + n == p.max_attempts,
    ensures
        run_steps(p, s, fail_retry_events(n)).phase is Terminated,
    decreases n,
{
    let events = fail_retry_events(n);
    let rest = events.drop_first();
    let (s1, _) = step_spec(p, s, Event::ConnectFailed);
    assert(events[0] == Event::ConnectFailed);
    assert(run_steps(p, s, events) == run_steps(p, s1, rest));
    if n == 1 {
        assert(s1.phase is Terminated);
        assert(rest =~= seq![Event::BackoffElapsed] + fail_retry_events(0));
        assert(rest =~= seq![Event::BackoffElapsed]);
        lemma_terminated_stays(p, s1, rest);
    } else {
        assert(s1.phase is Backoff && s1.retry_count == s.retry_count + 1);
        assert(rest[0] == Event::BackoffElapsed);
        let (s2, _) = step_spec(p, s1, Event::BackoffElapsed);
        assert(s2.phase is Connecting && s2.retry_count == s.retry_count + 1);
        assert(state_wf(p, s2));
        assert(run_steps(p, s1, rest) == run_steps(p, s2, rest.drop_first()));
        lemma_retries_exhaust_from(p, s2, (n - 1) as nat);
        assert(rest.drop_first() =~= fail_retry_events((n - 1) as nat));
        assert(run_steps(p, s2, rest.drop_first()) == run_steps(
            p,
            s2,
            fail_retry_events((n - 1) as nat),
        ));
    }
}

/// As many consecutive connect failures as the policy allows drive a fresh
/// session to `Terminated`; together with [`lemma_terminated_stays`], no
/// further connection attempt ever happens.
pub proof fn lemma_retries_exhaust(p: RetryPolicy)
    requires
        policy_wf(p),
    ensures
        run_steps(p, initial_state_spec(p), fail_retry_events(p.max_attempts as nat)).phase
            is Terminated,
{
    lemma_retries_exhaust_from(p, initial_state_spec(p), p.max_attempts as nat);
}

/// On every failure short of the last the session waits exactly the current
/// delay, then doubles it up to the cap, and counts the attempt.
pub proof fn lemma_backoff_doubles(p: RetryPolicy, s: SessionState, e: Event)
    requires
        policy_wf(p),
        state_wf(p, s),
        (s.phase is Connecting && e is ConnectFailed) || (s.phase is Subscribing
            && e is SubscribeFailed) || (s.phase is Draining && e is Drained),
        s.retry_count + 1 < p.max_attempts,
    ensures
        step_spec(p, s, e).1 == Action::Wait(s.retry_delay),
        step_spec(p, s, e).0.phase is Backoff,
        step_spec(p, s, e).0.retry_count == s.retry_count + 1,
        step_spec(p, s, e).0.retry_delay == if 2 * s.retry_delay <= p.max_delay {
            2 * s.retry_delay
        } else {
            p.max_delay as int
        },
{
}

/// Entering `Active` — and only a successful subscribe enters it — resets
/// the retry counter to zero and the delay to the initial value.
pub proof fn lemma_active_entry_resets(p: RetryPolicy, s: SessionState)
    requires
        s.phase is Subscribing,
    ensures
        step_spec(p, s, Event::SubscribeSent).0.phase is Active,
        step_spec(p, s, Event::SubscribeSent).0.retry_count == 0,
        step_spec(p, s, Event::SubscribeSent).0.retry_delay == p.initial_delay,
{
}

/// Fail once, recover, fail again: the failure after a successful recovery
/// waits the initial delay again, not the doubled one.
pub proof fn lemma_recovery_resets_backoff(p: RetryPolicy, s: SessionState)
    requires
        policy_wf(p),
        state_wf(p, s),
        s.phase is Connecting,
        s.retry_count + 2 < p.max_attempts,
        2 <= p.max_attempts,
    ensures
        ({
            let s1 = step_spec(p, s, Event::ConnectFailed).0;
            let s2 = step_spec(p, s1, Event::BackoffElapsed).0;
            let s3 = step_spec(p, s2, Event::ConnectSucceeded).0;
            let s4 = step_spec(p, s3, Event::SubscribeSent).0;
            let s5 = step_spec(p, s4, Event::ReadError).0;
            step_spec(p, s5, Event::Drained).1 == Action::Wait(p.initial_delay)
        }),
{
}

/// Frames received in order on one live connection are dispatched in that
/// same order: while the session stays `Active`, the dispatched texts are
/// exactly the text frames' payloads, in arrival order.
pub proof fn lemma_dispatch_preserves_order(
    p: RetryPolicy,
    s: SessionState,
    events: Seq<Event>,
)
    requires
        s.phase is Active,
        forall|i: int| 0 <= i < events.len() ==> live_event(#[trigger] events[i]),
    ensures
        run_steps(p, s, events).phase is Active,
        dispatches_of(p, s, events) == text_frames_of(events),
    decreases events.len(),
{
    if events.len() > 0 {
        let (s1, a) = step_spec(p, s, events[0]);
        assert(live_event(events[0]));
        assert(s1.phase is Active && s1 == s);
        assert(forall|i: int|
            0 <= i < events.drop_first().len() ==> live_event(
                #[trigger] events.drop_first()[i],
            ));
        lemma_dispatch_preserves_order(p, s1, events.drop_first());
        match events[0] {
            Event::TextFrame(t) => {
                assert(a == Action::Dispatch(t));
            },
            _ => {
                assert(!(a is Dispatch));
            },
        }
        assert(dispatches_of(p, s, events) =~= text_frames_of(events));
    }
}

} // verus!
