//! The outermost control loop: restart the subscription after a fixed delay
//! whenever it ends, without limit.
use vstd::prelude::*;

verus! {

#[derive(Clone, Copy, PartialEq, Eq, Structural, Debug)]
pub enum SupervisorState {
    Idle,
    Running,
    Backoff,
}

/// What the supervisor is told.
#[derive(Clone, Copy, PartialEq, Eq, Structural, Debug)]
pub enum SupervisorEvent {
    /// The process asks for the first session.
    Start,
    /// The current session ended, cleanly or not.
    SessionEnded,
    /// The backoff delay has passed.
    DelayElapsed,
}

/// What the driver of the supervisor does next.
#[derive(Clone, Copy, PartialEq, Eq, Structural, Debug)]
pub enum SupervisorAction {
    StartSession,
    /// Sleep this many milliseconds, then report `DelayElapsed`.
    Sleep(u64),
    Nothing,
}

/// The supervisor's reaction to one event: its next state and action.
pub open spec fn supervisor_step(s: SupervisorState, e: SupervisorEvent, delay_ms: u64) -> (SupervisorState, SupervisorAction) {
    match (s, e) {
        (SupervisorState::Idle, SupervisorEvent::Start) => (SupervisorState::Running, SupervisorAction::StartSession),
        (SupervisorState::Running, SupervisorEvent::SessionEnded) => (SupervisorState::Backoff, SupervisorAction::Sleep(delay_ms)),
        (SupervisorState::Backoff, SupervisorEvent::DelayElapsed) => (SupervisorState::Running, SupervisorAction::StartSession),
        _ => (s, SupervisorAction::Nothing),
    }
}

/// The state reached and the actions taken over a sequence of events.
pub open spec fn supervisor_run(s: SupervisorState, events: Seq<SupervisorEvent>, delay_ms: u64) -> (SupervisorState, Seq<SupervisorAction>)
    decreases events.len(),
{
    if events.len() == 0 {
        (s, Seq::empty())
    } else {
        let prev = supervisor_run(s, events.drop_last(), delay_ms);
        let next = supervisor_step(prev.0, events.last(), delay_ms);
        (next.0, prev.1.push(next.1))
    }
}

/// `n` session failures, each followed by the end of the backoff delay.
pub open spec fn failures(n: nat) -> Seq<SupervisorEvent>
    decreases n,
{
    if n == 0 {
        Seq::empty()
    } else {
        failures((n - 1) as nat).push(SupervisorEvent::SessionEnded).push(SupervisorEvent::DelayElapsed)
    }
}

/// `n` restarts, each after a sleep of `delay_ms`.
pub open spec fn delayed_restarts(n: nat, delay_ms: u64) -> Seq<SupervisorAction>
    decreases n,
{
    if n == 0 {
        Seq::empty()
    } else {
        delayed_restarts((n - 1) as nat, delay_ms).push(SupervisorAction::Sleep(delay_ms)).push(
            SupervisorAction::StartSession,
        )
    }
}

/// Restarts a session after every termination, after a fixed delay.
pub struct ReconnectSupervisor {
    state: SupervisorState,
    delay_ms: u64,
}

impl ReconnectSupervisor {
    pub closed spec fn spec_state(&self) -> SupervisorState {
        self.state
    }

    pub closed spec fn spec_delay(&self) -> u64 {
        self.delay_ms
    }

    /// An idle supervisor that waits `delay_ms` before each restart.
    pub fn new(delay_ms: u64) -> (r: Self)
        ensures
            r.spec_state() == SupervisorState::Idle,
            r.spec_delay() == delay_ms,
    {
        ReconnectSupervisor { state: SupervisorState::Idle, delay_ms }
    }

    pub fn state(&self) -> (r: SupervisorState)
        ensures
            r == self.spec_state(),
    {
        self.state
    }

    pub fn delay_ms(&self) -> (r: u64)
        ensures
            r == self.spec_delay(),
    {
        self.delay_ms
    }

    /// Takes one event: a session that ends is followed by a sleep, and the
    /// end of the sleep by a new session.
    pub fn on_event(&mut self, event: SupervisorEvent) -> (r: SupervisorAction)
        ensures
            final(self).spec_delay() == old(self).spec_delay(),
            (final(self).spec_state(), r) == supervisor_step(old(self).spec_state(), event, old(self).spec_delay()),
    {
        match (self.state, event) {
            (SupervisorState::Idle, SupervisorEvent::Start) => {
                self.state = SupervisorState::Running;
                SupervisorAction::StartSession
            },
            (SupervisorState::Running, SupervisorEvent::SessionEnded) => {
                self.state = SupervisorState::Backoff;
                SupervisorAction::Sleep(self.delay_ms)
            },
            (SupervisorState::Backoff, SupervisorEvent::DelayElapsed) => {
                self.state = SupervisorState::Running;
                SupervisorAction::StartSession
            },
            _ => SupervisorAction::Nothing,
        }
    }
}

/// After `n` consecutive session failures, a running supervisor has restarted
/// exactly `n` times, each restart preceded by a sleep of the configured delay,
/// and is running again.
pub proof fn lemma_restart_after_delay(n: nat, delay_ms: u64)
    ensures
        supervisor_run(SupervisorState::Running, failures(n), delay_ms) == (
            SupervisorState::Running,
            delayed_restarts(n, delay_ms),
        ),
    decreases n,
{
    if n > 0 {
        lemma_restart_after_delay((n - 1) as nat, delay_ms);
        let e1 = failures((n - 1) as nat).push(SupervisorEvent::SessionEnded);
        assert(e1.drop_last() =~= failures((n - 1) as nat));
        assert(failures(n).drop_last() =~= e1);
        let r0 = supervisor_run(SupervisorState::Running, failures((n - 1) as nat), delay_ms);
        let r1 = supervisor_run(SupervisorState::Running, e1, delay_ms);
        assert(e1.last() == SupervisorEvent::SessionEnded);
        assert(r1 == (SupervisorState::Backoff, r0.1.push(SupervisorAction::Sleep(delay_ms))));
        assert(failures(n).last() == SupervisorEvent::DelayElapsed);
        assert(supervisor_run(SupervisorState::Running, failures(n), delay_ms) == (
            SupervisorState::Running,
            r1.1.push(SupervisorAction::StartSession),
        ));
    } else {
        assert(failures(0) =~= Seq::<SupervisorEvent>::empty());
        assert(delayed_restarts(0, delay_ms) =~= Seq::<SupervisorAction>::empty());
    }
}

} // verus!
