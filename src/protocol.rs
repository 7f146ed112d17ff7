use vstd::prelude::*;

verus! {

/// Bounded wait for the prover's verifier-side connection, in seconds.
pub const SOCKET_TIMEOUT_SECS: u64 = 30;

/// Bounded wait for the cryptographic verification, in seconds.
pub const VERIFICATION_TIMEOUT_SECS: u64 = 120;

/// Bounded wait for the reveal configuration after verification, in seconds.
pub const REVEAL_CONFIG_TIMEOUT_SECS: u64 = 30;

/// Where one notarization session stands.
#[derive(Clone, Copy, Debug, PartialEq, Eq, Structural)]
pub enum SessionPhase {
    Registered,
    AwaitingProverSocket,
    Verifying,
    AwaitingRevealConfig,
    Completed,
    Failed,
    TimedOut,
}

/// The decision state of one session: its phase, and whether the reveal
/// configuration (which may arrive at any time after registration) is in.
#[derive(Clone, Copy, Debug, PartialEq, Eq, Structural)]
pub struct SessionMachine {
    pub phase: SessionPhase,
    pub config_received: bool,
}

/// What happened to a session.
#[derive(Clone, Copy, Debug, PartialEq, Eq, Structural)]
pub enum SessionEvent {
    /// The background verification task is running.
    TaskStarted,
    /// The prover's connection was handed over.
    ProverSocket,
    /// The handoff slot was dropped without a connection.
    SocketChannelClosed,
    /// Cryptographic verification produced the authenticated transcript.
    VerificationSucceeded,
    /// Cryptographic verification failed.
    VerificationFailed,
    /// The reveal configuration arrived on the registration connection.
    RevealConfigReceived,
    /// Range validation accepted every range.
    ValidationPassed,
    /// Range validation found a range that is not authenticated.
    ValidationFailed,
    /// A bounded wait ran out.
    WaitExpired,
    /// The registration connection closed.
    ConnectionClosed,
}

/// What the session's driver must do next.
#[derive(Clone, Copy, Debug, PartialEq, Eq, Structural)]
pub enum SessionAction {
    /// Wait for the prover's connection, at most this many seconds.
    AwaitProverSocket { timeout_secs: u64 },
    /// Run the cryptographic verification, at most this many seconds.
    Verify { timeout_secs: u64 },
    /// Wait for the reveal configuration, at most this many seconds.
    AwaitRevealConfig { timeout_secs: u64 },
    /// Validate the reveal configuration against the authenticated offsets.
    Validate,
    /// Deliver the handler results, then clean up.
    Deliver,
    /// Report an error to the client, deliver nothing, then clean up.
    Abort,
    /// Nothing to do until the next event.
    Wait,
}

pub open spec fn is_terminal(p: SessionPhase) -> bool {
    p == SessionPhase::Completed || p == SessionPhase::Failed || p == SessionPhase::TimedOut
}

/// The phase a bounded wait that runs out leads to.
pub open spec fn fail_to(m: SessionMachine, p: SessionPhase) -> (SessionMachine, SessionAction) {
    (SessionMachine { phase: p, config_received: m.config_received }, SessionAction::Abort)
}

/// The transition of session `m` on event `e`: its next state and action.
pub open spec fn transition(m: SessionMachine, e: SessionEvent) -> (SessionMachine, SessionAction) {
    let stay = (m, SessionAction::Wait);
    if is_terminal(m.phase) {
        stay
    } else {
        match e {
            SessionEvent::ConnectionClosed => fail_to(m, SessionPhase::Failed),
            SessionEvent::WaitExpired => if m.phase == SessionPhase::Registered {
                stay
            } else {
                fail_to(m, SessionPhase::TimedOut)
            },
            SessionEvent::RevealConfigReceived => {
                let n = SessionMachine { phase: m.phase, config_received: true };
                if m.phase == SessionPhase::AwaitingRevealConfig && !m.config_received {
                    (n, SessionAction::Validate)
                } else {
                    (n, SessionAction::Wait)
                }
            },
            _ => match (m.phase, e) {
                (SessionPhase::Registered, SessionEvent::TaskStarted) => (
                    SessionMachine { phase: SessionPhase::AwaitingProverSocket, config_received: m.config_received },
                    SessionAction::AwaitProverSocket { timeout_secs: SOCKET_TIMEOUT_SECS },
                ),
                (SessionPhase::AwaitingProverSocket, SessionEvent::ProverSocket) => (
                    SessionMachine { phase: SessionPhase::Verifying, config_received: m.config_received },
                    SessionAction::Verify { timeout_secs: VERIFICATION_TIMEOUT_SECS },
                ),
                (SessionPhase::AwaitingProverSocket, SessionEvent::SocketChannelClosed) => fail_to(m, SessionPhase::Failed),
                (SessionPhase::Verifying, SessionEvent::VerificationFailed) => fail_to(m, SessionPhase::Failed),
                (SessionPhase::Verifying, SessionEvent::VerificationSucceeded) => (
                    SessionMachine { phase: SessionPhase::AwaitingRevealConfig, config_received: m.config_received },
                    if m.config_received {
                        SessionAction::Validate
                    } else {
                        SessionAction::AwaitRevealConfig { timeout_secs: REVEAL_CONFIG_TIMEOUT_SECS }
                    },
                ),
                (SessionPhase::AwaitingRevealConfig, SessionEvent::ValidationPassed) => if m.config_received {
                    (SessionMachine { phase: SessionPhase::Completed, config_received: true }, SessionAction::Deliver)
                } else {
                    stay
                },
                (SessionPhase::AwaitingRevealConfig, SessionEvent::ValidationFailed) => if m.config_received {
                    fail_to(m, SessionPhase::Failed)
                } else {
                    stay
                },
                _ => stay,
            },
        }
    }
}

impl SessionMachine {
    /// A session just registered.
    pub fn new() -> (r: Self)
        ensures
            r.phase == SessionPhase::Registered,
            !r.config_received,
    {
        SessionMachine { phase: SessionPhase::Registered, config_received: false }
    }

    /// Whether the session has ended.
    pub fn is_finished(&self) -> (r: bool)
        ensures
            r == is_terminal(self.phase),
    {
        match self.phase {
            SessionPhase::Completed | SessionPhase::Failed | SessionPhase::TimedOut => true,
            _ => false,
        }
    }

    /// Decides the next state and action of the session on event `e`.
    pub fn step(&self, e: SessionEvent) -> (r: (SessionMachine, SessionAction))
        ensures
            r == transition(*self, e),
    {
        let m = *self;
        let stay = (m, SessionAction::Wait);
        if self.is_finished() {
            return stay;
        }
        let abort_as = |p: SessionPhase| -> (r: (SessionMachine, SessionAction))
            ensures
                r == fail_to(m, p),
            { (SessionMachine { phase: p, config_received: m.config_received }, SessionAction::Abort) };
        match e {
            SessionEvent::ConnectionClosed => abort_as(SessionPhase::Failed),
            SessionEvent::WaitExpired => {
                if m.phase == SessionPhase::Registered {
                    stay
                } else {
                    abort_as(SessionPhase::TimedOut)
                }
            },
            SessionEvent::RevealConfigReceived => {
                let n = SessionMachine { phase: m.phase, config_received: true };
                if m.phase == SessionPhase::AwaitingRevealConfig && !m.config_received {
                    (n, SessionAction::Validate)
                } else {
                    (n, SessionAction::Wait)
                }
            },
            _ => match (m.phase, e) {
                (SessionPhase::Registered, SessionEvent::TaskStarted) => (
                    SessionMachine { phase: SessionPhase::AwaitingProverSocket, config_received: m.config_received },
                    SessionAction::AwaitProverSocket { timeout_secs: SOCKET_TIMEOUT_SECS },
                ),
                (SessionPhase::AwaitingProverSocket, SessionEvent::ProverSocket) => (
                    SessionMachine { phase: SessionPhase::Verifying, config_received: m.config_received },
                    SessionAction::Verify { timeout_secs: VERIFICATION_TIMEOUT_SECS },
                ),
                (SessionPhase::AwaitingProverSocket, SessionEvent::SocketChannelClosed) => abort_as(SessionPhase::Failed),
                (SessionPhase::Verifying, SessionEvent::VerificationFailed) => abort_as(SessionPhase::Failed),
                (SessionPhase::Verifying, SessionEvent::VerificationSucceeded) => (
                    SessionMachine { phase: SessionPhase::AwaitingRevealConfig, config_received: m.config_received },
                    if m.config_received {
                        SessionAction::Validate
                    } else {
                        SessionAction::AwaitRevealConfig { timeout_secs: REVEAL_CONFIG_TIMEOUT_SECS }
                    },
                ),
                (SessionPhase::AwaitingRevealConfig, SessionEvent::ValidationPassed) => {
                    if m.config_received {
                        (SessionMachine { phase: SessionPhase::Completed, config_received: true }, SessionAction::Deliver)
                    } else {
                        stay
                    }
                },
                (SessionPhase::AwaitingRevealConfig, SessionEvent::ValidationFailed) => {
                    if m.config_received {
                        abort_as(SessionPhase::Failed)
                    } else {
                        stay
                    }
                },
                _ => stay,
            },
        }
    }
}

/// A finished session stays finished and asks for nothing more.
pub proof fn lemma_terminal_absorbing(m: SessionMachine, e: SessionEvent)
    requires
        is_terminal(m.phase),
    ensures
        transition(m, e) == (m, SessionAction::Wait),
{
}

/// Validation is asked for only once verification has finished and the
/// reveal configuration is in, whichever came first; results are delivered
/// only after validation passed.
pub proof fn lemma_validation_ordering(m: SessionMachine, e: SessionEvent)
    ensures
        transition(m, e).1 == SessionAction::Validate ==> transition(m, e).0.phase == SessionPhase::AwaitingRevealConfig
            && transition(m, e).0.config_received,
        transition(m, e).1 == SessionAction::Deliver ==> e == SessionEvent::ValidationPassed
            && m.phase == SessionPhase::AwaitingRevealConfig && m.config_received
            && transition(m, e).0.phase == SessionPhase::Completed,
{
}

/// Every session that ends other than by completing is aborted, which
/// delivers nothing and cleans up; a timeout is distinguished only by phase.
pub proof fn lemma_failures_abort(m: SessionMachine, e: SessionEvent)
    ensures
        !is_terminal(m.phase) && is_terminal(transition(m, e).0.phase) ==> (
            transition(m, e).0.phase == SessionPhase::Completed) == (transition(m, e).1 == SessionAction::Deliver),
        !is_terminal(m.phase) && (transition(m, e).0.phase == SessionPhase::Failed
            || transition(m, e).0.phase == SessionPhase::TimedOut) ==> transition(m, e).1 == SessionAction::Abort,
{
}

} // verus!
