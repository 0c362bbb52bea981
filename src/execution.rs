use vstd::prelude::*;
use crate::error::LaunchError;

verus! {

/// Where one remote execution stands.
#[derive(Debug, Clone, Copy, PartialEq, Eq, Structural)]
pub enum ExecPhase {
    /// The session to the host is being opened.
    Connecting,
    /// The command runs on the host.
    Running,
    /// The session is being torn down; the outcome is known.
    Closing,
    /// The session is closed and the outcome handed out.
    Done,
}

/// What the transport reports back to the session.
#[derive(Debug)]
pub enum ExecEvent {
    /// The session is open.
    Connected,
    /// The host could not be reached.
    ConnectFailed(String),
    /// The host refused the credential.
    AuthFailed(String),
    /// The remote command ended, with whatever exit status, and wrote these
    /// two streams.
    Completed { exit_status: Option<i32>, stdout: String, stderr: String },
    /// The remote output was not valid text.
    DecodeFailed(String),
    /// The session resource has been released.
    Closed,
}

/// What the session asks the transport to do next.
#[derive(Debug)]
pub enum ExecAction {
    /// Open the session.
    Connect,
    /// Run this command in the open session.
    Run(String),
    /// Release the session resource.
    Close,
    /// Nothing is left to do; this is the outcome for the caller:
    /// standard output and standard error, or the error met.
    Finish(Result<(String, String), LaunchError>),
}

/// One remote execution of one command: the decisions of the session, apart
/// from the transport that carries them out.
pub struct Execution {
    pub phase: ExecPhase,
    pub command: String,
    /// The outcome, held from the moment it is known until it is handed out.
    pub outcome: Option<Result<(String, String), LaunchError>>,
}

/// How many times the session has asked for its resource to be released, by phase.
pub open spec fn closes_of(p: ExecPhase) -> nat {
    if p == ExecPhase::Closing || p == ExecPhase::Done {
        1
    } else {
        0
    }
}

/// The number of `Close` actions in `acts`.
pub open spec fn close_count(acts: Seq<ExecAction>) -> nat
    decreases acts.len(),
{
    if acts.len() == 0 {
        0
    } else {
        (if acts[0] is Close {
            1nat
        } else {
            0nat
        }) + close_count(acts.drop_first())
    }
}

/// Feeds `events` to the session `s` in order: the state reached and the
/// actions asked for, or `None` where an event comes that the phase does not accept.
pub open spec fn run_events(s: Execution, events: Seq<ExecEvent>) -> Option<
    (Execution, Seq<ExecAction>),
>
    decreases events.len(),
{
    if events.len() == 0 {
        Some((s, Seq::<ExecAction>::empty()))
    } else if !s.accepts(events[0]) {
        None
    } else {
        let (s2, a) = s.next(events[0]);
        match run_events(s2, events.drop_first()) {
            Some(rest) => Some((rest.0, seq![a] + rest.1)),
            None => None,
        }
    }
}

proof fn lemma_run_counts_closes(s: Execution, events: Seq<ExecEvent>)
    requires
        s.wf(),
        run_events(s, events) is Some,
    ensures
        run_events(s, events).unwrap().0.wf(),
        closes_of(s.phase) + close_count(run_events(s, events).unwrap().1) == closes_of(
            run_events(s, events).unwrap().0.phase,
        ),
    decreases events.len(),
{
    if events.len() > 0 {
        let (s2, a) = s.next(events[0]);
        lemma_run_counts_closes(s2, events.drop_first());
        let rest = run_events(s2, events.drop_first()).unwrap();
        assert((seq![a] + rest.1).drop_first() =~= rest.1);
    }
}

/// Whatever the transport reports, and whichever way the execution fails or
/// succeeds, a session that has reached `Done` asked exactly once for its
/// resource to be released.
pub proof fn lemma_closed_exactly_once(command: String, events: Seq<ExecEvent>)
    requires
        run_events(
            Execution { phase: ExecPhase::Connecting, command, outcome: None },
            events,
        ) is Some,
        run_events(
            Execution { phase: ExecPhase::Connecting, command, outcome: None },
            events,
        ).unwrap().0.phase == ExecPhase::Done,
    ensures
        close_count(
            run_events(
                Execution { phase: ExecPhase::Connecting, command, outcome: None },
                events,
            ).unwrap().1,
        ) == 1,
{
    lemma_run_counts_closes(
        Execution { phase: ExecPhase::Connecting, command, outcome: None },
        events,
    );
}

/// A command that has run hands both of its streams to the caller as they
/// were written, whatever its exit status: after the report of completion
/// and the release of the session, the outcome is `Ok((stdout, stderr))`.
pub proof fn lemma_streams_passed_on(
    s: Execution,
    exit_status: Option<i32>,
    stdout: String,
    stderr: String,
)
    requires
        s.wf(),
        s.phase == ExecPhase::Running,
    ensures
        ({
            let (s2, a) = s.next(ExecEvent::Completed { exit_status, stdout, stderr });
            &&& a is Close
            &&& s2.accepts(ExecEvent::Closed)
            &&& s2.next(ExecEvent::Closed).1 == ExecAction::Finish(Ok((stdout, stderr)))
        }),
{
}

impl Execution {
    /// The outcome is held exactly while the session is closing.
    pub open spec fn wf(&self) -> bool {
        (self.phase == ExecPhase::Closing) <==> (self.outcome is Some)
    }

    /// The events that the transport can report in this phase. A transport
    /// may learn only while running that the host is unreachable or refuses
    /// the credential.
    pub open spec fn accepts(&self, e: ExecEvent) -> bool {
        match self.phase {
            ExecPhase::Connecting => e is Connected || e is ConnectFailed || e is AuthFailed,
            ExecPhase::Running => e is Completed || e is DecodeFailed || e is ConnectFailed
                || e is AuthFailed,
            ExecPhase::Closing => e is Closed,
            ExecPhase::Done => false,
        }
    }

    /// The state that an event leads to, and the action asked for.
    pub open spec fn next(self, e: ExecEvent) -> (Execution, ExecAction) {
        let closing = |out: Result<(String, String), LaunchError>|
            (Execution { phase: ExecPhase::Closing, command: self.command, outcome: Some(out) });
        match e {
            ExecEvent::Connected => (
                Execution { phase: ExecPhase::Running, ..self },
                ExecAction::Run(self.command),
            ),
            ExecEvent::ConnectFailed(m) => (
                closing(Err(LaunchError::ConnectFailed(m))),
                ExecAction::Close,
            ),
            ExecEvent::AuthFailed(m) => (closing(Err(LaunchError::AuthFailed(m))), ExecAction::Close),
            ExecEvent::Completed { exit_status, stdout, stderr } => (
                closing(Ok((stdout, stderr))),
                ExecAction::Close,
            ),
            ExecEvent::DecodeFailed(m) => (
                closing(Err(LaunchError::DecodeError(m))),
                ExecAction::Close,
            ),
            ExecEvent::Closed => (
                Execution { phase: ExecPhase::Done, command: self.command, outcome: None },
                ExecAction::Finish(self.outcome->0),
            ),
        }
    }

    /// A session for `command`, and its first action, `Connect`.
    pub fn start(command: String) -> (r: (Execution, ExecAction))
        ensures
            r.0.phase == ExecPhase::Connecting,
            r.0.command == command,
            r.0.outcome is None,
            r.1 is Connect,
    {
        (Execution { phase: ExecPhase::Connecting, command, outcome: None }, ExecAction::Connect)
    }

    /// Whether the transport may report `e` now.
    pub fn can_accept(&self, e: &ExecEvent) -> (r: bool)
        ensures
            r == self.accepts(*e),
    {
        match self.phase {
            ExecPhase::Connecting => match e {
                ExecEvent::Connected | ExecEvent::ConnectFailed(_) | ExecEvent::AuthFailed(_) => true,
                _ => false,
            },
            ExecPhase::Running => match e {
                ExecEvent::Completed { .. }
                | ExecEvent::DecodeFailed(_)
                | ExecEvent::ConnectFailed(_)
                | ExecEvent::AuthFailed(_) => true,
                _ => false,
            },
            ExecPhase::Closing => match e {
                ExecEvent::Closed => true,
                _ => false,
            },
            ExecPhase::Done => false,
        }
    }

    /// Takes the transport's report and answers with the next action. A
    /// failure to connect, a refused credential, undecodable output and a
    /// finished command all lead to one `Close`; the outcome follows it.
    pub fn step(&mut self, e: ExecEvent) -> (r: ExecAction)
        requires
            old(self).wf(),
            old(self).accepts(e),
        ensures
            final(self).wf(),
            (*final(self), r) == old(self).next(e),
    {
        match e {
            ExecEvent::Connected => {
                self.phase = ExecPhase::Running;
                ExecAction::Run(self.command.clone())
            },
            ExecEvent::ConnectFailed(m) => {
                self.phase = ExecPhase::Closing;
                self.outcome = Some(Err(LaunchError::ConnectFailed(m)));
                ExecAction::Close
            },
            ExecEvent::AuthFailed(m) => {
                self.phase = ExecPhase::Closing;
                self.outcome = Some(Err(LaunchError::AuthFailed(m)));
                ExecAction::Close
            },
            ExecEvent::Completed { exit_status, stdout, stderr } => {
                self.phase = ExecPhase::Closing;
                self.outcome = Some(Ok((stdout, stderr)));
                ExecAction::Close
            },
            ExecEvent::DecodeFailed(m) => {
                self.phase = ExecPhase::Closing;
                self.outcome = Some(Err(LaunchError::DecodeError(m)));
                ExecAction::Close
            },
            ExecEvent::Closed => {
                self.phase = ExecPhase::Done;
                ExecAction::Finish(self.outcome.take().unwrap())
            },
        }
    }
}

} // verus!
