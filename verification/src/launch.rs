//! The order in which the daemon comes up, and what its failures are called.
//!
//! Serving resolves models per request, so it serves whatever config it has. A
//! one-shot launch proves first that everything its agent will ask for is there:
//! the provider config is loaded before anything runs, and the single-instance
//! socket is claimed before the session manager touches shared state, because
//! the manager's reconciliation *fails* every session the log shows as still
//! active. A second launch that reached reconciliation while another instance
//! was serving would fail the live instance's session; binding first makes
//! "already running" a failure that changes nothing.

use crate::cli::RunError;
use vstd::prelude::*;

verus! {

broadcast use vstd::string::group_string_axioms;

/// A step of coming up.
#[derive(Clone, Copy, Debug, PartialEq, Eq, Structural)]
pub enum Step {
    /// Check that the token file exists.
    FindTokens,
    /// Load the token file.
    LoadTokens,
    /// Open the event log.
    OpenLog,
    /// Start the session manager of a configured session.
    StartSession,
    /// Load the provider, and for a launch resolve the agent's model.
    LoadProvider,
    /// Claim the single-instance socket.
    Bind,
    /// Start the session manager and the server, and wait until the manager has
    /// reconciled the log.
    StartManager,
    /// Record the request for the launched session.
    Kickoff,
    /// Wait for the agent's announcement, and print the publish command.
    AwaitConversation,
    /// Serve until a signal stops the daemon.
    Serve,
}

/// What is brought up.
#[derive(Clone, Copy, Debug, PartialEq, Eq, Structural)]
pub enum Command {
    /// The daemon, with or without a configured session.
    Serve(bool),
    /// The daemon and a launched agent.
    Up,
}

/// What became of a step.
#[derive(Debug)]
pub enum Outcome {
    /// It succeeded.
    Done,
    /// It failed, for this reason.
    Failed(String),
    /// The agent's model does not resolve: why, and the config that was checked.
    Unresolved(String, String),
    /// The configured session could not be started.
    Refused(RunError),
    /// The server ended before the session manager was ready, with an error if
    /// there was one.
    ServerEnded(Option<RunError>),
}

/// What to do next.
#[derive(Debug)]
pub enum Next {
    /// Take this step.
    Do(Step),
    /// Everything that was started is stopped; this is the result.
    Finish(Option<RunError>),
}

/// The step of a command that follows another, if any does.
pub open spec fn following(command: Command, step: Step) -> Option<Step> {
    match step {
        Step::FindTokens => Some(Step::LoadTokens),
        Step::LoadTokens => Some(Step::OpenLog),
        Step::OpenLog => match command {
            Command::Serve(true) => Some(Step::StartSession),
            _ => Some(Step::LoadProvider),
        },
        Step::StartSession => Some(Step::LoadProvider),
        Step::LoadProvider => match command {
            Command::Serve(_) => Some(Step::Serve),
            Command::Up => Some(Step::Bind),
        },
        Step::Bind => Some(Step::StartManager),
        Step::StartManager => Some(Step::Kickoff),
        Step::Kickoff => Some(Step::AwaitConversation),
        Step::AwaitConversation => Some(Step::Serve),
        Step::Serve => None,
    }
}

/// Whether an error is what a failed step is called.
pub open spec fn failure(step: Step, token_file: Seq<char>, cause: String, error: RunError) -> bool {
    match step {
        Step::FindTokens => error is MissingTokens && error->MissingTokens_0@ == token_file,
        Step::LoadTokens => error == RunError::Auth(cause),
        Step::OpenLog => error == RunError::Log(cause),
        Step::StartSession => error == RunError::Session(cause),
        Step::LoadProvider => error == RunError::Providers(cause),
        Step::Bind => error == RunError::Serve(cause),
        Step::StartManager => error is Task && error->Task_0@
            == "the session manager stopped before becoming ready"@,
        Step::Kickoff => error == RunError::Log(cause),
        Step::AwaitConversation => error == RunError::Task(cause),
        Step::Serve => error == RunError::Serve(cause),
    }
}

/// Whether `next` is what follows the outcome of a step.
pub open spec fn launch_answer(
    command: Command,
    step: Step,
    token_file: Seq<char>,
    outcome: Outcome,
    next: Next,
) -> bool {
    match outcome {
        Outcome::Done => match following(command, step) {
            Some(following) => next == Next::Do(following),
            None => next == Next::Finish(None),
        },
        Outcome::Failed(cause) => next is Finish && next->Finish_0 is Some && failure(
            step,
            token_file,
            cause,
            next->Finish_0->0,
        ),
        Outcome::Unresolved(reason, path) => next == Next::Finish(
            Some(RunError::Model(reason, path)),
        ),
        Outcome::Refused(error) => next == Next::Finish(Some(error)),
        Outcome::ServerEnded(error) => next == Next::Finish(error),
    }
}

/// The log is reconciled only by a daemon that has claimed the socket: the
/// session manager of a launch starts right after the socket was bound.
pub proof fn reconciliation_follows_the_claim(
    step: Step,
    token_file: Seq<char>,
    outcome: Outcome,
    next: Next,
)
    requires
        launch_answer(Command::Up, step, token_file, outcome, next),
        next == Next::Do(Step::StartManager),
    ensures
        step == Step::Bind,
        outcome is Done,
{
}

/// A bad provider config stops a launch with nothing running: the socket is
/// bound only after the provider was loaded.
pub proof fn the_provider_is_loaded_before_anything_runs(
    step: Step,
    token_file: Seq<char>,
    outcome: Outcome,
    next: Next,
)
    requires
        launch_answer(Command::Up, step, token_file, outcome, next),
        next == Next::Do(Step::Bind),
    ensures
        step == Step::LoadProvider,
        outcome is Done,
{
}

/// The session is requested only once the manager is ready, so that the request
/// is a live event and not one that reconciliation would fail as a leftover.
pub proof fn the_kickoff_follows_reconciliation(
    step: Step,
    token_file: Seq<char>,
    outcome: Outcome,
    next: Next,
)
    requires
        launch_answer(Command::Up, step, token_file, outcome, next),
        next == Next::Do(Step::Kickoff),
    ensures
        step == Step::StartManager,
        outcome is Done,
{
}

/// How many steps are left after a step.
pub open spec fn steps_left(step: Step) -> nat {
    match step {
        Step::FindTokens => 9,
        Step::LoadTokens => 8,
        Step::OpenLog => 7,
        Step::StartSession => 6,
        Step::LoadProvider => 5,
        Step::Bind => 4,
        Step::StartManager => 3,
        Step::Kickoff => 2,
        Step::AwaitConversation => 1,
        Step::Serve => 0,
    }
}

/// Coming up never goes back: every step that succeeds leaves fewer to take.
pub proof fn coming_up_ends(command: Command, step: Step)
    ensures
        following(command, step) is Some ==> steps_left(following(command, step)->0)
            < steps_left(step),
        following(command, step) is None <==> step == Step::Serve,
{
}

/// The daemon coming up.
#[derive(Debug)]
pub struct Startup {
    command: Command,
    step: Step,
    token_file: String,
}

impl Startup {
    /// What is brought up.
    pub closed spec fn command(&self) -> Command {
        self.command
    }

    /// The step that is being taken.
    pub closed spec fn step(&self) -> Step {
        self.step
    }

    /// The token file.
    pub closed spec fn token_file(&self) -> Seq<char> {
        self.token_file@
    }

    /// A daemon that is about to come up with this token file. The first step is
    /// to find that file.
    pub fn new(command: Command, token_file: &str) -> (r: Startup)
        ensures
            r.command() == command,
            r.step() == Step::FindTokens,
            r.token_file() == token_file@,
    {
        Startup { command, step: Step::FindTokens, token_file: token_file.to_owned() }
    }

    fn follow(&self) -> (r: Option<Step>)
        ensures
            r == following(self.command(), self.step()),
    {
        match self.step {
            Step::FindTokens => Some(Step::LoadTokens),
            Step::LoadTokens => Some(Step::OpenLog),
            Step::OpenLog => match self.command {
                Command::Serve(true) => Some(Step::StartSession),
                _ => Some(Step::LoadProvider),
            },
            Step::StartSession => Some(Step::LoadProvider),
            Step::LoadProvider => match self.command {
                Command::Serve(_) => Some(Step::Serve),
                Command::Up => Some(Step::Bind),
            },
            Step::Bind => Some(Step::StartManager),
            Step::StartManager => Some(Step::Kickoff),
            Step::Kickoff => Some(Step::AwaitConversation),
            Step::AwaitConversation => Some(Step::Serve),
            Step::Serve => None,
        }
    }

    fn failed(&self, cause: String) -> (r: RunError)
        ensures
            failure(self.step(), self.token_file(), cause, r),
    {
        match self.step {
            Step::FindTokens => RunError::MissingTokens(self.token_file.clone()),
            Step::LoadTokens => RunError::Auth(cause),
            Step::OpenLog => RunError::Log(cause),
            Step::StartSession => RunError::Session(cause),
            Step::LoadProvider => RunError::Providers(cause),
            Step::Bind => RunError::Serve(cause),
            Step::StartManager => RunError::Task(
                "the session manager stopped before becoming ready".to_owned(),
            ),
            Step::Kickoff => RunError::Log(cause),
            Step::AwaitConversation => RunError::Task(cause),
            Step::Serve => RunError::Serve(cause),
        }
    }

    /// Takes the outcome of the current step into account.
    pub fn next(&mut self, outcome: Outcome) -> (r: Next)
        ensures
            launch_answer(
                old(self).command(),
                old(self).step(),
                old(self).token_file(),
                outcome,
                r,
            ),
            final(self).command() == old(self).command(),
            final(self).token_file() == old(self).token_file(),
            final(self).step() == match r {
                Next::Do(step) => step,
                Next::Finish(_) => old(self).step(),
            },
    {
        match outcome {
            Outcome::Done => match self.follow() {
                Some(step) => {
                    self.step = step;
                    Next::Do(step)
                },
                None => Next::Finish(None),
            },
            Outcome::Failed(cause) => Next::Finish(Some(self.failed(cause))),
            Outcome::Unresolved(reason, path) => Next::Finish(
                Some(RunError::Model(reason, path)),
            ),
            Outcome::Refused(error) => Next::Finish(Some(error)),
            Outcome::ServerEnded(error) => Next::Finish(error),
        }
    }
}

} // verus!
