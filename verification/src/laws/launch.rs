//! What coming up promises.

use crate::cli::RunError;
use crate::launch::{self, Command, Next, Outcome, Step};
use vstd::prelude::*;

verus! {

broadcast use vstd::string::group_string_axioms;

/// The steps of a command that all succeed, from a step on.
pub open spec fn course(command: Command, step: Step, count: nat) -> Option<Step>
    decreases count,
{
    if count == 0 {
        Some(step)
    } else {
        match launch::following(command, step) {
            Some(next) => course(command, next, (count - 1) as nat),
            None => None,
        }
    }
}

/// The daemon finds and loads its tokens, opens the log, starts a configured session,
/// loads its provider, and serves. A launch loads its provider before it claims the
/// socket, and starts its agent after that.
pub proof fn the_daemon_comes_up_in_order(configured: bool)
    ensures
        ({
            let plain = Command::Serve(false);
            let with_session = Command::Serve(true);
            let command = Command::Serve(configured);
            let first = Step::FindTokens;
            &&& course(command, first, 1) == Some(Step::LoadTokens)
            &&& course(command, first, 2) == Some(Step::OpenLog)
            &&& course(plain, first, 3) == Some(Step::LoadProvider)
            &&& course(plain, first, 4) == Some(Step::Serve)
            &&& course(plain, first, 5) is None
            &&& course(with_session, first, 3) == Some(Step::StartSession)
            &&& course(with_session, first, 4) == Some(Step::LoadProvider)
            &&& course(with_session, first, 5) == Some(Step::Serve)
            &&& course(with_session, first, 6) is None
            &&& course(Command::Up, first, 1) == Some(Step::LoadTokens)
            &&& course(Command::Up, first, 2) == Some(Step::OpenLog)
            &&& course(Command::Up, first, 3) == Some(Step::LoadProvider)
            &&& course(Command::Up, first, 4) == Some(Step::Bind)
            &&& course(Command::Up, first, 5) == Some(Step::StartManager)
            &&& course(Command::Up, first, 6) == Some(Step::Kickoff)
            &&& course(Command::Up, first, 7) == Some(Step::AwaitConversation)
            &&& course(Command::Up, first, 8) == Some(Step::Serve)
            &&& course(Command::Up, first, 9) is None
        }),
{
    reveal_with_fuel(course, 10);
}

/// A step that succeeds leads to the next one, and the last one ends it all well;
/// whatever else becomes of a step ends it with that error.
pub proof fn a_failure_ends_the_start(
    command: Command,
    step: Step,
    token_file: Seq<char>,
    outcome: Outcome,
    next: Next,
)
    requires
        launch::launch_answer(command, step, token_file, outcome, next),
    ensures
        match outcome {
            Outcome::Done => {
                &&& step == Step::Serve ==> next == Next::Finish(None)
                &&& step != Step::Serve ==> launch::following(command, step) is Some && next
                    == Next::Do(launch::following(command, step)->0)
            },
            Outcome::Failed(_) => next is Finish && next->Finish_0 is Some,
            Outcome::Unresolved(reason, path) => next == Next::Finish(
                Some(RunError::Model(reason, path)),
            ),
            Outcome::Refused(error) => next == Next::Finish(Some(error)),
            Outcome::ServerEnded(error) => next == Next::Finish(error),
        },
{
}

/// A step that fails is named in the error, with its cause.
pub proof fn an_error_names_the_step(
    command: Command,
    step: Step,
    token_file: Seq<char>,
    cause: String,
    next: Next,
)
    requires
        launch::launch_answer(command, step, token_file, Outcome::Failed(cause), next),
    ensures
        next is Finish && next->Finish_0 is Some,
        ({
            let error = next->Finish_0->0;
            &&& step == Step::FindTokens ==> error is MissingTokens && error->MissingTokens_0@
                == token_file
            &&& step == Step::LoadTokens ==> error == RunError::Auth(cause)
            &&& step == Step::OpenLog || step == Step::Kickoff ==> error == RunError::Log(cause)
            &&& step == Step::StartSession ==> error == RunError::Session(cause)
            &&& step == Step::LoadProvider ==> error == RunError::Providers(cause)
            &&& step == Step::Bind || step == Step::Serve ==> error == RunError::Serve(cause)
            &&& step == Step::StartManager ==> error is Task && error->Task_0@
                == "the session manager stopped before becoming ready"@
            &&& step == Step::AwaitConversation ==> error == RunError::Task(cause)
        }),
{
}

} // verus!
