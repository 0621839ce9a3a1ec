//! The sandbox instance: policy, path screening, and the permission flow of a
//! command bound together.

use crate::bridge::{jnumber, jtext};
use crate::error::SandboxError;
use crate::events::{event_of, Event, EventValue};
use crate::executor::{DenialReason, ExecResult};
use crate::guard::{self, PathGuard};
use crate::ids;
use crate::json::{self, Json, JsonValue};
use crate::policy::{self, Policy};
use crate::seatbelt::{self, ConfinedProcessExecutor, HostProbe};
use crate::shell;
use crate::vpath::VPath;
use vstd::prelude::*;

verus! {

broadcast use vstd::string::group_string_axioms;

/// A command was asked for.
pub const PERMISSION_REQUESTED: &'static str = "sandbox.permission.requested";

/// The policy allows a command.
pub const PERMISSION_GRANTED: &'static str = "sandbox.permission.granted";

/// The policy refuses a command.
pub const PERMISSION_DENIED: &'static str = "sandbox.permission.denied";

/// A command ran.
pub const EXEC_COMPLETED: &'static str = "sandbox.exec.completed";

/// One entry of the decision trail of a command.
#[derive(Clone, Copy, Debug, PartialEq, Eq, Structural)]
pub enum Record {
    /// The command was asked for.
    Requested,
    /// The policy allows the command.
    Granted,
    /// The policy refuses the command.
    Denied,
    /// The command ran.
    Completed {
        /// The process exit code.
        exit_code: i32,
        /// How long the command ran, in milliseconds.
        duration_ms: u64,
        /// The captured bytes of standard output.
        stdout_bytes: u64,
        /// The captured bytes of standard error.
        stderr_bytes: u64,
        /// Set when the executor refused the command.
        denied_by: Option<DenialReason>,
    },
}

/// The event of one entry of the decision trail: every entry names the sandbox, the
/// agent and the command, a decision says which it is, and a completion says how
/// the command ended.
pub open spec fn record_event(
    sandbox_id: Seq<char>,
    agent_id: Seq<char>,
    command: Seq<char>,
    record: Record,
) -> EventValue {
    let data = json::empty_object().set("sandbox_id"@, jtext(sandbox_id)).set(
        "agent_id"@,
        jtext(agent_id),
    ).set("subject"@, jtext(command));
    match record {
        Record::Requested => event_of(PERMISSION_REQUESTED@, data),
        Record::Granted => event_of(
            PERMISSION_GRANTED@,
            data.set("decision"@, jtext("granted"@)),
        ),
        Record::Denied => event_of(PERMISSION_DENIED@, data.set("decision"@, jtext("denied"@))),
        Record::Completed { exit_code, duration_ms, stdout_bytes, stderr_bytes, denied_by } => {
            event_of(
                EXEC_COMPLETED@,
                data.set(
                    "exit_code"@,
                    JsonValue::Number(json::integer_text(exit_code as int)),
                ).set("duration_ms"@, jnumber(duration_ms)).set(
                    "stdout_bytes"@,
                    jnumber(stdout_bytes),
                ).set("stderr_bytes"@, jnumber(stderr_bytes)).set(
                    "denied_by"@,
                    match denied_by {
                        Some(DenialReason::CommandNotAllowed) => jtext("command_not_allowed"@),
                        Some(DenialReason::CommandCountExceeded) => jtext(
                            "command_count_exceeded"@,
                        ),
                        None => JsonValue::Null,
                    },
                ),
            )
        },
    }
}

/// Where a command stands.
pub enum Phase {
    /// The request is being recorded.
    Requesting,
    /// The grant is being recorded.
    Granting,
    /// The refusal is being recorded.
    Denying(DenialReason),
    /// The command is running.
    Running,
    /// The completion is being recorded.
    Completing(ExecResult),
    /// Nothing is left to do.
    Done,
}

/// What happened to a command.
pub enum ExecEvent {
    /// The last record was appended durably.
    Recorded,
    /// The last record could not be appended.
    RecordFailed(String),
    /// The executor ran the command, for this many milliseconds.
    Ran(ExecResult, u128),
}

/// What to do next for a command.
pub enum ExecAction {
    /// Append this record.
    Append(Record),
    /// Run the command through the executor.
    Run,
    /// The command was refused: nothing ran.
    Refuse(DenialReason),
    /// The command is over, with this result.
    Return(ExecResult),
    /// The command is over: a record was lost.
    Fail(SandboxError),
    /// The event does not belong to the command's phase.
    Ignore,
}

/// The decision about the command that comes after `used` others: the count
/// guard first, then the allowlist.
pub open spec fn denial(used: u32, max: u32, allowed: bool) -> Option<DenialReason> {
    if used >= max {
        Some(DenialReason::CommandCountExceeded)
    } else if !allowed {
        Some(DenialReason::CommandNotAllowed)
    } else {
        None
    }
}

/// How many commands were asked for after one more; the count never wraps.
pub open spec fn counted(used: u32) -> u32 {
    if used == u32::MAX {
        used
    } else {
        (used + 1) as u32
    }
}

/// The record of a command that ran.
pub open spec fn completion(result: ExecResult, elapsed: u128) -> Record {
    Record::Completed {
        exit_code: result.exit_code,
        duration_ms: if elapsed <= u64::MAX {
            elapsed as u64
        } else {
            u64::MAX
        },
        stdout_bytes: vstd::utf8::encode_utf8(result.stdout@).len() as u64,
        stderr_bytes: vstd::utf8::encode_utf8(result.stderr@).len() as u64,
        denied_by: result.denied_by,
    }
}

/// The phase after an event, the count of commands, and what to do next. `allowed`
/// is the allowlist's verdict on the command.
pub open spec fn exec_step(
    phase: Phase,
    used: u32,
    max: u32,
    allowed: bool,
    event: ExecEvent,
) -> (Phase, u32, ExecAction) {
    match (phase, event) {
        (Phase::Requesting, ExecEvent::Recorded) => match denial(used, max, allowed) {
            Some(reason) => (
                Phase::Denying(reason),
                counted(used),
                ExecAction::Append(Record::Denied),
            ),
            None => (Phase::Granting, counted(used), ExecAction::Append(Record::Granted)),
        },
        (Phase::Denying(reason), ExecEvent::Recorded) => (
            Phase::Done,
            used,
            ExecAction::Refuse(reason),
        ),
        (Phase::Granting, ExecEvent::Recorded) => (Phase::Running, used, ExecAction::Run),
        (Phase::Running, ExecEvent::Ran(result, elapsed)) => (
            Phase::Completing(result),
            used,
            ExecAction::Append(completion(result, elapsed)),
        ),
        (Phase::Completing(result), ExecEvent::Recorded) => (
            Phase::Done,
            used,
            ExecAction::Return(result),
        ),
        (Phase::Requesting, ExecEvent::RecordFailed(error)) => (
            Phase::Done,
            used,
            ExecAction::Fail(SandboxError::Publish(error)),
        ),
        (Phase::Denying(_), ExecEvent::RecordFailed(error)) => (
            Phase::Done,
            used,
            ExecAction::Fail(SandboxError::Publish(error)),
        ),
        (Phase::Granting, ExecEvent::RecordFailed(error)) => (
            Phase::Done,
            used,
            ExecAction::Fail(SandboxError::Publish(error)),
        ),
        (Phase::Completing(_), ExecEvent::RecordFailed(error)) => (
            Phase::Done,
            used,
            ExecAction::Fail(SandboxError::Publish(error)),
        ),
        (phase, _) => (phase, used, ExecAction::Ignore),
    }
}

/// What the policy makes of an event of a command with these tokens.
pub open spec fn policy_step(
    policy: Policy,
    phase: Phase,
    used: u32,
    tokens: Option<Seq<Seq<char>>>,
    event: ExecEvent,
) -> (Phase, u32, ExecAction) {
    let allow = shell::prefix_tokens(policy::prefix_views(policy.shell.allow@));
    exec_step(
        phase,
        used,
        policy.limits.max_command_count,
        shell::admits(allow, tokens),
        event,
    )
}

/// A command runs only once its grant was recorded, and a grant is recorded only
/// when the policy's allowlist admits the command's tokens and the count guard is
/// not reached.
pub proof fn no_command_runs_without_a_recorded_grant(
    policy: Policy,
    phase: Phase,
    used: u32,
    tokens: Option<Seq<Seq<char>>>,
    event: ExecEvent,
)
    ensures
        policy_step(policy, phase, used, tokens, event).2 is Run ==> phase is Granting && event
            is Recorded,
        policy_step(policy, phase, used, tokens, event).0 is Granting && !(phase is Granting) ==> {
            &&& shell::admits(
                shell::prefix_tokens(policy::prefix_views(policy.shell.allow@)),
                tokens,
            )
            &&& used < policy.limits.max_command_count
            &&& phase is Requesting
            &&& event is Recorded
        },
{
}

/// Whether nothing was decided about a command, or only its refusal.
pub open spec fn is_not_granted(phase: Phase) -> bool {
    phase is Requesting || phase is Denying || phase is Done
}

/// Deny by default: under a policy that lists no command, as an inert one does, no
/// command is ever granted or run, whatever its tokens and whatever happens.
pub proof fn an_empty_list_runs_nothing(
    policy: Policy,
    phase: Phase,
    used: u32,
    tokens: Option<Seq<Seq<char>>>,
    event: ExecEvent,
)
    requires
        policy.shell.allow@.len() == 0,
        is_not_granted(phase),
    ensures
        is_not_granted(policy_step(policy, phase, used, tokens, event).0),
        !(policy_step(policy, phase, used, tokens, event).2 is Run),
        policy_step(policy, phase, used, tokens, event).2 != ExecAction::Append(Record::Granted),
        phase is Requesting && event is Recorded ==> policy_step(
            policy,
            phase,
            used,
            tokens,
            event,
        ).0 is Denying,
{
    shell::an_empty_list_admits_nothing(
        policy::prefix_views(policy.shell.allow@),
        Seq::<char>::empty(),
    );
}

/// A refused command records its refusal and then returns without running.
pub proof fn denial_short_circuits(used: u32, max: u32, allowed: bool, reason: DenialReason)
    requires
        denial(used, max, allowed) == Some(reason),
    ensures
        exec_step(Phase::Requesting, used, max, allowed, ExecEvent::Recorded) == (
            Phase::Denying(reason),
            counted(used),
            ExecAction::Append(Record::Denied),
        ),
        exec_step(Phase::Denying(reason), used, max, allowed, ExecEvent::Recorded) == (
            Phase::Done,
            used,
            ExecAction::Refuse(reason),
        ),
{
}

/// The count guard holds for good: refused commands consume it too, and once
/// it is reached every further command is refused.
pub proof fn the_count_guard_is_permanent(
    phase: Phase,
    used: u32,
    max: u32,
    allowed: bool,
    event: ExecEvent,
)
    ensures
        used <= exec_step(phase, used, max, allowed, event).1,
        phase is Requesting && event is Recorded && used < u32::MAX ==> exec_step(
            phase,
            used,
            max,
            allowed,
            event,
        ).1 == used + 1,
        used >= max ==> denial(used, max, allowed) == Some(DenialReason::CommandCountExceeded),
{
}

/// A running sandbox: an agent's confinement layer for shell commands.
///
/// Every command appends the full decision trail to the log (`requested`, then
/// `granted` or `denied`, then `completed`), so no decision can be lost.
pub struct Sandbox {
    id: String,
    agent_id: String,
    policy: Policy,
    guard: PathGuard,
    executed: u32,
}

/// Whether a result is the answer to creating a sandbox: the first pattern that
/// cannot be used refuses the policy, and otherwise nothing was run yet and paths
/// are screened by the policy's patterns.
pub open spec fn sandbox_answer(
    policy: Policy,
    agent_id: Seq<char>,
    r: Result<Sandbox, SandboxError>,
) -> bool {
    let refuse = policy::pattern_views(policy.fs.refuse@);
    let hide = policy::pattern_views(policy.fs.hide@);
    match guard::globs_error(refuse) {
        Some(message) => r is Err && seatbelt::invalid_policy(r->Err_0, message),
        None => match guard::globs_error(hide) {
            Some(message) => r is Err && seatbelt::invalid_policy(r->Err_0, message),
            None => {
                &&& r is Ok
                &&& r->Ok_0.agent() == agent_id
                &&& r->Ok_0.rules() == policy
                &&& r->Ok_0.used() == 0
                &&& forall|path: Seq<Seq<char>>| #[trigger]
                    r->Ok_0.screening(path) == guard::full_access(refuse, hide, path)
            },
        },
    }
}

impl Sandbox {
    /// The sandbox id.
    pub closed spec fn identity(&self) -> Seq<char> {
        self.id@
    }

    /// The id of the agent the sandbox confines.
    pub closed spec fn agent(&self) -> Seq<char> {
        self.agent_id@
    }

    /// The policy the sandbox runs under.
    pub closed spec fn rules(&self) -> Policy {
        self.policy
    }

    /// How many commands were asked for.
    pub closed spec fn used(&self) -> u32 {
        self.executed
    }

    /// The screening of a path.
    pub closed spec fn screening(&self, path: Seq<Seq<char>>) -> guard::Access {
        guard::full_access(self.guard.refuse_patterns(), self.guard.hide_patterns(), path)
    }

    /// Creates a sandbox whose commands are confined by the host, together with
    /// the executor that runs them.
    ///
    /// Fails closed with [`SandboxError::InvalidPolicy`] when the policy is
    /// unusable and with [`SandboxError::UnsupportedPlatform`] when the platform
    /// has no confinement layer.
    pub fn new(policy: Policy, probe: HostProbe, agent_id: &str) -> (r: Result<
        (Sandbox, ConfinedProcessExecutor),
        SandboxError,
    >)
        ensures
            match r {
                Ok((sandbox, executor)) => {
                    &&& ids::is_uuid(sandbox.identity(), '7')
                    &&& seatbelt::executor_answer(policy, probe, Ok(executor))
                    &&& sandbox_answer(policy, agent_id@, Ok(sandbox))
                },
                Err(error) => {
                    ||| seatbelt::executor_answer(policy, probe, Err(error))
                    ||| sandbox_answer(policy, agent_id@, Err(error)) && exists|
                        executor: ConfinedProcessExecutor,
                    |
                        #[trigger] seatbelt::executor_answer(policy, probe, Ok(executor))
                },
            },
    {
        let executor = match ConfinedProcessExecutor::new(&policy, probe) {
            Ok(executor) => executor,
            Err(error) => return Err(error),
        };
        match Sandbox::with_executor(policy, agent_id) {
            Ok(sandbox) => Ok((sandbox, executor)),
            Err(error) => {
                proof {
                    assert(seatbelt::executor_answer(policy, probe, Ok(executor)));
                }
                Err(error)
            },
        }
    }

    /// Creates a sandbox whose commands some executor runs, under an id that is
    /// made up. Fails closed with [`SandboxError::InvalidPolicy`] when the
    /// policy's filesystem domain is not usable.
    pub fn with_executor(policy: Policy, agent_id: &str) -> (r: Result<Sandbox, SandboxError>)
        ensures
            sandbox_answer(policy, agent_id@, r),
            r is Ok ==> ids::is_uuid(r->Ok_0.identity(), '7'),
    {
        let id = ids::time_ordered_id();
        Sandbox::with_id(policy, id, agent_id)
    }

    /// Creates a sandbox under a given id.
    pub fn with_id(policy: Policy, id: String, agent_id: &str) -> (r: Result<Sandbox, SandboxError>)
        ensures
            sandbox_answer(policy, agent_id@, r),
            r is Ok ==> r->Ok_0.identity() == id@,
    {
        let guard = match PathGuard::compile(
            policy.fs.refuse.as_slice(),
            policy.fs.hide.as_slice(),
        ) {
            Ok(guard) => guard,
            Err(error) => return Err(error),
        };
        Ok(Sandbox { id, agent_id: agent_id.to_owned(), policy, guard, executed: 0 })
    }

    /// The sandbox id, correlating its records in the log.
    #[must_use]
    pub fn id(&self) -> (r: &str)
        ensures
            r@ == self.identity(),
    {
        self.id.as_str()
    }

    /// The id of the agent the sandbox confines.
    #[must_use]
    pub fn agent_id(&self) -> (r: &str)
        ensures
            r@ == self.agent(),
    {
        self.agent_id.as_str()
    }

    /// The policy the sandbox runs under.
    #[must_use]
    pub fn policy(&self) -> (r: &Policy)
        ensures
            *r == self.rules(),
    {
        &self.policy
    }

    /// Screens a path of the sandbox's filesystem.
    #[must_use]
    pub fn access(&self, path: &VPath) -> (r: guard::Access)
        ensures
            r == self.screening(path@),
    {
        self.guard.access(path)
    }

    /// The event of one entry of a command's decision trail.
    #[must_use]
    pub fn record(&self, record: Record, command: &str) -> (r: Event)
        ensures
            r@ == record_event(self.identity(), self.agent(), command@, record),
    {
        let data = Json::object().with("sandbox_id", Json::text(self.id.as_str())).with(
            "agent_id",
            Json::text(self.agent_id.as_str()),
        ).with("subject", Json::text(command));
        match record {
            Record::Requested => Event::new(PERMISSION_REQUESTED, data),
            Record::Granted => Event::new(
                PERMISSION_GRANTED,
                data.with("decision", Json::text("granted")),
            ),
            Record::Denied => Event::new(
                PERMISSION_DENIED,
                data.with("decision", Json::text("denied")),
            ),
            Record::Completed { exit_code, duration_ms, stdout_bytes, stderr_bytes, denied_by } => {
                let refused = match denied_by {
                    Some(reason) => Json::text(reason.as_str()),
                    None => Json::Null,
                };
                Event::new(
                    EXEC_COMPLETED,
                    data.with("exit_code", Json::integer(exit_code as i64)).with(
                        "duration_ms",
                        Json::unsigned(duration_ms),
                    ).with("stdout_bytes", Json::unsigned(stdout_bytes)).with(
                        "stderr_bytes",
                        Json::unsigned(stderr_bytes),
                    ).with("denied_by", refused),
                )
            },
        }
    }

    /// Starts a command: the request is recorded before anything is decided.
    pub fn exec(&self) -> (r: (Phase, ExecAction))
        ensures
            r == (Phase::Requesting, ExecAction::Append(Record::Requested)),
    {
        (Phase::Requesting, ExecAction::Append(Record::Requested))
    }

    /// Takes an event of a command into account.
    pub fn step(&mut self, phase: Phase, command: &str, event: ExecEvent) -> (r: (
        Phase,
        ExecAction,
    ))
        ensures
            (r.0, final(self).used(), r.1) == policy_step(
                old(self).rules(),
                phase,
                old(self).used(),
                shell::command_tokens(command@),
                event,
            ),
            final(self).identity() == old(self).identity(),
            final(self).agent() == old(self).agent(),
            final(self).rules() == old(self).rules(),
            forall|path: Seq<Seq<char>>| #[trigger]
                final(self).screening(path) == old(self).screening(path),
    {
        self.step_on_tokens(phase, &shell::tokens_of(command), event)
    }

    /// Takes an event of a command with these tokens into account; `None` stands
    /// for a command that cannot be read.
    pub fn step_on_tokens(
        &mut self,
        phase: Phase,
        tokens: &Option<Vec<String>>,
        event: ExecEvent,
    ) -> (r: (Phase, ExecAction))
        ensures
            (r.0, final(self).used(), r.1) == policy_step(
                old(self).rules(),
                phase,
                old(self).used(),
                shell::words_view(*tokens),
                event,
            ),
            final(self).identity() == old(self).identity(),
            final(self).agent() == old(self).agent(),
            final(self).rules() == old(self).rules(),
            forall|path: Seq<Seq<char>>| #[trigger]
                final(self).screening(path) == old(self).screening(path),
    {
        match (phase, event) {
            (Phase::Requesting, ExecEvent::Recorded) => {
                let used: u32 = self.executed;
                // The counter is monotonic: denials consume budget too, which
                // stops a denied-command loop from spinning.
                if used < u32::MAX {
                    self.executed = used + 1;
                }
                if used >= self.policy.limits.max_command_count {
                    (
                        Phase::Denying(DenialReason::CommandCountExceeded),
                        ExecAction::Append(Record::Denied),
                    )
                } else if !shell::is_admitted(
                    &shell::prefixes_of(self.policy.shell.allow.as_slice()),
                    tokens,
                ) {
                    (
                        Phase::Denying(DenialReason::CommandNotAllowed),
                        ExecAction::Append(Record::Denied),
                    )
                } else {
                    (Phase::Granting, ExecAction::Append(Record::Granted))
                }
            },
            (Phase::Denying(reason), ExecEvent::Recorded) => {
                (Phase::Done, ExecAction::Refuse(reason))
            },
            (Phase::Granting, ExecEvent::Recorded) => (Phase::Running, ExecAction::Run),
            (Phase::Running, ExecEvent::Ran(result, elapsed)) => {
                let record = completed(&result, elapsed);
                (Phase::Completing(result), ExecAction::Append(record))
            },
            (Phase::Completing(result), ExecEvent::Recorded) => {
                (Phase::Done, ExecAction::Return(result))
            },
            (Phase::Requesting, ExecEvent::RecordFailed(error)) => {
                (Phase::Done, ExecAction::Fail(SandboxError::Publish(error)))
            },
            (Phase::Denying(_), ExecEvent::RecordFailed(error)) => {
                (Phase::Done, ExecAction::Fail(SandboxError::Publish(error)))
            },
            (Phase::Granting, ExecEvent::RecordFailed(error)) => {
                (Phase::Done, ExecAction::Fail(SandboxError::Publish(error)))
            },
            (Phase::Completing(_), ExecEvent::RecordFailed(error)) => {
                (Phase::Done, ExecAction::Fail(SandboxError::Publish(error)))
            },
            (phase, _) => (phase, ExecAction::Ignore),
        }
    }
}

/// The record of a command that ran.
fn completed(result: &ExecResult, elapsed: u128) -> (r: Record)
    ensures
        r == completion(*result, elapsed),
{
    let duration_ms: u64 = if elapsed <= u64::MAX as u128 {
        elapsed as u64
    } else {
        u64::MAX
    };
    Record::Completed {
        exit_code: result.exit_code,
        duration_ms,
        stdout_bytes: result.stdout.as_str().as_bytes().len() as u64,
        stderr_bytes: result.stderr.as_str().as_bytes().len() as u64,
        denied_by: result.denied_by,
    }
}

} // verus!
