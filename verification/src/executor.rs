//! The executor abstraction: the seam between the sandbox and whatever runs
//! the commands.

use vstd::prelude::*;

verus! {

broadcast use vstd::string::group_string_axioms;

/// The exit code of a command that was not run.
pub const EXIT_CANNOT_EXECUTE: i32 = 126;

/// Why the policy refused a command before execution.
#[derive(Clone, Copy, Debug, PartialEq, Eq, Structural)]
pub enum DenialReason {
    /// No allowlist prefix matched the command, or the command was malformed.
    CommandNotAllowed,
    /// The sandbox reached its `max_command_count` guard.
    CommandCountExceeded,
}

/// The stable string of a reason.
pub open spec fn denial_code(reason: DenialReason) -> Seq<char> {
    match reason {
        DenialReason::CommandNotAllowed => "command_not_allowed"@,
        DenialReason::CommandCountExceeded => "command_count_exceeded"@,
    }
}

/// The reason in words.
pub open spec fn denial_text(reason: DenialReason) -> Seq<char> {
    match reason {
        DenialReason::CommandNotAllowed => "command not allowed by the shell policy"@,
        DenialReason::CommandCountExceeded => "command count limit reached"@,
    }
}

impl DenialReason {
    /// The stable string used in event data.
    #[must_use]
    pub fn as_str(&self) -> (r: &'static str)
        ensures
            r@ == match *self {
                DenialReason::CommandNotAllowed => "command_not_allowed"@,
                DenialReason::CommandCountExceeded => "command_count_exceeded"@,
            },
            r@ == denial_code(*self),
    {
        match self {
            DenialReason::CommandNotAllowed => "command_not_allowed",
            DenialReason::CommandCountExceeded => "command_count_exceeded",
        }
    }

    /// The reason in words.
    #[must_use]
    pub fn to_string(&self) -> (r: String)
        ensures
            r@ == match *self {
                DenialReason::CommandNotAllowed => "command not allowed by the shell policy"@,
                DenialReason::CommandCountExceeded => "command count limit reached"@,
            },
            r@ == denial_text(*self),
    {
        match self {
            DenialReason::CommandNotAllowed => {
                "command not allowed by the shell policy".to_owned()
            },
            DenialReason::CommandCountExceeded => "command count limit reached".to_owned(),
        }
    }
}

/// The outcome of running a command under the policy.
///
/// A policy denial is a normal outcome, not an error: `denied_by` is set and
/// the caller receives a structured refusal it can react to.
#[derive(Clone, Debug, PartialEq, Eq)]
pub struct ExecResult {
    /// Captured standard output.
    pub stdout: String,
    /// Captured standard error.
    pub stderr: String,
    /// The process exit code. Denied commands report `126` without spawning
    /// anything.
    pub exit_code: i32,
    /// Set when the policy refused the command.
    pub denied_by: Option<DenialReason>,
}

impl ExecResult {
    /// A denial result: nothing ran.
    #[must_use]
    pub fn denied(reason: DenialReason) -> (r: ExecResult)
        ensures
            r.stdout@ == Seq::<char>::empty(),
            r.stderr@ == Seq::<char>::empty(),
            r.exit_code == EXIT_CANNOT_EXECUTE,
            r.denied_by == Some(reason),
    {
        ExecResult {
            stdout: String::new(),
            stderr: String::new(),
            exit_code: EXIT_CANNOT_EXECUTE,
            denied_by: Some(reason),
        }
    }

    /// Whether the command was refused by the policy.
    #[must_use]
    pub fn is_denied(&self) -> (r: bool)
        ensures
            r == (self.denied_by is Some),
    {
        self.denied_by.is_some()
    }
}

/// Runs a command string under the policy bound at construction.
///
/// The policy is bound when the executor is built, not per call, so a running
/// executor cannot widen its own permissions.
pub trait Executor {
    /// Runs `command` and captures its output.
    fn exec(&self, command: &str) -> ExecResult;
}

} // verus!
