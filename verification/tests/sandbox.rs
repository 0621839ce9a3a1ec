use agentd::error::{ErrorKind, FsError, SandboxError};
use agentd::events::Event;
use agentd::executor::{DenialReason, ExecResult};
use agentd::policy::{CommandPrefix, FsPolicy, Limits, Pattern, Policy, ShellPolicy};
use agentd::sandbox::{
    ExecAction, ExecEvent, Phase, Record, Sandbox, EXEC_COMPLETED, PERMISSION_DENIED,
    PERMISSION_GRANTED, PERMISSION_REQUESTED,
};
use agentd::seatbelt::{HostProbe, WorkdirProbe};
use agentd::vpath::VPath;
use serde_json::Value;

fn ran(exit_code: i32) -> ExecResult {
    ExecResult {
        stdout: String::from("ok\n"),
        stderr: String::new(),
        exit_code,
        denied_by: None,
    }
}

fn sandbox(allow: &[&str], max_command_count: u32) -> Sandbox {
    let policy = Policy {
        shell: ShellPolicy {
            allow: allow.iter().map(|prefix| CommandPrefix::new(prefix)).collect(),
            ..ShellPolicy::default()
        },
        limits: Limits { max_command_count, ..Limits::default() },
        ..Policy::default()
    };
    Sandbox::with_executor(policy, "coder-1").expect("a usable policy")
}

fn data(event: &Event) -> Value {
    serde_json::from_str(&event.data.to_string()).expect("valid JSON")
}

/// Runs a command to its end: what it returns, the trail it left, and how often
/// it was run.
fn exec(sandbox: &mut Sandbox, command: &str) -> (ExecResult, Vec<Event>, u32) {
    let mut trail = Vec::new();
    let mut runs = 0;
    let (mut phase, mut action) = sandbox.exec();
    loop {
        let event = match action {
            ExecAction::Append(record) => {
                trail.push(sandbox.record(record, command));
                ExecEvent::Recorded
            }
            ExecAction::Run => {
                runs += 1;
                ExecEvent::Ran(ran(0), 12)
            }
            ExecAction::Refuse(reason) => return (ExecResult::denied(reason), trail, runs),
            ExecAction::Return(result) => return (result, trail, runs),
            ExecAction::Fail(_) | ExecAction::Ignore => panic!("every record is kept"),
        };
        (phase, action) = sandbox.step(phase, command, event);
    }
}

fn kinds(trail: &[Event]) -> Vec<&str> {
    trail.iter().map(|event| event.kind.as_str()).collect()
}

#[test]
fn invalid_policy_fails_construction() {
    let bad = Policy {
        fs: FsPolicy { hide: vec![Pattern::new("[unclosed")], ..FsPolicy::default() },
        ..Policy::default()
    };

    assert!(matches!(
        Sandbox::with_executor(bad, "coder-1"),
        Err(SandboxError::InvalidPolicy(_))
    ));
}

#[test]
fn exec_publishes_requested_granted_and_completed() {
    let mut sandbox = sandbox(&["cargo test"], 10);

    let (result, events, runs) = exec(&mut sandbox, "cargo test --workspace");
    assert!(!result.is_denied());
    assert_eq!(result.exit_code, 0);
    assert_eq!(result.stdout, "ok\n");
    assert_eq!(runs, 1);
    assert_eq!(kinds(&events), [PERMISSION_REQUESTED, PERMISSION_GRANTED, EXEC_COMPLETED]);
    for event in &events {
        assert_eq!(data(event)["sandbox_id"], sandbox.id());
        assert_eq!(data(event)["agent_id"], "coder-1");
        assert_eq!(data(event)["subject"], "cargo test --workspace");
    }
    assert_eq!(data(&events[1])["decision"], "granted");
    assert_eq!(data(&events[2])["exit_code"], 0);
    assert_eq!(data(&events[2])["duration_ms"].as_u64(), Some(12));
    assert_eq!(data(&events[2])["stdout_bytes"], 3);
    assert_eq!(data(&events[2])["stderr_bytes"], 0);
    assert_eq!(data(&events[2])["denied_by"], Value::Null);

    let (phase, action) = sandbox.exec();
    assert!(matches!(action, ExecAction::Append(Record::Requested)));
    let (phase, action) = sandbox.step(phase, "cargo test", ExecEvent::Recorded);
    assert!(matches!(action, ExecAction::Append(Record::Granted)));
    let (phase, action) = sandbox.step(phase, "cargo test", ExecEvent::Recorded);
    assert!(matches!(action, ExecAction::Run));
    let (phase, action) = sandbox.step(phase, "cargo test", ExecEvent::Ran(ran(0), 12));
    assert!(matches!(
        action,
        ExecAction::Append(Record::Completed { exit_code: 0, duration_ms: 12, .. })
    ));
    let (_, action) = sandbox.step(phase, "cargo test", ExecEvent::Recorded);
    assert!(matches!(action, ExecAction::Return(result) if result.stdout == "ok\n"));
}

#[test]
fn a_completion_names_the_exit_code_and_the_refusal() {
    let sandbox = sandbox(&["ls"], 1);
    let record = Record::Completed {
        exit_code: -9,
        duration_ms: 1,
        stdout_bytes: 2,
        stderr_bytes: 3,
        denied_by: Some(DenialReason::CommandCountExceeded),
    };
    let event = data(&sandbox.record(record, "ls"));
    assert_eq!(event["exit_code"], -9);
    assert_eq!(event["stderr_bytes"], 3);
    assert_eq!(event["denied_by"], "command_count_exceeded");
}

#[test]
fn denial_short_circuits_without_spawning() {
    let mut sandbox = sandbox(&["cargo test"], 10);

    let (phase, _) = sandbox.exec();
    let (phase, action) = sandbox.step(phase, "curl example.com", ExecEvent::Recorded);
    assert!(matches!(
        action,
        ExecAction::Append(Record::Denied)
    ));
    let (phase, action) = sandbox.step(phase, "curl example.com", ExecEvent::Recorded);
    assert!(matches!(action, ExecAction::Refuse(DenialReason::CommandNotAllowed)));
    assert!(matches!(phase, Phase::Done));

    let (result, events, runs) = exec(&mut sandbox, "curl example.com");
    assert_eq!(result.exit_code, 126);
    assert_eq!(result.denied_by, Some(DenialReason::CommandNotAllowed));
    assert!(result.stdout.is_empty());
    assert_eq!(runs, 0);
    assert_eq!(kinds(&events), [PERMISSION_REQUESTED, PERMISSION_DENIED]);
    assert_eq!(data(&events[1])["decision"], "denied");
    assert!(!data(&events[1]).as_object().expect("object").contains_key("exit_code"));
}

#[test]
fn command_count_guard_denies_beyond_the_limit() {
    let mut sandbox = sandbox(&["ls"], 2);

    let (_, mut events, first) = exec(&mut sandbox, "ls");
    let (_, more, second) = exec(&mut sandbox, "ls");
    let (third, last, none) = exec(&mut sandbox, "ls");
    events.extend(more);
    events.extend(last);

    assert_eq!(third.denied_by, Some(DenialReason::CommandCountExceeded));
    assert_eq!(first + second + none, 2);
    assert_eq!(
        kinds(&events),
        [
            PERMISSION_REQUESTED,
            PERMISSION_GRANTED,
            EXEC_COMPLETED,
            PERMISSION_REQUESTED,
            PERMISSION_GRANTED,
            EXEC_COMPLETED,
            PERMISSION_REQUESTED,
            PERMISSION_DENIED,
        ]
    );
}

#[test]
fn zero_command_count_denies_everything() {
    let mut sandbox = sandbox(&["ls"], 0);

    let (result, events, runs) = exec(&mut sandbox, "ls");
    assert_eq!(result.denied_by, Some(DenialReason::CommandCountExceeded));
    assert_eq!(runs, 0);
    assert_eq!(kinds(&events), [PERMISSION_REQUESTED, PERMISSION_DENIED]);
}

#[test]
fn malformed_commands_are_denied() {
    let mut sandbox = sandbox(&["echo"], 10);

    let (substitution, _, first) = exec(&mut sandbox, "echo $(rm -rf /)");
    assert_eq!(substitution.denied_by, Some(DenialReason::CommandNotAllowed));
    let (smuggled, _, second) = exec(&mut sandbox, "echo ok; curl example.com");
    assert_eq!(smuggled.denied_by, Some(DenialReason::CommandNotAllowed));
    assert_eq!(first + second, 0);

    let (plain, _, runs) = exec(&mut sandbox, "echo 'ok; $(x)'");
    assert!(!plain.is_denied());
    assert_eq!(runs, 1);
}

#[test]
fn an_empty_list_runs_nothing() {
    let mut sandbox = Sandbox::with_executor(Policy::default(), "coder-1").expect("usable");
    for command in ["ls", "", "true"] {
        let (result, _, runs) = exec(&mut sandbox, command);
        assert_eq!(result.denied_by, Some(DenialReason::CommandNotAllowed), "{command}");
        assert_eq!(runs, 0);
    }
    // Nor does a caller that reads the command by itself get past the list.
    let tokens = Some(vec![String::from("ls")]);
    let (phase, _) = sandbox.exec();
    let (phase, action) = sandbox.step_on_tokens(phase, &tokens, ExecEvent::Recorded);
    assert!(matches!(action, ExecAction::Append(Record::Denied)));
    assert!(matches!(phase, Phase::Denying(DenialReason::CommandNotAllowed)));
}

#[test]
fn a_lost_record_fails_the_command() {
    let mut sandbox = sandbox(&["ls"], 10);

    let (phase, _) = sandbox.exec();
    let (_, action) =
        sandbox.step(phase, "ls", ExecEvent::RecordFailed(String::from("disk full")));
    assert!(matches!(action, ExecAction::Fail(SandboxError::Publish(error)) if error == "disk full"));
}

#[test]
fn every_sandbox_has_an_id_of_its_own() {
    let one = sandbox(&[], 1);
    let other = sandbox(&[], 1);

    assert_eq!(one.id().len(), 36);
    assert_eq!(&one.id()[14..15], "7");
    assert_ne!(one.id(), other.id());
    assert_eq!(one.agent_id(), "coder-1");

    let named = Sandbox::with_id(Policy::default(), String::from("id"), "a").expect("usable");
    assert_eq!(named.id(), "id");
}

#[test]
fn a_platform_without_confinement_is_refused() {
    let probe = HostProbe {
        sandbox_exec: false,
        workdir: WorkdirProbe {
            is_dir: Ok(true),
            canonical: Err(FsError::from_kind(ErrorKind::NotFound)),
        },
        hosts: Vec::new(),
        denied: Vec::new(),
        existing: Vec::new(),
        scratch: String::from("/tmp/scratch"),
    };

    assert!(matches!(
        Sandbox::new(Policy::default(), probe, "coder-1"),
        Err(SandboxError::UnsupportedPlatform(_))
    ));
}

#[test]
fn paths_are_screened_by_the_policy() {
    let policy = Policy {
        fs: FsPolicy { refuse: vec![Pattern::new(".env")], ..FsPolicy::default() },
        ..Policy::default()
    };
    let sandbox = Sandbox::with_executor(policy, "coder-1").expect("a usable policy");

    assert_eq!(
        sandbox.access(&VPath::new("/work/.env").expect("valid")),
        agentd::guard::Access::Refused
    );
    assert_eq!(sandbox.access(&VPath::root()), agentd::guard::Access::Allowed);
    assert_eq!(sandbox.policy().fs.refuse.len(), 1);
}

#[test]
fn denials_name_their_reason() {
    let denied = ExecResult::denied(DenialReason::CommandNotAllowed);
    assert!(denied.is_denied());
    assert!(!ran(0).is_denied());
    assert_eq!(DenialReason::CommandNotAllowed.as_str(), "command_not_allowed");
    assert_eq!(DenialReason::CommandCountExceeded.as_str(), "command_count_exceeded");
}

/// Follows a command to its end, with the records that were appended and how
/// often the command ran.
fn follow(sandbox: &mut Sandbox, command: &str) -> (Vec<Record>, u32, ExecResult) {
    let (mut phase, mut action) = sandbox.exec();
    let mut records = Vec::new();
    let mut runs = 0;
    loop {
        let event = match action {
            ExecAction::Append(record) => {
                records.push(record);
                ExecEvent::Recorded
            },
            ExecAction::Run => {
                runs += 1;
                ExecEvent::Ran(ran(0), 3)
            },
            ExecAction::Refuse(reason) => return (records, runs, ExecResult::denied(reason)),
            ExecAction::Return(result) => return (records, runs, result),
            ExecAction::Fail(_) | ExecAction::Ignore => unreachable!("nothing was lost"),
        };
        (phase, action) = sandbox.step(phase, command, event);
    }
}

#[test]
fn allowed_command_flows_requested_granted_completed() {
    let (records, runs, result) = follow(&mut sandbox(&["cargo test"], 5), "cargo test --workspace");

    assert!(!result.is_denied());
    assert_eq!(runs, 1);
    assert_eq!(
        records,
        vec![
            Record::Requested,
            Record::Granted,
            Record::Completed {
                exit_code: 0,
                duration_ms: 3,
                stdout_bytes: 3,
                stderr_bytes: 0,
                denied_by: None,
            },
        ]
    );
}

#[test]
fn denied_command_flows_requested_denied_and_spawns_nothing() {
    let (records, runs, result) = follow(&mut sandbox(&["cargo test"], 5), "curl example.com");

    assert_eq!(result.denied_by, Some(DenialReason::CommandNotAllowed));
    assert_eq!(result.exit_code, 126);
    assert_eq!(runs, 0);
    assert_eq!(records, vec![Record::Requested, Record::Denied]);
}
