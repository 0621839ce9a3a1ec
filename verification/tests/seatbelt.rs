use agentd::error::{ErrorKind, FsError, SandboxError};
use agentd::policy::{
    CommandPrefix, EnvVar, FsPolicy, Mount, MountSource, Policy, ShellPolicy, Timeout,
};
use agentd::seatbelt::{
    command_dir, command_dir_of, confined_path_dirs, path_env, render_profile, scratch_directory,
    spawn_failed, subpath_clauses, system_bin_dirs, validate_denials, validate_workdir,
    writable_hosts,
    ConfinedProcessExecutor, Exit, HostProbe, Next, RunEvent, Run, Stream, WorkdirProbe,
};

fn dir(path: &str) -> WorkdirProbe {
    WorkdirProbe { is_dir: Ok(true), canonical: Ok(String::from(path)) }
}

fn mounts() -> Vec<Mount> {
    vec![
        Mount {
            at: String::from("/work"),
            source: MountSource::Overlay { host: String::from("/host") },
        },
        Mount {
            at: String::from("/data"),
            source: MountSource::ReadWrite { host: String::from("/host/rw") },
        },
    ]
}

fn hosts() -> Vec<Option<String>> {
    vec![Some(String::from("/host")), Some(String::from("/host/rw"))]
}

fn policy() -> Policy {
    Policy {
        fs: FsPolicy { mounts: mounts(), ..FsPolicy::default() },
        shell: ShellPolicy {
            workdir: String::from("/host/work"),
            env: vec![EnvVar { name: String::from("LANG"), value: String::from("C") }],
            allow: vec![CommandPrefix::new("echo")],
        },
        ..Policy::default()
    }
}

fn probe() -> HostProbe {
    HostProbe {
        sandbox_exec: true,
        workdir: dir("/host/work"),
        hosts: hosts(),
        denied: Vec::new(),
        existing: vec![String::from("/bin"), String::from("/usr/bin")],
        scratch: String::from("/tmp/scratch"),
    }
}

#[test]
fn profile_is_deny_by_default_and_grants_only_mounts() {
    let policy = policy();
    assert!(validate_workdir(
        &policy.shell.workdir,
        &policy.fs.mounts,
        dir("/host/work"),
        &hosts()
    )
    .is_ok());

    let profile = render_profile(&policy, "/tmp/scratch", &vec![String::from("/bin")], &hosts(), &Vec::new());

    assert!(profile.starts_with("(version 1)\n(deny default)"));
    assert!(profile.contains("(allow process-fork)"));
    assert!(profile.contains("(subpath \"/bin\")"));
    assert!(profile.contains("(allow file-read-metadata)"));
    assert!(profile.contains("(allow sysctl-read)"));
    assert!(profile.contains("(allow file-read-data (subpath \"/\"))"));
    let write_line = profile
        .lines()
        .find(|line| line.starts_with("(allow file-write*"))
        .expect("a write grant");
    assert!(
        write_line.contains("(subpath \"/host/rw\")"),
        "the read-write mount must be writable: {write_line}"
    );
    assert!(
        !write_line.contains("(subpath \"/host\")"),
        "the overlay host must not be writable: {write_line}"
    );
    assert!(write_line.contains("(subpath \"/tmp/scratch\")"));
    assert!(write_line.contains("(literal \"/dev/null\")"));
    assert!(!profile.contains("(deny file-read*"), "nothing is denied by name: {profile}");
}

/// A policy that denies reads of one path.
fn denying(path: &str) -> Policy {
    Policy {
        fs: FsPolicy {
            mounts: mounts(),
            deny_read: vec![String::from(path)],
            ..FsPolicy::default()
        },
        ..policy()
    }
}

#[test]
fn denied_reads_come_after_the_read_grants() {
    let executor = ConfinedProcessExecutor::new(
        &denying("/link"),
        HostProbe { denied: vec![Some(String::from("/host/secrets"))], ..probe() },
    )
    .expect("a usable policy");
    let profile = executor.profile();

    assert!(profile.contains("(deny file-read* (subpath \"/host/secrets\"))"), "{profile}");
    assert!(!profile.contains("/link"), "the resolved path is denied: {profile}");
    let last_grant = profile.rfind("(allow file-read").expect("a read grant");
    let denial = profile.find("(deny file-read*").expect("a denial");
    assert!(last_grant < denial, "{profile}");
}

#[test]
fn unusable_read_denials_are_refused() {
    let refused = |path: &str, resolved: Option<&str>| {
        let outcome = ConfinedProcessExecutor::new(
            &denying(path),
            HostProbe { denied: vec![resolved.map(String::from)], ..probe() },
        );
        match outcome {
            Err(SandboxError::InvalidPolicy(message)) => message,
            _ => panic!("{path} must be refused"),
        }
    };

    assert_eq!(
        refused("secrets", Some("/host/secrets")),
        "deny_read entry \"secrets\" must be absolute"
    );
    assert_eq!(refused("/missing", None), "deny_read entry \"/missing\" does not resolve");
    for needed in ["/", "/host", "/host/work", "/usr", "/bin", "/tmp", "/tmp/scratch"] {
        assert_eq!(
            refused("/link", Some(needed)),
            "deny_read entry \"/link\" covers a directory that every command needs",
            "{needed}"
        );
    }

    let entries = vec![String::from("/etc/shadow"), String::from("/host/work")];
    let resolved: Vec<Option<String>> = entries.iter().cloned().map(Some).collect();
    assert!(validate_denials(&entries, &resolved, "/host/work", &Vec::new(), "/s").is_err());
    assert!(validate_denials(&entries, &resolved, "/host", &Vec::new(), "/s").is_ok());
}

#[test]
fn workdir_validation_fails_closed() {
    let overlay = vec![Mount {
        at: String::from("/work"),
        source: MountSource::Overlay { host: String::from("/host") },
    }];
    let hosts = vec![Some(String::from("/host"))];

    assert!(matches!(
        validate_workdir("relative", &overlay, dir("/host/relative"), &hosts),
        Err(SandboxError::InvalidPolicy(message))
            if message == "workdir \"relative\" must be absolute"
    ));
    assert!(matches!(
        validate_workdir(
            "/host/missing",
            &overlay,
            WorkdirProbe {
                is_dir: Err(String::from("no such file")),
                canonical: Err(FsError::from_kind(ErrorKind::NotFound)),
            },
            &hosts
        ),
        Err(SandboxError::InvalidPolicy(message))
            if message == "workdir /host/missing is not accessible: no such file"
    ));
    // A workdir no host mount covers breaks the single-plane guarantee.
    assert!(matches!(
        validate_workdir("/other/elsewhere", &overlay, dir("/other/elsewhere"), &hosts),
        Err(SandboxError::InvalidPolicy(_))
    ));
    assert!(matches!(
        validate_workdir(
            "/host/file",
            &overlay,
            WorkdirProbe { is_dir: Ok(false), canonical: Ok(String::from("/host/file")) },
            &hosts
        ),
        Err(SandboxError::InvalidPolicy(message))
            if message == "workdir /host/file is not a directory"
    ));
}

#[test]
fn confined_path_dirs_reject_unusable_entries() {
    let existing = vec![String::from("/bin"), String::from("/usr/bin")];
    let ok = vec![CommandPrefix::new("echo"), CommandPrefix::new("ls")];
    assert!(!confined_path_dirs(&ok, &existing)
        .expect("bare commands resolve from system dirs")
        .is_empty());

    let unterminated = vec![CommandPrefix::new("echo 'unterminated")];
    assert!(matches!(
        confined_path_dirs(&unterminated, &existing),
        Err(SandboxError::InvalidPolicy(_))
    ));

    let relative = vec![CommandPrefix::new("tools/bin/echo")];
    assert!(matches!(
        confined_path_dirs(&relative, &existing),
        Err(SandboxError::InvalidPolicy(_))
    ));
}

#[test]
fn executor_requires_sandbox_exec_and_writes_the_profile() {
    let executor = ConfinedProcessExecutor::new(&policy(), probe()).expect("a usable policy");
    assert!(executor.profile().contains("(deny default)"));
    assert!(executor.profile().contains("(subpath \"/bin\")"));

    let unsupported =
        ConfinedProcessExecutor::new(&policy(), HostProbe { sandbox_exec: false, ..probe() });
    assert!(matches!(
        unsupported,
        Err(SandboxError::UnsupportedPlatform(message)) if message == "sandbox-exec is not available"
    ));
}

#[test]
fn exec_echoes_and_confines_env() {
    let executor = ConfinedProcessExecutor::new(&policy(), probe()).expect("a usable policy");
    let launch = executor.launch("/tmp/scratch/profile.sb", "echo hi");

    assert!(launch.args.iter().any(|argument| argument == "/tmp/scratch/profile.sb"));
    assert_eq!(launch.args.last().map(String::as_str), Some("echo hi"));
    assert_eq!(launch.workdir, "/host/work");
    let value = |name: &str| {
        launch
            .env
            .iter()
            .rev()
            .find(|variable| variable.name == name)
            .map(|variable| variable.value.clone())
    };
    assert_eq!(value("LANG").as_deref(), Some("C"));
    assert_eq!(value("HOME").as_deref(), Some("/tmp/scratch"));
    assert_eq!(value("TMPDIR").as_deref(), Some("/tmp/scratch"));
    assert_eq!(value("PATH").as_deref(), Some("/bin:/usr/bin"));
    assert_eq!(executor.timeout(), Timeout::from_secs(60));

    let mut patient = policy();
    patient.limits.timeout = Timeout::new(1, 500_000_000);
    let executor = ConfinedProcessExecutor::new(&patient, probe()).expect("a usable policy");
    assert_eq!(executor.timeout().as_secs(), 1);
    assert_eq!(executor.timeout().subsec_nanos(), 500_000_000);
}

#[test]
fn output_flood_is_truncated_and_killed() {
    let mut run = Run::new(4);
    let action = run.step(RunEvent::Output(Stream::Stdout, b"abc".to_vec()));
    assert!(!action.kill);
    assert!(matches!(action.next, Next::Read));
    let action = run.step(RunEvent::Output(Stream::Stdout, b"defg".to_vec()));
    assert!(action.kill, "the cap ends the command");
    let mut next = action.next;
    if matches!(next, Next::Read) {
        next = run.step(RunEvent::Closed(Stream::Stderr)).next;
    }
    if matches!(next, Next::Wait) {
        next = run.step(RunEvent::Exited(Exit::Signal(9))).next;
    }
    match next {
        Next::Finish(result) => {
            assert!(result.stdout.starts_with("abcd"));
            assert!(!result.stdout.contains('e'));
            assert_ne!(result.exit_code, 0);
        }
        _ => panic!("the command is over"),
    }
}

#[test]
fn timeout_kills_the_process_group_quickly() {
    let mut run = Run::new(100);
    let action = run.step(RunEvent::TimedOut);
    assert!(action.kill);
    match action.next {
        Next::Finish(result) => {
            assert_eq!(result.exit_code, 124);
            assert!(result.stderr.contains("timeout"), "{}", result.stderr);
        }
        _ => panic!("a timed out command is over"),
    }
}

#[test]
fn a_finished_command_hands_back_its_output() {
    let mut run = Run::new(100);
    let _ = run.step(RunEvent::Output(Stream::Stdout, b"out".to_vec()));
    let _ = run.step(RunEvent::Output(Stream::Stderr, vec![0xff]));
    let _ = run.step(RunEvent::Closed(Stream::Stdout));
    let action = run.step(RunEvent::Closed(Stream::Stderr));
    assert!(matches!(action.next, Next::Wait));
    match run.step(RunEvent::Exited(Exit::Code(3))).next {
        Next::Finish(result) => {
            assert_eq!(result.stdout, "out");
            assert_eq!(result.stderr, "\u{fffd}");
            assert_eq!(result.exit_code, 3);
        }
        _ => panic!("the command is over"),
    }
}

#[test]
fn command_directories_come_from_the_first_word() {
    assert_eq!(
        command_dir(&CommandPrefix::new("/opt/my\\ tools/run --fast")).expect("usable"),
        Some(String::from("/opt/my tools"))
    );
    // The directory is spelled as the entry spells it.
    assert_eq!(
        command_dir(&CommandPrefix::new("/opt//my/./tools//run")).expect("usable"),
        Some(String::from("/opt//my/./tools"))
    );
    assert_eq!(
        command_dir(&CommandPrefix::new("//run")).expect("usable"),
        Some(String::from("/"))
    );
    assert_eq!(command_dir(&CommandPrefix::new("echo hi")).expect("usable"), None);
    assert!(command_dir(&CommandPrefix::new("'open")).is_err());
    assert!(command_dir_of("x", &None).is_err());
    assert_eq!(command_dir_of("", &Some(Vec::new())).expect("nothing to run"), None);
}

#[test]
fn clauses_quote_their_paths() {
    assert_eq!(
        subpath_clauses(&vec![String::from("/a b"), String::from("/c\"d")]),
        ["(subpath \"/a b\")", "(subpath \"/c\\\"d\")"]
    );
    assert_eq!(writable_hosts(&mounts(), &hosts()), ["/host/rw"]);
}

#[test]
fn the_path_variable_joins_its_directories() {
    assert_eq!(
        path_env(&vec![String::from("/bin"), String::from("/usr/bin")]).expect("joinable"),
        "/bin:/usr/bin"
    );
    assert!(path_env(&vec![String::from("/with:colon")]).is_err());
    assert!(system_bin_dirs().contains(&String::from("/bin")));
}

#[test]
fn scratch_directories_are_made_up() {
    let one = scratch_directory("/tmp");
    assert!(one.starts_with("/tmp/agentd-sandbox-"));
    assert_eq!(one.len(), "/tmp/agentd-sandbox-".len() + 36);
    assert_ne!(one, scratch_directory("/tmp"));
}

#[test]
fn a_command_that_cannot_start_is_reported() {
    let failed = spawn_failed("no such file");
    assert_ne!(failed.exit_code, 0);
    assert!(failed.stderr.contains("no such file"));
    let refused = ConfinedProcessExecutor::cannot_execute("busy");
    assert_eq!(refused.exit_code, 126);
}
