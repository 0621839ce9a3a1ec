use agentd::policy::{CommandPrefix, Limits, NetworkPolicy, Pattern, Policy, Timeout};

#[test]
fn default_policy_is_fully_inert() {
    let policy = Policy::default();

    assert!(policy.fs.mounts.is_empty());
    assert!(policy.fs.refuse.is_empty());
    assert!(policy.fs.hide.is_empty());
    assert_eq!(policy.fs.max_total_bytes, None);
    assert_eq!(policy.fs.max_file_bytes, None);
    assert!(policy.shell.allow.is_empty());
    assert!(policy.shell.env.is_empty());
    assert_eq!(policy.shell.workdir, String::new());
    assert_eq!(policy.network, NetworkPolicy {});
}

#[test]
fn default_limits_are_safe_when_omitted() {
    let limits = Limits::default();

    assert_eq!(limits.timeout, Timeout::from_secs(60));
    assert_eq!(limits.max_command_count, 1_000);
    assert_eq!(limits.max_output_bytes, 1024 * 1024);
    assert_eq!(limits.max_memory_bytes, None);
}

#[test]
fn patterns_and_prefixes_keep_their_text() {
    assert_eq!(Pattern::new("*.pem").as_str(), "*.pem");
    assert_eq!(CommandPrefix::new("cargo test").as_str(), "cargo test");
}
