//! The sandbox policy model.
//!
//! A [`Policy`] is deny-by-default: the zero value mounts nothing, allows no
//! command, and imposes safe resource limits. Every field has an inert default.

use vstd::prelude::*;

verus! {

broadcast use vstd::string::group_string_axioms;

/// The four-domain deny-by-default configuration a sandbox runs under.
#[derive(Clone, Debug, PartialEq, Eq)]
pub struct Policy {
    /// Filesystem policy: mounts, refused and hidden path globs, byte caps.
    pub fs: FsPolicy,
    /// Shell policy: allowed command prefixes, environment, working directory.
    pub shell: ShellPolicy,
    /// Network policy: nothing to configure in this version.
    pub network: NetworkPolicy,
    /// Resource limits: guards, not grants; safe values even when omitted.
    pub limits: Limits,
}

/// Filesystem policy for the virtual filesystem.
#[derive(Clone, Debug, PartialEq, Eq)]
pub struct FsPolicy {
    /// The mounts that make up the virtual filesystem; unmounted paths are
    /// absent.
    pub mounts: Vec<Mount>,
    /// Access denied wherever the pattern matches, e.g. `.env`, `*.pem`,
    /// `.git/**`.
    pub refuse: Vec<Pattern>,
    /// Paths that appear absent, including in directory listings.
    pub hide: Vec<Pattern>,
    /// Host paths the OS confinement layer must not let a spawned command read,
    /// e.g. `/home/dev/.ssh`.
    ///
    /// [`refuse`](FsPolicy::refuse) and [`hide`](FsPolicy::hide) screen *virtual*
    /// paths, which a spawned host binary bypasses; this list is rendered into the
    /// OS profile, so it holds for real processes. It never affects virtual reads.
    ///
    /// Entries are absolute host paths, not globs and not `~`-prefixed. Each must
    /// resolve when the executor is built, or building it fails closed rather
    /// than withholding nothing. A path covering the workdir, an executable
    /// directory, or the sandbox scratch directory is rejected, since every
    /// command needs those. Empty by default.
    pub deny_read: Vec<String>,
    /// Cap on the total bytes written through the sandbox.
    pub max_total_bytes: Option<u64>,
    /// Cap on the bytes of a single file written through the sandbox.
    pub max_file_bytes: Option<u64>,
}

/// A mount binds a virtual location to a backing source.
#[derive(Clone, Debug, PartialEq, Eq)]
pub struct Mount {
    /// The virtual mount point, sandbox-absolute (e.g. `/work`). Mounting at
    /// `/` backs the whole virtual root.
    pub at: String,
    /// What backs the mount.
    pub source: MountSource,
}

/// What backs a [`Mount`].
#[derive(Clone, Debug, PartialEq, Eq)]
pub enum MountSource {
    /// Fully in-memory and byte-accounted; the default and the safest backing.
    Mem,
    /// A host directory, read-only through the sandbox.
    ReadOnly {
        /// The host directory the mount is rooted at.
        host: String,
    },
    /// A host directory, writable through the sandbox: the only write path to
    /// the host.
    ReadWrite {
        /// The host directory the mount is rooted at.
        host: String,
    },
    /// A host directory with copy-on-write: reads fall through to the host,
    /// writes stay in memory. The host side is never written through the
    /// sandbox.
    Overlay {
        /// The host directory the mount is rooted at.
        host: String,
    },
}

/// A glob pattern evaluated against virtual paths.
///
/// Patterns use deny-anywhere semantics: a pattern matches a path when it
/// matches the full path or any path suffix starting after a separator, so
/// `.env` denies `/work/.env` and `/work/sub/.env`, and `.git/**` denies
/// everything under any `.git` directory.
#[derive(Clone, Debug, PartialEq, Eq, Hash)]
pub struct Pattern(String);

impl View for Pattern {
    type V = Seq<char>;

    closed spec fn view(&self) -> Seq<char> {
        self.0@
    }
}

impl Pattern {
    /// Creates a pattern from a glob string.
    #[must_use]
    pub fn new(pattern: &str) -> (r: Pattern)
        ensures
            r@ == pattern@,
    {
        Pattern(pattern.to_owned())
    }

    /// The glob string.
    #[must_use]
    pub fn as_str(&self) -> (r: &str)
        ensures
            r@ == self@,
    {
        self.0.as_str()
    }
}

/// The glob strings of a list of patterns.
pub open spec fn pattern_views(patterns: Seq<Pattern>) -> Seq<Seq<char>> {
    Seq::new(patterns.len(), |i: int| patterns[i]@)
}

/// Shell policy for commands executed through the sandbox.
#[derive(Clone, Debug, PartialEq, Eq)]
pub struct ShellPolicy {
    /// Allowed command prefixes. Deny-by-default: an empty list means no
    /// command runs.
    pub allow: Vec<CommandPrefix>,
    /// The environment handed to commands, verbatim. The host environment is
    /// never inherited.
    pub env: EnvAllowlist,
    /// Host working directory for spawned commands.
    pub workdir: String,
}

/// An allowed command prefix: the command's tokens must start with exactly
/// these tokens.
#[derive(Clone, Debug, PartialEq, Eq, Hash)]
pub struct CommandPrefix(String);

impl View for CommandPrefix {
    type V = Seq<char>;

    closed spec fn view(&self) -> Seq<char> {
        self.0@
    }
}

impl CommandPrefix {
    /// Creates a prefix from its token list, e.g. `cargo test`.
    #[must_use]
    pub fn new(prefix: &str) -> (r: CommandPrefix)
        ensures
            r@ == prefix@,
    {
        CommandPrefix(prefix.to_owned())
    }

    /// The prefix string.
    #[must_use]
    pub fn as_str(&self) -> (r: &str)
        ensures
            r@ == self@,
    {
        self.0.as_str()
    }
}

/// The prefix strings of an allowlist.
pub open spec fn prefix_views(prefixes: Seq<CommandPrefix>) -> Seq<Seq<char>> {
    Seq::new(prefixes.len(), |i: int| prefixes[i]@)
}

/// The environment handed to commands: literal variables, never derived from
/// the host environment.
pub type EnvAllowlist = Vec<EnvVar>;

/// One literal environment variable.
#[derive(Clone, Debug, PartialEq, Eq, Hash)]
pub struct EnvVar {
    /// Variable name, e.g. `CARGO_HOME`.
    pub name: String,
    /// Variable value passed to the command as-is.
    pub value: String,
}

/// The name and value of each variable, in order.
pub open spec fn env_views(env: Seq<EnvVar>) -> Seq<(Seq<char>, Seq<char>)> {
    Seq::new(env.len(), |i: int| (env[i].name@, env[i].value@))
}

/// Network policy. This version has no configurable surface.
#[derive(Clone, Copy, Debug, Default, PartialEq, Eq, Structural)]
pub struct NetworkPolicy {}

/// A span of time: whole seconds and nanoseconds below a second.
#[derive(Clone, Copy, Debug, PartialEq, Eq, Structural)]
pub struct Timeout {
    secs: u64,
    nanos: u32,
}

impl Timeout {
    #[verifier::type_invariant]
    spec fn normal(&self) -> bool {
        self.nanos < 1_000_000_000
    }

    /// The whole seconds.
    pub closed spec fn whole(&self) -> u64 {
        self.secs
    }

    /// The nanoseconds below a second.
    pub closed spec fn rest(&self) -> u32 {
        self.nanos
    }

    /// A span of so many seconds and nanoseconds.
    pub fn new(secs: u64, nanos: u32) -> (r: Timeout)
        requires
            nanos < 1_000_000_000,
        ensures
            r.whole() == secs,
            r.rest() == nanos,
    {
        Timeout { secs, nanos }
    }

    /// A span of whole seconds.
    pub fn from_secs(secs: u64) -> (r: Timeout)
        ensures
            r.whole() == secs,
            r.rest() == 0,
    {
        Timeout { secs, nanos: 0 }
    }

    /// The whole seconds.
    pub fn as_secs(&self) -> (r: u64)
        ensures
            r == self.whole(),
    {
        self.secs
    }

    /// The nanoseconds below a second.
    pub fn subsec_nanos(&self) -> (r: u32)
        ensures
            r == self.rest(),
            r < 1_000_000_000,
    {
        proof {
            use_type_invariant(self);
        }
        self.nanos
    }
}

/// Resource limits guarding against runaway commands.
#[derive(Clone, Copy, Debug, PartialEq, Eq, Structural)]
pub struct Limits {
    /// Wall-clock timeout per command.
    pub timeout: Timeout,
    /// Command count per sandbox: a fork-bomb and runaway-loop guard.
    pub max_command_count: u32,
    /// Cap on captured command output bytes.
    pub max_output_bytes: u64,
    /// Best-effort memory cap; configuration only.
    pub max_memory_bytes: Option<u64>,
}

/// Whether a policy grants nothing: no mounts, no screened or denied paths, no
/// caps, no commands, no environment, and no working directory.
pub open spec fn is_inert(policy: &Policy) -> bool {
    &&& policy.fs.mounts@.len() == 0
    &&& policy.fs.refuse@.len() == 0
    &&& policy.fs.hide@.len() == 0
    &&& policy.fs.deny_read@.len() == 0
    &&& policy.fs.max_total_bytes is None
    &&& policy.fs.max_file_bytes is None
    &&& policy.shell.allow@.len() == 0
    &&& policy.shell.env@.len() == 0
    &&& policy.shell.workdir@.len() == 0
}

/// Whether limits are those a policy has when it names none.
pub open spec fn are_default_limits(limits: Limits) -> bool {
    &&& limits.timeout.whole() == 60
    &&& limits.timeout.rest() == 0
    &&& limits.max_command_count == 1_000
    &&& limits.max_output_bytes == 1_048_576
    &&& limits.max_memory_bytes is None
}

impl Default for Policy {
    fn default() -> (r: Policy)
        ensures
            is_inert(&r),
            are_default_limits(r.limits),
    {
        Policy {
            fs: FsPolicy::default(),
            shell: ShellPolicy::default(),
            network: NetworkPolicy {  },
            limits: Limits::default(),
        }
    }
}

impl Default for FsPolicy {
    fn default() -> (r: FsPolicy)
        ensures
            r.mounts@.len() == 0,
            r.refuse@.len() == 0,
            r.hide@.len() == 0,
            r.deny_read@.len() == 0,
            r.max_total_bytes is None,
            r.max_file_bytes is None,
    {
        FsPolicy {
            mounts: Vec::new(),
            refuse: Vec::new(),
            hide: Vec::new(),
            deny_read: Vec::new(),
            max_total_bytes: None,
            max_file_bytes: None,
        }
    }
}

impl Default for ShellPolicy {
    fn default() -> (r: ShellPolicy)
        ensures
            r.allow@.len() == 0,
            r.env@.len() == 0,
            r.workdir@.len() == 0,
    {
        ShellPolicy { allow: Vec::new(), env: Vec::new(), workdir: String::new() }
    }
}

impl Default for Limits {
    fn default() -> (r: Limits)
        ensures
            are_default_limits(r),
    {
        Limits {
            timeout: Timeout::from_secs(60),
            max_command_count: 1_000,
            max_output_bytes: 1_048_576,
            max_memory_bytes: None,
        }
    }
}

} // verus!
