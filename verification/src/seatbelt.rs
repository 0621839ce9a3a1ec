//! Layer-1 confinement for macOS: commands spawn as real processes under a
//! Seatbelt (`sandbox-exec`) profile rendered from the policy.
//!
//! The profile is deny-by-default:
//!
//! - **Process execution** is limited to the confined `PATH` directories.
//! - **File writes** are limited to the read-write mounts, `/dev/null`, and
//!   the sandbox scratch directory.
//! - **Network** is denied entirely: `deny default` allows no socket setup.
//! - **File reads** are granted broadly, at `/`, and narrowed only by the paths
//!   the policy denies; all other read confinement stays at the virtual
//!   filesystem.

use crate::error::{FsError, SandboxError};
use crate::executor::{DenialReason, ExecResult, EXIT_CANNOT_EXECUTE};
use crate::hostpath;
use crate::ids;
use crate::policy::{self, CommandPrefix, EnvVar, Mount, MountSource, Policy, Timeout};
use crate::shell;
use crate::text;
use vstd::prelude::*;

verus! {

broadcast use vstd::string::group_string_axioms;

/// The Seatbelt front-end. Unconfined itself: it applies the profile to its
/// child.
pub const SANDBOX_EXEC: &'static str = "/usr/bin/sandbox-exec";

/// The shell the command runs under.
pub const BASH: &'static str = "/bin/bash";

/// The exit code of a command that exceeded its timeout.
pub const EXIT_TIMED_OUT: i32 = 124;

/// The exit code of a command killed for its output.
pub const SIGKILL_EXIT: i32 = 137;

/// The directories the confined `PATH` is built from; everything on it is also
/// executable under the profile.
pub open spec fn system_dirs() -> Seq<Seq<char>> {
    seq!["/bin"@, "/usr/bin"@, "/usr/local/bin"@, "/opt/homebrew/bin"@]
}

/// The system directories, for probing.
pub fn system_bin_dirs() -> (r: Vec<String>)
    ensures
        text::views(r@) == system_dirs(),
{
    let dirs = vec![
        "/bin".to_owned(),
        "/usr/bin".to_owned(),
        "/usr/local/bin".to_owned(),
        "/opt/homebrew/bin".to_owned(),
    ];
    proof {
        assert(text::views(dirs@) =~= system_dirs());
    }
    dirs
}

/// Whether the list holds a text that names the same path as `dir`.
pub open spec fn names_dir(dirs: Seq<Seq<char>>, dir: Seq<char>) -> bool {
    exists|i: int| 0 <= i < dirs.len() && hostpath::same_path(#[trigger] dirs[i], dir)
}

/// The directory an allowlist entry's command lives in, from its words: none
/// for an entry without words or with a bare command name, and a message for
/// an entry that is not usable.
pub open spec fn entry_dir(
    prefix: Seq<char>,
    words: Option<Seq<Seq<char>>>,
) -> Result<Option<Seq<char>>, Seq<char>> {
    match words {
        None => Err(
            "allowlist entry "@ + text::debug_quoted(prefix) + " is not tokenizable"@,
        ),
        Some(words) => if words.len() == 0 || !words[0].contains('/') {
            Ok(None)
        } else if !hostpath::absolute(words[0]) {
            Err(
                "allowlist entry "@ + text::debug_quoted(words[0])
                    + " must be an absolute path or a bare command name"@,
            )
        } else {
            Ok(hostpath::parent_of(words[0]))
        },
    }
}

/// The directories of the list that exist, in order.
pub open spec fn existing_of(dirs: Seq<Seq<char>>, existing: Seq<Seq<char>>) -> Seq<Seq<char>>
    decreases dirs.len(),
{
    if dirs.len() == 0 {
        Seq::empty()
    } else if names_dir(existing, dirs.last()) {
        existing_of(dirs.drop_last(), existing).push(dirs.last())
    } else {
        existing_of(dirs.drop_last(), existing)
    }
}

/// The confined `PATH`: the system directories that exist, and then each
/// existing directory of an allowlisted command that is not on it yet. The
/// first unusable entry is reported.
pub open spec fn path_dirs(
    allow: Seq<Seq<char>>,
    existing: Seq<Seq<char>>,
) -> Result<Seq<Seq<char>>, Seq<char>>
    decreases allow.len(),
{
    if allow.len() == 0 {
        Ok(existing_of(system_dirs(), existing))
    } else {
        match path_dirs(allow.drop_last(), existing) {
            Err(message) => Err(message),
            Ok(dirs) => match entry_dir(allow.last(), shell::shell_words(allow.last())) {
                Err(message) => Err(message),
                Ok(None) => Ok(dirs),
                Ok(Some(dir)) => if names_dir(existing, dir) && !names_dir(dirs, dir) {
                    Ok(dirs.push(dir))
                } else {
                    Ok(dirs)
                },
            },
        }
    }
}

/// Whether `error` is an invalid policy with this message.
pub open spec fn invalid_policy(error: SandboxError, message: Seq<char>) -> bool {
    match error {
        SandboxError::InvalidPolicy(text) => text@ == message,
        _ => false,
    }
}

/// Whether the list names `dir`.
fn contains_dir(dirs: &Vec<String>, dir: &str) -> (r: bool)
    ensures
        r == names_dir(text::views(dirs@), dir@),
{
    let mut i: usize = 0;
    while i < dirs.len()
        invariant
            i <= dirs@.len(),
            forall|k: int|
                0 <= k < i ==> !hostpath::same_path(#[trigger] text::views(dirs@)[k], dir@),
        decreases dirs@.len() - i,
    {
        if hostpath::same(dirs[i].as_str(), dir) {
            assert(hostpath::same_path(text::views(dirs@)[i as int], dir@));
            return true;
        }
        i = i + 1;
    }
    false
}

/// The directory an allowlist entry's command lives in, from the words of the
/// entry.
pub fn command_dir_of(prefix: &str, words: &Option<Vec<String>>) -> (r: Result<
    Option<String>,
    SandboxError,
>)
    ensures
        match entry_dir(prefix@, shell::words_view(*words)) {
            Ok(dir) => r is Ok && text::opt_view(r->Ok_0) == dir,
            Err(message) => r is Err && invalid_policy(r->Err_0, message),
        },
{
    match words {
        None => {
            let quoted = text::debug_text(prefix);
            let mut message = text::concat("allowlist entry ", quoted.as_str());
            message.append(" is not tokenizable");
            Err(SandboxError::InvalidPolicy(message))
        },
        Some(words) => {
            proof {
                assert(text::views(words@).len() == words@.len());
            }
            if words.len() == 0 {
                return Ok(None);
            }
            let first = words[0].as_str();
            proof {
                assert(text::views(words@)[0] == first@);
            }
            if !text::contains_char(first, '/') {
                return Ok(None);
            }
            if !hostpath::is_absolute(first) {
                let quoted = text::debug_text(first);
                let mut message = text::concat("allowlist entry ", quoted.as_str());
                message.append(" must be an absolute path or a bare command name");
                return Err(SandboxError::InvalidPolicy(message));
            }
            Ok(hostpath::parent(first))
        },
    }
}

/// The directory an allowlist entry's command lives in.
pub fn command_dir(prefix: &CommandPrefix) -> (r: Result<Option<String>, SandboxError>)
    ensures
        match entry_dir(prefix@, shell::shell_words(prefix@)) {
            Ok(dir) => r is Ok && text::opt_view(r->Ok_0) == dir,
            Err(message) => r is Err && invalid_policy(r->Err_0, message),
        },
{
    let words = shell::split_words(prefix.as_str());
    command_dir_of(prefix.as_str(), &words)
}

/// Builds the confined `PATH`: the system directories that exist plus the
/// directories holding allowlisted commands. `existing` are the directories
/// that were found on the host.
pub fn confined_path_dirs(allow: &[CommandPrefix], existing: &Vec<String>) -> (r: Result<
    Vec<String>,
    SandboxError,
>)
    ensures
        match path_dirs(policy::prefix_views(allow@), text::views(existing@)) {
            Ok(dirs) => r is Ok && text::views(r->Ok_0@) == dirs,
            Err(message) => r is Err && invalid_policy(r->Err_0, message),
        },
{
    let ghost entries = policy::prefix_views(allow@);
    let ghost found = text::views(existing@);
    let mut dirs = existing_system_dirs(existing);
    let mut i: usize = 0;
    proof {
        assert(entries.take(0) =~= Seq::<Seq<char>>::empty());
    }
    while i < allow.len()
        invariant
            i <= allow@.len(),
            entries == policy::prefix_views(allow@),
            found == text::views(existing@),
            path_dirs(entries.take(i as int), found) == Ok::<Seq<Seq<char>>, Seq<char>>(
                text::views(dirs@),
            ),
        decreases allow@.len() - i,
    {
        proof {
            assert(entries.take(i + 1).drop_last() =~= entries.take(i as int));
            assert(entries.take(i + 1).last() == allow@[i as int]@);
        }
        match command_dir(&allow[i]) {
            Ok(None) => {},
            Ok(Some(dir)) => {
                if contains_dir(existing, dir.as_str()) && !contains_dir(&dirs, dir.as_str()) {
                    let ghost before = dirs@;
                    dirs.push(dir);
                    proof {
                        assert(text::views(dirs@) =~= text::views(before).push(dir@));
                    }
                }
            },
            Err(error) => {
                proof {
                    lemma_path_error(entries, found, i + 1);
                }
                return Err(error);
            },
        }
        i = i + 1;
    }
    proof {
        assert(entries.take(i as int) =~= entries);
    }
    Ok(dirs)
}

/// An unusable entry is reported whatever follows it.
proof fn lemma_path_error(allow: Seq<Seq<char>>, existing: Seq<Seq<char>>, n: int)
    requires
        0 <= n <= allow.len(),
        path_dirs(allow.take(n), existing) is Err,
    ensures
        path_dirs(allow, existing) == path_dirs(allow.take(n), existing),
    decreases allow.len(),
{
    if n < allow.len() {
        assert(allow.drop_last().take(n) =~= allow.take(n));
        lemma_path_error(allow.drop_last(), existing, n);
    } else {
        assert(allow.take(n) =~= allow);
    }
}

fn existing_system_dirs(existing: &Vec<String>) -> (r: Vec<String>)
    ensures
        text::views(r@) == existing_of(system_dirs(), text::views(existing@)),
{
    let all = system_bin_dirs();
    let mut dirs: Vec<String> = Vec::new();
    let mut i: usize = 0;
    proof {
        assert(text::views(dirs@) =~= Seq::<Seq<char>>::empty());
        assert(text::views(all@).take(0) =~= Seq::<Seq<char>>::empty());
    }
    while i < all.len()
        invariant
            i <= all@.len(),
            text::views(dirs@) == existing_of(
                text::views(all@).take(i as int),
                text::views(existing@),
            ),
        decreases all@.len() - i,
    {
        proof {
            assert(text::views(all@).take(i + 1).drop_last() =~= text::views(all@).take(i as int));
            assert(text::views(all@).take(i + 1).last() == all@[i as int]@);
        }
        if contains_dir(existing, all[i].as_str()) {
            let ghost before = dirs@;
            dirs.push(all[i].clone());
            proof {
                assert(text::views(dirs@) =~= text::views(before).push(all@[i as int]@));
            }
        }
        i = i + 1;
    }
    proof {
        assert(text::views(all@).take(i as int) =~= text::views(all@));
    }
    dirs
}

/// The value of `PATH` for a list of directories, which no directory may break
/// with a separator of its own.
pub open spec fn path_value(dirs: Seq<Seq<char>>) -> Result<Seq<char>, Seq<char>> {
    if exists|i: int| 0 <= i < dirs.len() && (#[trigger] dirs[i]).contains(':') {
        Err("confined PATH is malformed: path segment contains separator `:`"@)
    } else {
        Ok(text::join(dirs, ':'))
    }
}

/// The value of `PATH` for a list of directories.
pub fn path_env(dirs: &Vec<String>) -> (r: Result<String, SandboxError>)
    ensures
        match path_value(text::views(dirs@)) {
            Ok(value) => r is Ok && r->Ok_0@ == value,
            Err(message) => r is Err && invalid_policy(r->Err_0, message),
        },
{
    let mut i: usize = 0;
    while i < dirs.len()
        invariant
            i <= dirs@.len(),
            forall|k: int| 0 <= k < i ==> !(#[trigger] text::views(dirs@)[k]).contains(':'),
        decreases dirs@.len() - i,
    {
        if text::contains_char(dirs[i].as_str(), ':') {
            assert(text::views(dirs@)[i as int].contains(':'));
            return Err(
                SandboxError::InvalidPolicy(
                    "confined PATH is malformed: path segment contains separator `:`".to_owned(),
                ),
            );
        }
        i = i + 1;
    }
    Ok(text::join_text(dirs.as_slice(), ':'))
}

/// Whether a mount has a directory of the host behind it.
pub open spec fn host_backed(source: MountSource) -> bool {
    !(source is Mem)
}

/// What was found of a working directory on the host.
pub struct WorkdirProbe {
    /// Whether the path is a directory, or why it is not accessible.
    pub is_dir: Result<bool, String>,
    /// The canonical form of the path, or why it has none.
    pub canonical: Result<String, FsError>,
}

/// Whether a host-backed mount covers `path`; `hosts` are the canonical forms
/// of the mounts' host directories, where they have one.
pub open spec fn covered(
    mounts: Seq<Mount>,
    hosts: Seq<Option<String>>,
    path: Seq<char>,
) -> bool {
    exists|i: int|
        0 <= i < mounts.len() && i < hosts.len() && host_backed((#[trigger] mounts[i]).source)
            && hosts[i] is Some && hostpath::is_under(path, hosts[i]->0@)
}

/// Whether `result` is the answer for a working directory: its canonical form
/// when it is an absolute, accessible directory inside a host-backed mount, and
/// otherwise the first reason it is not.
pub open spec fn workdir_answer(
    workdir: Seq<char>,
    mounts: Seq<Mount>,
    probe: WorkdirProbe,
    hosts: Seq<Option<String>>,
    result: Result<String, SandboxError>,
) -> bool {
    if !hostpath::absolute(workdir) {
        result is Err && invalid_policy(
            result->Err_0,
            "workdir "@ + text::debug_quoted(workdir) + " must be absolute"@,
        )
    } else {
        match probe.is_dir {
            Err(error) => result is Err && invalid_policy(
                result->Err_0,
                "workdir "@ + workdir + " is not accessible: "@ + error@,
            ),
            Ok(false) => result is Err && invalid_policy(
                result->Err_0,
                "workdir "@ + workdir + " is not a directory"@,
            ),
            Ok(true) => match probe.canonical {
                Err(error) => result == Err::<String, SandboxError>(SandboxError::Io(error)),
                Ok(canonical) => if covered(mounts, hosts, canonical@) {
                    result is Ok && result->Ok_0@ == canonical@
                } else {
                    result is Err && invalid_policy(
                        result->Err_0,
                        "workdir must be inside a host-backed mount so the process and the VFS see the same tree"@,
                    )
                },
            },
        }
    }
}

/// Decides whether a working directory is usable, from what was found of it
/// and of the mounts' host directories.
pub fn validate_workdir(
    workdir: &str,
    mounts: &[Mount],
    probe: WorkdirProbe,
    hosts: &Vec<Option<String>>,
) -> (r: Result<String, SandboxError>)
    ensures
        workdir_answer(workdir@, mounts@, probe, hosts@, r),
{
    if !hostpath::is_absolute(workdir) {
        let quoted = text::debug_text(workdir);
        let mut message = text::concat("workdir ", quoted.as_str());
        message.append(" must be absolute");
        return Err(SandboxError::InvalidPolicy(message));
    }
    let mut message = text::concat("workdir ", workdir);
    match probe.is_dir {
        Err(error) => {
            message.append(" is not accessible: ");
            message.append(error.as_str());
            return Err(SandboxError::InvalidPolicy(message));
        },
        Ok(is_dir) => {
            if !is_dir {
                message.append(" is not a directory");
                return Err(SandboxError::InvalidPolicy(message));
            }
        },
    }
    let canonical = match probe.canonical {
        Ok(canonical) => canonical,
        Err(error) => return Err(SandboxError::Io(error)),
    };
    let mut i: usize = 0;
    while i < mounts.len() && i < hosts.len()
        invariant
            i <= mounts@.len(),
            i <= hosts@.len(),
            hostpath::absolute(workdir@),
            probe.is_dir == Ok::<bool, String>(true),
            probe.canonical == Ok::<String, FsError>(canonical),
            forall|k: int|
                0 <= k < i ==> !(host_backed((#[trigger] mounts@[k]).source) && hosts@[k] is Some
                    && hostpath::is_under(canonical@, hosts@[k]->0@)),
        decreases mounts@.len() - i,
    {
        let backed = match mounts[i].source {
            MountSource::Mem => false,
            _ => true,
        };
        if backed {
            if let Some(host) = &hosts[i] {
                if hostpath::starts_with(canonical.as_str(), host.as_str()) {
                    assert(host_backed(mounts@[i as int].source));
                    return Ok(canonical);
                }
            }
        }
        i = i + 1;
    }
    Err(
        SandboxError::InvalidPolicy(
            "workdir must be inside a host-backed mount so the process and the VFS see the same tree".to_owned(),
        ),
    )
}

/// The canonical host directories that receive OS-level write grants: those of
/// the read-write mounts. Overlay and read-only mounts are intentionally
/// read-only at the OS level.
pub open spec fn writable(mounts: Seq<Mount>, hosts: Seq<Option<String>>) -> Seq<Seq<char>>
    decreases mounts.len(),
{
    if mounts.len() == 0 {
        Seq::empty()
    } else {
        let before = writable(mounts.drop_last(), hosts);
        let i = mounts.len() - 1;
        if mounts.last().source is ReadWrite && i < hosts.len() && hosts[i] is Some {
            before.push(hosts[i]->0@)
        } else {
            before
        }
    }
}

/// The canonical host directories of the read-write mounts; `hosts` are the
/// canonical forms of the mounts' host directories, where they have one.
pub fn writable_hosts(mounts: &[Mount], hosts: &Vec<Option<String>>) -> (r: Vec<String>)
    ensures
        text::views(r@) == writable(mounts@, hosts@),
{
    let mut dirs: Vec<String> = Vec::new();
    let mut i: usize = 0;
    proof {
        assert(text::views(dirs@) =~= Seq::<Seq<char>>::empty());
    }
    while i < mounts.len()
        invariant
            i <= mounts@.len(),
            text::views(dirs@) == writable(mounts@.take(i as int), hosts@),
        decreases mounts@.len() - i,
    {
        proof {
            assert(mounts@.take(i + 1).drop_last() =~= mounts@.take(i as int));
            assert(mounts@.take(i + 1).last() == mounts@[i as int]);
        }
        if let MountSource::ReadWrite { host: _ } = &mounts[i].source {
            if i < hosts.len() {
                if let Some(host) = &hosts[i] {
                    let ghost before = dirs@;
                    dirs.push(host.clone());
                    proof {
                        assert(text::views(dirs@) =~= text::views(before).push(host@));
                    }
                }
            }
        }
        i = i + 1;
    }
    proof {
        assert(mounts@.take(i as int) =~= mounts@);
    }
    dirs
}

/// The profile clause that covers everything under a path.
pub open spec fn subpath_clause(path: Seq<char>) -> Seq<char> {
    "(subpath "@ + text::debug_quoted(path) + ")"@
}

/// The clauses of the paths, sorted and without repetition.
pub open spec fn clauses(paths: Seq<Seq<char>>) -> Seq<Seq<char>> {
    text::sorted_unique(Seq::new(paths.len(), |i: int| subpath_clause(paths[i])))
}

/// The clauses of the paths, sorted and without repetition.
pub fn subpath_clauses(paths: &Vec<String>) -> (r: Vec<String>)
    ensures
        text::views(r@) == clauses(text::views(paths@)),
{
    let mut all: Vec<String> = Vec::new();
    let mut i: usize = 0;
    while i < paths.len()
        invariant
            i <= paths@.len(),
            all@.len() == i,
            forall|k: int| 0 <= k < i ==> (#[trigger] all@[k])@ == subpath_clause(paths@[k]@),
        decreases paths@.len() - i,
    {
        let quoted = text::debug_text(paths[i].as_str());
        let mut clause = text::concat("(subpath ", quoted.as_str());
        clause.append(")");
        all.push(clause);
        i = i + 1;
    }
    proof {
        let views = text::views(paths@);
        assert(text::views(all@) =~= Seq::new(
            views.len(),
            |k: int| subpath_clause(views[k]),
        ));
    }
    text::sort_unique(&all)
}

/// The write clauses of a profile: the writable hosts and the scratch
/// directory, sorted, and then the null device.
pub open spec fn write_clauses(
    mounts: Seq<Mount>,
    hosts: Seq<Option<String>>,
    scratch: Seq<char>,
) -> Seq<Seq<char>> {
    clauses(writable(mounts, hosts).push(scratch)).push("(literal \"/dev/null\")"@)
}

/// The canonical forms of the paths that must not be read, in order; `denied`
/// holds the canonical form of each entry, where it has one.
pub open spec fn denied_paths(entries: Seq<Seq<char>>, denied: Seq<Option<String>>) -> Seq<
    Seq<char>,
>
    decreases entries.len(),
{
    if entries.len() == 0 {
        Seq::empty()
    } else {
        let before = denied_paths(entries.drop_last(), denied);
        match resolved_entry(denied, entries.len() - 1) {
            Some(path) => before.push(path),
            None => before,
        }
    }
}

/// The canonical form of the entry at an index, if it has one.
pub open spec fn resolved_entry(denied: Seq<Option<String>>, i: int) -> Option<Seq<char>> {
    if 0 <= i < denied.len() {
        text::opt_view(denied[i])
    } else {
        None
    }
}

fn resolved_denials(entries: &Vec<String>, denied: &Vec<Option<String>>) -> (r: Vec<String>)
    ensures
        text::views(r@) == denied_paths(text::views(entries@), denied@),
{
    let ghost all = text::views(entries@);
    let mut paths: Vec<String> = Vec::new();
    let mut i: usize = 0;
    proof {
        assert(text::views(paths@) =~= Seq::<Seq<char>>::empty());
        assert(all.take(0) =~= Seq::<Seq<char>>::empty());
    }
    while i < entries.len()
        invariant
            i <= entries@.len(),
            all == text::views(entries@),
            text::views(paths@) == denied_paths(all.take(i as int), denied@),
        decreases entries@.len() - i,
    {
        proof {
            assert(all.take(i + 1).drop_last() =~= all.take(i as int));
        }
        if i < denied.len() {
            if let Some(path) = &denied[i] {
                let ghost before = paths@;
                paths.push(path.clone());
                proof {
                    assert(text::views(paths@) =~= text::views(before).push(path@));
                }
            }
        }
        i = i + 1;
    }
    proof {
        assert(all.take(i as int) =~= all);
    }
    paths
}

/// The line that denies reads under the paths, when there are any.
pub open spec fn deny_lines(paths: Seq<Seq<char>>) -> Seq<Seq<char>> {
    if paths.len() == 0 {
        Seq::empty()
    } else {
        seq!["(deny file-read* "@ + text::join(clauses(paths), ' ') + ")"@]
    }
}

/// The lines of a profile. A later line overrules an earlier one, so the denials
/// of reads follow the grants.
pub open spec fn profile_lines(
    mounts: Seq<Mount>,
    hosts: Seq<Option<String>>,
    denied: Seq<Seq<char>>,
    scratch: Seq<char>,
    dirs: Seq<Seq<char>>,
) -> Seq<Seq<char>> {
    seq![
        "(version 1)"@,
        "(deny default)"@,
        "(allow process-fork)"@,
        "(allow process-exec "@ + text::join(clauses(dirs), ' ') + ")"@,
        "(allow file-read-data (subpath \"/\"))"@,
        "(allow file-read-metadata)"@,
        "(allow file-read-xattr)"@,
    ] + deny_lines(denied) + seq![
        "(allow file-write* "@ + text::join(write_clauses(mounts, hosts, scratch), ' ') + ")"@,
        "(allow sysctl-read)"@,
    ]
}

/// The Seatbelt profile of a policy: deny by default, execution under the
/// confined `PATH` only, broad reads but for the paths that must not be read, and
/// writes to the read-write mounts, the scratch directory, and the null device
/// only. `hosts` and `denied` are the canonical forms of the mounts' host
/// directories and of the paths that must not be read, where they have one.
pub fn render_profile(
    policy: &Policy,
    scratch: &str,
    path_dirs: &Vec<String>,
    hosts: &Vec<Option<String>>,
    denied: &Vec<Option<String>>,
) -> (r: String)
    ensures
        r@ == text::join(
            profile_lines(
                policy.fs.mounts@,
                hosts@,
                denied_paths(text::views(policy.fs.deny_read@), denied@),
                scratch@,
                text::views(path_dirs@),
            ),
            '\n',
        ),
{
    let exec_clauses = subpath_clauses(path_dirs);
    let mut exec_line = "(allow process-exec ".to_owned();
    exec_line.append(text::join_text(exec_clauses.as_slice(), ' ').as_str());
    exec_line.append(")");

    let mut writable = writable_hosts(policy.fs.mounts.as_slice(), hosts);
    let ghost hosts_only = writable@;
    writable.push(scratch.to_owned());
    proof {
        assert(text::views(writable@) =~= text::views(hosts_only).push(scratch@));
    }
    let mut grants = subpath_clauses(&writable);
    let ghost before = grants@;
    grants.push("(literal \"/dev/null\")".to_owned());
    proof {
        assert(text::views(grants@) =~= text::views(before).push("(literal \"/dev/null\")"@));
    }
    let mut write_line = "(allow file-write* ".to_owned();
    write_line.append(text::join_text(grants.as_slice(), ' ').as_str());
    write_line.append(")");

    let mut lines = vec![
        "(version 1)".to_owned(),
        "(deny default)".to_owned(),
        "(allow process-fork)".to_owned(),
        exec_line,
        "(allow file-read-data (subpath \"/\"))".to_owned(),
        "(allow file-read-metadata)".to_owned(),
        "(allow file-read-xattr)".to_owned(),
    ];
    let paths = resolved_denials(&policy.fs.deny_read, denied);
    let ghost secret = denied_paths(text::views(policy.fs.deny_read@), denied@);
    proof {
        assert(text::views(paths@).len() == paths@.len());
    }
    if paths.len() > 0 {
        let mut deny_line = "(deny file-read* ".to_owned();
        deny_line.append(text::join_text(subpath_clauses(&paths).as_slice(), ' ').as_str());
        deny_line.append(")");
        lines.push(deny_line);
    }
    lines.push(write_line);
    lines.push("(allow sysctl-read)".to_owned());
    proof {
        assert(text::views(lines@) =~= profile_lines(
            policy.fs.mounts@,
            hosts@,
            secret,
            scratch@,
            text::views(path_dirs@),
        ));
    }
    text::join_text(lines.as_slice(), '\n')
}

/// A path that must not be read is denied in the profile, after every grant of
/// reads: the line of denials follows them and covers the path.
pub proof fn denied_reads_are_rendered(
    mounts: Seq<Mount>,
    hosts: Seq<Option<String>>,
    entries: Seq<Seq<char>>,
    denied: Seq<Option<String>>,
    scratch: Seq<char>,
    dirs: Seq<Seq<char>>,
    i: int,
)
    requires
        0 <= i < entries.len(),
        resolved_entry(denied, i) is Some,
    ensures
        ({
            let paths = denied_paths(entries, denied);
            &&& profile_lines(mounts, hosts, paths, scratch, dirs)[7] == "(deny file-read* "@
                + text::join(clauses(paths), ' ') + ")"@
            &&& clauses(paths).contains(subpath_clause(resolved_entry(denied, i)->0))
        }),
{
    let path = resolved_entry(denied, i)->0;
    let paths = denied_paths(entries, denied);
    lemma_denied_path(entries, denied, i);
    let k = choose|k: int| 0 <= k < paths.len() && paths[k] == path;
    let all = Seq::new(paths.len(), |n: int| subpath_clause(paths[n]));
    assert(all[k] == subpath_clause(path));
    text::sorting_keeps_the_items(all);
    assert(all.contains(subpath_clause(path)));
}

proof fn lemma_denied_path(entries: Seq<Seq<char>>, denied: Seq<Option<String>>, i: int)
    requires
        0 <= i < entries.len(),
        resolved_entry(denied, i) is Some,
    ensures
        denied_paths(entries, denied).contains(resolved_entry(denied, i)->0),
    decreases entries.len(),
{
    let path = resolved_entry(denied, i)->0;
    let paths = denied_paths(entries, denied);
    let before = denied_paths(entries.drop_last(), denied);
    if i < entries.len() - 1 {
        lemma_denied_path(entries.drop_last(), denied, i);
        let k = choose|k: int| 0 <= k < before.len() && before[k] == path;
        assert(paths[k] == path);
    } else {
        assert(paths[paths.len() - 1] == path);
    }
}

/// Whether a path covers what every command needs: the working directory, an
/// executable directory, or the scratch directory.
pub open spec fn covers_needed(
    path: Seq<char>,
    workdir: Seq<char>,
    dirs: Seq<Seq<char>>,
    scratch: Seq<char>,
) -> bool {
    ||| hostpath::is_under(workdir, path)
    ||| hostpath::is_under(scratch, path)
    ||| exists|i: int| 0 <= i < dirs.len() && hostpath::is_under(#[trigger] dirs[i], path)
}

/// Why an entry of the paths that must not be read is unusable, if it is: it must
/// be absolute, resolve, and leave what every command needs readable.
pub open spec fn denial_fault(
    entry: Seq<char>,
    resolved: Option<Seq<char>>,
    workdir: Seq<char>,
    dirs: Seq<Seq<char>>,
    scratch: Seq<char>,
) -> Option<Seq<char>> {
    if !hostpath::absolute(entry) {
        Some("deny_read entry "@ + text::debug_quoted(entry) + " must be absolute"@)
    } else {
        match resolved {
            None => Some("deny_read entry "@ + text::debug_quoted(entry) + " does not resolve"@),
            Some(path) => if covers_needed(path, workdir, dirs, scratch) {
                Some(
                    "deny_read entry "@ + text::debug_quoted(entry)
                        + " covers a directory that every command needs"@,
                )
            } else {
                None
            },
        }
    }
}

/// The fault of the first unusable entry, if there is one.
pub open spec fn denials_fault(
    entries: Seq<Seq<char>>,
    denied: Seq<Option<String>>,
    workdir: Seq<char>,
    dirs: Seq<Seq<char>>,
    scratch: Seq<char>,
) -> Option<Seq<char>>
    decreases entries.len(),
{
    if entries.len() == 0 {
        None
    } else {
        match denials_fault(entries.drop_last(), denied, workdir, dirs, scratch) {
            Some(message) => Some(message),
            None => denial_fault(
                entries.last(),
                resolved_entry(denied, entries.len() - 1),
                workdir,
                dirs,
                scratch,
            ),
        }
    }
}

/// Denials of reads that are accepted all resolve, and none of them covers what
/// every command needs; all others are refused.
pub proof fn accepted_denials_resolve_and_spare_what_is_needed(
    entries: Seq<Seq<char>>,
    denied: Seq<Option<String>>,
    workdir: Seq<char>,
    dirs: Seq<Seq<char>>,
    scratch: Seq<char>,
)
    ensures
        denials_fault(entries, denied, workdir, dirs, scratch) is None <==> forall|i: int|
            0 <= i < entries.len() ==> hostpath::absolute(#[trigger] entries[i])
                && resolved_entry(denied, i) is Some && !covers_needed(
                resolved_entry(denied, i)->0,
                workdir,
                dirs,
                scratch,
            ),
    decreases entries.len(),
{
    if entries.len() > 0 {
        let fewer = entries.drop_last();
        accepted_denials_resolve_and_spare_what_is_needed(fewer, denied, workdir, dirs, scratch);
        assert forall|i: int| 0 <= i < fewer.len() implies fewer[i] == #[trigger] entries[i] by {
        }
        assert(entries.last() == entries[entries.len() - 1]);
        if denials_fault(entries, denied, workdir, dirs, scratch) is None {
            assert forall|i: int| 0 <= i < entries.len() implies hostpath::absolute(
                #[trigger] entries[i],
            ) && resolved_entry(denied, i) is Some && !covers_needed(
                resolved_entry(denied, i)->0,
                workdir,
                dirs,
                scratch,
            ) by {
                if i < fewer.len() {
                    assert(fewer[i] == entries[i]);
                }
            }
        } else if forall|i: int|
            0 <= i < entries.len() ==> hostpath::absolute(#[trigger] entries[i])
                && resolved_entry(denied, i) is Some && !covers_needed(
                resolved_entry(denied, i)->0,
                workdir,
                dirs,
                scratch,
            ) {
            assert forall|i: int| 0 <= i < fewer.len() implies hostpath::absolute(
                #[trigger] fewer[i],
            ) && resolved_entry(denied, i) is Some && !covers_needed(
                resolved_entry(denied, i)->0,
                workdir,
                dirs,
                scratch,
            ) by {
                assert(fewer[i] == entries[i]);
            }
        }
    }
}

proof fn lemma_denial_error(
    entries: Seq<Seq<char>>,
    denied: Seq<Option<String>>,
    workdir: Seq<char>,
    dirs: Seq<Seq<char>>,
    scratch: Seq<char>,
    n: int,
)
    requires
        0 <= n <= entries.len(),
        denials_fault(entries.take(n), denied, workdir, dirs, scratch) is Some,
    ensures
        denials_fault(entries, denied, workdir, dirs, scratch) == denials_fault(
            entries.take(n),
            denied,
            workdir,
            dirs,
            scratch,
        ),
    decreases entries.len(),
{
    if n < entries.len() {
        assert(entries.drop_last().take(n) =~= entries.take(n));
        lemma_denial_error(entries.drop_last(), denied, workdir, dirs, scratch, n);
    } else {
        assert(entries.take(n) =~= entries);
    }
}

fn covers_what_is_needed(path: &str, workdir: &str, dirs: &Vec<String>, scratch: &str) -> (r: bool)
    ensures
        r == covers_needed(path@, workdir@, text::views(dirs@), scratch@),
{
    if hostpath::starts_with(workdir, path) || hostpath::starts_with(scratch, path) {
        return true;
    }
    let mut i: usize = 0;
    while i < dirs.len()
        invariant
            i <= dirs@.len(),
            forall|k: int|
                0 <= k < i ==> !hostpath::is_under(#[trigger] text::views(dirs@)[k], path@),
        decreases dirs@.len() - i,
    {
        if hostpath::starts_with(dirs[i].as_str(), path) {
            assert(hostpath::is_under(text::views(dirs@)[i as int], path@));
            return true;
        }
        i = i + 1;
    }
    false
}

/// Decides whether the paths that must not be read are usable, from their
/// canonical forms.
pub fn validate_denials(
    entries: &Vec<String>,
    denied: &Vec<Option<String>>,
    workdir: &str,
    dirs: &Vec<String>,
    scratch: &str,
) -> (r: Result<(), SandboxError>)
    ensures
        match denials_fault(
            text::views(entries@),
            denied@,
            workdir@,
            text::views(dirs@),
            scratch@,
        ) {
            Some(message) => r is Err && invalid_policy(r->Err_0, message),
            None => r is Ok,
        },
{
    let ghost all = text::views(entries@);
    let ghost dir_views = text::views(dirs@);
    let mut i: usize = 0;
    proof {
        assert(all.take(0) =~= Seq::<Seq<char>>::empty());
    }
    while i < entries.len()
        invariant
            i <= entries@.len(),
            all == text::views(entries@),
            dir_views == text::views(dirs@),
            denials_fault(all.take(i as int), denied@, workdir@, dir_views, scratch@) is None,
        decreases entries@.len() - i,
    {
        proof {
            assert(all.take(i + 1).drop_last() =~= all.take(i as int));
            assert(all.take(i + 1).last() == entries@[i as int]@);
        }
        let entry = entries[i].as_str();
        let quoted = text::debug_text(entry);
        let mut message = text::concat("deny_read entry ", quoted.as_str());
        let fault = if !hostpath::is_absolute(entry) {
            Some(" must be absolute")
        } else if i >= denied.len() {
            Some(" does not resolve")
        } else {
            match &denied[i] {
                None => Some(" does not resolve"),
                Some(path) => if covers_what_is_needed(path.as_str(), workdir, dirs, scratch) {
                    Some(" covers a directory that every command needs")
                } else {
                    None
                },
            }
        };
        if let Some(fault) = fault {
            message.append(fault);
            proof {
                lemma_denial_error(all, denied@, workdir@, dir_views, scratch@, i + 1);
            }
            return Err(SandboxError::InvalidPolicy(message));
        }
        i = i + 1;
    }
    proof {
        assert(all.take(i as int) =~= all);
    }
    Ok(())
}

/// Only read-write mounts receive a write grant: a writable host directory is
/// that of some read-write mount.
pub proof fn only_read_write_mounts_are_writable(
    mounts: Seq<Mount>,
    hosts: Seq<Option<String>>,
    dir: Seq<char>,
)
    requires
        writable(mounts, hosts).contains(dir),
    ensures
        exists|i: int|
            0 <= i < mounts.len() && i < hosts.len() && (#[trigger] mounts[i]).source is ReadWrite
                && hosts[i] is Some && hosts[i]->0@ == dir,
    decreases mounts.len(),
{
    let all = writable(mounts, hosts);
    let k = choose|k: int| 0 <= k < all.len() && all[k] == dir;
    let before = writable(mounts.drop_last(), hosts);
    if k < before.len() {
        assert(before[k] == dir);
        only_read_write_mounts_are_writable(mounts.drop_last(), hosts, dir);
        let i = choose|i: int|
            0 <= i < mounts.drop_last().len() && i < hosts.len() && (
            #[trigger] mounts.drop_last()[i]).source is ReadWrite && hosts[i] is Some
                && hosts[i]->0@ == dir;
        assert(mounts[i] == mounts.drop_last()[i]);
    } else {
        assert(mounts[mounts.len() - 1].source is ReadWrite);
    }
}

/// The outcome of a command, as plain values.
#[verifier::ext_equal]
pub struct Outcome {
    pub stdout: Seq<char>,
    pub stderr: Seq<char>,
    pub exit_code: i32,
    pub denied_by: Option<DenialReason>,
}

/// The plain values of a result.
pub open spec fn outcome(result: ExecResult) -> Outcome {
    Outcome {
        stdout: result.stdout@,
        stderr: result.stderr@,
        exit_code: result.exit_code,
        denied_by: result.denied_by,
    }
}

/// The outcome of a command that could not be executed.
pub open spec fn not_executed(message: Seq<char>) -> Outcome {
    Outcome {
        stdout: Seq::empty(),
        stderr: "[agentd-sandbox] "@ + message,
        exit_code: EXIT_CANNOT_EXECUTE,
        denied_by: None,
    }
}

/// The outcome of a command that could not be spawned.
pub fn spawn_failed(error: &str) -> (r: ExecResult)
    ensures
        outcome(r) == not_executed("spawning the confined command failed: "@ + error@),
{
    ConfinedProcessExecutor::cannot_execute(
        text::concat("spawning the confined command failed: ", error).as_str(),
    )
}

/// How a process ended.
#[derive(Clone, Copy)]
pub enum Exit {
    /// It exited with a code.
    Code(i32),
    /// A signal ended it.
    Signal(u8),
    /// Neither is known.
    Unknown,
}

/// The exit code that stands for an end.
pub open spec fn exit_code(exit: Exit) -> i32 {
    match exit {
        Exit::Code(code) => code,
        Exit::Signal(signal) => (128 + signal) as i32,
        Exit::Unknown => EXIT_CANNOT_EXECUTE,
    }
}

/// One of the two output pipes of a command.
#[derive(Clone, Copy)]
pub enum Stream {
    /// Standard output.
    Stdout,
    /// Standard error.
    Stderr,
}

/// Where the reading of a pipe stands.
pub enum Pipe {
    /// More may come.
    Open,
    /// Everything was read, or the output cap ended the reading.
    Closed,
    /// Reading failed.
    Failed(String),
}

/// What happened to a running command.
pub enum RunEvent {
    /// A pipe delivered bytes.
    Output(Stream, Vec<u8>),
    /// A pipe reached its end.
    Closed(Stream),
    /// Reading a pipe failed.
    ReadFailed(Stream, String),
    /// The process ended.
    Exited(Exit),
    /// Waiting for the process failed.
    WaitFailed(String),
    /// The wall-clock timeout passed.
    TimedOut,
}

/// What to do next for a running command.
pub enum Next {
    /// Read on from the open pipes.
    Read,
    /// Wait for the process to end.
    Wait,
    /// The command is over, with this result.
    Finish(ExecResult),
}

/// What an event asks for: first whether the process group is killed, then
/// what to do next.
pub struct RunAction {
    /// Kill the whole process group.
    pub kill: bool,
    /// What to do next.
    pub next: Next,
}

/// What a running command has produced: the captured bytes, the output budget
/// both pipes share, and the state of each pipe.
pub struct Run {
    stdout: Vec<u8>,
    stderr: Vec<u8>,
    remaining: u64,
    truncated: bool,
    stdout_pipe: Pipe,
    stderr_pipe: Pipe,
}

/// The state of a pipe, as plain values.
pub enum PipeState {
    Open,
    Closed,
    Failed(Seq<char>),
}

/// The state of a run, as plain values.
#[verifier::ext_equal]
pub struct RunState {
    pub stdout: Seq<u8>,
    pub stderr: Seq<u8>,
    pub remaining: u64,
    pub truncated: bool,
    pub stdout_pipe: PipeState,
    pub stderr_pipe: PipeState,
}

/// What to do next, as plain values.
pub enum NextState {
    Read,
    Wait,
    Finish(Outcome),
}

impl View for Pipe {
    type V = PipeState;

    open spec fn view(&self) -> PipeState {
        match self {
            Pipe::Open => PipeState::Open,
            Pipe::Closed => PipeState::Closed,
            Pipe::Failed(error) => PipeState::Failed(error@),
        }
    }
}

impl View for Next {
    type V = NextState;

    open spec fn view(&self) -> NextState {
        match self {
            Next::Read => NextState::Read,
            Next::Wait => NextState::Wait,
            Next::Finish(result) => NextState::Finish(outcome(*result)),
        }
    }
}

impl View for Run {
    type V = RunState;

    closed spec fn view(&self) -> RunState {
        RunState {
            stdout: self.stdout@,
            stderr: self.stderr@,
            remaining: self.remaining,
            truncated: self.truncated,
            stdout_pipe: self.stdout_pipe@,
            stderr_pipe: self.stderr_pipe@,
        }
    }
}

impl RunState {
    /// How many bytes of a delivery fit the budget.
    pub open spec fn fitting(self, delivered: nat) -> nat {
        if delivered <= self.remaining {
            delivered
        } else {
            self.remaining as nat
        }
    }

    /// The state after a pipe delivered bytes: what fits the budget is kept,
    /// and a delivery that does not fit ends the reading of its pipe.
    pub open spec fn after_output(self, stream: Stream, bytes: Seq<u8>) -> RunState {
        let fits = self.fitting(bytes.len());
        let kept = bytes.take(fits as int);
        let cut = fits < bytes.len();
        let remaining = (self.remaining - fits) as u64;
        match stream {
            Stream::Stdout => RunState {
                stdout: self.stdout + kept,
                remaining,
                truncated: self.truncated || cut,
                stdout_pipe: if cut {
                    PipeState::Closed
                } else {
                    self.stdout_pipe
                },
                ..self
            },
            Stream::Stderr => RunState {
                stderr: self.stderr + kept,
                remaining,
                truncated: self.truncated || cut,
                stderr_pipe: if cut {
                    PipeState::Closed
                } else {
                    self.stderr_pipe
                },
                ..self
            },
        }
    }

    /// The state with a pipe in another state.
    pub open spec fn with_pipe(self, stream: Stream, pipe: PipeState) -> RunState {
        match stream {
            Stream::Stdout => RunState { stdout_pipe: pipe, ..self },
            Stream::Stderr => RunState { stderr_pipe: pipe, ..self },
        }
    }

    /// What follows once the pipes stand as they do: reading goes on while one
    /// is open; a failed pipe ends the command, standard output's failure
    /// first; and otherwise the process is waited for.
    pub open spec fn after_pipes(self) -> NextState {
        if self.stdout_pipe is Open || self.stderr_pipe is Open {
            NextState::Read
        } else {
            match self.stdout_pipe {
                PipeState::Failed(error) => NextState::Finish(
                    not_executed("waiting for the command failed: "@ + error),
                ),
                _ => match self.stderr_pipe {
                    PipeState::Failed(error) => NextState::Finish(
                        not_executed("waiting for the command failed: "@ + error),
                    ),
                    _ => NextState::Wait,
                },
            }
        }
    }

    /// The outcome of a command that ended with `code`: the captured output,
    /// with a note for a timeout and for truncation, and at least the exit code
    /// of a killed process when the output was truncated.
    pub open spec fn finished(self, code: i32, timed_out: bool) -> Outcome {
        let noted = if timed_out {
            text::lossy(self.stderr)
                + "\n[agentd-sandbox] command exceeded the wall-clock timeout"@
        } else {
            text::lossy(self.stderr)
        };
        Outcome {
            stdout: text::lossy(self.stdout),
            stderr: if self.truncated {
                noted + "\n[agentd-sandbox] output truncated at max_output_bytes"@
            } else {
                noted
            },
            exit_code: if self.truncated && code < SIGKILL_EXIT {
                SIGKILL_EXIT
            } else {
                code
            },
            denied_by: None,
        }
    }

    /// The bytes captured so far.
    pub open spec fn captured(self) -> nat {
        self.stdout.len() + self.stderr.len()
    }
}

/// Whether the process group is killed, and what follows, once the pipes stand
/// as they do after an event.
pub open spec fn settled(state: RunState, cut: bool) -> (bool, NextState) {
    (cut || state.after_pipes() is Finish, state.after_pipes())
}

/// The state after an event, whether the process group is killed, and what
/// follows.
pub open spec fn run_step(state: RunState, event: RunEvent) -> (RunState, bool, NextState) {
    match event {
        RunEvent::Output(stream, bytes) => {
            let after = state.after_output(stream, bytes@);
            let cut = state.fitting(bytes@.len()) < bytes@.len();
            (after, settled(after, cut).0, settled(after, cut).1)
        },
        RunEvent::Closed(stream) => {
            let after = state.with_pipe(stream, PipeState::Closed);
            (after, settled(after, false).0, settled(after, false).1)
        },
        RunEvent::ReadFailed(stream, error) => {
            let after = state.with_pipe(stream, PipeState::Failed(error@));
            (after, settled(after, false).0, settled(after, false).1)
        },
        RunEvent::Exited(exit) => (
            state,
            false,
            NextState::Finish(state.finished(exit_code(exit), false)),
        ),
        RunEvent::WaitFailed(error) => (
            state,
            true,
            NextState::Finish(not_executed("waiting for the command failed: "@ + error@)),
        ),
        RunEvent::TimedOut => (
            state,
            true,
            NextState::Finish(state.finished(EXIT_TIMED_OUT, true)),
        ),
    }
}

/// Whatever a run delivers, the captured bytes and the remaining budget
/// together stay what they were, so the capture never exceeds its cap; and a
/// run that dropped bytes is marked truncated.
pub proof fn capture_never_exceeds_its_cap(state: RunState, event: RunEvent)
    ensures
        run_step(state, event).0.captured() + run_step(state, event).0.remaining
            == state.captured() + state.remaining,
        event matches RunEvent::Output(stream, bytes) && bytes@.len() > state.remaining
            ==> run_step(state, event).0.truncated && run_step(state, event).1,
        state.truncated ==> run_step(state, event).0.truncated,
{
}

/// A command that exceeded its timeout or was truncated never reports success.
pub proof fn stopped_commands_report_failure(state: RunState, exit: Exit)
    ensures
        state.finished(EXIT_TIMED_OUT, true).exit_code != 0,
        state.truncated ==> state.finished(exit_code(exit), false).exit_code >= SIGKILL_EXIT,
{
}

impl Run {
    /// A run that has captured nothing and may capture `max_output_bytes`.
    pub fn new(max_output_bytes: u64) -> (r: Run)
        ensures
            r@ == (RunState {
                stdout: Seq::empty(),
                stderr: Seq::empty(),
                remaining: max_output_bytes,
                truncated: false,
                stdout_pipe: PipeState::Open,
                stderr_pipe: PipeState::Open,
            }),
    {
        Run {
            stdout: Vec::new(),
            stderr: Vec::new(),
            remaining: max_output_bytes,
            truncated: false,
            stdout_pipe: Pipe::Open,
            stderr_pipe: Pipe::Open,
        }
    }

    /// Takes an event into account and says what to do.
    pub fn step(&mut self, event: RunEvent) -> (r: RunAction)
        ensures
            (final(self)@, r.kill, r.next@) == run_step(old(self)@, event),
    {
        match event {
            RunEvent::Output(stream, bytes) => {
                let cut = self.absorb(stream, &bytes);
                self.settle(cut)
            },
            RunEvent::Closed(stream) => {
                self.set_pipe(stream, Pipe::Closed);
                self.settle(false)
            },
            RunEvent::ReadFailed(stream, error) => {
                self.set_pipe(stream, Pipe::Failed(error));
                self.settle(false)
            },
            RunEvent::Exited(exit) => {
                let code: i32 = match exit {
                    Exit::Code(code) => code,
                    Exit::Signal(signal) => 128 + signal as i32,
                    Exit::Unknown => EXIT_CANNOT_EXECUTE,
                };
                RunAction { kill: false, next: Next::Finish(self.finish(code, false)) }
            },
            RunEvent::WaitFailed(error) => RunAction {
                kill: true,
                next: Next::Finish(wait_failed(error.as_str())),
            },
            RunEvent::TimedOut => RunAction {
                kill: true,
                next: Next::Finish(self.finish(EXIT_TIMED_OUT, true)),
            },
        }
    }

    /// Keeps what fits the budget and says whether something was cut.
    fn absorb(&mut self, stream: Stream, bytes: &Vec<u8>) -> (r: bool)
        ensures
            final(self)@ == old(self)@.after_output(stream, bytes@),
            r == (old(self)@.fitting(bytes@.len()) < bytes@.len()),
    {
        let delivered: u64 = bytes.len() as u64;
        let cut = delivered > self.remaining;
        let allowed: usize = if cut {
            self.remaining as usize
        } else {
            bytes.len()
        };
        let kept = vstd::slice::slice_subrange(bytes.as_slice(), 0, allowed);
        self.remaining = self.remaining - allowed as u64;
        if cut {
            self.truncated = true;
        }
        match stream {
            Stream::Stdout => {
                append_bytes(&mut self.stdout, kept);
                if cut {
                    self.stdout_pipe = Pipe::Closed;
                }
            },
            Stream::Stderr => {
                append_bytes(&mut self.stderr, kept);
                if cut {
                    self.stderr_pipe = Pipe::Closed;
                }
            },
        }
        proof {
            assert(kept@ =~= bytes@.take(allowed as int));
            assert(self@ =~= old(self)@.after_output(stream, bytes@));
        }
        cut
    }

    fn set_pipe(&mut self, stream: Stream, pipe: Pipe)
        ensures
            final(self)@ == old(self)@.with_pipe(stream, pipe@),
    {
        match stream {
            Stream::Stdout => {
                self.stdout_pipe = pipe;
            },
            Stream::Stderr => {
                self.stderr_pipe = pipe;
            },
        }
    }

    /// What follows once the pipes stand as they do.
    fn settle(&self, cut: bool) -> (r: RunAction)
        ensures
            (r.kill, r.next@) == settled(self@, cut),
    {
        let open = match (&self.stdout_pipe, &self.stderr_pipe) {
            (Pipe::Open, _) => true,
            (_, Pipe::Open) => true,
            _ => false,
        };
        if open {
            return RunAction { kill: cut, next: Next::Read };
        }
        if let Pipe::Failed(error) = &self.stdout_pipe {
            return RunAction { kill: true, next: Next::Finish(wait_failed(error.as_str())) };
        }
        if let Pipe::Failed(error) = &self.stderr_pipe {
            return RunAction { kill: true, next: Next::Finish(wait_failed(error.as_str())) };
        }
        RunAction { kill: cut, next: Next::Wait }
    }

    /// The result of a command that ended with `code`.
    fn finish(&self, code: i32, timed_out: bool) -> (r: ExecResult)
        ensures
            outcome(r) == self@.finished(code, timed_out),
    {
        let stdout = text::lossy_text(&self.stdout);
        let mut stderr = text::lossy_text(&self.stderr);
        let mut exit_code: i32 = code;
        if timed_out {
            stderr.append("\n[agentd-sandbox] command exceeded the wall-clock timeout");
        }
        if self.truncated {
            stderr.append("\n[agentd-sandbox] output truncated at max_output_bytes");
            if exit_code < SIGKILL_EXIT {
                exit_code = SIGKILL_EXIT;
            }
        }
        ExecResult { stdout, stderr, exit_code, denied_by: None }
    }
}

fn wait_failed(error: &str) -> (r: ExecResult)
    ensures
        outcome(r) == not_executed("waiting for the command failed: "@ + error@),
{
    ConfinedProcessExecutor::cannot_execute(
        text::concat("waiting for the command failed: ", error).as_str(),
    )
}

fn append_bytes(data: &mut Vec<u8>, bytes: &[u8])
    ensures
        final(data)@ == old(data)@ + bytes@,
{
    data.extend_from_slice(bytes);
    proof {
        assert(data@ =~= old(data)@ + bytes@);
    }
}

/// How a confined command is started.
pub struct Launch {
    /// The program to run.
    pub program: String,
    /// Its arguments.
    pub args: Vec<String>,
    /// The whole environment; a later entry replaces an earlier one of the
    /// same name.
    pub env: Vec<EnvVar>,
    /// The working directory.
    pub workdir: String,
}

/// The macOS layer-1 executor: a Seatbelt profile rendered from the policy at
/// construction, and the commands spawned under it.
///
/// The policy is bound at construction, so a running executor cannot widen
/// its own permissions.
pub struct ConfinedProcessExecutor {
    profile: String,
    scratch: String,
    workdir: String,
    env: Vec<EnvVar>,
    path_env: String,
    timeout: Timeout,
    max_output_bytes: u64,
}

/// An executor, as plain values.
#[verifier::ext_equal]
pub struct Confinement {
    pub profile: Seq<char>,
    pub scratch: Seq<char>,
    pub workdir: Seq<char>,
    pub env: Seq<(Seq<char>, Seq<char>)>,
    pub path_env: Seq<char>,
    pub timeout: Timeout,
    pub max_output_bytes: u64,
}

/// A scratch directory under the host's temporary directory, of its own for each
/// sandbox.
pub fn scratch_directory(temp_dir: &str) -> (r: String)
    ensures
        ids::is_fresh_directory(r@, temp_dir@, "agentd-sandbox-"@),
{
    ids::fresh_directory(temp_dir, "agentd-sandbox-")
}

/// What was found on the host before an executor is built.
pub struct HostProbe {
    /// Whether the Seatbelt front-end is available.
    pub sandbox_exec: bool,
    /// What was found of the working directory.
    pub workdir: WorkdirProbe,
    /// The canonical host directory of each mount, where it has one.
    pub hosts: Vec<Option<String>>,
    /// The canonical form of each path that must not be read, where it has one.
    pub denied: Vec<Option<String>>,
    /// The directories that exist among those the confined `PATH` may hold.
    pub existing: Vec<String>,
    /// The sandbox scratch directory.
    pub scratch: String,
}

impl View for ConfinedProcessExecutor {
    type V = Confinement;

    closed spec fn view(&self) -> Confinement {
        Confinement {
            profile: self.profile@,
            scratch: self.scratch@,
            workdir: self.workdir@,
            env: policy::env_views(self.env@),
            path_env: self.path_env@,
            timeout: self.timeout,
            max_output_bytes: self.max_output_bytes,
        }
    }
}

/// Whether the executor is the one a policy asks for on the probed host.
pub open spec fn confines(
    policy: &Policy,
    probe: HostProbe,
    dirs: Seq<Seq<char>>,
    confinement: Confinement,
) -> bool {
    &&& confinement.profile == text::join(
        profile_lines(
            policy.fs.mounts@,
            probe.hosts@,
            denied_paths(text::views(policy.fs.deny_read@), probe.denied@),
            probe.scratch@,
            dirs,
        ),
        '\n',
    )
    &&& confinement.scratch == probe.scratch@
    &&& probe.workdir.canonical is Ok
    &&& confinement.workdir == probe.workdir.canonical->Ok_0@
    &&& confinement.env == policy::env_views(policy.shell.env@)
    &&& path_value(dirs) == Ok::<Seq<char>, Seq<char>>(confinement.path_env)
    &&& confinement.timeout == policy.limits.timeout
    &&& confinement.max_output_bytes == policy.limits.max_output_bytes
}

/// Whether a working directory is usable.
pub open spec fn workdir_usable(
    workdir: Seq<char>,
    mounts: Seq<Mount>,
    probe: WorkdirProbe,
    hosts: Seq<Option<String>>,
) -> bool {
    &&& hostpath::absolute(workdir)
    &&& probe.is_dir == Ok::<bool, String>(true)
    &&& probe.canonical is Ok
    &&& covered(mounts, hosts, probe.canonical->Ok_0@)
}

/// A copy of an environment.
pub(crate) fn copy_env(env: &Vec<EnvVar>) -> (r: Vec<EnvVar>)
    ensures
        policy::env_views(r@) == policy::env_views(env@),
        r@.len() == env@.len(),
{
    let mut copy: Vec<EnvVar> = Vec::new();
    let mut i: usize = 0;
    while i < env.len()
        invariant
            i <= env@.len(),
            copy@.len() == i,
            forall|k: int|
                0 <= k < i ==> (#[trigger] copy@[k]).name@ == env@[k].name@ && copy@[k].value@
                    == env@[k].value@,
        decreases env@.len() - i,
    {
        copy.push(EnvVar { name: env[i].name.clone(), value: env[i].value.clone() });
        i = i + 1;
    }
    proof {
        assert(policy::env_views(copy@) =~= policy::env_views(env@));
    }
    copy
}

/// Whether a result is the answer to building an executor: the front-end must be
/// available, the working directory usable, the allowlist resolvable, and the
/// paths that must not be read usable.
pub open spec fn executor_answer(
    policy: Policy,
    probe: HostProbe,
    r: Result<ConfinedProcessExecutor, SandboxError>,
) -> bool {
    let allow = policy::prefix_views(policy.shell.allow@);
    let dirs = path_dirs(allow, text::views(probe.existing@));
    if !probe.sandbox_exec {
        r is Err && r->Err_0 is UnsupportedPlatform
            && r->Err_0->UnsupportedPlatform_0@ == "sandbox-exec is not available"@
    } else if !workdir_usable(
        policy.shell.workdir@,
        policy.fs.mounts@,
        probe.workdir,
        probe.hosts@,
    ) {
        r is Err && workdir_answer(
            policy.shell.workdir@,
            policy.fs.mounts@,
            probe.workdir,
            probe.hosts@,
            Err::<String, SandboxError>(r->Err_0),
        )
    } else {
        match dirs {
            Err(message) => r is Err && invalid_policy(r->Err_0, message),
            Ok(dirs) => match path_value(dirs) {
                Err(message) => r is Err && invalid_policy(r->Err_0, message),
                Ok(_) => match denials_fault(
                    text::views(policy.fs.deny_read@),
                    probe.denied@,
                    probe.workdir.canonical->Ok_0@,
                    dirs,
                    probe.scratch@,
                ) {
                    Some(message) => r is Err && invalid_policy(r->Err_0, message),
                    None => r is Ok && confines(&policy, probe, dirs, r->Ok_0@),
                },
            },
        }
    }
}

/// Whether a launch is how a command is started under a confinement.
pub open spec fn starts(
    confinement: Confinement,
    profile_path: Seq<char>,
    command: Seq<char>,
    launch: Launch,
) -> bool {
    &&& launch.program@ == SANDBOX_EXEC@
    &&& text::views(launch.args@) == seq!["-f"@, profile_path, BASH@, "-c"@, command]
    &&& policy::env_views(launch.env@) == confinement.env + seq![
        ("PATH"@, confinement.path_env),
        ("HOME"@, confinement.scratch),
        ("TMPDIR"@, confinement.scratch),
    ]
    &&& launch.workdir@ == confinement.workdir
}

impl ConfinedProcessExecutor {
    /// Builds the executor from the policy and what was found on the host.
    ///
    /// Fails closed with [`SandboxError::UnsupportedPlatform`] when
    /// `sandbox-exec` is unavailable, and with [`SandboxError::InvalidPolicy`]
    /// for an unusable workdir or allowlist, or for a path that must not be read
    /// but does not resolve or covers what every command needs.
    pub fn new(policy: &Policy, probe: HostProbe) -> (r: Result<
        ConfinedProcessExecutor,
        SandboxError,
    >)
        ensures
            executor_answer(*policy, probe, r),
    {
        if !probe.sandbox_exec {
            return Err(
                SandboxError::UnsupportedPlatform("sandbox-exec is not available".to_owned()),
            );
        }
        let workdir = match validate_workdir(
            policy.shell.workdir.as_str(),
            policy.fs.mounts.as_slice(),
            probe.workdir,
            &probe.hosts,
        ) {
            Ok(workdir) => workdir,
            Err(error) => return Err(error),
        };
        let dirs = match confined_path_dirs(policy.shell.allow.as_slice(), &probe.existing) {
            Ok(dirs) => dirs,
            Err(error) => return Err(error),
        };
        let path_env = match path_env(&dirs) {
            Ok(path_env) => path_env,
            Err(error) => return Err(error),
        };
        match validate_denials(
            &policy.fs.deny_read,
            &probe.denied,
            workdir.as_str(),
            &dirs,
            probe.scratch.as_str(),
        ) {
            Ok(()) => {},
            Err(error) => return Err(error),
        }
        let profile = render_profile(
            policy,
            probe.scratch.as_str(),
            &dirs,
            &probe.hosts,
            &probe.denied,
        );
        Ok(
            ConfinedProcessExecutor {
                profile,
                scratch: probe.scratch,
                workdir,
                env: copy_env(&policy.shell.env),
                path_env,
                timeout: policy.limits.timeout,
                max_output_bytes: policy.limits.max_output_bytes,
            },
        )
    }

    /// The result of a command that was not run.
    pub fn cannot_execute(message: &str) -> (r: ExecResult)
        ensures
            outcome(r) == not_executed(message@),
    {
        ExecResult {
            stdout: String::new(),
            stderr: text::concat("[agentd-sandbox] ", message),
            exit_code: EXIT_CANNOT_EXECUTE,
            denied_by: None,
        }
    }

    /// The Seatbelt profile.
    pub fn profile(&self) -> (r: &str)
        ensures
            r@ == self@.profile,
    {
        self.profile.as_str()
    }

    /// The wall-clock timeout of a command.
    pub fn timeout(&self) -> (r: Timeout)
        ensures
            r == self@.timeout,
    {
        self.timeout
    }

    /// The state in which a command starts running.
    pub fn start(&self) -> (r: Run)
        ensures
            r@.captured() == 0,
            r@.remaining == self@.max_output_bytes,
            !r@.truncated,
            r@.stdout_pipe is Open,
            r@.stderr_pipe is Open,
    {
        Run::new(self.max_output_bytes)
    }

    /// How `command` is started: the front-end applies the profile at
    /// `profile_path` to a shell that runs the command, in the working
    /// directory, with the policy's environment and the confined `PATH`,
    /// `HOME`, and `TMPDIR`.
    pub fn launch(&self, profile_path: &str, command: &str) -> (r: Launch)
        ensures
            r.program@ == SANDBOX_EXEC@,
            text::views(r.args@) == seq!["-f"@, profile_path@, BASH@, "-c"@, command@],
            policy::env_views(r.env@) == self@.env + seq![
                ("PATH"@, self@.path_env),
                ("HOME"@, self@.scratch),
                ("TMPDIR"@, self@.scratch),
            ],
            r.workdir@ == self@.workdir,
            starts(self@, profile_path@, command@, r),
    {
        let args = vec![
            "-f".to_owned(),
            profile_path.to_owned(),
            BASH.to_owned(),
            "-c".to_owned(),
            command.to_owned(),
        ];
        proof {
            assert(text::views(args@) =~= seq!["-f"@, profile_path@, BASH@, "-c"@, command@]);
        }
        let mut env = copy_env(&self.env);
        let ghost own = env@;
        env.push(EnvVar { name: "PATH".to_owned(), value: self.path_env.clone() });
        env.push(EnvVar { name: "HOME".to_owned(), value: self.scratch.clone() });
        env.push(EnvVar { name: "TMPDIR".to_owned(), value: self.scratch.clone() });
        proof {
            assert(policy::env_views(env@) =~= policy::env_views(own) + seq![
                ("PATH"@, self@.path_env),
                ("HOME"@, self@.scratch),
                ("TMPDIR"@, self@.scratch),
            ]);
        }
        Launch {
            program: SANDBOX_EXEC.to_owned(),
            args,
            env,
            workdir: self.workdir.clone(),
        }
    }
}

} // verus!
