//! What the confinement of a command on the host promises.

use crate::error::SandboxError;
use crate::hostpath;
use crate::mount;
use crate::policy::{self, Mount, MountSource, Policy};
use crate::seatbelt::{
    self, ConfinedProcessExecutor, Confinement, Exit, HostProbe, Launch, NextState, PipeState,
    RunEvent, RunState, Stream, WorkdirProbe,
};
use crate::shell;
use crate::text;
use crate::vpath;
use vstd::prelude::*;

verus! {

broadcast use vstd::string::group_string_axioms;

/// Whether some path of the list is the same path as `dir`.
pub open spec fn has_dir(dirs: Seq<Seq<char>>, dir: Seq<char>) -> bool {
    exists|i: int|
        0 <= i < dirs.len() && hostpath::components(#[trigger] dirs[i]) == hostpath::components(dir)
}

/// Whether an allowlist entry's command is an absolute path in this directory.
pub open spec fn lives_in(entry: Seq<char>, dir: Seq<char>) -> bool {
    match shell::shell_words(entry) {
        Some(words) => words.len() > 0 && words[0].len() > 0 && words[0][0] == '/'
            && hostpath::parent_of(words[0]) == Some(dir),
        None => false,
    }
}

/// Whether an allowlist entry cannot be used: it is no list of words, or names its
/// command by a relative path.
pub open spec fn is_unusable(entry: Seq<char>) -> bool {
    match shell::shell_words(entry) {
        Some(words) => words.len() > 0 && words[0].contains('/') && words[0][0] != '/',
        None => true,
    }
}

/// Whether an error says that the policy is not usable, and this of it.
pub open spec fn says(error: SandboxError, message: Seq<char>) -> bool {
    error is InvalidPolicy && error->InvalidPolicy_0@ == message
}

/// Whether a directory is one of the system's.
pub open spec fn is_system_dir(dir: Seq<char>) -> bool {
    dir == "/bin"@ || dir == "/usr/bin"@ || dir == "/usr/local/bin"@ || dir
        == "/opt/homebrew/bin"@
}

/// The confined `PATH` names the existing directory of every allowlisted command
/// and every existing system directory, and it names nothing else; no directory is
/// named twice. It can be built exactly when every entry is usable.
pub proof fn the_path_names_what_the_list_needs(allow: Seq<Seq<char>>, existing: Seq<Seq<char>>)
    ensures
        match seatbelt::path_dirs(allow, existing) {
            Ok(dirs) => {
                &&& forall|i: int| 0 <= i < allow.len() ==> !is_unusable(#[trigger] allow[i])
                &&& forall|i: int, dir: Seq<char>|
                    0 <= i < allow.len() && #[trigger] lives_in(allow[i], dir) && has_dir(
                        existing,
                        dir,
                    ) ==> has_dir(dirs, dir)
                &&& forall|dir: Seq<char>| #[trigger]
                    is_system_dir(dir) && has_dir(existing, dir) ==> has_dir(dirs, dir)
                &&& forall|k: int|
                    0 <= k < dirs.len() ==> has_dir(existing, #[trigger] dirs[k]) && (
                    is_system_dir(dirs[k]) || exists|i: int|
                        0 <= i < allow.len() && #[trigger] lives_in(allow[i], dirs[k]))
                &&& forall|j: int, k: int|
                    #![trigger dirs[j], dirs[k]]
                    0 <= j < k < dirs.len() ==> hostpath::components(dirs[j])
                        != hostpath::components(dirs[k])
            },
            Err(_) => exists|i: int| 0 <= i < allow.len() && is_unusable(#[trigger] allow[i]),
        },
    decreases allow.len(),
{
    if allow.len() == 0 {
        lemma_system_dirs(existing);
        let dirs = seatbelt::existing_of(seatbelt::system_dirs(), existing);
        assert forall|dir: Seq<char>| #[trigger]
            is_system_dir(dir) && has_dir(existing, dir) implies has_dir(dirs, dir) by {
            assert(dirs.contains(dir));
            let k = choose|k: int| 0 <= k < dirs.len() && dirs[k] == dir;
            assert(hostpath::components(dirs[k]) == hostpath::components(dir));
        }
    } else {
        let init = allow.drop_last();
        let entry = allow.last();
        the_path_names_what_the_list_needs(init, existing);
        assert(allow[allow.len() - 1] == entry);
        match seatbelt::path_dirs(init, existing) {
            Err(_) => {
                let i = choose|i: int| 0 <= i < init.len() && is_unusable(#[trigger] init[i]);
                assert(allow[i] == init[i]);
            },
            Ok(before) => {
                if is_unusable(entry) {
                } else {
                    let dirs = seatbelt::path_dirs(allow, existing)->Ok_0;
                    assert(seatbelt::path_dirs(allow, existing) is Ok);
                    assert forall|i: int| 0 <= i < allow.len() implies !is_unusable(
                        #[trigger] allow[i],
                    ) by {
                        if i < init.len() {
                            assert(init[i] == allow[i]);
                        }
                    }
                    assert forall|k: int| 0 <= k < before.len() implies #[trigger] dirs[k]
                        == before[k] by {}
                    assert forall|dir: Seq<char>| #[trigger] has_dir(before, dir) implies has_dir(
                        dirs,
                        dir,
                    ) by {
                        let k = choose|k: int|
                            0 <= k < before.len() && hostpath::components(#[trigger] before[k])
                                == hostpath::components(dir);
                        assert(dirs[k] == before[k]);
                    }
                    assert forall|i: int, dir: Seq<char>|
                        0 <= i < allow.len() && #[trigger] lives_in(allow[i], dir) && has_dir(
                            existing,
                            dir,
                        ) implies has_dir(dirs, dir) by {
                        if i < init.len() {
                            assert(init[i] == allow[i]);
                            assert(lives_in(init[i], dir));
                            assert(has_dir(before, dir));
                        } else {
                            let words = shell::shell_words(entry)->0;
                            assert(words[0].contains('/')) by {
                                assert(words[0][0] == '/');
                            }
                            if !seatbelt::names_dir(before, dir) {
                                assert(seatbelt::names_dir(existing, dir)) by {
                                    let k = choose|k: int|
                                        0 <= k < existing.len() && hostpath::components(
                                            #[trigger] existing[k],
                                        ) == hostpath::components(dir);
                                    assert(hostpath::same_path(existing[k], dir));
                                }
                                assert(dirs == before.push(dir));
                                assert(dirs[before.len() as int] == dir);
                            } else {
                                let k = choose|k: int|
                                    0 <= k < before.len() && hostpath::same_path(
                                        #[trigger] before[k],
                                        dir,
                                    );
                                assert(hostpath::components(dirs[k]) == hostpath::components(dir));
                            }
                        }
                    }
                    assert forall|dir: Seq<char>| #[trigger]
                        is_system_dir(dir) && has_dir(existing, dir) implies has_dir(dirs, dir) by {
                        assert(has_dir(before, dir));
                    }
                    assert forall|k: int| 0 <= k < dirs.len() implies has_dir(
                        existing,
                        #[trigger] dirs[k],
                    ) && (is_system_dir(dirs[k]) || exists|i: int|
                        0 <= i < allow.len() && #[trigger] lives_in(allow[i], dirs[k])) by {
                        if k < before.len() {
                            assert(dirs[k] == before[k]);
                            if !is_system_dir(dirs[k]) {
                                let i = choose|i: int|
                                    0 <= i < init.len() && #[trigger] lives_in(init[i], before[k]);
                                assert(allow[i] == init[i]);
                                assert(lives_in(allow[i], dirs[k]));
                            }
                        } else {
                            let j = choose|j: int|
                                0 <= j < existing.len() && hostpath::same_path(
                                    #[trigger] existing[j],
                                    dirs[k],
                                );
                            assert(hostpath::components(existing[j]) == hostpath::components(
                                dirs[k],
                            ));
                            assert(lives_in(allow[allow.len() - 1], dirs[k]));
                        }
                    }
                    assert forall|j: int, k: int|
                        #![trigger dirs[j], dirs[k]]
                        0 <= j < k < dirs.len() implies hostpath::components(dirs[j])
                        != hostpath::components(dirs[k]) by {
                        assert(dirs[j] == before[j]);
                        if k < before.len() {
                            assert(dirs[k] == before[k]);
                        } else {
                            assert(!seatbelt::names_dir(before, dirs[k]));
                            assert(!hostpath::same_path(before[j], dirs[k]));
                        }
                    }
                }
            },
        }
    }
}

proof fn lemma_system_dirs(existing: Seq<Seq<char>>)
    ensures
        ({
            let dirs = seatbelt::existing_of(seatbelt::system_dirs(), existing);
            &&& forall|dir: Seq<char>| #[trigger]
                is_system_dir(dir) && has_dir(existing, dir) ==> dirs.contains(dir)
            &&& forall|k: int|
                0 <= k < dirs.len() ==> has_dir(existing, #[trigger] dirs[k]) && is_system_dir(
                    dirs[k],
                )
            &&& forall|j: int, k: int|
                #![trigger dirs[j], dirs[k]]
                0 <= j < k < dirs.len() ==> hostpath::components(dirs[j]) != hostpath::components(
                    dirs[k],
                )
        }),
{
    let all = seatbelt::system_dirs();
    lemma_system_components();
    assert(all[0] == "/bin"@ && all[1] == "/usr/bin"@);
    assert(all[2] == "/usr/local/bin"@ && all[3] == "/opt/homebrew/bin"@);
    assert(hostpath::components(all[0]).len() == 2 && hostpath::components(all[1]).len() == 3);
    assert(hostpath::components(all[2]).len() == 4 && hostpath::components(all[3]).len() == 4);
    assert(hostpath::components(all[2])[1] == "usr"@ && hostpath::components(all[3])[1] == "opt"@);
    assert forall|i: int, j: int|
        #![trigger all[i], all[j]]
        0 <= i < j < all.len() implies hostpath::components(all[i]) != hostpath::components(
        all[j],
    ) by {
        assert(i == 0 || i == 1 || i == 2);
        assert(j == 1 || j == 2 || j == 3);
    }
    lemma_existing_of(all, existing);
    let dirs = seatbelt::existing_of(all, existing);
    assert forall|dir: Seq<char>| #[trigger]
        is_system_dir(dir) && has_dir(existing, dir) implies dirs.contains(dir) by {
        assert(all.contains(dir)) by {
            assert(all[0] == dir || all[1] == dir || all[2] == dir || all[3] == dir);
        }
    }
    assert forall|k: int| 0 <= k < dirs.len() implies has_dir(existing, #[trigger] dirs[k])
        && is_system_dir(dirs[k]) by {
        assert(dirs.contains(dirs[k]));
        assert(all.contains(dirs[k]));
        let i = choose|i: int| 0 <= i < all.len() && all[i] == dirs[k];
        assert(i == 0 || i == 1 || i == 2 || i == 3);
    }
}

proof fn lemma_existing_of(all: Seq<Seq<char>>, existing: Seq<Seq<char>>)
    ensures
        ({
            let dirs = seatbelt::existing_of(all, existing);
            &&& forall|dir: Seq<char>| #[trigger]
                dirs.contains(dir) <==> all.contains(dir) && has_dir(existing, dir)
            &&& (forall|i: int, j: int|
                #![trigger all[i], all[j]]
                0 <= i < j < all.len() ==> hostpath::components(all[i]) != hostpath::components(
                    all[j],
                )) ==> forall|j: int, k: int|
                #![trigger dirs[j], dirs[k]]
                0 <= j < k < dirs.len() ==> hostpath::components(dirs[j]) != hostpath::components(
                    dirs[k],
                )
        }),
    decreases all.len(),
{
    let dirs = seatbelt::existing_of(all, existing);
    if all.len() > 0 {
        let init = all.drop_last();
        lemma_existing_of(init, existing);
        let before = seatbelt::existing_of(init, existing);
        let last = all.last();
        assert(all[all.len() - 1] == last);
        assert(seatbelt::names_dir(existing, last) <==> has_dir(existing, last)) by {
            if seatbelt::names_dir(existing, last) {
                let k = choose|k: int|
                    0 <= k < existing.len() && hostpath::same_path(#[trigger] existing[k], last);
                assert(hostpath::components(existing[k]) == hostpath::components(last));
            }
            if has_dir(existing, last) {
                let k = choose|k: int|
                    0 <= k < existing.len() && hostpath::components(#[trigger] existing[k])
                        == hostpath::components(last);
                assert(hostpath::same_path(existing[k], last));
            }
        }
        assert forall|dir: Seq<char>| #[trigger]
            dirs.contains(dir) <==> all.contains(dir) && has_dir(existing, dir) by {
            if dirs.contains(dir) {
                let k = choose|k: int| 0 <= k < dirs.len() && dirs[k] == dir;
                if k < before.len() {
                    assert(before[k] == dir);
                    assert(before.contains(dir));
                    let i = choose|i: int| 0 <= i < init.len() && init[i] == dir;
                    assert(all[i] == dir);
                }
            }
            if all.contains(dir) && has_dir(existing, dir) {
                let i = choose|i: int| 0 <= i < all.len() && all[i] == dir;
                if i < init.len() {
                    assert(init[i] == dir);
                    assert(before.contains(dir));
                    let k = choose|k: int| 0 <= k < before.len() && before[k] == dir;
                    assert(dirs[k] == dir);
                } else {
                    assert(dirs[dirs.len() - 1] == dir);
                }
            }
        }
        if forall|i: int, j: int|
            #![trigger all[i], all[j]]
            0 <= i < j < all.len() ==> hostpath::components(all[i]) != hostpath::components(all[j]) {
            assert forall|i: int, j: int|
                #![trigger init[i], init[j]]
                0 <= i < j < init.len() implies hostpath::components(init[i])
                != hostpath::components(init[j]) by {
                assert(init[i] == all[i] && init[j] == all[j]);
            }
            assert forall|j: int, k: int|
                #![trigger dirs[j], dirs[k]]
                0 <= j < k < dirs.len() implies hostpath::components(dirs[j])
                != hostpath::components(dirs[k]) by {
                assert(dirs[j] == before[j]);
                if k < before.len() {
                    assert(dirs[k] == before[k]);
                } else {
                    assert(before.contains(before[j]));
                    let i = choose|i: int| 0 <= i < init.len() && init[i] == before[j];
                    assert(all[i] == before[j]);
                }
            }
        }
    }
}

proof fn lemma_component(name: Seq<char>)
    requires
        name.len() > 2,
        forall|i: int| 0 <= i < name.len() ==> (#[trigger] name[i]) != '/',
    ensures
        vpath::is_component(name),
{
    assert(seq!['.'].len() == 1 && seq!['.', '.'].len() == 2);
}

proof fn lemma_system_components()
    ensures
        hostpath::components("/bin"@) == seq![seq!['/'], "bin"@],
        hostpath::components("/usr/bin"@) == seq![seq!['/'], "usr"@, "bin"@],
        hostpath::components("/usr/local/bin"@) == seq![seq!['/'], "usr"@, "local"@, "bin"@],
        hostpath::components("/opt/homebrew/bin"@) == seq![
            seq!['/'],
            "opt"@,
            "homebrew"@,
            "bin"@,
        ],
        "usr"@ != "bin"@,
        "opt"@ != "usr"@,
{
    reveal_strlit("/bin");
    reveal_strlit("/usr/bin");
    reveal_strlit("/usr/local/bin");
    reveal_strlit("/opt/homebrew/bin");
    reveal_strlit("bin");
    reveal_strlit("usr");
    reveal_strlit("local");
    reveal_strlit("opt");
    reveal_strlit("homebrew");
    assert("usr"@[0] == 'u' && "bin"@[0] == 'b' && "opt"@[0] == 'o');
    let root = seq!['/'];
    lemma_component("bin"@);
    lemma_component("usr"@);
    lemma_component("local"@);
    lemma_component("opt"@);
    lemma_component("homebrew"@);
    hostpath::a_parent_drops_the_last_component(root);
    assert(hostpath::components(root) == seq![root]) by {
        let pieces = text::split(root, '/');
        assert(root.drop_last() =~= Seq::<char>::empty());
        assert(text::split(Seq::<char>::empty(), '/') =~= seq![Seq::<char>::empty()]);
        assert(pieces =~= seq![Seq::<char>::empty(), Seq::<char>::empty()]);
        assert(pieces.drop_last() =~= seq![Seq::<char>::empty()]);
        assert(pieces.drop_last().drop_last() =~= Seq::<Seq<char>>::empty());
        assert(hostpath::named(Seq::<Seq<char>>::empty()) =~= Seq::<Seq<char>>::empty());
        assert(hostpath::named(pieces.drop_last()) =~= Seq::<Seq<char>>::empty());
        assert(hostpath::named(pieces) =~= Seq::<Seq<char>>::empty());
        assert(hostpath::components(root) =~= seq![root]);
    }
    mount::lemma_join_component(root, "bin"@);
    assert(hostpath::joined(root, "bin"@) =~= "/bin"@);
    assert(seq![root].push("bin"@) =~= seq![root, "bin"@]);
    mount::lemma_join_component(root, "usr"@);
    let usr = hostpath::joined(root, "usr"@);
    assert(usr =~= seq!['/', 'u', 's', 'r']);
    mount::lemma_join_component(usr, "bin"@);
    assert(hostpath::joined(usr, "bin"@) =~= "/usr/bin"@);
    assert(seq![root].push("usr"@).push("bin"@) =~= seq![root, "usr"@, "bin"@]);
    mount::lemma_join_component(usr, "local"@);
    let local = hostpath::joined(usr, "local"@);
    assert(local =~= seq!['/', 'u', 's', 'r', '/', 'l', 'o', 'c', 'a', 'l']);
    mount::lemma_join_component(local, "bin"@);
    assert(hostpath::joined(local, "bin"@) =~= "/usr/local/bin"@);
    assert(seq![root].push("usr"@).push("local"@).push("bin"@) =~= seq![
        root,
        "usr"@,
        "local"@,
        "bin"@,
    ]);
    mount::lemma_join_component(root, "opt"@);
    let opt = hostpath::joined(root, "opt"@);
    assert(opt =~= seq!['/', 'o', 'p', 't']);
    mount::lemma_join_component(opt, "homebrew"@);
    let brew = hostpath::joined(opt, "homebrew"@);
    assert(brew =~= seq!['/', 'o', 'p', 't', '/', 'h', 'o', 'm', 'e', 'b', 'r', 'e', 'w']);
    mount::lemma_join_component(brew, "bin"@);
    assert(hostpath::joined(brew, "bin"@) =~= "/opt/homebrew/bin"@);
    assert(seq![root].push("opt"@).push("homebrew"@).push("bin"@) =~= seq![
        root,
        "opt"@,
        "homebrew"@,
        "bin"@,
    ]);
}

/// The value of `PATH` reads back as the directories it was made of, and it can be
/// made exactly when none of them holds a separator.
pub proof fn the_path_value_reads_back(dirs: Seq<Seq<char>>)
    requires
        dirs.len() > 0,
    ensures
        match seatbelt::path_value(dirs) {
            Ok(value) => text::split(value, ':') == dirs,
            Err(_) => exists|i: int| 0 <= i < dirs.len() && (#[trigger] dirs[i]).contains(':'),
        },
        (exists|i: int| 0 <= i < dirs.len() && (#[trigger] dirs[i]).contains(':'))
            ==> seatbelt::path_value(dirs) is Err,
{
    if seatbelt::path_value(dirs) is Ok {
        text::lemma_split_join(dirs, ':');
    }
}

/// A working directory is accepted exactly when it is an absolute path to a
/// directory whose canonical form lies under the host directory of some mount; it is
/// then used in that form.
pub proof fn a_working_directory_lies_in_a_mount(
    workdir: Seq<char>,
    mounts: Seq<Mount>,
    probe: WorkdirProbe,
    hosts: Seq<Option<String>>,
    result: Result<String, SandboxError>,
)
    requires
        seatbelt::workdir_answer(workdir, mounts, probe, hosts, result),
    ensures
        result is Ok <==> {
            &&& workdir.len() > 0 && workdir[0] == '/'
            &&& probe.is_dir == Ok::<bool, String>(true)
            &&& probe.canonical is Ok
            &&& exists|i: int|
                0 <= i < mounts.len() && i < hosts.len() && !((#[trigger] mounts[i]).source is Mem)
                    && hosts[i] is Some && hostpath::is_under(
                    probe.canonical->Ok_0@,
                    hosts[i]->0@,
                )
        },
        result is Ok ==> result->Ok_0@ == probe.canonical->Ok_0@,
        ({
            let rooted = workdir.len() > 0 && workdir[0] == '/';
            let there = probe.is_dir == Ok::<bool, String>(true);
            &&& !rooted ==> says(
                result->Err_0,
                "workdir "@ + text::debug_quoted(workdir) + " must be absolute"@,
            )
            &&& rooted && probe.is_dir is Err ==> says(
                result->Err_0,
                "workdir "@ + workdir + " is not accessible: "@ + probe.is_dir->Err_0@,
            )
            &&& rooted && probe.is_dir == Ok::<bool, String>(false) ==> says(
                result->Err_0,
                "workdir "@ + workdir + " is not a directory"@,
            )
            &&& rooted && there && probe.canonical is Err ==> result == Err::<String, SandboxError>(
                SandboxError::Io(probe.canonical->Err_0),
            )
            &&& rooted && there && probe.canonical is Ok && result is Err ==> says(
                result->Err_0,
                "workdir must be inside a host-backed mount so the process and the VFS see the same tree"@,
            )
        }),
{
}

/// The host directory of every read-write mount is writable, wherever the mount
/// stands.
pub proof fn every_read_write_mount_is_writable(
    mounts: Seq<Mount>,
    hosts: Seq<Option<String>>,
    i: int,
)
    requires
        0 <= i < mounts.len(),
        i < hosts.len(),
        mounts[i].source is ReadWrite,
        hosts[i] is Some,
    ensures
        seatbelt::writable(mounts, hosts).contains(hosts[i]->0@),
    decreases mounts.len(),
{
    let all = seatbelt::writable(mounts, hosts);
    if i == mounts.len() - 1 {
        assert(all.last() == hosts[i]->0@);
        assert(all[all.len() - 1] == hosts[i]->0@);
    } else {
        let init = mounts.drop_last();
        every_read_write_mount_is_writable(init, hosts, i);
        let before = seatbelt::writable(init, hosts);
        let k = choose|k: int| 0 <= k < before.len() && before[k] == hosts[i]->0@;
        assert(all[k] == before[k]);
    }
}

/// The clause that covers a path.
pub open spec fn covering(path: Seq<char>) -> Seq<char> {
    "(subpath "@ + text::debug_quoted(path) + ")"@
}

/// A clause stands for each path, and no clause for anything else; they are in
/// order.
pub proof fn a_clause_covers_each_path(paths: Seq<Seq<char>>)
    ensures
        forall|i: int|
            0 <= i < paths.len() ==> #[trigger] seatbelt::clauses(paths).contains(
                covering(paths[i]),
            ),
        forall|clause: Seq<char>| #[trigger]
            seatbelt::clauses(paths).contains(clause) ==> exists|i: int|
                0 <= i < paths.len() && clause == #[trigger] covering(paths[i]),
        text::ascending(seatbelt::clauses(paths)),
{
    let all = Seq::new(paths.len(), |i: int| seatbelt::subpath_clause(paths[i]));
    text::sorting_keeps_the_items(all);
    assert forall|i: int| 0 <= i < paths.len() implies #[trigger] seatbelt::clauses(
        paths,
    ).contains(covering(paths[i])) by {
        assert(all[i] == covering(paths[i]));
        assert(all.contains(covering(paths[i])));
    }
    assert forall|clause: Seq<char>| #[trigger]
        seatbelt::clauses(paths).contains(clause) implies exists|i: int|
        0 <= i < paths.len() && clause == #[trigger] covering(paths[i]) by {
        assert(all.contains(clause));
        let i = choose|i: int| 0 <= i < all.len() && all[i] == clause;
        assert(clause == covering(paths[i]));
    }
}

/// The profile denies by default and grants, one line each: forking; execution under
/// the directories of the confined `PATH`; reads; writes to the read-write mounts,
/// the scratch directory and the null device; and reading system parameters. The
/// only other line denies reads, and stands after the grants of reads.
pub proof fn the_profile_grants_no_more(
    mounts: Seq<Mount>,
    hosts: Seq<Option<String>>,
    denied: Seq<Seq<char>>,
    scratch: Seq<char>,
    dirs: Seq<Seq<char>>,
)
    ensures
        ({
            let lines = seatbelt::profile_lines(mounts, hosts, denied, scratch, dirs);
            let executable = seatbelt::clauses(dirs);
            let unreadable = seatbelt::clauses(denied);
            let written = seatbelt::write_clauses(mounts, hosts, scratch);
            let more: int = if denied.len() > 0 {
                1
            } else {
                0
            };
            &&& lines.len() == 9 + more
            &&& lines[0] == "(version 1)"@
            &&& lines[1] == "(deny default)"@
            &&& lines[2] == "(allow process-fork)"@
            &&& lines[3] == "(allow process-exec "@ + text::join(executable, ' ') + ")"@
            &&& lines[4] == "(allow file-read-data (subpath \"/\"))"@
            &&& lines[5] == "(allow file-read-metadata)"@
            &&& lines[6] == "(allow file-read-xattr)"@
            &&& denied.len() > 0 ==> lines[7] == "(deny file-read* "@ + text::join(
                unreadable,
                ' ',
            ) + ")"@
            &&& lines[7 + more] == "(allow file-write* "@ + text::join(written, ' ') + ")"@
            &&& lines[8 + more] == "(allow sysctl-read)"@
            &&& forall|i: int|
                0 <= i < dirs.len() ==> executable.contains(#[trigger] covering(dirs[i]))
            &&& forall|i: int|
                0 <= i < denied.len() ==> unreadable.contains(#[trigger] covering(denied[i]))
            &&& written.contains(covering(scratch))
            &&& written.contains("(literal \"/dev/null\")"@)
            &&& forall|i: int|
                0 <= i < mounts.len() && i < hosts.len() && (#[trigger] mounts[i]).source
                    is ReadWrite && hosts[i] is Some ==> written.contains(
                    covering(hosts[i]->0@),
                )
            &&& forall|clause: Seq<char>| #[trigger]
                written.contains(clause) ==> clause == "(literal \"/dev/null\")"@ || clause
                    == covering(scratch) || exists|i: int|
                    0 <= i < mounts.len() && i < hosts.len() && (#[trigger] mounts[i]).source
                        is ReadWrite && hosts[i] is Some && clause == covering(hosts[i]->0@)
        }),
{
    a_clause_covers_each_path(dirs);
    a_clause_covers_each_path(denied);
    let places = seatbelt::writable(mounts, hosts).push(scratch);
    a_clause_covers_each_path(places);
    let sorted = seatbelt::clauses(places);
    let written = seatbelt::write_clauses(mounts, hosts, scratch);
    assert(written =~= sorted.push("(literal \"/dev/null\")"@));
    assert(written[sorted.len() as int] == "(literal \"/dev/null\")"@);
    assert forall|clause: Seq<char>| #[trigger] sorted.contains(clause) implies written.contains(
        clause,
    ) by {
        let k = choose|k: int| 0 <= k < sorted.len() && sorted[k] == clause;
        assert(written[k] == clause);
    }
    assert(places[places.len() - 1] == scratch);
    assert(sorted.contains(covering(places[places.len() - 1])));
    assert forall|i: int|
        0 <= i < mounts.len() && i < hosts.len() && (#[trigger] mounts[i]).source is ReadWrite
            && hosts[i] is Some implies written.contains(covering(hosts[i]->0@)) by {
        every_read_write_mount_is_writable(mounts, hosts, i);
        let front = seatbelt::writable(mounts, hosts);
        let k = choose|k: int| 0 <= k < front.len() && front[k] == hosts[i]->0@;
        assert(places[k] == hosts[i]->0@);
        assert(sorted.contains(covering(places[k])));
    }
    assert forall|clause: Seq<char>| #[trigger] written.contains(clause) implies clause
        == "(literal \"/dev/null\")"@ || clause == covering(scratch) || exists|i: int|
        0 <= i < mounts.len() && i < hosts.len() && (#[trigger] mounts[i]).source is ReadWrite
            && hosts[i] is Some && clause == covering(hosts[i]->0@) by {
        let k = choose|k: int| 0 <= k < written.len() && written[k] == clause;
        if k < sorted.len() {
            assert(sorted[k] == clause);
            assert(sorted.contains(clause));
            let j = choose|j: int|
                0 <= j < places.len() && clause == #[trigger] covering(places[j]);
            if j < places.len() - 1 {
                let front = seatbelt::writable(mounts, hosts);
                assert(front[j] == places[j]);
                assert(front.contains(places[j]));
                seatbelt::only_read_write_mounts_are_writable(mounts, hosts, places[j]);
            }
        }
    }
}

/// The canonical form of every path that must not be read is denied, wherever its
/// entry stands, and nothing else is.
pub proof fn every_resolved_denial_counts(entries: Seq<Seq<char>>, denied: Seq<Option<String>>)
    ensures
        forall|path: Seq<char>| #[trigger]
            seatbelt::denied_paths(entries, denied).contains(path) <==> exists|i: int|
                0 <= i < entries.len() && i < denied.len() && (#[trigger] denied[i]) is Some
                    && denied[i]->0@ == path,
    decreases entries.len(),
{
    if entries.len() > 0 {
        let init = entries.drop_last();
        every_resolved_denial_counts(init, denied);
        let all = seatbelt::denied_paths(entries, denied);
        let before = seatbelt::denied_paths(init, denied);
        let last = entries.len() - 1;
        assert forall|path: Seq<char>| #[trigger] all.contains(path) <==> exists|i: int|
            0 <= i < entries.len() && i < denied.len() && (#[trigger] denied[i]) is Some
                && denied[i]->0@ == path by {
            if all.contains(path) {
                let k = choose|k: int| 0 <= k < all.len() && all[k] == path;
                if k < before.len() {
                    assert(before[k] == path);
                    assert(before.contains(path));
                } else {
                    assert(denied[last] is Some && denied[last]->0@ == path);
                }
            }
            if exists|i: int|
                0 <= i < entries.len() && i < denied.len() && (#[trigger] denied[i]) is Some
                    && denied[i]->0@ == path {
                let i = choose|i: int|
                    0 <= i < entries.len() && i < denied.len() && (#[trigger] denied[i]) is Some
                        && denied[i]->0@ == path;
                if i < last {
                    assert(before.contains(path));
                    let k = choose|k: int| 0 <= k < before.len() && before[k] == path;
                    assert(all[k] == path);
                } else {
                    assert(all[all.len() - 1] == path);
                }
            }
        }
    }
}

/// A denied path must leave readable what every command needs: the working
/// directory, the scratch directory, and each directory of the `PATH`.
pub proof fn what_every_command_needs_stays_readable(
    path: Seq<char>,
    workdir: Seq<char>,
    dirs: Seq<Seq<char>>,
    scratch: Seq<char>,
)
    ensures
        seatbelt::covers_needed(path, workdir, dirs, scratch) <==> hostpath::is_under(
            workdir,
            path,
        ) || hostpath::is_under(scratch, path) || (exists|i: int|
            0 <= i < dirs.len() && hostpath::is_under(#[trigger] dirs[i], path)),
{
}

/// What a pipe delivers is kept as it came, in order, up to the budget that both
/// pipes share; the other pipe is not touched. A delivery beyond the budget kills
/// the command, and one within it does not.
pub proof fn output_is_kept_up_to_the_budget(
    state: RunState,
    stream: Stream,
    bytes: Vec<u8>,
)
    ensures
        ({
            let (after, kill, next) = seatbelt::run_step(state, RunEvent::Output(stream, bytes));
            let kept: int = if bytes@.len() <= state.remaining {
                bytes@.len() as int
            } else {
                state.remaining as int
            };
            &&& stream is Stdout ==> after.stdout == state.stdout + bytes@.take(kept)
                && after.stderr == state.stderr && after.stderr_pipe == state.stderr_pipe
            &&& stream is Stderr ==> after.stderr == state.stderr + bytes@.take(kept)
                && after.stdout == state.stdout && after.stdout_pipe == state.stdout_pipe
            &&& after.remaining == state.remaining - kept
            &&& after.truncated <==> state.truncated || bytes@.len() > state.remaining
            &&& bytes@.len() <= state.remaining ==> after.stdout_pipe == state.stdout_pipe
                && after.stderr_pipe == state.stderr_pipe
            &&& bytes@.len() <= state.remaining && (state.stdout_pipe is Open
                || state.stderr_pipe is Open) ==> !kill && next is Read
            &&& bytes@.len() > state.remaining ==> kill
        }),
{
}

/// While a pipe is open reading goes on, and once both are read to their end the
/// process is waited for; a pipe that cannot be read kills the command.
pub proof fn pipes_are_read_to_their_end(state: RunState, stream: Stream, error: String)
    ensures
        ({
            let (after, kill, next) = seatbelt::run_step(state, RunEvent::Closed(stream));
            let other = if stream is Stdout {
                state.stderr_pipe
            } else {
                state.stdout_pipe
            };
            &&& after.stdout == state.stdout && after.stderr == state.stderr
            &&& after.remaining == state.remaining && after.truncated == state.truncated
            &&& stream is Stdout ==> after.stdout_pipe is Closed && after.stderr_pipe == other
            &&& stream is Stderr ==> after.stderr_pipe is Closed && after.stdout_pipe == other
            &&& other is Open ==> !kill && next is Read
            &&& other is Closed ==> !kill && next is Wait
            &&& other is Failed ==> kill && next is Finish
        }),
        ({
            let (after, kill, next) = seatbelt::run_step(
                state,
                RunEvent::ReadFailed(stream, error),
            );
            let other = if stream is Stdout {
                state.stderr_pipe
            } else {
                state.stdout_pipe
            };
            &&& other is Open ==> !kill && next is Read
            &&& other is Closed ==> kill && next is Finish && next->Finish_0.exit_code == 126
                && next->Finish_0.stderr == "[agentd-sandbox] "@ + (
            "waiting for the command failed: "@ + error@) && next->Finish_0.stdout == Seq::<
                char,
            >::empty()
        }),
{
}

/// A command that ends by itself, with all its output kept, hands back that output
/// and its own exit code: 128 and the number of a signal that ended it, and 126 when
/// neither is known. Cut output is noted and never counts as success.
pub proof fn a_command_hands_back_its_output(state: RunState, exit: Exit)
    ensures
        ({
            let (after, kill, next) = seatbelt::run_step(state, RunEvent::Exited(exit));
            let code: int = match exit {
                Exit::Code(code) => code as int,
                Exit::Signal(signal) => 128 + signal,
                Exit::Unknown => 126,
            };
            &&& after == state
            &&& !kill
            &&& next is Finish
            &&& next->Finish_0.denied_by is None
            &&& next->Finish_0.stdout == text::lossy(state.stdout)
            &&& !state.truncated ==> next->Finish_0.stderr == text::lossy(state.stderr)
                && next->Finish_0.exit_code == code
            &&& state.truncated ==> next->Finish_0.stderr == text::lossy(state.stderr)
                + "\n[agentd-sandbox] output truncated at max_output_bytes"@
                && next->Finish_0.exit_code == if code >= 137 {
                code
            } else {
                137
            }
        }),
{
}

/// A command that exceeds its timeout is killed and hands back what it wrote, with a
/// note and the exit code 124, or 137 when its output was cut as well; one that
/// cannot be waited for is killed and reported as not executed.
pub proof fn a_command_past_its_timeout_is_killed(state: RunState, error: String)
    ensures
        ({
            let (after, kill, next) = seatbelt::run_step(state, RunEvent::TimedOut);
            &&& kill
            &&& next is Finish
            &&& next->Finish_0.stdout == text::lossy(state.stdout)
            &&& !state.truncated ==> next->Finish_0.exit_code == 124 && next->Finish_0.stderr
                == text::lossy(state.stderr)
                + "\n[agentd-sandbox] command exceeded the wall-clock timeout"@
            &&& state.truncated ==> next->Finish_0.exit_code == 137
        }),
        ({
            let (after, kill, next) = seatbelt::run_step(state, RunEvent::WaitFailed(error));
            &&& kill
            &&& next is Finish
            &&& next->Finish_0.exit_code == 126
            &&& next->Finish_0.stdout == Seq::<char>::empty()
            &&& next->Finish_0.stderr == "[agentd-sandbox] "@ + (
            "waiting for the command failed: "@ + error@)
            &&& next->Finish_0.denied_by is None
        }),
{
}

/// An executor is built where the front-end is there, the working directory usable,
/// every directory on the path nameable, and nothing withheld that every command
/// needs; the first of these that fails says why. What is built confines as the policy
/// says.
pub proof fn an_executor_confines_as_the_policy_says(
    policy: Policy,
    probe: HostProbe,
    r: Result<ConfinedProcessExecutor, SandboxError>,
    workdir: Result<String, SandboxError>,
)
    requires
        seatbelt::executor_answer(policy, probe, r),
        seatbelt::workdir_answer(
            policy.shell.workdir@,
            policy.fs.mounts@,
            probe.workdir,
            probe.hosts@,
            workdir,
        ),
    ensures
        ({
            let found = seatbelt::path_dirs(
                policy::prefix_views(policy.shell.allow@),
                text::views(probe.existing@),
            );
            let path = seatbelt::path_value(found->Ok_0);
            let fault = seatbelt::denials_fault(
                text::views(policy.fs.deny_read@),
                probe.denied@,
                probe.workdir.canonical->Ok_0@,
                found->Ok_0,
                probe.scratch@,
            );
            let placed = probe.sandbox_exec && workdir is Ok;
            let named = placed && found is Ok && path is Ok;
            &&& !probe.sandbox_exec ==> r is Err && r->Err_0 is UnsupportedPlatform
                && r->Err_0->UnsupportedPlatform_0@ == "sandbox-exec is not available"@
            &&& probe.sandbox_exec && workdir is Err ==> r is Err && seatbelt::workdir_answer(
                policy.shell.workdir@,
                policy.fs.mounts@,
                probe.workdir,
                probe.hosts@,
                Err::<String, SandboxError>(r->Err_0),
            )
            &&& placed && found is Err ==> r is Err && says(r->Err_0, found->Err_0)
            &&& placed && found is Ok && path is Err ==> r is Err && says(
                r->Err_0,
                path->Err_0,
            )
            &&& named && fault is Some ==> r is Err && says(r->Err_0, fault->0)
            &&& named && fault is None ==> {
                &&& r is Ok
                &&& r->Ok_0@.workdir == workdir->Ok_0@
                &&& r->Ok_0@.scratch == probe.scratch@
                &&& r->Ok_0@.env == policy::env_views(policy.shell.env@)
                &&& r->Ok_0@.path_env == path->Ok_0
                &&& r->Ok_0@.timeout == policy.limits.timeout
                &&& r->Ok_0@.max_output_bytes == policy.limits.max_output_bytes
                &&& r->Ok_0@.profile == text::join(
                    seatbelt::profile_lines(
                        policy.fs.mounts@,
                        probe.hosts@,
                        seatbelt::denied_paths(
                            text::views(policy.fs.deny_read@),
                            probe.denied@,
                        ),
                        probe.scratch@,
                        found->Ok_0,
                    ),
                    '\n',
                )
            }
        }),
{
}

/// The first entry that cannot be used is named, as far as it can be read: the whole
/// entry where it is no list of words, and its command where that is a relative path.
pub proof fn the_first_bad_entry_is_named(
    allow: Seq<Seq<char>>,
    entry: Seq<char>,
    existing: Seq<Seq<char>>,
)
    ensures
        ({
            let before = seatbelt::path_dirs(allow, existing);
            let after = seatbelt::path_dirs(allow.push(entry), existing);
            let words = shell::shell_words(entry);
            &&& before is Err ==> after == before
            &&& before is Ok && words is None ==> after == Err::<Seq<Seq<char>>, Seq<char>>(
                "allowlist entry "@ + text::debug_quoted(entry) + " is not tokenizable"@,
            )
            &&& before is Ok && words is Some && is_unusable(entry) ==> after == Err::<
                Seq<Seq<char>>,
                Seq<char>,
            >(
                "allowlist entry "@ + text::debug_quoted(words->0[0])
                    + " must be an absolute path or a bare command name"@,
            )
            &&& before is Ok && !is_unusable(entry) ==> after is Ok && before->Ok_0.is_prefix_of(
                after->Ok_0,
            )
        }),
{
    assert(allow.push(entry).drop_last() =~= allow);
    assert(allow.push(entry).last() == entry);
}

/// A command is run by a shell inside the profile, in its working directory, with the
/// policy's environment and then the confined places.
pub proof fn a_command_runs_inside_the_profile(
    confinement: Confinement,
    profile_path: Seq<char>,
    command: Seq<char>,
    launch: Launch,
    i: int,
)
    requires
        seatbelt::starts(confinement, profile_path, command, launch),
    ensures
        ({
            let own = confinement.env.len() as int;
            let env = policy::env_views(launch.env@);
            &&& launch.program@ == "/usr/bin/sandbox-exec"@
            &&& launch.workdir@ == confinement.workdir
            &&& launch.args@.len() == 5
            &&& text::views(launch.args@) == seq![
                "-f"@,
                profile_path,
                "/bin/bash"@,
                "-c"@,
                command,
            ]
            &&& env.len() == own + 3
            &&& 0 <= i < own ==> env[i] == confinement.env[i]
            &&& env[own] == ("PATH"@, confinement.path_env)
            &&& env[own + 1] == ("HOME"@, confinement.scratch)
            &&& env[own + 2] == ("TMPDIR"@, confinement.scratch)
        }),
{
    assert(text::views(launch.args@).len() == 5);
}

/// A command that was not run says why, and has the exit code of one that cannot be.
pub proof fn a_command_that_was_not_run_says_why(message: Seq<char>)
    ensures
        ({
            let told = seatbelt::not_executed(message);
            &&& told.stdout == Seq::<char>::empty()
            &&& told.stderr == "[agentd-sandbox] "@ + message
            &&& told.exit_code == 126
            &&& told.denied_by is None
        }),
{
}

/// The first path that cannot be withheld is named, with the reason: it is relative,
/// does not resolve, or covers what every command needs.
pub proof fn the_first_bad_denial_is_named(
    entries: Seq<Seq<char>>,
    entry: Seq<char>,
    denied: Seq<Option<String>>,
    workdir: Seq<char>,
    dirs: Seq<Seq<char>>,
    scratch: Seq<char>,
)
    ensures
        ({
            let before = seatbelt::denials_fault(entries, denied, workdir, dirs, scratch);
            let after = seatbelt::denials_fault(
                entries.push(entry),
                denied,
                workdir,
                dirs,
                scratch,
            );
            let n = entries.len() as int;
            let rooted = entry.len() > 0 && entry[0] == '/';
            let resolves = n < denied.len() && denied[n] is Some;
            let needed = resolves && seatbelt::covers_needed(
                denied[n]->0@,
                workdir,
                dirs,
                scratch,
            );
            let named = "deny_read entry "@ + text::debug_quoted(entry);
            &&& seatbelt::denials_fault(Seq::empty(), denied, workdir, dirs, scratch) is None
            &&& before is Some ==> after == before
            &&& before is None && !rooted ==> after == Some(named + " must be absolute"@)
            &&& before is None && rooted && !resolves ==> after == Some(
                named + " does not resolve"@,
            )
            &&& before is None && rooted && needed ==> after == Some(
                named + " covers a directory that every command needs"@,
            )
            &&& before is None && rooted && resolves && !needed ==> after is None
        }),
{
    assert(entries.push(entry).drop_last() =~= entries);
    assert(entries.push(entry).last() == entry);
}

} // verus!
