//! What mounts promise.

use crate::error::{ErrorKind, FsError};
use crate::guard::{self, ByteBudget};
use crate::hostpath;
use crate::mount::{self, DirEntry, Probe, ReadOnlyMount, ReadWriteMount, WalkStep};
use crate::vpath::{self, VPath};
use vstd::prelude::*;

verus! {

broadcast use vstd::string::group_string_axioms;

/// The host path of a virtual one has the base's components and then the path's own,
/// each of them, in order.
pub proof fn a_host_path_keeps_every_component(base: Seq<char>, path: Seq<Seq<char>>)
    requires
        base.len() > 0,
        vpath::is_path(path),
    ensures
        mount::host_path(base, Seq::empty()) == base,
        mount::host_path(base, path).len() > 0,
        hostpath::components(mount::host_path(base, path)) == hostpath::components(base) + path,
    decreases path.len(),
{
    if path.len() == 0 {
        assert(hostpath::components(base) + path =~= hostpath::components(base));
    } else {
        let init = path.drop_last();
        let name = path.last();
        assert(vpath::is_component(path[path.len() - 1]));
        assert forall|i: int| 0 <= i < init.len() implies vpath::is_component(
            #[trigger] init[i],
        ) by {
            assert(init[i] == path[i]);
        }
        a_host_path_keeps_every_component(base, init);
        let above = mount::host_path(base, init);
        crate::laws::hostpath::what_is_joined_lies_under(above, name);
        crate::laws::hostpath::joining_puts_one_separator_between(above, name);
        assert(hostpath::components(base) + path =~= (hostpath::components(base) + init).push(
            name,
        ));
    }
}

/// A path is resolved below the canonical form of what exists of it: its components
/// are that form's and then those that do not exist yet. A form outside the root is
/// refused, and the failure to find one is passed on.
pub proof fn a_path_is_resolved_inside_its_root(
    root: Seq<char>,
    relative: Seq<Seq<char>>,
    existing: nat,
    canonical: Result<String, FsError>,
    result: Result<String, FsError>,
)
    requires
        vpath::is_path(relative),
        existing <= relative.len(),
        mount::resolution(root, relative, existing, canonical, result),
    ensures
        match canonical {
            Err(error) => result == Err::<String, FsError>(error),
            Ok(found) => {
                let inside = hostpath::components(root).is_prefix_of(hostpath::components(found@));
                &&& inside && found@.len() > 0 ==> result is Ok && hostpath::components(
                    result->Ok_0@,
                ) == hostpath::components(found@) + relative.skip(existing as int)
                &&& !inside ==> result is Err && result->Err_0.kind == ErrorKind::PermissionDenied
                    && result->Err_0.message@ == Seq::<char>::empty()
            },
        },
{
    if canonical is Ok {
        let found = canonical->Ok_0@;
        crate::laws::hostpath::paths_go_by_components(found, root);
        let rest = relative.skip(existing as int);
        assert forall|i: int| 0 <= i < rest.len() implies vpath::is_component(
            #[trigger] rest[i],
        ) by {
            assert(rest[i] == relative[i + existing]);
        }
        if found.len() > 0 {
            a_host_path_keeps_every_component(found, rest);
        }
    }
}

/// A listing leaves out the entries that are hidden and keeps every other, in order.
pub proof fn a_listing_keeps_the_order(
    refuse: Seq<Seq<char>>,
    hide: Seq<Seq<char>>,
    dir: Seq<Seq<char>>,
    before: Seq<(Seq<char>, bool)>,
    entry: (Seq<char>, bool),
    after: Seq<(Seq<char>, bool)>,
)
    ensures
        ({
            let shown = mount::visible(refuse, hide, dir, before.push(entry) + after);
            let first = mount::visible(refuse, hide, dir, before);
            let last = mount::visible(refuse, hide, dir, after);
            let access = guard::own_access(refuse, hide, dir.push(entry.0));
            &&& access == guard::Access::Hidden ==> shown == first + last
            &&& access != guard::Access::Hidden ==> shown == first.push(entry) + last
            &&& mount::visible(refuse, hide, dir, Seq::empty()) == Seq::<(Seq<char>, bool)>::empty()
        }),
    decreases after.len(),
{
    let head = before.push(entry);
    let all = head + after;
    let first = mount::visible(refuse, hide, dir, before);
    let last = mount::visible(refuse, hide, dir, after);
    if after.len() == 0 {
        assert(all =~= head);
        assert(head.drop_last() =~= before);
        assert(last =~= Seq::empty());
        assert(first + last =~= first);
        assert(first.push(entry) + last =~= first.push(entry));
    } else {
        assert(all.drop_last() =~= head + after.drop_last());
        assert(all.last() == after.last());
        a_listing_keeps_the_order(refuse, hide, dir, before, entry, after.drop_last());
        if guard::own_access(refuse, hide, dir.push(entry.0)) == guard::Access::Hidden {
            assert(mount::visible(refuse, hide, dir, all) =~= first + last);
        } else {
            assert(mount::visible(refuse, hide, dir, all) =~= first.push(entry) + last);
        }
    }
}

/// A mount screens by its globs and lists what they do not hide, whether it may be
/// written to or not.
pub proof fn mounts_screen_by_their_globs(
    read_only: ReadOnlyMount,
    read_write: ReadWriteMount,
    path: Seq<Seq<char>>,
    entries: Seq<DirEntry>,
    shown: Seq<DirEntry>,
    i: int,
)
    ensures
        read_only.screening(path) == guard::full_access(
            read_only.refuse_patterns(),
            read_only.hide_patterns(),
            path,
        ),
        read_write.screening(path) == guard::full_access(
            read_write.refuse_patterns(),
            read_write.hide_patterns(),
            path,
        ),
        read_only.lists(path, entries, shown) <==> mount::entry_views(shown) == mount::visible(
            read_only.refuse_patterns(),
            read_only.hide_patterns(),
            path,
            mount::entry_views(entries),
        ),
        read_write.lists(path, entries, shown) <==> mount::entry_views(shown) == mount::visible(
            read_write.refuse_patterns(),
            read_write.hide_patterns(),
            path,
            mount::entry_views(entries),
        ),
        mount::entry_views(entries).len() == entries.len(),
        0 <= i < entries.len() ==> mount::entry_views(entries)[i] == (
            entries[i].name@,
            entries[i].is_dir,
        ),
{
}

/// What a mount does not do is refused: a screened path as its screening says, and
/// an allowed one for the reason at hand.
pub proof fn a_refusal_says_why(
    kind: ErrorKind,
    allowed: Result<(), FsError>,
    refused: Result<(), FsError>,
    hidden: Result<(), FsError>,
)
    requires
        mount::refused_with(guard::Access::Allowed, kind, allowed),
        mount::refused_with(guard::Access::Refused, kind, refused),
        mount::refused_with(guard::Access::Hidden, kind, hidden),
    ensures
        allowed is Err && allowed->Err_0.kind == kind && allowed->Err_0.message@ == Seq::<
            char,
        >::empty(),
        refused is Err && refused->Err_0.kind == ErrorKind::PermissionDenied
            && refused->Err_0.message@ == Seq::<char>::empty(),
        hidden is Err && hidden->Err_0.kind == ErrorKind::NotFound && hidden->Err_0.message@
            == Seq::<char>::empty(),
{
}

/// A walk probes its components one after the other, each under those before it, and
/// asks for the canonical form of all that exists once one is missing or none is left;
/// a probe that fails ends it.
pub proof fn a_walk_goes_as_deep_as_there_is_something(
    base: Seq<char>,
    target: Seq<Seq<char>>,
    depth: nat,
    probe: Probe,
    deeper: nat,
    step: WalkStep,
)
    requires
        mount::probe_answer(base, target, depth, probe, deeper, step),
        depth < target.len(),
    ensures
        probe is Found ==> deeper == depth + 1,
        probe is Found && depth + 1 < target.len() ==> step is Probe && step->Probe_0@
            == mount::host_path(base, target.take(depth as int + 2)),
        probe is Found && depth + 1 == target.len() ==> step is Canonicalize
            && step->Canonicalize_0@ == mount::host_path(base, target),
        probe is Missing ==> deeper == depth && step is Canonicalize && step->Canonicalize_0@
            == mount::host_path(base, target.take(depth as int)),
        probe is Failed ==> deeper == depth && step == WalkStep::Fail(probe->Failed_0),
{
}

/// A walk starts by probing its first component; the root itself needs no probe.
pub proof fn a_walk_starts_at_the_root(base: Seq<char>, target: Seq<Seq<char>>, step: WalkStep)
    requires
        mount::walks_on(base, target, 0, step),
    ensures
        target.len() > 0 ==> step is Probe && step->Probe_0@ == mount::host_path(
            base,
            target.take(1),
        ),
        target.len() == 0 ==> step is Canonicalize && step->Canonicalize_0@ == base,
{
}

/// Everything that is allowed may be made, removed, and renamed, but for the root; a
/// screened path is refused as its screening says, the source of a rename first.
pub proof fn all_but_the_root_may_change(
    from_access: guard::Access,
    to_access: guard::Access,
    from: Seq<Seq<char>>,
    to: Seq<Seq<char>>,
    kind: ErrorKind,
    changed: Result<(), FsError>,
    renamed: Result<(), FsError>,
)
    requires
        mount::change_answer(from_access, from, kind, changed),
        mount::rename_answer(from_access, to_access, from, to, renamed),
    ensures
        ({
            let allowed = from_access == guard::Access::Allowed;
            let both = allowed && to_access == guard::Access::Allowed;
            &&& changed is Ok <==> allowed && from.len() > 0
            &&& allowed && from.len() == 0 ==> changed->Err_0.kind == kind
            &&& from_access == guard::Access::Refused ==> changed->Err_0.kind
                == ErrorKind::PermissionDenied && renamed->Err_0.kind
                == ErrorKind::PermissionDenied
            &&& from_access == guard::Access::Hidden ==> changed->Err_0.kind
                == ErrorKind::NotFound && renamed->Err_0.kind == ErrorKind::NotFound
            &&& renamed is Ok <==> both && from.len() > 0 && to.len() > 0
            &&& both && (from.len() == 0 || to.len() == 0) ==> renamed->Err_0.kind
                == ErrorKind::InvalidInput && renamed->Err_0.message@ == Seq::<char>::empty()
            &&& allowed && to_access == guard::Access::Refused ==> renamed->Err_0.kind
                == ErrorKind::PermissionDenied
            &&& allowed && to_access == guard::Access::Hidden ==> renamed->Err_0.kind
                == ErrorKind::NotFound
        }),
{
}

/// A write goes on to its resolved path exactly when its parent is a directory, its
/// path resolved, and its bytes fit; otherwise the first of these that fails says why.
pub proof fn a_write_needs_its_directory_and_room(
    before: ByteBudget,
    parent_is_dir: bool,
    host: Result<String, FsError>,
    len: u64,
    r: Result<String, FsError>,
)
    requires
        mount::admission(before, parent_is_dir, host, len, r),
    ensures
        r is Ok <==> parent_is_dir && host is Ok && !before.over_file_cap(len)
            && !before.over_total_cap(len),
        r is Ok ==> r->Ok_0@ == host->Ok_0@,
        !parent_is_dir ==> r->Err_0.kind == ErrorKind::NotFound && r->Err_0.message@ == Seq::<
            char,
        >::empty(),
        parent_is_dir && host is Err ==> r == host,
        parent_is_dir && host is Ok && before.over_file_cap(len) ==> r->Err_0.kind
            == ErrorKind::FileTooLarge && r->Err_0.message@ == guard::cap_message(
            len,
            before.file_cap()->0,
            "file"@,
        ),
        parent_is_dir && host is Ok && !before.over_file_cap(len) && before.over_total_cap(len)
            ==> r->Err_0.kind == ErrorKind::StorageFull && r->Err_0.message@ == guard::cap_message(
            len,
            before.total_cap()->0,
            "total"@,
        ),
{
}

/// Any allowed path but the root may be written to, in its own directory; a failed
/// write returns what it had reserved, and one that was made keeps it.
pub proof fn a_write_begins_in_its_directory(
    access: guard::Access,
    path: Seq<Seq<char>>,
    r: Result<VPath, FsError>,
    used: u64,
    len: u64,
)
    requires
        mount::begin_answer(access, path, r),
        used + len <= u64::MAX,
    ensures
        r is Ok <==> access == guard::Access::Allowed && path.len() > 0,
        r is Ok ==> r->Ok_0@.push(path.last()) == path,
        access == guard::Access::Allowed && path.len() == 0 ==> r->Err_0.kind
            == ErrorKind::IsADirectory,
        access == guard::Access::Refused ==> r->Err_0.kind == ErrorKind::PermissionDenied,
        access == guard::Access::Hidden ==> r->Err_0.kind == ErrorKind::NotFound,
        mount::settled((used + len) as u64, false, len) == used as int,
        mount::settled((used + len) as u64, true, len) == used + len,
{
    if r is Ok {
        assert(path.drop_last().push(path.last()) =~= path);
    }
}

/// Only a directory is listed, and no directory is replaced by a rename.
pub proof fn directories_are_listed_and_not_replaced(
    is_dir: bool,
    error: FsError,
    listed: Result<(), FsError>,
    failed: Result<(), FsError>,
    replaced: Result<(), FsError>,
)
    requires
        mount::target_answer(Ok(is_dir), listed),
        mount::target_answer(Err(error), failed),
        mount::replacing(is_dir, replaced),
    ensures
        listed is Ok <==> is_dir,
        !is_dir ==> listed->Err_0.kind == ErrorKind::NotADirectory && listed->Err_0.message@
            == Seq::<char>::empty(),
        failed == Err::<(), FsError>(error),
        replaced is Ok <==> !is_dir,
        is_dir ==> replaced->Err_0.kind == ErrorKind::IsADirectory && replaced->Err_0.message@
            == Seq::<char>::empty(),
{
}

} // verus!
