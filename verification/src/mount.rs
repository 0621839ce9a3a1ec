//! Host-directory mounts: read-only, read-write, and the shared path
//! resolution that keeps them inside their roots.

use crate::error::{ErrorKind, FsError};
use crate::guard::{self, ByteBudget, PathGuard};
use crate::hostpath;
use crate::text;
use crate::vpath::{self, VPath};
use vstd::prelude::*;

verus! {

broadcast use vstd::string::group_string_axioms;

/// The host path of the components under `base`.
pub open spec fn host_path(base: Seq<char>, components: Seq<Seq<char>>) -> Seq<char>
    decreases components.len(),
{
    if components.len() == 0 {
        base
    } else {
        hostpath::joined(host_path(base, components.drop_last()), components.last())
    }
}

/// Joining a component adds it to the components of a path.
pub proof fn lemma_join_component(base: Seq<char>, name: Seq<char>)
    requires
        vpath::is_component(name),
    ensures
        hostpath::components(hostpath::joined(base, name)) == hostpath::components(base).push(
            name,
        ),
{
    let whole = hostpath::joined(base, name);
    assert(!hostpath::absolute(name)) by {
        if hostpath::absolute(name) {
            assert(name.contains('/'));
        }
    }
    let pieces = text::split(base, '/');
    text::lemma_split_nonempty(base, '/');
    if base.len() == 0 {
        text::lemma_split_single(name, '/');
        assert(base =~= Seq::<char>::empty());
        assert(pieces =~= seq![Seq::<char>::empty()]);
        assert(pieces.drop_last() =~= Seq::<Seq<char>>::empty());
        assert(pieces.last() =~= Seq::<char>::empty());
        assert(hostpath::named(pieces) =~= hostpath::named(pieces.drop_last()));
        assert(hostpath::named(Seq::<Seq<char>>::empty()) =~= Seq::<Seq<char>>::empty());
        assert(seq![name].drop_last() =~= Seq::<Seq<char>>::empty());
        assert(hostpath::named(seq![name]) =~= seq![name]);
    } else if base.last() == '/' {
        let short = base.drop_last();
        assert(base =~= short.push('/'));
        assert(whole =~= short.push('/') + name);
        text::lemma_split_tail(short, '/', name);
        text::lemma_split_nonempty(short, '/');
        let inner = text::split(short, '/');
        assert(pieces =~= inner.push(Seq::<char>::empty()));
        assert(pieces.drop_last() =~= inner);
        assert(inner.push(name).drop_last() =~= inner);
        assert(hostpath::named(inner.push(name)) == hostpath::named(inner).push(name));
        assert(hostpath::named(pieces) == hostpath::named(inner));
        assert(whole[0] == base[0]);
        assert(hostpath::components(whole) =~= hostpath::components(base).push(name));
    } else {
        assert(whole =~= base.push('/') + name);
        text::lemma_split_tail(base, '/', name);
        assert(pieces.push(name).drop_last() =~= pieces);
        assert(hostpath::named(pieces.push(name)) == hostpath::named(pieces).push(name));
        assert(whole[0] == base[0]);
        assert(hostpath::components(whole) =~= hostpath::components(base).push(name));
    }
}

/// The components of a host path are those of its base followed by those of
/// the virtual path.
pub proof fn lemma_host_path_components(base: Seq<char>, components: Seq<Seq<char>>)
    requires
        vpath::is_path(components),
    ensures
        hostpath::components(host_path(base, components)) == hostpath::components(base)
            + components,
    decreases components.len(),
{
    if components.len() > 0 {
        let init = components.drop_last();
        assert forall|i: int| 0 <= i < init.len() implies vpath::is_component(
            #[trigger] init[i],
        ) by {
            assert(init[i] == components[i]);
        }
        lemma_host_path_components(base, init);
        assert(vpath::is_component(components[components.len() - 1]));
        lemma_join_component(host_path(base, init), components.last());
        assert(hostpath::components(base) + components =~= (hostpath::components(base)
            + init).push(components.last()));
    } else {
        assert(hostpath::components(base) + components =~= hostpath::components(base));
    }
}

/// What is at a host path, without following a link there.
pub enum Probe {
    /// Something exists.
    Found,
    /// Nothing exists.
    Missing,
    /// It could not be told.
    Failed(FsError),
}

/// What a walk needs next.
pub enum WalkStep {
    /// Probe this host path.
    Probe(String),
    /// Canonicalize this host path: the deepest existing ancestor.
    Canonicalize(String),
    /// The walk failed.
    Fail(FsError),
}

/// The walk along the existing components of a path below a mount root.
pub struct HostWalk {
    root: String,
    relative: VPath,
    existing: usize,
}

/// Whether a step is what a walk needs that knows `depth` components to exist.
pub open spec fn walks_on(
    base: Seq<char>,
    target: Seq<Seq<char>>,
    depth: nat,
    step: WalkStep,
) -> bool {
    if depth < target.len() {
        step is Probe && step->Probe_0@ == host_path(base, target.take(depth as int + 1))
    } else {
        step is Canonicalize && step->Canonicalize_0@ == host_path(base, target)
    }
}

/// Whether a step, and the depth it leaves, are the answer to a probe.
pub open spec fn probe_answer(
    base: Seq<char>,
    target: Seq<Seq<char>>,
    depth: nat,
    probe: Probe,
    deeper: nat,
    step: WalkStep,
) -> bool {
    match probe {
        Probe::Found => deeper == depth + 1 && walks_on(base, target, deeper, step),
        Probe::Missing => deeper == depth && step is Canonicalize && step->Canonicalize_0@
            == host_path(base, target.take(depth as int)),
        Probe::Failed(error) => deeper == depth && step == WalkStep::Fail(error),
    }
}

impl HostWalk {
    /// The mount root.
    pub closed spec fn base(&self) -> Seq<char> {
        self.root@
    }

    /// The path below the root.
    pub closed spec fn target(&self) -> Seq<Seq<char>> {
        self.relative@
    }

    /// How many leading components are known to exist.
    pub closed spec fn depth(&self) -> nat {
        self.existing as nat
    }

    /// The walk never goes deeper than its target.
    pub open spec fn wf(&self) -> bool {
        self.depth() <= self.target().len()
    }

    /// Starts the walk at the root.
    pub fn new(root: &str, relative: &VPath) -> (r: HostWalk)
        ensures
            r.wf(),
            r.base() == root@,
            r.target() == relative@,
            r.depth() == 0,
    {
        HostWalk { root: root.to_owned(), relative: relative.clone(), existing: 0 }
    }

    /// What the walk needs: the next component probed, or, at the target, the
    /// target canonicalized.
    pub fn next(&self) -> (r: WalkStep)
        requires
            self.wf(),
        ensures
            if self.depth() < self.target().len() {
                r is Probe && r->Probe_0@ == host_path(
                    self.base(),
                    self.target().take(self.depth() as int + 1),
                )
            } else {
                r is Canonicalize && r->Canonicalize_0@ == host_path(self.base(), self.target())
            },
            walks_on(self.base(), self.target(), self.depth(), r),
    {
        let components = self.relative.components();
        proof {
            assert(text::views(components@).len() == components@.len());
        }
        if self.existing < components.len() {
            WalkStep::Probe(extend(self.root.as_str(), components, 0, self.existing + 1))
        } else {
            proof {
                assert(self.relative@.take(self.existing as int) =~= self.relative@);
            }
            WalkStep::Canonicalize(extend(self.root.as_str(), components, 0, self.existing))
        }
    }

    /// Takes a probe into account: an existing component goes one deeper, a
    /// missing one ends the walk at what exists, and a failure fails the walk.
    pub fn probed(&mut self, probe: Probe) -> (r: WalkStep)
        requires
            old(self).wf(),
            old(self).depth() < old(self).target().len(),
        ensures
            final(self).wf(),
            final(self).base() == old(self).base(),
            final(self).target() == old(self).target(),
            match probe {
                Probe::Found => {
                    &&& final(self).depth() == old(self).depth() + 1
                    &&& if final(self).depth() < final(self).target().len() {
                        r is Probe && r->Probe_0@ == host_path(
                            final(self).base(),
                            final(self).target().take(final(self).depth() as int + 1),
                        )
                    } else {
                        r is Canonicalize && r->Canonicalize_0@ == host_path(
                            final(self).base(),
                            final(self).target(),
                        )
                    }
                },
                Probe::Missing => {
                    &&& final(self).depth() == old(self).depth()
                    &&& r is Canonicalize
                    &&& r->Canonicalize_0@ == host_path(
                        old(self).base(),
                        old(self).target().take(old(self).depth() as int),
                    )
                },
                Probe::Failed(error) => {
                    &&& final(self).depth() == old(self).depth()
                    &&& r == WalkStep::Fail(error)
                },
            },
            probe_answer(
                old(self).base(),
                old(self).target(),
                old(self).depth(),
                probe,
                final(self).depth(),
                r,
            ),
    {
        match probe {
            Probe::Found => {
                let components = self.relative.components();
                let count: usize = components.len();
                proof {
                    assert(text::views(components@).len() == count);
                }
                self.existing = self.existing + 1;
                self.next()
            },
            Probe::Missing => WalkStep::Canonicalize(
                extend(self.root.as_str(), self.relative.components(), 0, self.existing),
            ),
            Probe::Failed(error) => WalkStep::Fail(error),
        }
    }

    /// The host path the walk resolves to, once its deepest existing ancestor
    /// was canonicalized.
    pub fn resolved(&self, canonical: Result<String, FsError>) -> (r: Result<String, FsError>)
        requires
            self.wf(),
        ensures
            resolution(self.base(), self.target(), self.depth(), canonical, r),
    {
        resolve_host(self.root.as_str(), &self.relative, self.existing, canonical)
    }
}

/// Whether `result` is the resolution of a path below `root`, of which the
/// first `existing` components exist and have the canonical form `canonical`:
/// the remaining components under that form when it lies under the root, a
/// permission failure when it does not, and the failure to canonicalize
/// otherwise.
pub open spec fn resolution(
    root: Seq<char>,
    relative: Seq<Seq<char>>,
    existing: nat,
    canonical: Result<String, FsError>,
    result: Result<String, FsError>,
) -> bool {
    match canonical {
        Err(error) => result == Err::<String, FsError>(error),
        Ok(canonical) => if hostpath::is_under(canonical@, root) {
            result is Ok && result->Ok_0@ == host_path(
                canonical@,
                relative.skip(existing as int),
            )
        } else {
            result is Err && result->Err_0.kind == ErrorKind::PermissionDenied
                && result->Err_0.message@.len() == 0
        },
    }
}

/// Resolves a mount-relative virtual path to a host path under `root`,
/// refusing symlink escapes.
///
/// `existing` components of the path exist on the host, and `canonical` is the
/// canonical form of that deepest existing ancestor, which must remain under
/// the (already canonical) mount root.
pub fn resolve_host(
    root: &str,
    relative: &VPath,
    existing: usize,
    canonical: Result<String, FsError>,
) -> (r: Result<String, FsError>)
    requires
        existing <= relative@.len(),
    ensures
        resolution(root@, relative@, existing as nat, canonical, r),
{
    match canonical {
        Err(error) => Err(error),
        Ok(canonical) => {
            if !hostpath::starts_with(canonical.as_str(), root) {
                return Err(FsError::from_kind(ErrorKind::PermissionDenied));
            }
            let components = relative.components();
            proof {
                assert(text::views(components@).len() == components@.len());
                assert(relative@.subrange(existing as int, relative@.len() as int)
                    =~= relative@.skip(existing as int));
            }
            Ok(extend(canonical.as_str(), components, existing, components.len()))
        },
    }
}

/// The host path of the components from `from` up to `to` under `base`.
fn extend(base: &str, components: &[String], from: usize, to: usize) -> (r: String)
    requires
        from <= to <= components@.len(),
    ensures
        r@ == host_path(base@, text::views(components@).subrange(from as int, to as int)),
        from == 0 ==> r@ == host_path(base@, text::views(components@).take(to as int)),
{
    let ghost all = text::views(components@);
    let mut path = base.to_owned();
    let mut i: usize = from;
    while i < to
        invariant
            from <= i <= to <= components@.len(),
            all == text::views(components@),
            path@ == host_path(base@, all.subrange(from as int, i as int)),
        decreases to - i,
    {
        proof {
            let longer = all.subrange(from as int, i + 1);
            assert(longer.drop_last() =~= all.subrange(from as int, i as int));
            assert(longer.last() == components@[i as int]@);
        }
        path = hostpath::join(path.as_str(), components[i].as_str());
        i = i + 1;
    }
    proof {
        assert(all.subrange(0, to as int) =~= all.take(to as int));
    }
    path
}

/// A resolved path never leaves its mount root, whatever links the host holds.
pub proof fn resolution_stays_under_the_root(
    root: Seq<char>,
    relative: Seq<Seq<char>>,
    existing: nat,
    canonical: Result<String, FsError>,
    result: Result<String, FsError>,
)
    requires
        vpath::is_path(relative),
        existing <= relative.len(),
        resolution(root, relative, existing, canonical, result),
        result is Ok,
    ensures
        hostpath::is_under(result->Ok_0@, root),
{
    let base = canonical->Ok_0@;
    let rest = relative.skip(existing as int);
    assert forall|i: int| 0 <= i < rest.len() implies vpath::is_component(#[trigger] rest[i]) by {
        assert(rest[i] == relative[i + existing]);
    }
    lemma_host_path_components(base, rest);
    let whole = hostpath::components(result->Ok_0@);
    let prefix = hostpath::components(root);
    assert(hostpath::components(base).take(prefix.len() as int) == prefix);
    assert(whole.take(prefix.len() as int) =~= prefix);
}

/// An entry of a directory listing.
#[derive(Clone, Debug, PartialEq, Eq)]
pub struct DirEntry {
    /// The entry's name.
    pub name: String,
    /// Whether the entry is a directory.
    pub is_dir: bool,
}

impl DirEntry {
    /// The entry's name.
    pub fn name(&self) -> (r: &str)
        ensures
            r@ == self.name@,
    {
        self.name.as_str()
    }
}

/// The name of an entry and whether it is a directory.
pub open spec fn entry_view(entry: DirEntry) -> (Seq<char>, bool) {
    (entry.name@, entry.is_dir)
}

/// The names of the entries and whether each is a directory.
pub open spec fn entry_views(entries: Seq<DirEntry>) -> Seq<(Seq<char>, bool)> {
    Seq::new(entries.len(), |i: int| entry_view(entries[i]))
}

/// The entries of a directory that are not hidden themselves, in order.
pub open spec fn visible(
    refuse: Seq<Seq<char>>,
    hide: Seq<Seq<char>>,
    dir: Seq<Seq<char>>,
    entries: Seq<(Seq<char>, bool)>,
) -> Seq<(Seq<char>, bool)>
    decreases entries.len(),
{
    if entries.len() == 0 {
        Seq::empty()
    } else {
        let before = visible(refuse, hide, dir, entries.drop_last());
        if guard::own_access(refuse, hide, dir.push(entries.last().0)) == guard::Access::Hidden {
            before
        } else {
            before.push(entries.last())
        }
    }
}

/// The entries of a directory that a listing shows.
pub fn listing(guard: &PathGuard, dir: &VPath, entries: Vec<DirEntry>) -> (r: Vec<DirEntry>)
    requires
        forall|i: int|
            0 <= i < entries@.len() ==> vpath::is_component((#[trigger] entries@[i]).name@),
    ensures
        entry_views(r@) == visible(
            guard.refuse_patterns(),
            guard.hide_patterns(),
            dir@,
            entry_views(entries@),
        ),
{
    let ghost all = entry_views(entries@);
    let mut shown: Vec<DirEntry> = Vec::new();
    let mut i: usize = 0;
    proof {
        assert(entry_views(shown@) =~= Seq::<(Seq<char>, bool)>::empty());
    }
    while i < entries.len()
        invariant
            i <= entries@.len(),
            all == entry_views(entries@),
            forall|k: int|
                0 <= k < entries@.len() ==> vpath::is_component((#[trigger] entries@[k]).name@),
            entry_views(shown@) == visible(
                guard.refuse_patterns(),
                guard.hide_patterns(),
                dir@,
                all.take(i as int),
            ),
        decreases entries@.len() - i,
    {
        let entry = &entries[i];
        proof {
            assert(vpath::is_component(entries@[i as int].name@));
            assert(all.take(i + 1).drop_last() =~= all.take(i as int));
            assert(all.take(i + 1).last() == entry_view(entries@[i as int]));
        }
        let path = dir.join(entry.name.as_str());
        if !guard.access_no_ancestors(&path).is_hidden() {
            let ghost before = shown@;
            shown.push(DirEntry { name: entry.name.clone(), is_dir: entry.is_dir });
            proof {
                assert(entry_views(shown@) =~= entry_views(before).push(
                    entry_view(entries@[i as int]),
                ));
            }
        }
        i = i + 1;
    }
    proof {
        assert(all.take(i as int) =~= all);
    }
    shown
}

/// Whether a result is the answer to listing something: only a directory is listed.
pub open spec fn target_answer(is_dir: Result<bool, FsError>, r: Result<(), FsError>) -> bool {
    match is_dir {
        Ok(true) => r is Ok,
        Ok(false) => r is Err && r->Err_0.kind == ErrorKind::NotADirectory
            && r->Err_0.message@.len() == 0,
        Err(error) => r == Err::<(), FsError>(error),
    }
}

/// Whether a result is the answer to replacing something: a directory is not replaced.
pub open spec fn replacing(target_is_dir: bool, r: Result<(), FsError>) -> bool {
    if target_is_dir {
        r is Err && r->Err_0.kind == ErrorKind::IsADirectory && r->Err_0.message@.len() == 0
    } else {
        r is Ok
    }
}

/// Decides whether a listing target is a directory, from what was found of it.
pub fn check_listing_target(is_dir: Result<bool, FsError>) -> (r: Result<(), FsError>)
    ensures
        match is_dir {
            Ok(true) => r is Ok,
            Ok(false) => r is Err && r->Err_0.kind == ErrorKind::NotADirectory
                && r->Err_0.message@.len() == 0,
            Err(error) => r == Err::<(), FsError>(error),
        },
        target_answer(is_dir, r),
{
    match is_dir {
        Ok(is_dir) => {
            if is_dir {
                Ok(())
            } else {
                Err(FsError::from_kind(ErrorKind::NotADirectory))
            }
        },
        Err(error) => Err(error),
    }
}

/// Whether `result` refuses with the screening outcome of the path, or, for an
/// allowed path, with `kind`.
pub open spec fn refused_with(
    access: guard::Access,
    kind: ErrorKind,
    result: Result<(), FsError>,
) -> bool {
    &&& result is Err
    &&& result->Err_0.message@.len() == 0
    &&& match access {
        guard::Access::Allowed => result->Err_0.kind == kind,
        guard::Access::Refused => result->Err_0.kind == ErrorKind::PermissionDenied,
        guard::Access::Hidden => result->Err_0.kind == ErrorKind::NotFound,
    }
}

/// A host directory exposed read-only: writes through the sandbox are always
/// refused.
pub struct ReadOnlyMount {
    root: String,
    guard: PathGuard,
}

impl ReadOnlyMount {
    /// The host directory.
    pub closed spec fn base(&self) -> Seq<char> {
        self.root@
    }

    /// The patterns of paths that are refused.
    pub closed spec fn refuse_patterns(&self) -> Seq<Seq<char>> {
        self.guard.refuse_patterns()
    }

    /// The patterns of paths that are hidden.
    pub closed spec fn hide_patterns(&self) -> Seq<Seq<char>> {
        self.guard.hide_patterns()
    }

    /// The screening of a path.
    pub open spec fn screening(&self, path: Seq<Seq<char>>) -> guard::Access {
        guard::full_access(self.refuse_patterns(), self.hide_patterns(), path)
    }

    /// Whether a listing shows exactly the entries that are not hidden.
    pub open spec fn lists(
        &self,
        dir: Seq<Seq<char>>,
        entries: Seq<DirEntry>,
        shown: Seq<DirEntry>,
    ) -> bool {
        entry_views(shown) == visible(
            self.refuse_patterns(),
            self.hide_patterns(),
            dir,
            entry_views(entries),
        )
    }

    /// Creates the mount over an existing, canonical host directory.
    pub fn new(root: String, guard: PathGuard) -> (r: ReadOnlyMount)
        ensures
            r.base() == root@,
            r.refuse_patterns() == guard.refuse_patterns(),
            r.hide_patterns() == guard.hide_patterns(),
    {
        ReadOnlyMount { root, guard }
    }

    /// The host directory.
    pub fn root(&self) -> (r: &str)
        ensures
            r@ == self.base(),
    {
        self.root.as_str()
    }

    /// Whether a path may be read, listed, or inspected.
    pub fn check(&self, path: &VPath) -> (r: Result<(), FsError>)
        ensures
            guard::access_result(self.screening(path@), r),
    {
        guard::check_access(&self.guard, path)
    }

    /// The entries of a directory that a listing shows.
    pub fn listing(&self, dir: &VPath, entries: Vec<DirEntry>) -> (r: Vec<DirEntry>)
        requires
            forall|i: int|
                0 <= i < entries@.len() ==> vpath::is_component((#[trigger] entries@[i]).name@),
        ensures
            self.lists(dir@, entries@, r@),
    {
        listing(&self.guard, dir, entries)
    }

    /// A write is refused.
    pub fn write(&self, path: &VPath, _data: &[u8]) -> (r: Result<(), FsError>)
        ensures
            refused_with(self.screening(path@), ErrorKind::PermissionDenied, r),
    {
        self.refuse(path)
    }

    /// Making a directory is refused.
    pub fn mkdir(&self, path: &VPath) -> (r: Result<(), FsError>)
        ensures
            refused_with(self.screening(path@), ErrorKind::PermissionDenied, r),
    {
        self.refuse(path)
    }

    /// Removing is refused.
    pub fn remove(&self, path: &VPath) -> (r: Result<(), FsError>)
        ensures
            refused_with(self.screening(path@), ErrorKind::PermissionDenied, r),
    {
        self.refuse(path)
    }

    /// Renaming is refused; both paths are screened, the source first.
    pub fn rename(&self, from: &VPath, to: &VPath) -> (r: Result<(), FsError>)
        ensures
            if self.screening(from@) == guard::Access::Allowed {
                refused_with(self.screening(to@), ErrorKind::PermissionDenied, r)
            } else {
                refused_with(self.screening(from@), ErrorKind::PermissionDenied, r)
            },
    {
        match self.check(from) {
            Err(error) => Err(error),
            Ok(()) => self.refuse(to),
        }
    }

    fn refuse(&self, path: &VPath) -> (r: Result<(), FsError>)
        ensures
            refused_with(self.screening(path@), ErrorKind::PermissionDenied, r),
    {
        match self.check(path) {
            Err(error) => Err(error),
            Ok(()) => Err(FsError::from_kind(ErrorKind::PermissionDenied)),
        }
    }
}

/// How a path is removed from the host.
#[derive(Clone, Copy, Debug, PartialEq, Eq, Structural)]
pub enum Removal {
    /// As a file.
    File,
    /// As an empty directory.
    Dir,
}

/// A host directory exposed read-write: the only write path to the host.
///
/// The byte budget counts the bytes written through the mount cumulatively;
/// files that already existed on the host before the mount are unknown to it.
pub struct ReadWriteMount {
    root: String,
    guard: PathGuard,
    budget: ByteBudget,
}

/// Whether a result is the answer to a change of a path that the root is spared from.
pub open spec fn change_answer(
    access: guard::Access,
    path: Seq<Seq<char>>,
    kind: ErrorKind,
    r: Result<(), FsError>,
) -> bool {
    if access == guard::Access::Allowed && path.len() > 0 {
        r is Ok
    } else {
        refused_with(access, kind, r)
    }
}

/// Whether a result is the answer to a rename.
pub open spec fn rename_answer(
    from_access: guard::Access,
    to_access: guard::Access,
    from: Seq<Seq<char>>,
    to: Seq<Seq<char>>,
    r: Result<(), FsError>,
) -> bool {
    if from_access != guard::Access::Allowed {
        guard::access_result(from_access, r)
    } else if to_access != guard::Access::Allowed {
        guard::access_result(to_access, r)
    } else if from.len() == 0 || to.len() == 0 {
        r is Err && r->Err_0.kind == ErrorKind::InvalidInput && r->Err_0.message@.len() == 0
    } else {
        r is Ok
    }
}

/// Whether a result is the answer to a write that may go on to `host`: its parent is a
/// directory, its path resolved, and its bytes are within the caps.
pub open spec fn admission<T>(
    before: ByteBudget,
    parent_is_dir: bool,
    host: Result<T, FsError>,
    len: u64,
    r: Result<T, FsError>,
) -> bool {
    if !parent_is_dir {
        r is Err && r->Err_0.kind == ErrorKind::NotFound && r->Err_0.message@.len() == 0
    } else if host is Err {
        r == host
    } else if before.over_file_cap(len) {
        r is Err && r->Err_0.kind == ErrorKind::FileTooLarge && r->Err_0.message@
            == guard::cap_message(len, before.file_cap()->0, "file"@)
    } else if before.over_total_cap(len) {
        r is Err && r->Err_0.kind == ErrorKind::StorageFull && r->Err_0.message@
            == guard::cap_message(len, before.total_cap()->0, "total"@)
    } else {
        r == host
    }
}

/// Whether a result is the answer to a write that is about to begin: the directory
/// that must exist for it.
pub open spec fn begin_answer(
    access: guard::Access,
    path: Seq<Seq<char>>,
    r: Result<VPath, FsError>,
) -> bool {
    match r {
        Ok(parent) => access == guard::Access::Allowed && path.len() > 0 && parent@
            == path.drop_last(),
        Err(error) => refused_with(access, ErrorKind::IsADirectory, Err::<(), FsError>(error)) && (
        access == guard::Access::Allowed ==> path.len() == 0),
    }
}

/// The bytes reserved once a write was settled.
pub open spec fn settled(reserved: u64, written: bool, len: u64) -> int {
    if written {
        reserved as int
    } else {
        guard::used_after_release(reserved, len)
    }
}

impl ReadWriteMount {
    /// The host directory.
    pub closed spec fn base(&self) -> Seq<char> {
        self.root@
    }

    /// The patterns of paths that are refused.
    pub closed spec fn refuse_patterns(&self) -> Seq<Seq<char>> {
        self.guard.refuse_patterns()
    }

    /// The patterns of paths that are hidden.
    pub closed spec fn hide_patterns(&self) -> Seq<Seq<char>> {
        self.guard.hide_patterns()
    }

    /// The screening of a path.
    pub open spec fn screening(&self, path: Seq<Seq<char>>) -> guard::Access {
        guard::full_access(self.refuse_patterns(), self.hide_patterns(), path)
    }

    /// Whether a listing shows exactly the entries that are not hidden.
    pub open spec fn lists(
        &self,
        dir: Seq<Seq<char>>,
        entries: Seq<DirEntry>,
        shown: Seq<DirEntry>,
    ) -> bool {
        entry_views(shown) == visible(
            self.refuse_patterns(),
            self.hide_patterns(),
            dir,
            entry_views(entries),
        )
    }

    /// The byte budget of the mount.
    pub closed spec fn bytes(&self) -> ByteBudget {
        self.budget
    }

    /// Creates the mount over an existing, canonical host directory.
    pub fn new(root: String, guard: PathGuard, budget: ByteBudget) -> (r: ReadWriteMount)
        ensures
            r.base() == root@,
            r.bytes() == budget,
            r.refuse_patterns() == guard.refuse_patterns(),
            r.hide_patterns() == guard.hide_patterns(),
    {
        ReadWriteMount { root, guard, budget }
    }

    /// The host directory.
    pub fn root(&self) -> (r: &str)
        ensures
            r@ == self.base(),
    {
        self.root.as_str()
    }

    /// Whether a path may be read, listed, or inspected.
    pub fn check(&self, path: &VPath) -> (r: Result<(), FsError>)
        ensures
            guard::access_result(self.screening(path@), r),
    {
        guard::check_access(&self.guard, path)
    }

    /// The entries of a directory that a listing shows.
    pub fn listing(&self, dir: &VPath, entries: Vec<DirEntry>) -> (r: Vec<DirEntry>)
        requires
            forall|i: int|
                0 <= i < entries@.len() ==> vpath::is_component((#[trigger] entries@[i]).name@),
        ensures
            self.lists(dir@, entries@, r@),
    {
        listing(&self.guard, dir, entries)
    }

    /// Whether a write may begin, and the directory that must exist for it:
    /// the path is screened, and the root is no file.
    pub fn begin_write(&self, path: &VPath) -> (r: Result<VPath, FsError>)
        ensures
            match r {
                Ok(parent) => {
                    &&& self.screening(path@) == guard::Access::Allowed
                    &&& path@.len() > 0
                    &&& parent@ == path@.drop_last()
                },
                Err(error) => refused_with(
                    self.screening(path@),
                    ErrorKind::IsADirectory,
                    Err::<(), FsError>(error),
                ) && (self.screening(path@) == guard::Access::Allowed ==> path@.len() == 0),
            },
            begin_answer(self.screening(path@), path@, r),
    {
        match self.check(path) {
            Err(error) => Err(error),
            Ok(()) => {
                if path.is_root() {
                    return Err(FsError::from_kind(ErrorKind::IsADirectory));
                }
                Ok(path.parent_or_root())
            },
        }
    }

    /// Whether a write of `len` bytes may go on to `host`, once its parent directory
    /// was looked up and its path resolved: the parent must be a directory, the path
    /// must have resolved, and then the bytes are reserved.
    pub fn admit_write<T>(
        &mut self,
        parent_is_dir: bool,
        host: Result<T, FsError>,
        len: u64,
    ) -> (r: Result<T, FsError>)
        ensures
            final(self).base() == old(self).base(),
            final(self).refuse_patterns() == old(self).refuse_patterns(),
            final(self).hide_patterns() == old(self).hide_patterns(),
            final(self).bytes().file_cap() == old(self).bytes().file_cap(),
            final(self).bytes().total_cap() == old(self).bytes().total_cap(),
            match r {
                Ok(target) => {
                    &&& parent_is_dir
                    &&& host == Ok::<T, FsError>(target)
                    &&& !old(self).bytes().over_file_cap(len)
                    &&& !old(self).bytes().over_total_cap(len)
                    &&& final(self).bytes().reserved() == guard::used_after_reserve(
                        old(self).bytes().total_cap(),
                        old(self).bytes().reserved(),
                        len,
                    )
                },
                Err(error) => {
                    &&& final(self).bytes().reserved() == old(self).bytes().reserved()
                    &&& if !parent_is_dir {
                        error.kind == ErrorKind::NotFound && error.message@.len() == 0
                    } else if host is Err {
                        error == host->Err_0
                    } else if old(self).bytes().over_file_cap(len) {
                        error.kind == ErrorKind::FileTooLarge && error.message@
                            == guard::cap_message(len, old(self).bytes().file_cap()->0, "file"@)
                    } else {
                        old(self).bytes().over_total_cap(len) && error.kind
                            == ErrorKind::StorageFull && error.message@ == guard::cap_message(
                            len,
                            old(self).bytes().total_cap()->0,
                            "total"@,
                        )
                    }
                },
            },
            admission(old(self).bytes(), parent_is_dir, host, len, r),
    {
        if !parent_is_dir {
            return Err(FsError::from_kind(ErrorKind::NotFound));
        }
        match host {
            Err(error) => Err(error),
            Ok(target) => match self.budget.reserve(len) {
                Ok(()) => Ok(target),
                Err(error) => Err(error),
            },
        }
    }

    /// Settles a write of `len` reserved bytes: a failed one returns them.
    pub fn settle_write(&mut self, written: bool, len: u64)
        ensures
            final(self).base() == old(self).base(),
            final(self).refuse_patterns() == old(self).refuse_patterns(),
            final(self).hide_patterns() == old(self).hide_patterns(),
            final(self).bytes().file_cap() == old(self).bytes().file_cap(),
            final(self).bytes().total_cap() == old(self).bytes().total_cap(),
            final(self).bytes().reserved() == if written {
                old(self).bytes().reserved() as int
            } else {
                guard::used_after_release(old(self).bytes().reserved(), len)
            },
            final(self).bytes().reserved() == settled(old(self).bytes().reserved(), written, len),
    {
        if !written {
            self.budget.release(len);
        }
    }

    /// Whether a directory may be made: the root exists already.
    pub fn mkdir(&self, path: &VPath) -> (r: Result<(), FsError>)
        ensures
            if self.screening(path@) == guard::Access::Allowed && path@.len() > 0 {
                r is Ok
            } else {
                refused_with(self.screening(path@), ErrorKind::AlreadyExists, r)
            },
            change_answer(self.screening(path@), path@, ErrorKind::AlreadyExists, r),
    {
        self.refuse_root(path, ErrorKind::AlreadyExists)
    }

    /// Whether a path may be removed: the root may not.
    pub fn remove(&self, path: &VPath) -> (r: Result<(), FsError>)
        ensures
            if self.screening(path@) == guard::Access::Allowed && path@.len() > 0 {
                r is Ok
            } else {
                refused_with(self.screening(path@), ErrorKind::PermissionDenied, r)
            },
            change_answer(self.screening(path@), path@, ErrorKind::PermissionDenied, r),
    {
        self.refuse_root(path, ErrorKind::PermissionDenied)
    }

    /// How a path is removed, from whether it was found to be a file.
    pub fn removal(is_file: bool) -> (r: Removal)
        ensures
            r == if is_file {
                Removal::File
            } else {
                Removal::Dir
            },
    {
        if is_file {
            Removal::File
        } else {
            Removal::Dir
        }
    }

    /// Whether a path may be renamed: both paths are screened, the source
    /// first, and neither may be the root.
    pub fn rename(&self, from: &VPath, to: &VPath) -> (r: Result<(), FsError>)
        ensures
            if self.screening(from@) != guard::Access::Allowed {
                guard::access_result(self.screening(from@), r)
            } else if self.screening(to@) != guard::Access::Allowed {
                guard::access_result(self.screening(to@), r)
            } else if from@.len() == 0 || to@.len() == 0 {
                r is Err && r->Err_0.kind == ErrorKind::InvalidInput && r->Err_0.message@.len()
                    == 0
            } else {
                r is Ok
            },
            rename_answer(self.screening(from@), self.screening(to@), from@, to@, r),
    {
        match self.check(from) {
            Err(error) => return Err(error),
            Ok(()) => {},
        }
        match self.check(to) {
            Err(error) => return Err(error),
            Ok(()) => {},
        }
        if from.is_root() || to.is_root() {
            return Err(FsError::from_kind(ErrorKind::InvalidInput));
        }
        Ok(())
    }

    /// Whether a rename may replace its target: a directory may not be
    /// replaced.
    pub fn rename_target(target_is_dir: bool) -> (r: Result<(), FsError>)
        ensures
            if target_is_dir {
                r is Err && r->Err_0.kind == ErrorKind::IsADirectory && r->Err_0.message@.len()
                    == 0
            } else {
                r is Ok
            },
            replacing(target_is_dir, r),
    {
        if target_is_dir {
            return Err(FsError::from_kind(ErrorKind::IsADirectory));
        }
        Ok(())
    }

    fn refuse_root(&self, path: &VPath, kind: ErrorKind) -> (r: Result<(), FsError>)
        ensures
            if self.screening(path@) == guard::Access::Allowed && path@.len() > 0 {
                r is Ok
            } else {
                refused_with(self.screening(path@), kind, r)
            },
    {
        match self.check(path) {
            Err(error) => return Err(error),
            Ok(()) => {},
        }
        if path.is_root() {
            return Err(FsError::from_kind(kind));
        }
        Ok(())
    }
}

/// A listing shows an entry exactly when the directory holds it and it is not
/// hidden.
pub proof fn listings_show_what_is_not_hidden(
    refuse: Seq<Seq<char>>,
    hide: Seq<Seq<char>>,
    dir: Seq<Seq<char>>,
    entries: Seq<(Seq<char>, bool)>,
    entry: (Seq<char>, bool),
)
    ensures
        visible(refuse, hide, dir, entries).contains(entry) <==> entries.contains(entry)
            && guard::own_access(refuse, hide, dir.push(entry.0)) != guard::Access::Hidden,
    decreases entries.len(),
{
    if entries.len() > 0 {
        let fewer = entries.drop_last();
        listings_show_what_is_not_hidden(refuse, hide, dir, fewer, entry);
        let before = visible(refuse, hide, dir, fewer);
        let shown = visible(refuse, hide, dir, entries);
        assert(entries =~= fewer.push(entries.last()));
        if before.contains(entry) {
            let k = choose|k: int| 0 <= k < before.len() && before[k] == entry;
            assert(shown[k] == entry);
        }
        if fewer.contains(entry) {
            let k = choose|k: int| 0 <= k < fewer.len() && fewer[k] == entry;
            assert(entries[k] == entry);
        }
        if entries.last() == entry && !(guard::own_access(refuse, hide, dir.push(entry.0))
            == guard::Access::Hidden) {
            assert(shown[shown.len() - 1] == entry);
        }
        if entries.contains(entry) {
            let k = choose|k: int| 0 <= k < entries.len() && entries[k] == entry;
            if k < fewer.len() {
                assert(fewer[k] == entry);
            }
        }
        if shown.contains(entry) {
            let k = choose|k: int| 0 <= k < shown.len() && shown[k] == entry;
            if k < before.len() {
                assert(before[k] == entry);
            } else {
                assert(entries[entries.len() - 1] == entry);
            }
        }
    }
}

} // verus!
