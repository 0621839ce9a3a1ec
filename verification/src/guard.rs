//! Shared path screening (refuse/hide globs) and byte accounting.

use crate::error::{ErrorKind, FsError, SandboxError};
use crate::policy::{self, Pattern};
use crate::text;
use crate::vpath::{self, VPath};
use vstd::prelude::*;

verus! {

broadcast use vstd::string::group_string_axioms;

/// `globset::Glob`, a parsed glob pattern.
#[verifier::external_type_specification]
#[verifier::external_body]
pub struct ExGlob(globset::Glob);

/// `globset::GlobSet`, a compiled list of glob patterns.
#[verifier::external_type_specification]
#[verifier::external_body]
pub struct ExGlobSet(globset::GlobSet);

/// The pattern text a parsed glob was built from.
pub uninterp spec fn glob_pattern(glob: globset::Glob) -> Seq<char>;

/// The message with which `globset::GlobBuilder::build` rejects a pattern, or
/// `None` for a pattern it accepts.
pub uninterp spec fn glob_error(pattern: Seq<char>) -> Option<Seq<char>>;

/// The message with which `globset::GlobSet::new` rejects a list of patterns,
/// or `None` for a list it accepts.
pub uninterp spec fn glob_set_error(patterns: Seq<Seq<char>>) -> Option<Seq<char>>;

/// The patterns a compiled set was built from.
pub uninterp spec fn glob_set_patterns(set: globset::GlobSet) -> Seq<Seq<char>>;

/// Whether the glob `pattern` matches `candidate`.
pub uninterp spec fn glob_matches(pattern: Seq<char>, candidate: Seq<char>) -> bool;

/// `globset::GlobBuilder::build` with the default options: a pattern is parsed
/// into a glob that keeps its text, or rejected with a message; which of the
/// two, and the message, depend on the pattern alone.
#[verifier::external_body]
fn build_glob(pattern: &str) -> (r: Result<globset::Glob, String>)
    ensures
        match r {
            Ok(glob) => glob_error(pattern@) is None && glob_pattern(glob) == pattern@,
            Err(message) => glob_error(pattern@) == Some(message@),
        },
{
    globset::GlobBuilder::new(pattern).build().map_err(|error| error.to_string())
}

/// The pattern texts of a list of globs.
pub open spec fn glob_patterns(globs: Seq<globset::Glob>) -> Seq<Seq<char>> {
    Seq::new(globs.len(), |i: int| glob_pattern(globs[i]))
}

/// `globset::GlobSet::new`: the globs are compiled into one set that keeps
/// their patterns, or rejected with a message; which of the two, and the
/// message, depend on the patterns alone.
#[verifier::external_body]
fn build_glob_set(globs: &Vec<globset::Glob>) -> (r: Result<globset::GlobSet, String>)
    ensures
        match r {
            Ok(set) => glob_set_error(glob_patterns(globs@)) is None && glob_set_patterns(set)
                == glob_patterns(globs@),
            Err(message) => glob_set_error(glob_patterns(globs@)) == Some(message@),
        },
{
    globset::GlobSet::new(globs).map_err(|error| error.to_string())
}

/// `globset::GlobSet::is_match`: whether any glob of the set matches the
/// candidate.
#[verifier::external_body]
fn set_matches(set: &globset::GlobSet, candidate: &str) -> (r: bool)
    ensures
        r == (exists|i: int|
            0 <= i < glob_set_patterns(*set).len() && glob_matches(
                #[trigger] glob_set_patterns(*set)[i],
                candidate@,
            )),
{
    set.is_match(candidate)
}

/// Whether some pattern of the list matches `candidate`.
pub open spec fn any_glob_matches(patterns: Seq<Seq<char>>, candidate: Seq<char>) -> bool {
    exists|i: int| 0 <= i < patterns.len() && glob_matches(#[trigger] patterns[i], candidate)
}

/// The message for the first pattern that is not a glob, if there is one.
pub open spec fn first_glob_error(patterns: Seq<Seq<char>>) -> Option<Seq<char>>
    decreases patterns.len(),
{
    if patterns.len() == 0 {
        None
    } else {
        match glob_error(patterns[0]) {
            Some(message) => Some(
                "invalid glob "@ + text::debug_quoted(patterns[0]) + ": "@ + message,
            ),
            None => first_glob_error(patterns.skip(1)),
        }
    }
}

/// Why a list of patterns is not usable, if it is not: the first pattern that
/// is not a glob, or the failure to compile them together.
pub open spec fn globs_error(patterns: Seq<Seq<char>>) -> Option<Seq<char>> {
    match first_glob_error(patterns) {
        Some(message) => Some(message),
        None => match glob_set_error(patterns) {
            Some(message) => Some("globs failed to compile: "@ + message),
            None => None,
        },
    }
}

/// The outcome of screening a path against the refuse and hide globs.
#[derive(Clone, Copy, Debug, PartialEq, Eq, Structural)]
pub enum Access {
    /// The path is neither refused nor hidden.
    Allowed,
    /// A refuse glob matched: access is denied.
    Refused,
    /// A hide glob matched: the path appears absent.
    Hidden,
}

impl Access {
    /// The error a non-allowed path produces: refused is a permission failure,
    /// hidden is absence.
    pub fn to_error(self) -> (r: FsError)
        ensures
            r.kind == match self {
                Access::Allowed => ErrorKind::NotFound,
                Access::Hidden => ErrorKind::NotFound,
                Access::Refused => ErrorKind::PermissionDenied,
            },
            r.message@ == Seq::<char>::empty(),
    {
        match self {
            Access::Allowed => FsError::from_kind(ErrorKind::NotFound),
            Access::Hidden => FsError::from_kind(ErrorKind::NotFound),
            Access::Refused => FsError::from_kind(ErrorKind::PermissionDenied),
        }
    }

    /// Whether the path should be skipped in directory listings.
    pub fn is_hidden(self) -> (r: bool)
        ensures
            r == (self == Access::Hidden),
    {
        match self {
            Access::Hidden => true,
            _ => false,
        }
    }
}

/// The strings a glob may match for a path: the path itself and every suffix
/// starting after a separator.
pub open spec fn candidates(path: Seq<Seq<char>>) -> Seq<Seq<char>> {
    seq![vpath::written(path)] + Seq::new(
        path.len(),
        |skip: int| text::join(path.skip(skip), '/'),
    )
}

/// Whether some pattern matches some candidate string of the path.
pub open spec fn screened_by(patterns: Seq<Seq<char>>, path: Seq<Seq<char>>) -> bool {
    exists|i: int|
        0 <= i < candidates(path).len() && any_glob_matches(
            patterns,
            #[trigger] candidates(path)[i],
        )
}

/// The path followed by its ancestors, nearest first, without the root.
pub open spec fn chain_of(path: Seq<Seq<char>>) -> Seq<Seq<Seq<char>>> {
    seq![path] + vpath::ancestors_of(path)
}

/// Whether some path of the chain is screened by the patterns.
pub open spec fn chain_screened(patterns: Seq<Seq<char>>, chain: Seq<Seq<Seq<char>>>) -> bool {
    exists|i: int| 0 <= i < chain.len() && screened_by(patterns, #[trigger] chain[i])
}

/// The access to a single path, without its ancestors: refusing wins over
/// hiding.
pub open spec fn own_access(
    refuse: Seq<Seq<char>>,
    hide: Seq<Seq<char>>,
    path: Seq<Seq<char>>,
) -> Access {
    if screened_by(refuse, path) {
        Access::Refused
    } else if screened_by(hide, path) {
        Access::Hidden
    } else {
        Access::Allowed
    }
}

/// Whether one of the accesses is `wanted`.
pub open spec fn includes(accesses: Seq<Access>, wanted: Access) -> bool {
    exists|i: int| 0 <= i < accesses.len() && #[trigger] accesses[i] == wanted
}

/// The access of a chain of paths from the access of each: a refusal anywhere
/// wins, and otherwise hiding anywhere hides.
pub open spec fn combined(accesses: Seq<Access>) -> Access {
    if includes(accesses, Access::Refused) {
        Access::Refused
    } else if includes(accesses, Access::Hidden) {
        Access::Hidden
    } else {
        Access::Allowed
    }
}

/// The access of each path of a chain.
pub open spec fn chain_accesses(
    refuse: Seq<Seq<char>>,
    hide: Seq<Seq<char>>,
    chain: Seq<Seq<Seq<char>>>,
) -> Seq<Access> {
    Seq::new(chain.len(), |i: int| own_access(refuse, hide, chain[i]))
}

/// The access to a path and its ancestors together.
pub open spec fn full_access(
    refuse: Seq<Seq<char>>,
    hide: Seq<Seq<char>>,
    path: Seq<Seq<char>>,
) -> Access {
    combined(chain_accesses(refuse, hide, chain_of(path)))
}

/// A path that a refuse glob matches is refused, whatever hides it; so is
/// everything beneath it.
pub proof fn deny_wins_over_hide(
    refuse: Seq<Seq<char>>,
    hide: Seq<Seq<char>>,
    path: Seq<Seq<char>>,
    screened: Seq<Seq<char>>,
)
    requires
        screened == path || (vpath::is_prefix(path, screened) && screened.len() > 0),
        screened_by(refuse, screened),
    ensures
        full_access(refuse, hide, path) == Access::Refused,
{
    let i = lemma_in_chain(path, screened);
    assert(chain_accesses(refuse, hide, chain_of(path))[i] == Access::Refused);
}

/// Hiding a path hides everything beneath it, unless something along the way
/// is refused.
pub proof fn hiding_reaches_descendants(
    refuse: Seq<Seq<char>>,
    hide: Seq<Seq<char>>,
    path: Seq<Seq<char>>,
    screened: Seq<Seq<char>>,
)
    requires
        screened == path || (vpath::is_prefix(path, screened) && screened.len() > 0),
        screened_by(hide, screened),
    ensures
        full_access(refuse, hide, path) != Access::Allowed,
        !chain_screened(refuse, chain_of(path)) ==> full_access(refuse, hide, path)
            == Access::Hidden,
{
    let i = lemma_in_chain(path, screened);
    let accesses = chain_accesses(refuse, hide, chain_of(path));
    assert(accesses[i] == Access::Refused || accesses[i] == Access::Hidden);
    if includes(accesses, Access::Refused) {
        let k = choose|k: int| 0 <= k < accesses.len() && #[trigger] accesses[k] == Access::Refused;
        assert(screened_by(refuse, chain_of(path)[k]));
    }
}

/// A guard without patterns allows every path.
pub proof fn no_patterns_allow_everything(path: Seq<Seq<char>>)
    ensures
        full_access(Seq::empty(), Seq::empty(), path) == Access::Allowed,
{
    let accesses = chain_accesses(Seq::empty(), Seq::empty(), chain_of(path));
    assert forall|i: int| 0 <= i < accesses.len() implies #[trigger] accesses[i]
        == Access::Allowed by {}
}

proof fn lemma_in_chain(path: Seq<Seq<char>>, screened: Seq<Seq<char>>) -> (i: int)
    requires
        screened == path || (vpath::is_prefix(path, screened) && screened.len() > 0),
    ensures
        0 <= i < chain_of(path).len(),
        chain_of(path)[i] == screened,
{
    if screened.len() == path.len() {
        assert(path.take(path.len() as int) =~= path);
        0
    } else {
        vpath::ancestors_are_the_proper_prefixes(path, screened);
        let ancestors = vpath::ancestors_of(path);
        let k = choose|k: int| 0 <= k < ancestors.len() && ancestors[k] == screened;
        assert(chain_of(path)[k + 1] == ancestors[k]);
        k + 1
    }
}

/// Decides the access of a chain from the access of each of its paths.
pub fn combine(accesses: &Vec<Access>) -> (r: Access)
    ensures
        r == combined(accesses@),
{
    let mut hidden = false;
    let mut i: usize = 0;
    while i < accesses.len()
        invariant
            i <= accesses@.len(),
            forall|k: int| 0 <= k < i ==> #[trigger] accesses@[k] != Access::Refused,
            hidden == exists|k: int| 0 <= k < i && #[trigger] accesses@[k] == Access::Hidden,
        decreases accesses@.len() - i,
    {
        match accesses[i] {
            Access::Refused => {
                assert(accesses@[i as int] == Access::Refused);
                return Access::Refused;
            },
            Access::Hidden => {
                assert(accesses@[i as int] == Access::Hidden);
                hidden = true;
            },
            Access::Allowed => {},
        }
        i = i + 1;
    }
    if hidden {
        Access::Hidden
    } else {
        Access::Allowed
    }
}

/// Checks a screened path, turning the outcome into a result.
pub fn check_access(guard: &PathGuard, path: &VPath) -> (r: Result<(), FsError>)
    ensures
        access_result(full_access(guard.refuse_patterns(), guard.hide_patterns(), path@), r),
{
    access_to_result(guard.access(path))
}

/// Whether `result` is what a screened path answers: success when it is
/// allowed, a permission failure when it is refused, and absence when it is
/// hidden.
pub open spec fn access_result(access: Access, result: Result<(), FsError>) -> bool {
    match access {
        Access::Allowed => result is Ok,
        Access::Refused => result is Err && result->Err_0.kind == ErrorKind::PermissionDenied
            && result->Err_0.message@.len() == 0,
        Access::Hidden => result is Err && result->Err_0.kind == ErrorKind::NotFound
            && result->Err_0.message@.len() == 0,
    }
}

/// The result a screening outcome stands for.
pub fn access_to_result(access: Access) -> (r: Result<(), FsError>)
    ensures
        access_result(access, r),
{
    match access {
        Access::Allowed => Ok(()),
        Access::Refused => Err(access.to_error()),
        Access::Hidden => Err(access.to_error()),
    }
}

/// The compiled refuse and hide globs of a policy.
pub struct PathGuard {
    refuse: globset::GlobSet,
    hide: globset::GlobSet,
}

impl PathGuard {
    /// The refuse patterns the guard was compiled from.
    pub closed spec fn refuse_patterns(&self) -> Seq<Seq<char>> {
        glob_set_patterns(self.refuse)
    }

    /// The hide patterns the guard was compiled from.
    pub closed spec fn hide_patterns(&self) -> Seq<Seq<char>> {
        glob_set_patterns(self.hide)
    }

    /// Compiles the globs.
    ///
    /// Invalid patterns fail closed with [`SandboxError::InvalidPolicy`]; the
    /// refuse patterns are compiled first.
    pub fn compile(refuse: &[Pattern], hide: &[Pattern]) -> (r: Result<PathGuard, SandboxError>)
        ensures
            match r {
                Ok(guard) => {
                    &&& globs_error(policy::pattern_views(refuse@)) is None
                    &&& globs_error(policy::pattern_views(hide@)) is None
                    &&& guard.refuse_patterns() == policy::pattern_views(refuse@)
                    &&& guard.hide_patterns() == policy::pattern_views(hide@)
                },
                Err(SandboxError::InvalidPolicy(message)) => {
                    match globs_error(policy::pattern_views(refuse@)) {
                        Some(text) => message@ == text,
                        None => globs_error(policy::pattern_views(hide@)) == Some(message@),
                    }
                },
                Err(_) => false,
            },
    {
        let refuse_set = match compile_globset(refuse) {
            Ok(set) => set,
            Err(message) => return Err(SandboxError::InvalidPolicy(message)),
        };
        let hide_set = match compile_globset(hide) {
            Ok(set) => set,
            Err(message) => return Err(SandboxError::InvalidPolicy(message)),
        };
        Ok(PathGuard { refuse: refuse_set, hide: hide_set })
    }

    /// Screens a path, including its ancestors: deny wins over hide, and
    /// hiding (or refusing) an ancestor hides everything beneath it.
    pub fn access(&self, path: &VPath) -> (r: Access)
        ensures
            r == full_access(self.refuse_patterns(), self.hide_patterns(), path@),
    {
        let ancestors = path.ancestors();
        let mut accesses: Vec<Access> = Vec::new();
        accesses.push(self.access_no_ancestors(path));
        let mut i: usize = 0;
        while i < ancestors.len()
            invariant
                i <= ancestors@.len(),
                vpath::path_views(ancestors@) == vpath::ancestors_of(path@),
                accesses@ == chain_accesses(
                    self.refuse_patterns(),
                    self.hide_patterns(),
                    chain_of(path@).take(i + 1),
                ),
            decreases ancestors@.len() - i,
        {
            proof {
                assert(vpath::path_views(ancestors@)[i as int] == ancestors@[i as int]@);
                assert(chain_of(path@)[i + 1] == ancestors@[i as int]@);
            }
            accesses.push(self.access_no_ancestors(&ancestors[i]));
            i = i + 1;
            proof {
                assert(accesses@ =~= chain_accesses(
                    self.refuse_patterns(),
                    self.hide_patterns(),
                    chain_of(path@).take(i + 1),
                ));
            }
        }
        proof {
            assert(vpath::path_views(ancestors@).len() == ancestors@.len());
            assert(chain_of(path@).take(i + 1) =~= chain_of(path@));
        }
        combine(&accesses)
    }

    /// Screens only the path itself, without its ancestors.
    pub fn access_no_ancestors(&self, path: &VPath) -> (r: Access)
        ensures
            r == own_access(self.refuse_patterns(), self.hide_patterns(), path@),
    {
        let strings = path_candidates(path);
        if any_candidate_matches(&self.refuse, &strings) {
            proof {
                lemma_screened(self.refuse_patterns(), path@, text::views(strings@));
            }
            Access::Refused
        } else if any_candidate_matches(&self.hide, &strings) {
            Access::Hidden
        } else {
            Access::Allowed
        }
    }
}

proof fn lemma_screened(
    patterns: Seq<Seq<char>>,
    path: Seq<Seq<char>>,
    strings: Seq<Seq<char>>,
)
    requires
        strings == candidates(path),
    ensures
        screened_by(patterns, path) == exists|i: int|
            0 <= i < strings.len() && any_glob_matches(patterns, #[trigger] strings[i]),
{
}

/// Whether the set matches one of the strings.
fn any_candidate_matches(set: &globset::GlobSet, strings: &Vec<String>) -> (r: bool)
    ensures
        r == exists|i: int|
            0 <= i < text::views(strings@).len() && any_glob_matches(
                glob_set_patterns(*set),
                #[trigger] text::views(strings@)[i],
            ),
{
    let mut i: usize = 0;
    while i < strings.len()
        invariant
            i <= strings@.len(),
            forall|k: int|
                0 <= k < i ==> !any_glob_matches(
                    glob_set_patterns(*set),
                    #[trigger] text::views(strings@)[k],
                ),
        decreases strings@.len() - i,
    {
        if set_matches(set, strings[i].as_str()) {
            assert(any_glob_matches(
                glob_set_patterns(*set),
                text::views(strings@)[i as int],
            ));
            return true;
        }
        i = i + 1;
    }
    false
}

/// The strings a glob may match for a path.
fn path_candidates(path: &VPath) -> (r: Vec<String>)
    ensures
        text::views(r@) == candidates(path@),
{
    let components = path.components();
    let mut strings: Vec<String> = Vec::new();
    strings.push(path.to_string());
    let mut skip: usize = 0;
    while skip < components.len()
        invariant
            skip <= components@.len(),
            text::views(components@) == path@,
            text::views(strings@) == candidates(path@).take(skip + 1),
        decreases components@.len() - skip,
    {
        let ghost before = strings@;
        let rest = vstd::slice::slice_subrange(components, skip, components.len());
        let suffix = text::join_text(rest, '/');
        proof {
            assert(text::views(rest@) =~= path@.skip(skip as int));
            assert(candidates(path@)[skip + 1] == suffix@);
        }
        strings.push(suffix);
        proof {
            assert(text::views(strings@) =~= text::views(before).push(suffix@));
            assert(text::views(strings@) =~= candidates(path@).take(skip + 2));
        }
        skip = skip + 1;
    }
    proof {
        assert(text::views(components@).len() == components@.len());
        assert(candidates(path@).take(skip + 1) =~= candidates(path@));
    }
    strings
}

/// Compiles a list of patterns into one set.
fn compile_globset(patterns: &[Pattern]) -> (r: Result<globset::GlobSet, String>)
    ensures
        match r {
            Ok(set) => globs_error(policy::pattern_views(patterns@)) is None
                && glob_set_patterns(set) == policy::pattern_views(patterns@),
            Err(message) => globs_error(policy::pattern_views(patterns@)) == Some(message@),
        },
{
    let ghost all = policy::pattern_views(patterns@);
    let mut globs: Vec<globset::Glob> = Vec::new();
    let mut i: usize = 0;
    proof {
        assert(all.skip(0) =~= all);
    }
    while i < patterns.len()
        invariant
            i <= patterns@.len(),
            all == policy::pattern_views(patterns@),
            glob_patterns(globs@) == all.take(i as int),
            first_glob_error(all) == first_glob_error(all.skip(i as int)),
        decreases patterns@.len() - i,
    {
        let pattern = patterns[i].as_str();
        proof {
            assert(all.skip(i as int)[0] == pattern@);
            assert(all.skip(i as int).skip(1) =~= all.skip(i + 1));
        }
        match build_glob(pattern) {
            Ok(glob) => {
                let ghost before = globs@;
                globs.push(glob);
                proof {
                    assert(glob_patterns(globs@) =~= glob_patterns(before).push(pattern@));
                    assert(glob_patterns(globs@) =~= all.take(i + 1));
                }
            },
            Err(message) => {
                let quoted = text::debug_text(pattern);
                let mut text = text::concat("invalid glob ", quoted.as_str());
                text.append(": ");
                text.append(message.as_str());
                return Err(text);
            },
        }
        i = i + 1;
    }
    proof {
        assert(all.skip(i as int).len() == 0);
        assert(all.take(i as int) =~= all);
    }
    match build_glob_set(&globs) {
        Ok(set) => Ok(set),
        Err(message) => Err(text::concat("globs failed to compile: ", message.as_str())),
    }
}

/// Enforces the byte caps of a filesystem policy. The budget is shared by
/// every mount of one sandbox so `max_total_bytes` counts all writes through
/// the sandbox.
pub struct ByteBudget {
    max_file_bytes: Option<u64>,
    max_total_bytes: Option<u64>,
    used: u64,
}

impl ByteBudget {
    /// The cap on a single write.
    pub closed spec fn file_cap(&self) -> Option<u64> {
        self.max_file_bytes
    }

    /// The cap on all reserved bytes together.
    pub closed spec fn total_cap(&self) -> Option<u64> {
        self.max_total_bytes
    }

    /// The bytes reserved so far. Nothing is counted without a total cap.
    pub closed spec fn reserved(&self) -> u64 {
        self.used
    }

    /// Whether a write of `len` bytes exceeds the file cap.
    pub open spec fn over_file_cap(&self, len: u64) -> bool {
        self.file_cap() is Some && len > self.file_cap()->0
    }

    /// Whether reserving `len` more bytes exceeds the total cap.
    pub open spec fn over_total_cap(&self, len: u64) -> bool {
        self.total_cap() is Some && self.reserved() + len > self.total_cap()->0
    }

    /// Whether the reserved bytes are within the total cap.
    pub open spec fn within_cap(&self) -> bool {
        self.total_cap() is Some ==> self.reserved() <= self.total_cap()->0
    }

    /// Creates a budget from the policy caps.
    pub fn new(max_file_bytes: Option<u64>, max_total_bytes: Option<u64>) -> (r: ByteBudget)
        ensures
            r.file_cap() == max_file_bytes,
            r.total_cap() == max_total_bytes,
            r.reserved() == 0,
            r.within_cap(),
    {
        ByteBudget { max_file_bytes, max_total_bytes, used: 0 }
    }

    /// Reserves `len` bytes, enforcing both caps. Callers must
    /// [`ByteBudget::release`] if the subsequent write fails.
    pub fn reserve(&mut self, len: u64) -> (r: Result<(), FsError>)
        ensures
            final(self).file_cap() == old(self).file_cap(),
            final(self).total_cap() == old(self).total_cap(),
            old(self).within_cap() ==> final(self).within_cap(),
            match r {
                Ok(()) => {
                    &&& !old(self).over_file_cap(len)
                    &&& !old(self).over_total_cap(len)
                    &&& final(self).reserved() == used_after_reserve(
                        old(self).total_cap(),
                        old(self).reserved(),
                        len,
                    )
                },
                Err(error) => {
                    &&& final(self).reserved() == old(self).reserved()
                    &&& if old(self).over_file_cap(len) {
                        &&& error.kind == ErrorKind::FileTooLarge
                        &&& error.message@ == cap_message(len, old(self).file_cap()->0, "file"@)
                    } else {
                        &&& old(self).over_total_cap(len)
                        &&& error.kind == ErrorKind::StorageFull
                        &&& error.message@ == cap_message(len, old(self).total_cap()->0, "total"@)
                    }
                },
            },
            reservation(*old(self), len, *final(self), r),
    {
        if let Some(max_file_bytes) = self.max_file_bytes {
            if len > max_file_bytes {
                return Err(
                    FsError {
                        kind: ErrorKind::FileTooLarge,
                        message: cap_text(len, max_file_bytes, "file"),
                    },
                );
            }
        }
        if let Some(max_total_bytes) = self.max_total_bytes {
            if len > max_total_bytes || self.used > max_total_bytes - len {
                return Err(
                    FsError {
                        kind: ErrorKind::StorageFull,
                        message: cap_text(len, max_total_bytes, "total"),
                    },
                );
            }
            self.used = self.used + len;
        }
        Ok(())
    }

    /// Returns reserved bytes to the budget, e.g. after a failed write. The
    /// count wraps around when more is returned than was reserved.
    pub fn release(&mut self, len: u64)
        ensures
            final(self).file_cap() == old(self).file_cap(),
            final(self).total_cap() == old(self).total_cap(),
            final(self).reserved() == used_after_release(old(self).reserved(), len),
    {
        self.used = self.used.wrapping_sub(len);
    }
}

/// Whether a result is the answer to reserving bytes of a budget, which it leaves as
/// `after`.
pub open spec fn reservation(
    before: ByteBudget,
    len: u64,
    after: ByteBudget,
    r: Result<(), FsError>,
) -> bool {
    &&& after.file_cap() == before.file_cap()
    &&& after.total_cap() == before.total_cap()
    &&& match r {
        Ok(()) => {
            &&& !before.over_file_cap(len)
            &&& !before.over_total_cap(len)
            &&& after.reserved() == used_after_reserve(before.total_cap(), before.reserved(), len)
        },
        Err(error) => {
            &&& after.reserved() == before.reserved()
            &&& if before.over_file_cap(len) {
                &&& error.kind == ErrorKind::FileTooLarge
                &&& error.message@ == cap_message(len, before.file_cap()->0, "file"@)
            } else {
                &&& before.over_total_cap(len)
                &&& error.kind == ErrorKind::StorageFull
                &&& error.message@ == cap_message(len, before.total_cap()->0, "total"@)
            }
        },
    }
}

/// The count after a successful reservation: only a budget with a total cap
/// counts.
pub open spec fn used_after_reserve(total_cap: Option<u64>, used: u64, len: u64) -> int {
    if total_cap is Some {
        used + len
    } else {
        used as int
    }
}

/// The count after returning `len` bytes, wrapping around below zero.
pub open spec fn used_after_release(used: u64, len: u64) -> int {
    if len <= used {
        used - len
    } else {
        used - len + 0x1_0000_0000_0000_0000
    }
}

/// What a refused reservation says: the bytes asked for and the cap.
pub open spec fn cap_message(len: u64, cap: u64, which: Seq<char>) -> Seq<char> {
    "write of "@ + text::decimal(len as nat) + " bytes exceeds the "@ + text::decimal(cap as nat)
        + " byte "@ + which + " cap"@
}

fn cap_text(len: u64, cap: u64, which: &str) -> (r: String)
    ensures
        r@ == cap_message(len, cap, which@),
{
    let mut message = "write of ".to_owned();
    message.append(text::decimal_text(len).as_str());
    message.append(" bytes exceeds the ");
    message.append(text::decimal_text(cap).as_str());
    message.append(" byte ");
    message.append(which);
    message.append(" cap");
    message
}

/// Returning a reservation that fitted the total cap restores the count.
pub proof fn release_undoes_reserve(used: u64, len: u64, cap: u64)
    requires
        used + len <= cap,
    ensures
        used_after_release(used_after_reserve(Some(cap), used, len) as u64, len) == used,
{
}

} // verus!
