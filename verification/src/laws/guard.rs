//! What the screening of paths and the byte budget promise.

use crate::error::{ErrorKind, FsError};
use crate::guard::{self, Access, ByteBudget};
use crate::text;
use crate::vpath;
use vstd::prelude::*;

verus! {

broadcast use vstd::string::group_string_axioms;

/// Whether a glob matches a path: its whole text, or what stands behind one of its
/// separators.
pub open spec fn hit(pattern: Seq<char>, path: Seq<Seq<char>>) -> bool {
    guard::glob_matches(pattern, seq!['/'] + text::join(path, '/')) || exists|k: int|
        0 <= k < path.len() && guard::glob_matches(
            pattern,
            #[trigger] text::join(path.skip(k), '/'),
        )
}

proof fn lemma_screened(patterns: Seq<Seq<char>>, path: Seq<Seq<char>>)
    ensures
        guard::screened_by(patterns, path) <==> exists|i: int|
            0 <= i < patterns.len() && hit(#[trigger] patterns[i], path),
{
    let strings = guard::candidates(path);
    assert(strings[0] == seq!['/'] + text::join(path, '/'));
    assert forall|k: int| 0 <= k < path.len() implies #[trigger] strings[k + 1] == text::join(
        path.skip(k),
        '/',
    ) by {}
    if guard::screened_by(patterns, path) {
        let c = choose|c: int|
            0 <= c < strings.len() && guard::any_glob_matches(patterns, #[trigger] strings[c]);
        let i = choose|i: int|
            0 <= i < patterns.len() && guard::glob_matches(#[trigger] patterns[i], strings[c]);
        if c > 0 {
            assert(strings[(c - 1) + 1] == text::join(path.skip(c - 1), '/'));
        }
        assert(hit(patterns[i], path));
    }
    if exists|i: int| 0 <= i < patterns.len() && hit(#[trigger] patterns[i], path) {
        let i = choose|i: int| 0 <= i < patterns.len() && hit(#[trigger] patterns[i], path);
        if guard::glob_matches(patterns[i], seq!['/'] + text::join(path, '/')) {
            assert(guard::any_glob_matches(patterns, strings[0]));
        } else {
            let k = choose|k: int|
                0 <= k < path.len() && guard::glob_matches(
                    patterns[i],
                    #[trigger] text::join(path.skip(k), '/'),
                );
            assert(guard::any_glob_matches(patterns, strings[k + 1]));
        }
    }
}

proof fn lemma_chain(path: Seq<Seq<char>>, below: Seq<Seq<char>>)
    requires
        path.len() > 0 || below.len() == 0,
    ensures
        guard::chain_of(path + below).contains(path),
{
    let whole = path + below;
    let chain = guard::chain_of(whole);
    if below.len() == 0 {
        assert(whole =~= path);
        assert(chain[0] == path);
    } else {
        assert(whole.take(path.len() as int) =~= path);
        assert(chain[below.len() as int] == vpath::ancestors_of(whole)[below.len() - 1]);
        assert(chain[below.len() as int] =~= path);
    }
}

/// Every refuse glob counts, wherever it stands in the list: what it matches is
/// refused, and everything beneath, whatever hides it.
pub proof fn every_refuse_glob_counts(
    refuse: Seq<Seq<char>>,
    hide: Seq<Seq<char>>,
    path: Seq<Seq<char>>,
    below: Seq<Seq<char>>,
    i: int,
)
    requires
        0 <= i < refuse.len(),
        hit(refuse[i], path),
        path.len() > 0 || below.len() == 0,
    ensures
        guard::own_access(refuse, hide, path) == Access::Refused,
        guard::full_access(refuse, hide, path + below) == Access::Refused,
{
    lemma_screened(refuse, path);
    lemma_chain(path, below);
    let chain = guard::chain_of(path + below);
    let accesses = guard::chain_accesses(refuse, hide, chain);
    let at = choose|at: int| 0 <= at < chain.len() && chain[at] == path;
    assert(accesses[at] == Access::Refused);
}

/// Every hide glob counts as well: what it matches, and everything beneath, appears
/// absent, unless a refuse glob matches something along the way.
pub proof fn every_hide_glob_counts(
    refuse: Seq<Seq<char>>,
    hide: Seq<Seq<char>>,
    path: Seq<Seq<char>>,
    below: Seq<Seq<char>>,
    i: int,
)
    requires
        0 <= i < hide.len(),
        hit(hide[i], path),
        path.len() > 0 || below.len() == 0,
        forall|r: int, count: int|
            #![trigger refuse[r], (path + below).take(count)]
            0 <= r < refuse.len() && 0 <= count <= path.len() + below.len() ==> !hit(
                refuse[r],
                (path + below).take(count),
            ),
    ensures
        guard::own_access(refuse, hide, path) == Access::Hidden,
        guard::full_access(refuse, hide, path + below) == Access::Hidden,
{
    let whole = path + below;
    lemma_screened(hide, path);
    lemma_chain(path, below);
    let chain = guard::chain_of(whole);
    let accesses = guard::chain_accesses(refuse, hide, chain);
    lemma_unrefused(refuse, hide, whole);
    let at = choose|at: int| 0 <= at < chain.len() && chain[at] == path;
    assert(accesses[at] != Access::Refused);
    assert(accesses[at] == Access::Hidden);
}

proof fn lemma_unrefused(refuse: Seq<Seq<char>>, hide: Seq<Seq<char>>, whole: Seq<Seq<char>>)
    requires
        forall|r: int, count: int|
            #![trigger refuse[r], whole.take(count)]
            0 <= r < refuse.len() && 0 <= count <= whole.len() ==> !hit(
                refuse[r],
                whole.take(count),
            ),
    ensures
        forall|k: int|
            0 <= k < guard::chain_of(whole).len() ==> !guard::screened_by(
                refuse,
                #[trigger] guard::chain_of(whole)[k],
            ),
{
    let chain = guard::chain_of(whole);
    assert forall|k: int| 0 <= k < chain.len() implies !guard::screened_by(
        refuse,
        #[trigger] chain[k],
    ) by {
        lemma_screened(refuse, chain[k]);
        assert(chain[k] =~= whole.take(whole.len() - k));
        if guard::screened_by(refuse, chain[k]) {
            let r = choose|r: int| 0 <= r < refuse.len() && hit(#[trigger] refuse[r], chain[k]);
            assert(!hit(refuse[r], whole.take(whole.len() - k)));
        }
    }
}

/// A path that no glob matches, with nothing along the way that one matches, is
/// allowed.
pub proof fn nothing_else_is_screened(
    refuse: Seq<Seq<char>>,
    hide: Seq<Seq<char>>,
    path: Seq<Seq<char>>,
)
    requires
        forall|r: int, count: int|
            #![trigger refuse[r], path.take(count)]
            0 <= r < refuse.len() && 0 <= count <= path.len() ==> !hit(
                refuse[r],
                path.take(count),
            ),
        forall|h: int, count: int|
            #![trigger hide[h], path.take(count)]
            0 <= h < hide.len() && 0 <= count <= path.len() ==> !hit(hide[h], path.take(count)),
    ensures
        guard::own_access(refuse, hide, path) == Access::Allowed,
        guard::full_access(refuse, hide, path) == Access::Allowed,
{
    lemma_unrefused(refuse, hide, path);
    lemma_unrefused(hide, refuse, path);
    let chain = guard::chain_of(path);
    assert(chain[0] == path);
    let accesses = guard::chain_accesses(refuse, hide, chain);
    assert forall|k: int| 0 <= k < accesses.len() implies #[trigger] accesses[k]
        == Access::Allowed by {
        assert(!guard::screened_by(refuse, chain[k]));
        assert(!guard::screened_by(hide, chain[k]));
    }
}

/// A refused path answers with a failure of permission, a hidden one with absence.
pub proof fn screened_paths_answer_with_a_failure(
    allowed: Result<(), FsError>,
    refused: Result<(), FsError>,
    hidden: Result<(), FsError>,
)
    requires
        guard::access_result(Access::Allowed, allowed),
        guard::access_result(Access::Refused, refused),
        guard::access_result(Access::Hidden, hidden),
    ensures
        allowed is Ok,
        refused is Err && refused->Err_0.kind == ErrorKind::PermissionDenied
            && refused->Err_0.message@ == Seq::<char>::empty(),
        hidden is Err && hidden->Err_0.kind == ErrorKind::NotFound && hidden->Err_0.message@
            == Seq::<char>::empty(),
{
}

/// The first pattern that is no glob is named, wherever it stands in the list;
/// a list of globs is refused only when they do not compile together.
pub proof fn the_first_bad_glob_is_named(patterns: Seq<Seq<char>>, i: int)
    requires
        0 <= i <= patterns.len(),
        forall|k: int| 0 <= k < i ==> guard::glob_error(#[trigger] patterns[k]) is None,
        i < patterns.len() ==> guard::glob_error(patterns[i]) is Some,
    ensures
        i < patterns.len() ==> guard::globs_error(patterns) == Some(
            "invalid glob "@ + text::debug_quoted(patterns[i]) + ": "@ + guard::glob_error(
                patterns[i],
            )->0,
        ),
        i == patterns.len() && guard::glob_set_error(patterns) is None ==> guard::globs_error(
            patterns,
        ) is None,
        i == patterns.len() && guard::glob_set_error(patterns) is Some ==> guard::globs_error(
            patterns,
        ) == Some("globs failed to compile: "@ + guard::glob_set_error(patterns)->0),
{
    lemma_first_glob_error(patterns, i);
}

proof fn lemma_first_glob_error(patterns: Seq<Seq<char>>, i: int)
    requires
        0 <= i <= patterns.len(),
        forall|k: int| 0 <= k < i ==> guard::glob_error(#[trigger] patterns[k]) is None,
        i < patterns.len() ==> guard::glob_error(patterns[i]) is Some,
    ensures
        i < patterns.len() ==> guard::first_glob_error(patterns) == Some(
            "invalid glob "@ + text::debug_quoted(patterns[i]) + ": "@ + guard::glob_error(
                patterns[i],
            )->0,
        ),
        i == patterns.len() ==> guard::first_glob_error(patterns) is None,
    decreases i,
{
    if i > 0 {
        assert(guard::glob_error(patterns[0]) is None);
        assert forall|k: int| 0 <= k < i - 1 implies guard::glob_error(
            #[trigger] patterns.skip(1)[k],
        ) is None by {
            assert(patterns.skip(1)[k] == patterns[k + 1]);
        }
        lemma_first_glob_error(patterns.skip(1), i - 1);
    }
}

/// Under a total cap every reservation counts with its length, and returning it
/// takes as much off; without one nothing is counted. A refusal names the length and
/// the cap.
pub proof fn reservations_count_their_bytes(used: u64, len: u64, cap: u64, which: Seq<char>)
    ensures
        guard::used_after_reserve(Some(cap), used, len) == used as int + len as int,
        guard::used_after_reserve(None, used, len) == used as int,
        len <= used ==> guard::used_after_release(used, len) + len == used as int,
        len > used ==> guard::used_after_release(used, len) + len == used + 0x1_0000_0000_0000_0000,
        guard::cap_message(len, cap, which) == "write of "@ + text::decimal(len as nat)
            + " bytes exceeds the "@ + text::decimal(cap as nat) + " byte "@ + which + " cap"@,
{
}

/// A write is over a cap when it is longer than the cap on a file, or leads past the
/// cap on the total; up to the cap it is not, and without a cap nothing is.
pub proof fn caps_bound_what_is_written(budget: ByteBudget, len: u64, cap: u64)
    ensures
        budget.file_cap() == Some(cap) ==> (budget.over_file_cap(len) <==> len > cap),
        budget.file_cap() is None ==> !budget.over_file_cap(len),
        budget.total_cap() == Some(cap) ==> (budget.over_total_cap(len) <==> budget.reserved()
            as int + len as int > cap),
        budget.total_cap() is None ==> !budget.over_total_cap(len),
        budget.total_cap() == Some(cap) ==> (budget.within_cap() <==> budget.reserved() <= cap),
{
}

/// A reservation is granted exactly when it is over no cap, and only then it counts;
/// the cap on a file is looked at first.
pub proof fn a_reservation_needs_room_under_both_caps(
    before: ByteBudget,
    len: u64,
    after: ByteBudget,
    r: Result<(), FsError>,
    file: u64,
    total: u64,
)
    requires
        guard::reservation(before, len, after, r),
        before.file_cap() == Some(file),
        before.total_cap() == Some(total),
    ensures
        r is Ok <==> len <= file && before.reserved() + len <= total,
        r is Ok ==> after.reserved() == before.reserved() + len,
        r is Err ==> after.reserved() == before.reserved(),
        after.file_cap() == before.file_cap() && after.total_cap() == before.total_cap(),
        len > file ==> r->Err_0.kind == ErrorKind::FileTooLarge && r->Err_0.message@
            == guard::cap_message(len, file, "file"@),
        len <= file && before.reserved() + len > total ==> r->Err_0.kind == ErrorKind::StorageFull
            && r->Err_0.message@ == guard::cap_message(len, total, "total"@),
{
}

/// Without caps every reservation is granted and none counts.
pub proof fn without_caps_everything_fits(
    before: ByteBudget,
    len: u64,
    after: ByteBudget,
    r: Result<(), FsError>,
)
    requires
        guard::reservation(before, len, after, r),
        before.file_cap() is None,
        before.total_cap() is None,
    ensures
        r is Ok,
        after.reserved() == before.reserved(),
{
}

} // verus!
