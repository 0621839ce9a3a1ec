//! Host paths as text: components, prefixes, parents, and joining.

use crate::text;
use vstd::prelude::*;

verus! {

broadcast use vstd::string::group_string_axioms;

/// Whether a path starts at the root.
pub open spec fn absolute(path: Seq<char>) -> bool {
    path.len() > 0 && path[0] == '/'
}

/// The pieces that name something: neither empty nor `.`.
pub open spec fn named(pieces: Seq<Seq<char>>) -> Seq<Seq<char>>
    decreases pieces.len(),
{
    if pieces.len() == 0 {
        Seq::empty()
    } else if is_named(pieces.last()) {
        named(pieces.drop_last()).push(pieces.last())
    } else {
        named(pieces.drop_last())
    }
}

/// The components of a path: the root, written `/`, when the path is absolute,
/// and then every named piece. A relative path keeps a leading `.`.
pub open spec fn components(path: Seq<char>) -> Seq<Seq<char>> {
    let pieces = text::split(path, '/');
    if absolute(path) {
        seq![seq!['/']] + named(pieces)
    } else if pieces[0] == seq!['.'] {
        seq![pieces[0]] + named(pieces)
    } else {
        named(pieces)
    }
}

/// Whether a piece names something: neither empty nor `.`.
pub open spec fn is_named(piece: Seq<char>) -> bool {
    piece.len() > 0 && piece != seq!['.']
}

/// How many pieces there are up to and with the last named one.
pub open spec fn named_end(pieces: Seq<Seq<char>>) -> nat
    decreases pieces.len(),
{
    if pieces.len() == 0 {
        0
    } else if is_named(pieces.last()) {
        pieces.len()
    } else {
        named_end(pieces.drop_last())
    }
}

/// The text of a path that was cut into `pieces`, up to the end of its last
/// component: the root or a leading `.` when no piece is named.
pub open spec fn trimmed(pieces: Seq<Seq<char>>, absolute: bool) -> Seq<char> {
    let end = named_end(pieces);
    if end > 0 {
        text::join(pieces.take(end as int), '/')
    } else if absolute {
        seq!['/']
    } else if pieces.len() > 0 && pieces[0] == seq!['.'] {
        seq!['.']
    } else {
        Seq::empty()
    }
}

/// Whether the components of `path` begin with those of `base`.
pub open spec fn is_under(path: Seq<char>, base: Seq<char>) -> bool {
    let whole = components(path);
    let prefix = components(base);
    prefix.len() <= whole.len() && whole.take(prefix.len() as int) == prefix
}

/// Whether two texts name the same path.
pub open spec fn same_path(a: Seq<char>, b: Seq<char>) -> bool {
    components(a) == components(b)
}

/// The path without its last component: its own text up to the end of the
/// component before. The root and the empty path have no parent.
pub open spec fn parent_of(path: Seq<char>) -> Option<Seq<char>> {
    let whole = components(path);
    let pieces = text::split(path, '/');
    let end = named_end(pieces);
    if whole.len() == 0 || whole.last() == seq!['/'] {
        None
    } else if end == 0 {
        Some(Seq::empty())
    } else {
        Some(trimmed(pieces.take(end - 1), absolute(path)))
    }
}

/// The last component, when it names a file: not the root, `.`, or `..`.
pub open spec fn file_name_of(path: Seq<char>) -> Option<Seq<char>> {
    let whole = components(path);
    if whole.len() == 0 || whole.last() == seq!['/'] || whole.last() == seq!['.']
        || whole.last() == seq!['.', '.'] {
        None
    } else {
        Some(whole.last())
    }
}

/// `name` under `base`: an absolute name replaces the base, and otherwise
/// exactly one separator stands between them.
pub open spec fn joined(base: Seq<char>, name: Seq<char>) -> Seq<char> {
    if absolute(name) || base.len() == 0 {
        name
    } else if base.last() == '/' {
        base + name
    } else {
        base.push('/') + name
    }
}

/// The named pieces of a list, as strings.
fn named_pieces(pieces: &Vec<String>) -> (r: Vec<String>)
    ensures
        text::views(r@) == named(text::views(pieces@)),
{
    let ghost all = text::views(pieces@);
    let mut kept: Vec<String> = Vec::new();
    let mut i: usize = 0;
    proof {
        reveal_strlit(".");
        assert("."@ =~= seq!['.']);
        assert(text::views(kept@) =~= Seq::<Seq<char>>::empty());
    }
    while i < pieces.len()
        invariant
            i <= pieces@.len(),
            all == text::views(pieces@),
            text::views(kept@) == named(all.take(i as int)),
            "."@ == seq!['.'],
        decreases pieces@.len() - i,
    {
        proof {
            assert(all.take(i + 1).drop_last() =~= all.take(i as int));
            assert(all.take(i + 1).last() == pieces@[i as int]@);
        }
        if !pieces[i].as_str().is_empty() && !text::same(pieces[i].as_str(), ".") {
            let ghost before = kept@;
            kept.push(pieces[i].clone());
            proof {
                assert(text::views(kept@) =~= text::views(before).push(pieces@[i as int]@));
            }
        }
        i = i + 1;
    }
    proof {
        assert(all.take(i as int) =~= all);
    }
    kept
}

/// The components of a path.
pub fn components_of(path: &str) -> (r: Vec<String>)
    ensures
        text::views(r@) == components(path@),
{
    let pieces = text::split_text(path, '/');
    let mut named = named_pieces(&pieces);
    proof {
        text::lemma_split_nonempty(path@, '/');
        assert(text::views(pieces@)[0] == pieces@[0]@);
        reveal_strlit(".");
        reveal_strlit("/");
        assert("."@ =~= seq!['.']);
        assert("/"@ =~= seq!['/']);
    }
    let ghost rest = text::views(named@);
    if is_absolute(path) {
        named.insert(0, "/".to_owned());
        proof {
            assert(text::views(named@) =~= seq![seq!['/']] + rest);
        }
    } else if text::same(pieces[0].as_str(), ".") {
        named.insert(0, ".".to_owned());
        proof {
            assert(text::views(named@) =~= seq![text::views(pieces@)[0]] + rest);
        }
    }
    named
}

/// Whether a path starts at the root.
pub fn is_absolute(path: &str) -> (r: bool)
    ensures
        r == absolute(path@),
{
    let chars = text::to_chars(path);
    chars.len() > 0 && chars[0] == '/'
}

/// How many of the first `count` pieces there are up to and with the last named
/// one.
fn named_count(pieces: &Vec<String>, count: usize) -> (r: usize)
    requires
        count <= pieces@.len(),
    ensures
        r == named_end(text::views(pieces@).take(count as int)),
        r <= count,
{
    let ghost all = text::views(pieces@);
    let mut end: usize = count;
    proof {
        reveal_strlit(".");
        assert("."@ =~= seq!['.']);
    }
    while end > 0
        invariant
            end <= count <= pieces@.len(),
            all == text::views(pieces@),
            named_end(all.take(end as int)) == named_end(all.take(count as int)),
            "."@ == seq!['.'],
        decreases end,
    {
        proof {
            assert(all.take(end as int).drop_last() =~= all.take(end - 1));
            assert(all.take(end as int).last() == pieces@[end - 1]@);
        }
        let piece = pieces[end - 1].as_str();
        if !piece.is_empty() && !text::same(piece, ".") {
            return end;
        }
        end = end - 1;
    }
    end
}

/// Whether the components of `path` begin with those of `base`.
pub fn starts_with(path: &str, base: &str) -> (r: bool)
    ensures
        r == is_under(path@, base@),
{
    let whole = components_of(path);
    let prefix = components_of(base);
    proof {
        assert(text::views(whole@).len() == whole@.len());
        assert(text::views(prefix@).len() == prefix@.len());
    }
    if prefix.len() > whole.len() {
        return false;
    }
    let mut i: usize = 0;
    while i < prefix.len()
        invariant
            i <= prefix@.len() <= whole@.len(),
            text::views(whole@) == components(path@),
            text::views(prefix@) == components(base@),
            forall|k: int| 0 <= k < i ==> components(path@)[k] == components(base@)[k],
        decreases prefix@.len() - i,
    {
        proof {
            assert(text::views(whole@)[i as int] == whole@[i as int]@);
            assert(text::views(prefix@)[i as int] == prefix@[i as int]@);
            assert(text::views(prefix@).len() == prefix@.len());
        }
        if whole[i] != prefix[i] {
            proof {
                assert(components(path@).take(components(base@).len() as int)[i as int]
                    != components(base@)[i as int]);
            }
            return false;
        }
        i = i + 1;
    }
    proof {
        assert(text::views(prefix@).len() == prefix@.len());
        assert(components(path@).take(components(base@).len() as int) =~= components(base@));
    }
    true
}

/// Whether two texts name the same path.
pub fn same(a: &str, b: &str) -> (r: bool)
    ensures
        r == same_path(a@, b@),
{
    let forward = starts_with(a, b);
    let backward = starts_with(b, a);
    proof {
        let left = components(a@);
        let right = components(b@);
        if forward && backward {
            assert(left.take(right.len() as int) =~= left);
        }
        if left == right {
            assert(left.take(right.len() as int) =~= left);
        }
    }
    forward && backward
}

/// The path without its last component.
pub fn parent(path: &str) -> (r: Option<String>)
    ensures
        text::opt_view(r) == parent_of(path@),
{
    let whole = components_of(path);
    proof {
        assert(text::views(whole@).len() == whole@.len());
        reveal_strlit("/");
        reveal_strlit(".");
        reveal_strlit("");
        assert("/"@ =~= seq!['/']);
        assert("."@ =~= seq!['.']);
        assert(""@ =~= Seq::<char>::empty());
    }
    if whole.len() == 0 {
        return None;
    }
    let last: usize = whole.len() - 1;
    proof {
        assert(components(path@).last() == whole@[last as int]@);
    }
    if text::same(whole[last].as_str(), "/") {
        return None;
    }
    let pieces = text::split_text(path, '/');
    let ghost all = text::views(pieces@);
    let end: usize = named_count(&pieces, pieces.len());
    proof {
        assert(all.take(all.len() as int) =~= all);
    }
    if end == 0 {
        return Some("".to_owned());
    }
    let kept: usize = named_count(&pieces, end - 1);
    let ghost before = all.take(end - 1);
    if kept > 0 {
        let front = vstd::slice::slice_subrange(pieces.as_slice(), 0, kept);
        proof {
            assert(text::views(front@) =~= before.take(kept as int));
        }
        Some(text::join_text(front, '/'))
    } else if is_absolute(path) {
        Some("/".to_owned())
    } else if end > 1 && text::same(pieces[0].as_str(), ".") {
        proof {
            assert(before[0] == pieces@[0]@);
        }
        Some(".".to_owned())
    } else {
        proof {
            if end > 1 {
                assert(before[0] == pieces@[0]@);
            }
        }
        Some("".to_owned())
    }
}

/// The last component, when it names a file.
pub fn file_name(path: &str) -> (r: Option<String>)
    ensures
        text::opt_view(r) == file_name_of(path@),
{
    let whole = components_of(path);
    proof {
        assert(text::views(whole@).len() == whole@.len());
        reveal_strlit("/");
        reveal_strlit(".");
        reveal_strlit("..");
        assert("/"@ =~= seq!['/']);
        assert("."@ =~= seq!['.']);
        assert(".."@ =~= seq!['.', '.']);
    }
    if whole.len() == 0 {
        return None;
    }
    let last: usize = whole.len() - 1;
    proof {
        assert(components(path@).last() == whole@[last as int]@);
    }
    let name = whole[last].as_str();
    if text::same(name, "/") || text::same(name, ".") || text::same(name, "..") {
        None
    } else {
        Some(whole[last].clone())
    }
}

/// `name` under `base`.
pub fn join(base: &str, name: &str) -> (r: String)
    ensures
        r@ == joined(base@, name@),
{
    let base_chars = text::to_chars(base);
    if is_absolute(name) || base_chars.len() == 0 {
        return name.to_owned();
    }
    let mut path = base.to_owned();
    if base_chars[base_chars.len() - 1] != '/' {
        path.push('/');
    }
    path.append(name);
    path
}

/// What the end of the named pieces says about the named pieces.
proof fn lemma_named_end(pieces: Seq<Seq<char>>)
    ensures
        named_end(pieces) <= pieces.len(),
        named(pieces) == named(pieces.take(named_end(pieces) as int)),
        named_end(pieces) == 0 ==> named(pieces) == Seq::<Seq<char>>::empty(),
        named_end(pieces) > 0 ==> is_named(pieces[named_end(pieces) - 1]) && named(pieces)
            == named(pieces.take(named_end(pieces) - 1)).push(pieces[named_end(pieces) - 1]),
    decreases pieces.len(),
{
    if pieces.len() > 0 {
        let init = pieces.drop_last();
        assert(pieces.take(pieces.len() as int) =~= pieces);
        assert(pieces.take(pieces.len() - 1) =~= init);
        if !is_named(pieces.last()) {
            lemma_named_end(init);
            let end = named_end(pieces) as int;
            assert(pieces.take(end) =~= init.take(end));
            if end > 0 {
                assert(pieces.take(end - 1) =~= init.take(end - 1));
            }
        }
    } else {
        assert(pieces.take(0) =~= pieces);
    }
}

/// The first pieces of a text, written again, begin the text.
proof fn lemma_front(text: Seq<char>, count: int)
    requires
        1 <= count <= text::split(text, '/').len(),
    ensures
        text::join(text::split(text, '/').take(count), '/').is_prefix_of(text),
    decreases text.len(),
{
    let pieces = text::split(text, '/');
    let front = text::join(pieces.take(count), '/');
    if text.len() == 0 {
        assert(pieces.take(1) =~= pieces);
        assert(front == pieces[0]);
        assert(front =~= text);
    } else {
        let shorter = text.drop_last();
        let before = text::split(shorter, '/');
        text::lemma_split_nonempty(shorter, '/');
        text::lemma_join_split(shorter, '/');
        text::lemma_join_split(text, '/');
        assert(pieces.take(pieces.len() as int) =~= pieces);
        if count < pieces.len() {
            assert(pieces.take(count) =~= before.take(count));
            lemma_front(shorter, count);
            assert(front =~= text.take(front.len() as int));
        }
    }
}

/// A parent is a beginning of the path's own text, and has the path's components
/// but for the last.
pub proof fn a_parent_drops_the_last_component(path: Seq<char>)
    ensures
        match parent_of(path) {
            Some(parent) => parent.is_prefix_of(path) && components(parent)
                == components(path).drop_last(),
            None => components(path).len() == 0 || components(path) == seq![seq!['/']],
        },
{
    let whole = components(path);
    let pieces = text::split(path, '/');
    let end = named_end(pieces) as int;
    text::lemma_split_nonempty(path, '/');
    text::lemma_split_pieces(path, '/');
    lemma_named_end(pieces);
    lemma_plain_components();
    if whole.len() > 0 && whole.last() != seq!['/'] {
        if end == 0 {
            assert(whole =~= seq![pieces[0]]);
            assert(whole.drop_last() =~= Seq::<Seq<char>>::empty());
            assert(Seq::<char>::empty().is_prefix_of(path));
        } else {
            let front = pieces.take(end - 1);
            let kept = named_end(front) as int;
            let parent = trimmed(front, absolute(path));
            lemma_named_end(front);
            assert(whole.drop_last() =~= if absolute(path) {
                seq![seq!['/']] + named(front)
            } else if pieces[0] == seq!['.'] {
                seq![pieces[0]] + named(front)
            } else {
                named(front)
            });
            assert(pieces.take(1) =~= seq![pieces[0]]);
            lemma_front(path, 1);
            if kept > 0 {
                let again = front.take(kept);
                assert(again =~= pieces.take(kept));
                assert forall|i: int| 0 <= i < again.len() implies !(#[trigger] again[i]).contains(
                    '/',
                ) by {
                    assert(again[i] == pieces[i]);
                }
                text::lemma_split_join(again, '/');
                lemma_front(path, kept);
                assert(parent == text::join(again, '/'));
                assert(again.last() == front[kept - 1]);
                assert(parent.len() >= again.last().len());
                assert(parent[0] == path[0]);
                assert(again[0] == pieces[0]);
            } else if absolute(path) {
                assert(parent.is_prefix_of(path));
            } else if front.len() > 0 && front[0] == seq!['.'] {
                assert(parent.is_prefix_of(path));
            } else {
                assert(parent.is_prefix_of(path));
                if front.len() > 0 {
                    assert(front[0] == pieces[0]);
                }
            }
        }
    } else if whole.len() > 0 {
        assert(whole.last() == seq!['/']);
        if end > 0 {
            assert(whole.last() == pieces[end - 1]);
            assert(seq!['/'][0] == '/');
            assert(pieces[end - 1].contains('/'));
        }
        if !absolute(path) {
            assert(whole =~= seq![pieces[0]]);
            assert(seq!['.'][0] != seq!['/'][0]);
        }
        assert(whole =~= seq![seq!['/']]);
    }
}

/// The components of the empty path, of `.`, and of the root.
proof fn lemma_plain_components()
    ensures
        components(Seq::empty()) == Seq::<Seq<char>>::empty(),
        components(seq!['.']) == seq![seq!['.']],
        components(seq!['/']) == seq![seq!['/']],
{
    let none = Seq::<Seq<char>>::empty();
    let empty = Seq::<char>::empty();
    assert(named(none) == none);
    assert(seq![empty].drop_last() =~= none);
    assert(named(seq![empty]) =~= none);
    assert(empty != seq!['.']) by {
        assert(seq!['.'].len() == 1);
    }
    assert(components(empty) =~= none);
    assert(!seq!['.'].contains('/'));
    text::lemma_split_single(seq!['.'], '/');
    assert(seq![seq!['.']].drop_last() =~= none);
    assert(named(seq![seq!['.']]) =~= none);
    assert(components(seq!['.']) =~= seq![seq!['.']]);
    assert(seq!['/'].drop_last() =~= empty);
    assert(text::split(empty, '/') =~= seq![empty]);
    assert(text::split(seq!['/'], '/') =~= seq![empty].push(empty));
    assert(seq![empty].push(empty).drop_last() =~= seq![empty]);
    assert(named(seq![empty].push(empty)) =~= none);
    assert(components(seq!['/']) =~= seq![seq!['/']]);
}

/// A path is under itself.
pub proof fn under_itself(path: Seq<char>)
    ensures
        is_under(path, path),
{
    let whole = components(path);
    assert(whole.take(whole.len() as int) =~= whole);
}

/// Being under a path is transitive.
pub proof fn under_is_transitive(a: Seq<char>, b: Seq<char>, c: Seq<char>)
    requires
        is_under(a, b),
        is_under(b, c),
    ensures
        is_under(a, c),
{
    let (wa, wb, wc) = (components(a), components(b), components(c));
    assert(wa.take(wc.len() as int) =~= wb.take(wc.len() as int)) by {
        assert forall|i: int| 0 <= i < wc.len() implies wa[i] == wb[i] by {
            assert(wa.take(wb.len() as int)[i] == wb[i]);
        }
    }
}

} // verus!
