//! What virtual paths promise.

use crate::text;
use crate::vpath;
use vstd::prelude::*;

verus! {

/// A text is read piece by piece: a name leads one down, `..` one up, though never
/// above the root, and an empty piece or `.` nowhere. Only a text with a leading
/// separator is a path.
pub proof fn a_path_is_read_piece_by_piece(text: Seq<char>, piece: Seq<char>)
    requires
        !piece.contains('/'),
    ensures
        vpath::parsed(seq!['/']) == Some(Seq::<Seq<char>>::empty()),
        vpath::parsed(text) is Some <==> text.len() > 0 && text[0] == '/',
        vpath::parsed(text) is Some ==> {
            let before = vpath::parsed(text)->0;
            let after = vpath::parsed(text + seq!['/'] + piece);
            &&& after is Some
            &&& piece.len() == 0 ==> after->0 == before
            &&& piece == seq!['.'] ==> after->0 == before
            &&& piece == seq!['.', '.'] && before.len() > 0 ==> after->0 == before.take(
                before.len() - 1,
            )
            &&& piece == seq!['.', '.'] && before.len() == 0 ==> after->0.len() == 0
            &&& piece.len() > 0 && piece != seq!['.'] && piece != seq!['.', '.'] ==> after->0
                == before.push(piece)
        },
{
    let root = seq!['/'];
    assert(root.skip(1) =~= Seq::<char>::empty());
    let nothing = text::split(Seq::<char>::empty(), '/');
    assert(nothing.len() == 1 && nothing[0].len() == 0);
    assert(nothing.drop_last() =~= Seq::empty());
    assert(vpath::normalized(nothing.drop_last()) =~= Seq::empty());
    assert(vpath::normalized(nothing) =~= Seq::empty());
    if vpath::parsed(text) is Some {
        let whole = text + seq!['/'] + piece;
        assert(whole.skip(1) =~= text.skip(1).push('/') + piece);
        text::lemma_split_tail(text.skip(1), '/', piece);
        let pieces = text::split(text.skip(1), '/');
        assert(pieces.push(piece).drop_last() =~= pieces);
        assert(whole[0] == '/');
    }
}

/// The text of a path has a separator before each of its names, and of the root
/// nothing else.
pub proof fn a_path_is_written_name_by_name(path: Seq<Seq<char>>, name: Seq<char>)
    ensures
        vpath::written(Seq::empty()) == seq!['/'],
        vpath::written(seq![name]) == seq!['/'] + name,
        path.len() > 0 ==> vpath::written(path.push(name)) == vpath::written(path) + seq!['/']
            + name,
{
    assert(vpath::written(Seq::empty()) =~= seq!['/']);
    crate::laws::text::joining_writes_the_separator_between(path, name, '/');
    if path.len() > 0 {
        assert(vpath::written(path.push(name)) =~= vpath::written(path) + seq!['/'] + name);
    }
}

/// A path lies under each of its beginnings, and under nothing else.
pub proof fn a_path_lies_under_its_beginnings(
    prefix: Seq<Seq<char>>,
    rest: Seq<Seq<char>>,
    other: Seq<Seq<char>>,
)
    ensures
        vpath::is_prefix(prefix + rest, prefix),
        vpath::is_prefix(prefix, Seq::empty()),
        vpath::is_prefix(other, prefix) ==> exists|tail: Seq<Seq<char>>| other == prefix + tail,
        vpath::is_prefix(other, prefix) <==> prefix.len() <= other.len() && forall|k: int|
            0 <= k < prefix.len() ==> #[trigger] other[k] == prefix[k],
{
    assert((prefix + rest).take(prefix.len() as int) =~= prefix);
    assert(prefix.take(0) =~= Seq::empty());
    if vpath::is_prefix(other, prefix) {
        assert(other =~= prefix + other.skip(prefix.len() as int));
        assert forall|k: int| 0 <= k < prefix.len() implies #[trigger] other[k] == prefix[k] by {
            assert(other.take(prefix.len() as int)[k] == other[k]);
        }
    }
    if prefix.len() <= other.len() && forall|k: int|
        0 <= k < prefix.len() ==> #[trigger] other[k] == prefix[k] {
        assert(other.take(prefix.len() as int) =~= prefix);
    }
}

/// Every proper beginning of a path but the root is one of its ancestors, the
/// longest first, and there are no more.
pub proof fn ancestors_get_shorter(path: Seq<Seq<char>>, count: int)
    requires
        0 < count < path.len(),
    ensures
        vpath::ancestors_of(path).len() == path.len() - 1,
        vpath::ancestors_of(path)[path.len() - 1 - count] == path.take(count),
        vpath::ancestors_of(Seq::empty()).len() == 0,
{
}

/// A name is what can stand between separators and leads down, and a path is made of
/// names.
pub proof fn names_lead_down(name: Seq<char>, path: Seq<Seq<char>>)
    ensures
        vpath::is_path(Seq::empty()),
        vpath::is_path(seq![name]) <==> vpath::is_component(name),
        vpath::is_path(path.push(name)) <==> vpath::is_path(path) && vpath::is_component(name),
        vpath::is_component(name) <==> name.len() > 0 && !name.contains('/') && !(name.len() == 1
            && name[0] == '.') && !(name.len() == 2 && name[0] == '.' && name[1] == '.'),
{
    let longer = path.push(name);
    assert(seq![name][0] == name);
    assert(longer[path.len() as int] == name);
    if vpath::is_path(longer) {
        assert forall|i: int| 0 <= i < path.len() implies vpath::is_component(
            #[trigger] path[i],
        ) by {
            assert(longer[i] == path[i]);
        }
    }
    if name.len() == 1 && name[0] == '.' {
        assert(name =~= seq!['.']);
    }
    if name.len() == 2 && name[0] == '.' && name[1] == '.' {
        assert(name =~= seq!['.', '.']);
    }
}

} // verus!
