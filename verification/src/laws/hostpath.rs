//! What host paths promise.

use crate::hostpath;
use crate::text;
use vstd::prelude::*;

verus! {

proof fn lemma_pieces(path: Seq<char>, piece: Seq<char>)
    requires
        !piece.contains('/'),
    ensures
        text::split(path + seq!['/'] + piece, '/') == text::split(path, '/').push(piece),
        text::split(path, '/').push(piece).drop_last() == text::split(path, '/'),
        text::split(path, '/').len() >= 1,
        text::split(path, '/').push(piece)[0] == text::split(path, '/')[0],
        text::split(piece, '/') == seq![piece],
{
    assert(path + seq!['/'] + piece =~= path.push('/') + piece);
    text::lemma_split_tail(path, '/', piece);
    text::lemma_split_nonempty(path, '/');
    text::lemma_split_single(piece, '/');
    assert(text::split(path, '/').push(piece).drop_last() =~= text::split(path, '/'));
}

/// The components of a path are its pieces between separators, but for empty ones and
/// `.`; a leading separator is the root, and a leading `.` stays.
pub proof fn a_path_is_read_piece_by_piece(path: Seq<char>, piece: Seq<char>)
    requires
        !piece.contains('/'),
    ensures
        ({
            let longer = hostpath::components(path + seq!['/'] + piece);
            let before = hostpath::components(path);
            let skipped = piece.len() == 0 || piece == seq!['.'];
            &&& path.len() > 0 && skipped ==> longer == before
            &&& path.len() > 0 && !skipped ==> longer == before.push(piece)
            &&& path.len() == 0 && skipped ==> longer == seq![seq!['/']]
            &&& path.len() == 0 && !skipped ==> longer == seq![seq!['/'], piece]
            &&& piece.len() == 0 ==> hostpath::components(piece) == Seq::<Seq<char>>::empty()
            &&& piece.len() > 0 ==> hostpath::components(piece) == seq![piece]
        }),
{
    lemma_pieces(path, piece);
    let pieces = text::split(path, '/');
    let whole = path + seq!['/'] + piece;
    if path.len() > 0 {
        assert(whole[0] == path[0]);
        if piece.len() == 0 || piece == seq!['.'] {
            assert(hostpath::components(whole) =~= hostpath::components(path));
        } else {
            assert(hostpath::components(whole) =~= hostpath::components(path).push(piece));
        }
    } else {
        assert(path =~= Seq::empty());
        lemma_pieces(path, path);
        text::lemma_split_single(path, '/');
        assert(pieces == seq![path]);
        assert(pieces.drop_last() =~= Seq::empty());
        assert(hostpath::named(pieces.drop_last()) =~= Seq::empty());
        assert(hostpath::named(pieces) =~= Seq::empty());
        assert(whole[0] == '/');
        if piece.len() == 0 || piece == seq!['.'] {
            assert(hostpath::components(whole) =~= seq![seq!['/']]);
        } else {
            assert(hostpath::components(whole) =~= seq![seq!['/'], piece]);
        }
    }
    let single = seq![piece];
    assert(single.drop_last() =~= Seq::empty());
    assert(hostpath::named(single.drop_last()) =~= Seq::empty());
    if piece.len() > 0 {
        assert(piece.contains(piece[0]));
        assert(!hostpath::absolute(piece));
        assert(hostpath::components(piece) =~= seq![piece]);
    } else {
        assert(hostpath::components(piece) =~= Seq::empty());
    }
}

/// A path lies under another when the other's components are its first ones; two
/// texts name one path when they have the same components.
pub proof fn paths_go_by_components(path: Seq<char>, base: Seq<char>)
    ensures
        hostpath::is_under(path, base) <==> hostpath::components(base).is_prefix_of(
            hostpath::components(path),
        ),
        hostpath::same_path(path, base) <==> hostpath::components(path) == hostpath::components(
            base,
        ),
        hostpath::absolute(path) <==> path.len() > 0 && path[0] == '/',
{
    let n = hostpath::components(base).len() as int;
    if n <= hostpath::components(path).len() {
        assert(hostpath::components(path).take(n) == hostpath::components(path).subrange(0, n));
    }
}

/// What lies in a directory has that directory as its parent, as it was written, and
/// its own name; what stands by itself lies in the empty path. What `..` or `.` names
/// has no name of its own, and the root has neither.
pub proof fn an_entry_lies_in_its_directory(dir: Seq<char>, name: Seq<char>)
    requires
        !name.contains('/'),
        name.len() > 0,
        name != seq!['.'],
    ensures
        dir.len() > 0 && dir.last() != '/' && text::split(dir, '/').last() != seq!['.']
            ==> hostpath::parent_of(dir + seq!['/'] + name) == Some(dir),
        hostpath::parent_of(seq!['/'] + name) == Some(seq!['/']),
        hostpath::parent_of(name) == Some(Seq::<char>::empty()),
        hostpath::parent_of(seq!['/']) is None,
        name != seq!['.', '.'] ==> hostpath::file_name_of(dir + seq!['/'] + name) == Some(name)
            && hostpath::file_name_of(name) == Some(name),
        name == seq!['.', '.'] ==> hostpath::file_name_of(dir + seq!['/'] + name) is None
            && hostpath::file_name_of(name) is None,
        hostpath::file_name_of(seq!['/']) is None,
{
    let empty = Seq::<char>::empty();
    a_path_is_read_piece_by_piece(dir, name);
    a_path_is_read_piece_by_piece(empty, name);
    assert(empty.len() == 0 && !empty.contains('/'));
    a_path_is_read_piece_by_piece(empty, empty);
    assert(empty + seq!['/'] + empty =~= seq!['/']);
    assert(empty + seq!['/'] + name =~= seq!['/'] + name);
    lemma_pieces(dir, name);
    lemma_pieces(empty, name);
    lemma_pieces(empty, empty);
    assert(name != seq!['/']) by {
        assert(name.contains(name[0]));
        assert(seq!['/'][0] == '/');
    }
    let components = hostpath::components(dir + seq!['/'] + name);
    assert(components.last() == name);
    if dir.len() > 0 && dir.last() != '/' && text::split(dir, '/').last() != seq!['.'] {
        let pieces = text::split(dir, '/');
        let all = pieces.push(name);
        assert(hostpath::named_end(all) == all.len());
        assert(all.take(all.len() - 1) =~= pieces);
        lemma_last_piece(dir);
        assert(hostpath::named_end(pieces) == pieces.len());
        assert(pieces.take(pieces.len() as int) =~= pieces);
        text::lemma_join_split(dir, '/');
    }
    assert(text::split(empty, '/') == seq![empty]);
    let rooted = seq![empty].push(name);
    assert(hostpath::named_end(rooted) == 2);
    assert(rooted.take(1) =~= seq![empty]);
    assert(seq![empty].drop_last() =~= Seq::empty());
    assert(hostpath::named_end(seq![empty].drop_last()) == 0);
    assert(hostpath::named_end(seq![empty]) == 0);
    let single = seq![name];
    assert(hostpath::named_end(single) == 1);
    assert(single.take(0) =~= Seq::empty());
    assert(hostpath::named_end(single.take(0)) == 0);
    assert(name.contains(name[0]));
    assert(hostpath::components(seq!['/']) == seq![seq!['/']]);
    assert(hostpath::components(seq!['/']).last() == seq!['/']);
}

proof fn lemma_last_piece(path: Seq<char>)
    requires
        path.len() > 0,
        path.last() != '/',
    ensures
        text::split(path, '/').last().len() > 0,
{
    text::lemma_split_nonempty(path.drop_last(), '/');
}

/// A name is put under a base with one separator between them; an absolute name
/// stands for itself.
pub proof fn joining_puts_one_separator_between(base: Seq<char>, name: Seq<char>)
    ensures
        ({
            let whole = hostpath::joined(base, name);
            let rooted = name.len() > 0 && name[0] == '/';
            &&& rooted ==> whole == name
            &&& base.len() == 0 ==> whole == name
            &&& !rooted && base.len() > 0 && base.last() == '/' ==> whole == base + name
            &&& !rooted && base.len() > 0 && base.last() != '/' ==> whole == base + seq!['/'] + name
        }),
{
    assert(base.push('/') + name =~= base + seq!['/'] + name);
}

/// What is joined to a directory lies under it.
pub proof fn what_is_joined_lies_under(base: Seq<char>, name: Seq<char>)
    requires
        base.len() > 0,
        !name.contains('/'),
    ensures
        hostpath::is_under(hostpath::joined(base, name), base),
        name.len() > 0 && name != seq!['.'] ==> hostpath::components(hostpath::joined(base, name))
            == hostpath::components(base).push(name),
{
    if name.len() > 0 {
        assert(name.contains(name[0]));
    }
    joining_puts_one_separator_between(base, name);
    paths_go_by_components(hostpath::joined(base, name), base);
    if base.last() != '/' {
        a_path_is_read_piece_by_piece(base, name);
    } else {
        let shorter = base.drop_last();
        assert(base =~= shorter + seq!['/'] + Seq::<char>::empty());
        assert(base + name =~= shorter + seq!['/'] + name);
        assert(!Seq::<char>::empty().contains('/'));
        a_path_is_read_piece_by_piece(shorter, name);
        a_path_is_read_piece_by_piece(shorter, Seq::empty());
        if shorter.len() == 0 && name.len() > 0 && name != seq!['.'] {
            assert(seq![seq!['/'], name] =~= seq![seq!['/']].push(name));
        }
    }
}

} // verus!
