//! Sandbox-absolute virtual paths.

use crate::text;
use vstd::prelude::*;

verus! {

broadcast use vstd::string::group_string_axioms;

/// A normalized, sandbox-absolute virtual path such as `/work/src/lib.rs`.
///
/// Normalization removes duplicate and trailing separators and empty
/// components (`.`), and clamps `..` at the root, so no path value ever holds
/// an escape attempt. The root is `/`.
#[derive(Debug, PartialEq, Eq, PartialOrd, Ord, Hash, Default)]
pub struct VPath {
    components: Vec<String>,
}

/// Whether `name` is a single path component: not empty, without a separator,
/// and neither `.` nor `..`.
pub open spec fn is_component(name: Seq<char>) -> bool {
    &&& name.len() > 0
    &&& !name.contains('/')
    &&& name != seq!['.']
    &&& name != seq!['.', '.']
}

/// Whether the components are those of a normalized path.
pub open spec fn is_path(components: Seq<Seq<char>>) -> bool {
    forall|i: int| 0 <= i < components.len() ==> is_component(#[trigger] components[i])
}

/// The components that remain of `pieces` after dropping empty and `.` pieces
/// and letting each `..` remove the component before it, if there is one.
pub open spec fn normalized(pieces: Seq<Seq<char>>) -> Seq<Seq<char>>
    decreases pieces.len(),
{
    if pieces.len() == 0 {
        Seq::empty()
    } else {
        let before = normalized(pieces.drop_last());
        let piece = pieces.last();
        if piece.len() == 0 || piece == seq!['.'] {
            before
        } else if piece == seq!['.', '.'] {
            if before.len() > 0 {
                before.drop_last()
            } else {
                before
            }
        } else {
            before.push(piece)
        }
    }
}

/// The components of the path that `text` writes, or `None` when the text does
/// not start with a separator.
pub open spec fn parsed(text: Seq<char>) -> Option<Seq<Seq<char>>> {
    if text.len() > 0 && text[0] == '/' {
        Some(normalized(text::split(text.skip(1), '/')))
    } else {
        None
    }
}

/// The text of a path: a separator before the first component and between
/// components.
pub open spec fn written(components: Seq<Seq<char>>) -> Seq<char> {
    seq!['/'] + text::join(components, '/')
}

/// Whether the first components of `path` are `prefix`.
pub open spec fn is_prefix(path: Seq<Seq<char>>, prefix: Seq<Seq<char>>) -> bool {
    prefix.len() <= path.len() && path.take(prefix.len() as int) == prefix
}

/// The paths above `path`, nearest first, without the root.
pub open spec fn ancestors_of(path: Seq<Seq<char>>) -> Seq<Seq<Seq<char>>> {
    Seq::new(
        if path.len() > 0 {
            (path.len() - 1) as nat
        } else {
            0
        },
        |i: int| path.take(path.len() - 1 - i),
    )
}

/// The component lists of a list of paths.
pub open spec fn path_views(paths: Seq<VPath>) -> Seq<Seq<Seq<char>>> {
    Seq::new(paths.len(), |i: int| paths[i]@)
}

impl View for VPath {
    type V = Seq<Seq<char>>;

    closed spec fn view(&self) -> Seq<Seq<char>> {
        text::views(self.components@)
    }
}

/// A normalized list of pieces is a path.
pub proof fn lemma_normalized_is_path(pieces: Seq<Seq<char>>)
    requires
        forall|i: int| 0 <= i < pieces.len() ==> !(#[trigger] pieces[i]).contains('/'),
    ensures
        is_path(normalized(pieces)),
    decreases pieces.len(),
{
    if pieces.len() > 0 {
        let init = pieces.drop_last();
        assert forall|i: int| 0 <= i < init.len() implies !(#[trigger] init[i]).contains('/') by {
            assert(init[i] == pieces[i]);
        }
        lemma_normalized_is_path(init);
        assert(!pieces[pieces.len() - 1].contains('/'));
        let before = normalized(init);
        assert forall|i: int| 0 <= i < normalized(pieces).len() implies is_component(
            #[trigger] normalized(pieces)[i],
        ) by {
            if i < before.len() {
                assert(is_component(before[i]));
            }
        }
    }
}

/// Normalizing a path changes nothing.
pub proof fn lemma_normalized_fixed(components: Seq<Seq<char>>)
    requires
        is_path(components),
    ensures
        normalized(components) == components,
    decreases components.len(),
{
    if components.len() > 0 {
        let init = components.drop_last();
        assert forall|i: int| 0 <= i < init.len() implies is_component(#[trigger] init[i]) by {
            assert(init[i] == components[i]);
        }
        lemma_normalized_fixed(init);
        assert(is_component(components[components.len() - 1]));
        assert(init.push(components.last()) == components);
    } else {
        assert(components == Seq::<Seq<char>>::empty());
    }
}

/// Parsing the text of a path gives the path back.
pub proof fn parse_reads_what_was_written(components: Seq<Seq<char>>)
    requires
        is_path(components),
    ensures
        parsed(written(components)) == Some(components),
{
    let text = written(components);
    assert(text.skip(1) == text::join(components, '/'));
    if components.len() == 0 {
        assert(text.skip(1) == Seq::<char>::empty());
        let pieces = text::split(text.skip(1), '/');
        assert(pieces == seq![Seq::<char>::empty()]);
        assert(normalized(pieces.drop_last()) == Seq::<Seq<char>>::empty());
        assert(normalized(pieces) == components);
    } else {
        assert forall|i: int| 0 <= i < components.len() implies !(#[trigger] components[i]).contains(
            '/',
        ) by {
            assert(is_component(components[i]));
        }
        text::lemma_split_join(components, '/');
        lemma_normalized_fixed(components);
    }
}

/// Every absolute text parses to a path without empty, `.`, or `..`
/// components, and writing that path and parsing it again changes nothing.
pub proof fn parsing_normalizes(text: Seq<char>)
    requires
        text.len() > 0,
        text[0] == '/',
    ensures
        parsed(text) is Some,
        is_path(parsed(text)->0),
        parsed(written(parsed(text)->0)) == parsed(text),
{
    text::lemma_split_pieces(text.skip(1), '/');
    lemma_normalized_is_path(text::split(text.skip(1), '/'));
    parse_reads_what_was_written(parsed(text)->0);
}

/// A joined child lies under its parent, and removing the parent's components
/// leaves the joined name alone.
pub proof fn join_extends_the_parent(parent: Seq<Seq<char>>, name: Seq<char>)
    ensures
        is_prefix(parent.push(name), parent),
        parent.push(name).skip(parent.len() as int) == seq![name],
        parent.push(name).drop_last() == parent,
{
    assert(parent.push(name).take(parent.len() as int) == parent);
    assert(parent.push(name).skip(parent.len() as int) == seq![name]);
    assert(parent.push(name).drop_last() == parent);
}

/// A prefix followed by what is left after stripping it is the whole path.
pub proof fn stripping_keeps_the_rest(path: Seq<Seq<char>>, prefix: Seq<Seq<char>>)
    requires
        is_prefix(path, prefix),
    ensures
        prefix + path.skip(prefix.len() as int) == path,
{
    assert(prefix + path.skip(prefix.len() as int) == path);
}

/// Every ancestor of a path is a proper, non-root prefix of it, and every such
/// prefix is among the ancestors.
pub proof fn ancestors_are_the_proper_prefixes(path: Seq<Seq<char>>, other: Seq<Seq<char>>)
    ensures
        ancestors_of(path).contains(other) <==> (is_prefix(path, other) && 0 < other.len()
            < path.len()),
{
    let chain = ancestors_of(path);
    if chain.contains(other) {
        let i = choose|i: int| 0 <= i < chain.len() && chain[i] == other;
        assert(other == path.take(path.len() - 1 - i));
        assert(path.take(other.len() as int) == other);
    }
    if is_prefix(path, other) && 0 < other.len() < path.len() {
        let i = path.len() - 1 - other.len();
        assert(chain[i] == other);
    }
}

/// A copy of a list of strings.
pub(crate) fn copy_strings(strings: &Vec<String>, from: usize, to: usize) -> (r: Vec<String>)
    requires
        from <= to <= strings@.len(),
    ensures
        text::views(r@) == text::views(strings@).subrange(from as int, to as int),
{
    let mut copy: Vec<String> = Vec::new();
    let mut i: usize = from;
    while i < to
        invariant
            from <= i <= to <= strings@.len(),
            text::views(copy@) == text::views(strings@).subrange(from as int, i as int),
        decreases to - i,
    {
        let ghost before = copy@;
        copy.push(strings[i].clone());
        proof {
            assert(text::views(copy@) =~= text::views(before).push(strings@[i as int]@));
        }
        i = i + 1;
    }
    copy
}

impl VPath {
    #[verifier::type_invariant]
    spec fn normal(&self) -> bool {
        is_path(text::views(self.components@))
    }

    /// Parses and normalizes a sandbox-absolute path.
    ///
    /// Returns `None` for paths that are not absolute: those that do not start
    /// with `/`.
    #[must_use]
    pub fn new(path: &str) -> (r: Option<VPath>)
        ensures
            match r {
                Some(path_value) => parsed(path@) == Some(path_value@) && is_path(path_value@),
                None => parsed(path@) is None,
            },
    {
        let chars = text::to_chars(path);
        if chars.len() == 0 || chars[0] != '/' {
            return None;
        }
        let stripped = text::from_chars(&chars, 1, chars.len());
        proof {
            assert(stripped@ == path@.skip(1));
            text::lemma_split_pieces(stripped@, '/');
            lemma_normalized_is_path(text::split(stripped@, '/'));
            reveal_strlit(".");
            reveal_strlit("..");
            assert("."@ == seq!['.']);
            assert(".."@ == seq!['.', '.']);
        }
        let pieces = text::split_text(stripped.as_str(), '/');
        let ghost all = text::views(pieces@);
        let mut components: Vec<String> = Vec::new();
        let mut i: usize = 0;
        while i < pieces.len()
            invariant
                i <= pieces@.len(),
                all == text::views(pieces@),
                text::views(components@) == normalized(all.take(i as int)),
                "."@ == seq!['.'],
                ".."@ == seq!['.', '.'],
            decreases pieces@.len() - i,
        {
            let piece = pieces[i].as_str();
            let ghost before = components@;
            proof {
                assert(all.take(i + 1).drop_last() == all.take(i as int));
                assert(all.take(i + 1).last() == piece@);
            }
            if piece.is_empty() || text::same(piece, ".") {
            } else if text::same(piece, "..") {
                // Clamped at the root: `..` beyond the top stays at `/`.
                let _ = components.pop();
                proof {
                    if before.len() > 0 {
                        assert(text::views(components@) =~= text::views(before).drop_last());
                    } else {
                        assert(text::views(components@) =~= text::views(before));
                    }
                }
            } else {
                components.push(pieces[i].clone());
                proof {
                    assert(text::views(components@) =~= text::views(before).push(piece@));
                }
            }
            i = i + 1;
        }
        proof {
            assert(all.take(i as int) == all);
        }
        Some(VPath { components })
    }

    /// The root path `/`.
    #[must_use]
    pub fn root() -> (r: VPath)
        ensures
            r@ == Seq::<Seq<char>>::empty(),
    {
        let path = VPath { components: Vec::new() };
        proof {
            assert(path@ =~= Seq::<Seq<char>>::empty());
        }
        path
    }

    /// Whether this is the root path `/`.
    #[must_use]
    pub fn is_root(&self) -> (r: bool)
        ensures
            r == (self@.len() == 0),
    {
        self.components.is_empty()
    }

    /// The path components without separators.
    #[must_use]
    pub fn components(&self) -> (r: &[String])
        ensures
            text::views(r@) == self@,
            is_path(self@),
    {
        proof {
            use_type_invariant(self);
        }
        self.components.as_slice()
    }

    /// The last component, or `""` at the root.
    #[must_use]
    pub fn name(&self) -> (r: &str)
        ensures
            r@ == if self@.len() > 0 {
                self@.last()
            } else {
                Seq::<char>::empty()
            },
    {
        if self.components.len() == 0 {
            proof {
                reveal_strlit("");
                assert(""@ =~= Seq::<char>::empty());
            }
            ""
        } else {
            self.components[self.components.len() - 1].as_str()
        }
    }

    /// The parent path, or `None` at the root.
    #[must_use]
    pub fn parent(&self) -> (r: Option<VPath>)
        ensures
            match r {
                Some(path) => self@.len() > 0 && path@ == self@.drop_last(),
                None => self@.len() == 0,
            },
    {
        if self.components.len() == 0 {
            return None;
        }
        Some(self.first(self.components.len() - 1))
    }

    /// The path of the first `count` components.
    fn first(&self, count: usize) -> (r: VPath)
        requires
            count <= self@.len(),
        ensures
            r@ == self@.take(count as int),
    {
        proof {
            use_type_invariant(self);
        }
        let components = copy_strings(&self.components, 0, count);
        VPath { components }
    }

    /// The parent path, with the root as its own parent.
    #[must_use]
    pub fn parent_or_root(&self) -> (r: VPath)
        ensures
            r@ == if self@.len() > 0 {
                self@.drop_last()
            } else {
                self@
            },
    {
        match self.parent() {
            Some(parent) => parent,
            None => {
                proof {
                    assert(self@ =~= Seq::<Seq<char>>::empty());
                }
                VPath::root()
            },
        }
    }

    /// Whether `name` can be joined: it is a single path component.
    #[must_use]
    pub fn is_component(name: &str) -> (r: bool)
        ensures
            r == is_component(name@),
    {
        proof {
            reveal_strlit(".");
            reveal_strlit("..");
            assert("."@ == seq!['.']);
            assert(".."@ == seq!['.', '.']);
        }
        !name.is_empty() && !text::contains_char(name, '/') && !text::same(name, ".")
            && !text::same(name, "..")
    }

    /// Joins a single component, producing a child path.
    #[must_use]
    pub fn join(&self, name: &str) -> (r: VPath)
        requires
            is_component(name@),
        ensures
            r@ == self@.push(name@),
    {
        proof {
            use_type_invariant(self);
        }
        let mut components = copy_strings(&self.components, 0, self.components.len());
        let ghost before = components@;
        components.push(name.to_owned());
        proof {
            assert(text::views(before) =~= self@);
            assert(text::views(components@) =~= text::views(before).push(name@));
        }
        VPath { components }
    }

    /// Whether `prefix` is a prefix of this path.
    #[must_use]
    pub fn starts_with(&self, prefix: &VPath) -> (r: bool)
        ensures
            r == is_prefix(self@, prefix@),
    {
        if prefix.components.len() > self.components.len() {
            return false;
        }
        let mut i: usize = 0;
        while i < prefix.components.len()
            invariant
                i <= prefix.components@.len() <= self.components@.len(),
                self@.len() == self.components@.len(),
                prefix@.len() == prefix.components@.len(),
                forall|k: int| 0 <= k < i ==> self@[k] == prefix@[k],
            decreases prefix.components@.len() - i,
        {
            if self.components[i] != prefix.components[i] {
                proof {
                    assert(self@.take(prefix@.len() as int)[i as int] != prefix@[i as int]);
                }
                return false;
            }
            i = i + 1;
        }
        proof {
            assert(self@.take(prefix@.len() as int) =~= prefix@);
        }
        true
    }

    /// The path relative to `prefix`, or `None` when `prefix` is not a prefix.
    #[must_use]
    pub fn strip_prefix(&self, prefix: &VPath) -> (r: Option<VPath>)
        ensures
            match r {
                Some(rest) => is_prefix(self@, prefix@) && rest@ == self@.skip(
                    prefix@.len() as int,
                ),
                None => !is_prefix(self@, prefix@),
            },
    {
        if !self.starts_with(prefix) {
            return None;
        }
        proof {
            use_type_invariant(self);
        }
        let components = copy_strings(
            &self.components,
            prefix.components.len(),
            self.components.len(),
        );
        proof {
            assert(text::views(components@) =~= self@.skip(prefix@.len() as int));
        }
        Some(VPath { components })
    }

    /// The immediate parent chain, nearest parent first, excluding the root.
    #[must_use]
    pub fn ancestors(&self) -> (r: Vec<VPath>)
        ensures
            path_views(r@) == ancestors_of(self@),
    {
        let mut chain: Vec<VPath> = Vec::new();
        let mut count: usize = self.components.len();
        while count > 1
            invariant
                count <= self@.len(),
                self@.len() > 0 ==> count >= 1,
                chain@.len() == if self@.len() > 0 {
                    self@.len() - count
                } else {
                    0
                },
                forall|i: int|
                    0 <= i < chain@.len() ==> (#[trigger] chain@[i])@ == self@.take(
                        self@.len() - 1 - i,
                    ),
            decreases count,
        {
            count = count - 1;
            chain.push(self.first(count));
        }
        proof {
            assert(path_views(chain@) =~= ancestors_of(self@));
        }
        chain
    }

    /// The text of the path: `/` for the root, and otherwise every component
    /// behind a separator.
    #[must_use]
    pub fn to_string(&self) -> (r: String)
        ensures
            r@ == written(self@),
    {
        let mut text = String::new();
        text.push('/');
        let rest = text::join_text(self.components.as_slice(), '/');
        text.append(rest.as_str());
        proof {
            assert(text@ =~= written(self@));
        }
        text
    }

    /// Whether the two paths have the same components.
    #[must_use]
    pub fn same(&self, other: &VPath) -> (r: bool)
        ensures
            r == (self@ == other@),
    {
        let equal = self.components.len() == other.components.len() && self.starts_with(other);
        proof {
            if equal {
                assert(self@.take(other@.len() as int) =~= self@);
            } else if self@ == other@ {
                assert(self@.take(other@.len() as int) =~= other@);
            }
        }
        equal
    }
}

impl Clone for VPath {
    fn clone(&self) -> (r: VPath)
        ensures
            r@ == self@,
    {
        let path = self.first(self.components.len());
        proof {
            assert(self@.take(self@.len() as int) =~= self@);
        }
        path
    }
}

} // verus!
