//! The in-memory node tree backing memory mounts and overlay upper layers.

use crate::order;
use crate::text;
use crate::vpath;
use crate::vpath::VPath;
use vstd::prelude::*;

verus! {

broadcast use vstd::string::group_string_axioms;

/// What a path of the tree holds.
pub enum Node {
    /// A directory.
    Dir,
    /// A file with its bytes.
    File(Vec<u8>),
}

/// What a write displaced.
pub enum Written {
    /// The written path did not hold a file before.
    New,
    /// The written path replaced a file of the given length.
    Replaced(u64),
}

/// A tree of files and directories rooted at the mount point. The root is
/// always a directory and never stored.
pub struct MemTree {
    entries: Vec<(VPath, Node)>,
}

/// Whether the entries are in path order, without repetition and without the
/// root, and each is for a normalized path.
pub open spec fn sorted(entries: Seq<(VPath, Node)>) -> bool {
    &&& forall|i: int, j: int|
        #![trigger entries[i], entries[j]]
        0 <= i < j < entries.len() ==> order::path_before(entries[i].0@, entries[j].0@)
    &&& forall|i: int|
        0 <= i < entries.len() ==> (#[trigger] entries[i]).0@.len() > 0 && vpath::is_path(
            entries[i].0@,
        )
}

/// Whether some entry is for `path`.
pub open spec fn holds(entries: Seq<(VPath, Node)>, path: Seq<Seq<char>>) -> bool {
    exists|i: int| 0 <= i < entries.len() && (#[trigger] entries[i]).0@ == path
}

/// The position of the entry for `path`.
pub open spec fn position(entries: Seq<(VPath, Node)>, path: Seq<Seq<char>>) -> int {
    choose|i: int| 0 <= i < entries.len() && (#[trigger] entries[i]).0@ == path
}

/// The entries as a map from path to node.
pub open spec fn as_map(entries: Seq<(VPath, Node)>) -> Map<Seq<Seq<char>>, Node> {
    Map::new(
        |path: Seq<Seq<char>>| holds(entries, path),
        |path: Seq<Seq<char>>| entries[position(entries, path)].1,
    )
}

/// Whether only normalized paths other than the root hold a node.
pub open spec fn holds_paths_only(nodes: Map<Seq<Seq<char>>, Node>) -> bool {
    forall|path: Seq<Seq<char>>| #[trigger]
        nodes.contains_key(path) ==> path.len() > 0 && vpath::is_path(path)
}

/// The node at `path` in a tree that stores `nodes`: the root is a directory
/// whatever is stored.
pub open spec fn node_at(nodes: Map<Seq<Seq<char>>, Node>, path: Seq<Seq<char>>) -> Option<Node> {
    if path.len() == 0 {
        Some(Node::Dir)
    } else if nodes.contains_key(path) {
        Some(nodes[path])
    } else {
        None
    }
}

/// Whether nothing is found in `dir` under any name that a component can have.
pub open spec fn finds_nothing_in(nodes: Map<Seq<Seq<char>>, Node>, dir: Seq<Seq<char>>) -> bool {
    forall|name: Seq<char>| #[trigger]
        vpath::is_component(name) ==> node_at(nodes, dir.push(name)) is None
}

/// Whether `children` are the direct children of `dir` among `nodes`, each
/// once, in the order of their names.
pub open spec fn are_children(
    nodes: Map<Seq<Seq<char>>, Node>,
    dir: Seq<Seq<char>>,
    children: Seq<(String, &Node)>,
) -> bool {
    &&& forall|i: int|
        #![trigger children[i]]
        0 <= i < children.len() ==> nodes.contains_key(dir.push(children[i].0@))
            && *children[i].1 == nodes[dir.push(children[i].0@)]
    &&& forall|name: Seq<char>| #[trigger]
        nodes.contains_key(dir.push(name)) ==> exists|i: int|
            0 <= i < children.len() && (#[trigger] children[i]).0@ == name
    &&& forall|i: int, j: int|
        #![trigger children[i], children[j]]
        0 <= i < j < children.len() ==> order::text_before(children[i].0@, children[j].0@)
}

/// An entry is found under its own path.
proof fn lemma_position(entries: Seq<(VPath, Node)>, i: int)
    requires
        sorted(entries),
        0 <= i < entries.len(),
    ensures
        holds(entries, entries[i].0@),
        position(entries, entries[i].0@) == i,
        as_map(entries).contains_key(entries[i].0@),
        as_map(entries)[entries[i].0@] == entries[i].1,
{
    let path = entries[i].0@;
    assert(holds(entries, path));
    let k = position(entries, path);
    assert(0 <= k < entries.len() && entries[k].0@ == path);
    order::lemma_path_total(path, path);
}

/// Inserting at a node and reading it back gives the node; every other path
/// keeps its node.
pub proof fn insert_is_read_back(
    nodes: Map<Seq<Seq<char>>, Node>,
    path: Seq<Seq<char>>,
    node: Node,
    other: Seq<Seq<char>>,
)
    requires
        path.len() > 0,
    ensures
        node_at(nodes.insert(path, node), path) == Some(node),
        other != path ==> node_at(nodes.insert(path, node), other) == node_at(nodes, other),
{
}

/// A removed path holds nothing afterwards; every other path keeps its node.
pub proof fn remove_leaves_nothing(
    nodes: Map<Seq<Seq<char>>, Node>,
    path: Seq<Seq<char>>,
    other: Seq<Seq<char>>,
)
    requires
        path.len() > 0,
    ensures
        node_at(nodes.remove(path), path) is None,
        other != path ==> node_at(nodes.remove(path), other) == node_at(nodes, other),
{
}

/// A tree that holds normalized paths only, as every tree does, holds nothing
/// directly under a directory exactly when nothing is found there under any name
/// that a component can have.
pub proof fn only_components_name_children(
    nodes: Map<Seq<Seq<char>>, Node>,
    dir: Seq<Seq<char>>,
)
    requires
        holds_paths_only(nodes),
    ensures
        finds_nothing_in(nodes, dir) <==> (forall|name: Seq<char>|
            !#[trigger] nodes.contains_key(dir.push(name))),
{
    if finds_nothing_in(nodes, dir) {
        assert forall|name: Seq<char>| !#[trigger] nodes.contains_key(dir.push(name)) by {
            let path = dir.push(name);
            if nodes.contains_key(path) {
                assert(path[dir.len() as int] == name);
                assert(vpath::is_component(name));
                assert(node_at(nodes, path) is None);
            }
        }
    }
    if forall|name: Seq<char>| !#[trigger] nodes.contains_key(dir.push(name)) {
        assert forall|name: Seq<char>| #[trigger] vpath::is_component(name) implies node_at(
            nodes,
            dir.push(name),
        ) is None by {
            assert(!nodes.contains_key(dir.push(name)));
        }
    }
}

/// The children of a directory are determined by what the tree stores.
pub proof fn children_are_unique(
    nodes: Map<Seq<Seq<char>>, Node>,
    dir: Seq<Seq<char>>,
    a: Seq<(String, &Node)>,
    b: Seq<(String, &Node)>,
)
    requires
        are_children(nodes, dir, a),
        are_children(nodes, dir, b),
    ensures
        a.len() == b.len(),
        forall|i: int|
            0 <= i < a.len() ==> (#[trigger] a[i]).0@ == b[i].0@ && *a[i].1 == *b[i].1,
{
    lemma_children_prefix(nodes, dir, a, b, a.len() as int);
    lemma_children_prefix(nodes, dir, b, a, b.len() as int);
}

proof fn lemma_children_prefix(
    nodes: Map<Seq<Seq<char>>, Node>,
    dir: Seq<Seq<char>>,
    a: Seq<(String, &Node)>,
    b: Seq<(String, &Node)>,
    n: int,
)
    requires
        are_children(nodes, dir, a),
        are_children(nodes, dir, b),
        0 <= n <= a.len(),
    ensures
        n <= b.len(),
        forall|i: int|
            0 <= i < n ==> (#[trigger] a[i]).0@ == b[i].0@ && *a[i].1 == *b[i].1,
    decreases n,
{
    if n > 0 {
        lemma_children_prefix(nodes, dir, a, b, n - 1);
        let m = n - 1;
        let name = a[m].0@;
        assert(nodes.contains_key(dir.push(name)));
        let k = choose|k: int| 0 <= k < b.len() && (#[trigger] b[k]).0@ == name;
        assert(0 <= k < b.len() && b[k].0@ == name);
        if k < m {
            assert(a[k].0@ == b[k].0@);
            assert(order::text_before(a[k].0@, a[m].0@));
            order::lemma_text_total(name, name);
        }
        if k > m {
            let earlier = b[m].0@;
            assert(nodes.contains_key(dir.push(earlier)));
            let j = choose|j: int| 0 <= j < a.len() && (#[trigger] a[j]).0@ == earlier;
            assert(0 <= j < a.len() && a[j].0@ == earlier);
            assert(order::text_before(b[m].0@, b[k].0@));
            order::lemma_text_total(earlier, name);
            if j < m {
                assert(a[j].0@ == b[j].0@);
                assert(order::text_before(b[j].0@, b[m].0@));
                order::lemma_text_total(earlier, earlier);
            } else if j > m {
                assert(order::text_before(a[m].0@, a[j].0@));
            }
        }
        assert(b[m].0@ == name);
    }
}

impl View for MemTree {
    type V = Map<Seq<Seq<char>>, Node>;

    closed spec fn view(&self) -> Map<Seq<Seq<char>>, Node> {
        as_map(self.entries@)
    }
}

/// What writing a file at a path displaces.
pub open spec fn displaced(nodes: Map<Seq<Seq<char>>, Node>, path: Seq<Seq<char>>) -> Written {
    match node_at(nodes, path) {
        Some(Node::File(previous)) => Written::Replaced(previous@.len() as u64),
        _ => Written::New,
    }
}

/// The length of the file at a path, if it holds one.
pub open spec fn length_at(nodes: Map<Seq<Seq<char>>, Node>, path: Seq<Seq<char>>) -> Option<u64> {
    match node_at(nodes, path) {
        Some(Node::File(data)) => Some(data@.len() as u64),
        _ => None,
    }
}

impl MemTree {
    #[verifier::type_invariant]
    spec fn ordered(&self) -> bool {
        sorted(self.entries@)
    }

    /// An empty tree.
    pub fn new() -> (r: MemTree)
        ensures
            r@ == Map::<Seq<Seq<char>>, Node>::empty(),
            holds_paths_only(r@),
    {
        let tree = MemTree { entries: Vec::new() };
        proof {
            assert(tree@ =~= Map::<Seq<Seq<char>>, Node>::empty());
        }
        tree
    }

    /// The first position whose path does not come before `path`.
    fn place(&self, path: &VPath) -> (r: usize)
        ensures
            r <= self.entries@.len(),
            forall|i: int|
                0 <= i < r ==> order::path_before((#[trigger] self.entries@[i]).0@, path@),
            forall|i: int|
                r <= i < self.entries@.len() ==> !order::path_before(
                    (#[trigger] self.entries@[i]).0@,
                    path@,
                ),
            vpath::is_path(path@),
    {
        proof {
            use_type_invariant(self);
        }
        let wanted = path.components();
        let mut at: usize = 0;
        while at < self.entries.len() && order::path_is_before(
            self.entries[at].0.components(),
            wanted,
        )
            invariant
                at <= self.entries@.len(),
                text::views(wanted@) == path@,
                forall|i: int|
                    0 <= i < at ==> order::path_before((#[trigger] self.entries@[i]).0@, path@),
            decreases self.entries@.len() - at,
        {
            at = at + 1;
        }
        proof {
            assert forall|i: int| at <= i < self.entries@.len() implies !order::path_before(
                (#[trigger] self.entries@[i]).0@,
                path@,
            ) by {
                if i > at && order::path_before(self.entries@[i].0@, path@) {
                    order::lemma_path_transitive(
                        self.entries@[at as int].0@,
                        self.entries@[i].0@,
                        path@,
                    );
                }
            }
        }
        at
    }

    /// The position of the entry for `path`, if there is one.
    fn find(&self, path: &VPath) -> (r: Option<usize>)
        ensures
            match r {
                Some(i) => i < self.entries@.len() && self.entries@[i as int].0@ == path@
                    && self@.contains_key(path@) && self@[path@] == self.entries@[i as int].1,
                None => !self@.contains_key(path@),
            },
    {
        proof {
            use_type_invariant(self);
        }
        let at: usize = self.place(path);
        if at < self.entries.len() && self.entries[at].0.same(path) {
            proof {
                lemma_position(self.entries@, at as int);
            }
            Some(at)
        } else {
            proof {
                if holds(self.entries@, path@) {
                    let k = position(self.entries@, path@);
                    assert(0 <= k < self.entries@.len() && self.entries@[k].0@ == path@);
                    order::lemma_path_total(path@, path@);
                    if k > at {
                        order::lemma_path_total(self.entries@[at as int].0@, path@);
                    }
                }
            }
            None
        }
    }

    /// The node at `path`; the root is always a directory.
    pub fn get(&self, path: &VPath) -> (r: Option<&Node>)
        ensures
            match r {
                Some(node) => node_at(self@, path@) == Some(*node),
                None => node_at(self@, path@) is None,
            },
    {
        if path.is_root() {
            return Some(&Node::Dir);
        }
        match self.find(path) {
            Some(i) => Some(&self.entries[i].1),
            None => None,
        }
    }

    /// Whether `path` is a directory.
    pub fn is_dir(&self, path: &VPath) -> (r: bool)
        ensures
            r == (node_at(self@, path@) == Some(Node::Dir)),
    {
        match self.get(path) {
            Some(Node::Dir) => true,
            _ => false,
        }
    }

    /// The length of the file at `path`, or `None` when it holds no file.
    pub fn file_len(&self, path: &VPath) -> (r: Option<u64>)
        ensures
            r == match node_at(self@, path@) {
                Some(Node::File(data)) => Some(data@.len() as u64),
                _ => None::<u64>,
            },
            r == length_at(self@, path@),
    {
        match self.get(path) {
            Some(Node::File(data)) => Some(data.len() as u64),
            _ => None,
        }
    }

    /// Stores `node` at `path`, displacing what was there, and hands back what
    /// was displaced.
    fn store(&mut self, path: &VPath, node: Node) -> (r: Option<Node>)
        requires
            path@.len() > 0,
        ensures
            final(self)@ == old(self)@.insert(path@, node),
            r == if old(self)@.contains_key(path@) {
                Some(old(self)@[path@])
            } else {
                None
            },
    {
        proof {
            use_type_invariant(&*self);
        }
        let found = self.find(path);
        let at: usize = self.place(path);
        let mut entries: Vec<(VPath, Node)> = Vec::new();
        std::mem::swap(&mut entries, &mut self.entries);
        let ghost before = entries@;
        let displaced = match found {
            Some(i) => {
                let (_, displaced) = entries.remove(i);
                entries.insert(i, (path.clone(), node));
                proof {
                    assert(entries@.len() == before.len());
                    assert forall|k: int| 0 <= k < before.len() implies (
                    #[trigger] entries@[k]).0@ == before[k].0@ && (k != i ==> entries@[k]
                        == before[k]) by {}
                    assert(sorted(entries@));
                    lemma_stored(before, entries@, path@, node, i as int);
                }
                Some(displaced)
            },
            None => {
                entries.insert(at, (path.clone(), node));
                proof {
                    lemma_inserted_sorted(before, entries@, path@, node, at as int);
                }
                None
            },
        };
        self.entries = entries;
        displaced
    }

    /// Stores `node` at `path`. The root is never stored.
    pub fn insert(&mut self, path: &VPath, node: Node)
        ensures
            final(self)@ == if path@.len() == 0 {
                old(self)@
            } else {
                old(self)@.insert(path@, node)
            },
            holds_paths_only(final(self)@),
    {
        if !path.is_root() {
            let _ = self.store(path, node);
        }
        proof {
            use_type_invariant(&*self);
            lemma_holds_paths_only(self.entries@);
        }
    }

    /// Removes the node at `path` and hands it back.
    pub fn remove(&mut self, path: &VPath) -> (r: Option<Node>)
        ensures
            final(self)@ == old(self)@.remove(path@),
            holds_paths_only(final(self)@),
            r == if old(self)@.contains_key(path@) {
                Some(old(self)@[path@])
            } else {
                None
            },
    {
        proof {
            use_type_invariant(&*self);
        }
        match self.find(path) {
            Some(i) => {
                let mut entries: Vec<(VPath, Node)> = Vec::new();
                std::mem::swap(&mut entries, &mut self.entries);
                let ghost before = entries@;
                let (_, removed) = entries.remove(i);
                proof {
                    lemma_removed(before, entries@, path@, i as int);
                }
                self.entries = entries;
                proof {
                    lemma_holds_paths_only(self.entries@);
                }
                Some(removed)
            },
            None => {
                proof {
                    assert(self@.remove(path@) =~= self@);
                    lemma_holds_paths_only(self.entries@);
                }
                None
            },
        }
    }

    /// Writes a file at `path` and says whether it replaced one. The root is
    /// never stored.
    pub fn replace(&mut self, path: &VPath, data: Vec<u8>) -> (r: Written)
        ensures
            final(self)@ == if path@.len() == 0 {
                old(self)@
            } else {
                old(self)@.insert(path@, Node::File(data))
            },
            r == match node_at(old(self)@, path@) {
                Some(Node::File(previous)) => Written::Replaced(previous@.len() as u64),
                _ => Written::New,
            },
            r == displaced(old(self)@, path@),
            holds_paths_only(final(self)@),
    {
        if path.is_root() {
            proof {
                use_type_invariant(&*self);
                lemma_holds_paths_only(self.entries@);
            }
            return Written::New;
        }
        let displaced = self.store(path, Node::File(data));
        proof {
            use_type_invariant(&*self);
            lemma_holds_paths_only(self.entries@);
        }
        match displaced {
            Some(Node::File(previous)) => Written::Replaced(previous.len() as u64),
            _ => Written::New,
        }
    }

    /// The direct children of a directory as `(name, node)` pairs.
    pub fn children(&self, dir: &VPath) -> (r: Vec<(String, &Node)>)
        ensures
            are_children(self@, dir@, r@),
            holds_paths_only(self@),
    {
        proof {
            use_type_invariant(self);
        }
        let mut children: Vec<(String, &Node)> = Vec::new();
        let mut i: usize = 0;
        while i < self.entries.len()
            invariant
                i <= self.entries@.len(),
                sorted(self.entries@),
                self@ == as_map(self.entries@),
                forall|c: int|
                    #![trigger children@[c]]
                    0 <= c < children@.len() ==> exists|k: int|
                        0 <= k < i && (#[trigger] self.entries@[k]).0@ == dir@.push(
                            children@[c].0@,
                        ) && self.entries@[k].1 == *children@[c].1,
                forall|k: int, name: Seq<char>|
                    0 <= k < i && (#[trigger] self.entries@[k]).0@ == #[trigger] dir@.push(name)
                        ==> exists|c: int|
                        0 <= c < children@.len() && (#[trigger] children@[c]).0@ == name,
                forall|c: int, d: int|
                    #![trigger children@[c], children@[d]]
                    0 <= c < d < children@.len() ==> order::text_before(
                        children@[c].0@,
                        children@[d].0@,
                    ),
            decreases self.entries@.len() - i,
        {
            let path = &self.entries[i].0;
            let is_child = match path.parent() {
                Some(parent) => parent.same(dir),
                None => false,
            };
            let ghost before = children@;
            if is_child {
                let name = path.name().to_owned();
                proof {
                    assert(path@ =~= dir@.push(name@));
                    assert forall|c: int| 0 <= c < before.len() implies order::text_before(
                        (#[trigger] before[c]).0@,
                        name@,
                    ) by {
                        let k = choose|k: int|
                            0 <= k < i && (#[trigger] self.entries@[k]).0@ == dir@.push(
                                before[c].0@,
                            ) && self.entries@[k].1 == *before[c].1;
                        assert(order::path_before(
                            self.entries@[k].0@,
                            self.entries@[i as int].0@,
                        ));
                        order::lemma_siblings(dir@, before[c].0@, name@);
                    }
                }
                children.push((name, &self.entries[i].1));
                proof {
                    assert(children@[before.len() as int].0@ == name@);
                    assert(self.entries@[i as int].0@ == dir@.push(name@));
                    assert forall|c: int| 0 <= c < children@.len() implies exists|k: int|
                        0 <= k < i + 1 && (#[trigger] self.entries@[k]).0@ == dir@.push(
                            (#[trigger] children@[c]).0@,
                        ) && self.entries@[k].1 == *children@[c].1 by {
                        if c < before.len() {
                            assert(children@[c] == before[c]);
                            let k = choose|k: int|
                                0 <= k < i && (#[trigger] self.entries@[k]).0@ == dir@.push(
                                    before[c].0@,
                                ) && self.entries@[k].1 == *before[c].1;
                            assert(0 <= k < i + 1 && self.entries@[k].0@ == dir@.push(
                                children@[c].0@,
                            ));
                        } else {
                            assert(self.entries@[i as int].0@ == dir@.push(children@[c].0@));
                        }
                    }
                }
            }
            proof {
                assert forall|k: int, n: Seq<char>|
                    0 <= k < i + 1 && (#[trigger] self.entries@[k]).0@ == #[trigger] dir@.push(
                        n,
                    ) implies exists|c: int|
                    0 <= c < children@.len() && (#[trigger] children@[c]).0@ == n by {
                    assert(dir@.push(n).last() == n);
                    assert(dir@.push(n).drop_last() =~= dir@);
                    if k < i {
                        let c = choose|c: int|
                            0 <= c < before.len() && (#[trigger] before[c]).0@ == n;
                        assert(children@[c] == before[c]);
                    } else {
                        assert(is_child);
                        assert(children@[before.len() as int].0@ == n);
                    }
                }
            }
            i = i + 1;
        }
        proof {
            lemma_holds_paths_only(self.entries@);
            assert forall|c: int| 0 <= c < children@.len() implies self@.contains_key(
                dir@.push((#[trigger] children@[c]).0@),
            ) && *children@[c].1 == self@[dir@.push(children@[c].0@)] by {
                let k = choose|k: int|
                    0 <= k < i && (#[trigger] self.entries@[k]).0@ == dir@.push(children@[c].0@)
                        && self.entries@[k].1 == *children@[c].1;
                lemma_position(self.entries@, k);
            }
            assert forall|name: Seq<char>| #[trigger]
                self@.contains_key(dir@.push(name)) implies exists|c: int|
                0 <= c < children@.len() && (#[trigger] children@[c]).0@ == name by {
                let k = position(self.entries@, dir@.push(name));
                assert(self.entries@[k].0@ == dir@.push(name));
            }
        }
        children
    }

    /// Whether a directory has no direct children.
    pub fn is_empty_dir(&self, dir: &VPath) -> (r: bool)
        ensures
            r == finds_nothing_in(self@, dir@),
    {
        let children = self.children(dir);
        let empty = children.is_empty();
        proof {
            only_components_name_children(self@, dir@);
            if !empty {
                assert(self@.contains_key(dir@.push(children@[0].0@)));
            }
        }
        empty
    }
}

/// The paths of sorted entries are normalized and none is the root.
proof fn lemma_holds_paths_only(entries: Seq<(VPath, Node)>)
    requires
        sorted(entries),
    ensures
        holds_paths_only(as_map(entries)),
{
    assert forall|path: Seq<Seq<char>>| #[trigger]
        as_map(entries).contains_key(path) implies path.len() > 0 && vpath::is_path(path) by {
        assert(entries[position(entries, path)].0@ == path);
    }
}

/// Replacing the node of an entry updates the map at its path.
proof fn lemma_stored(
    before: Seq<(VPath, Node)>,
    after: Seq<(VPath, Node)>,
    path: Seq<Seq<char>>,
    node: Node,
    i: int,
)
    requires
        sorted(before),
        sorted(after),
        0 <= i < before.len(),
        after.len() == before.len(),
        before[i].0@ == path,
        after[i].0@ == path,
        after[i].1 == node,
        forall|k: int| 0 <= k < before.len() && k != i ==> #[trigger] after[k] == before[k],
    ensures
        as_map(after) == as_map(before).insert(path, node),
{
    assert forall|p: Seq<Seq<char>>| #[trigger]
        as_map(after).contains_key(p) <==> as_map(before).insert(path, node).contains_key(p) by {
        if holds(after, p) {
            let k = position(after, p);
            if k != i {
                assert(before[k].0@ == p);
            }
        }
        if holds(before, p) {
            let k = position(before, p);
            if k != i {
                assert(after[k].0@ == p);
            } else {
                assert(after[i].0@ == p);
            }
        }
        if p == path {
            assert(after[i].0@ == p);
        }
    }
    assert forall|p: Seq<Seq<char>>| #[trigger] as_map(after).contains_key(p) implies as_map(
        after,
    )[p] == as_map(before).insert(path, node)[p] by {
        let k = position(after, p);
        lemma_position(after, k);
        lemma_position(before, k);
        if k != i {
            lemma_position(before, i);
        }
    }
    assert(as_map(after) =~= as_map(before).insert(path, node));
}

/// Inserting an entry at its place keeps the order and adds the node.
proof fn lemma_inserted_sorted(
    before: Seq<(VPath, Node)>,
    after: Seq<(VPath, Node)>,
    path: Seq<Seq<char>>,
    node: Node,
    at: int,
)
    requires
        sorted(before),
        0 <= at <= before.len(),
        path.len() > 0,
        vpath::is_path(path),
        after.len() == before.len() + 1,
        after[at].0@ == path,
        after[at].1 == node,
        after == before.insert(at, after[at]),
        !holds(before, path),
        forall|i: int| 0 <= i < at ==> order::path_before((#[trigger] before[i]).0@, path),
        forall|i: int|
            at <= i < before.len() ==> !order::path_before((#[trigger] before[i]).0@, path),
    ensures
        sorted(after),
        as_map(after) == as_map(before).insert(path, node),
{
    assert forall|i: int, j: int|
        #![trigger after[i], after[j]]
        0 <= i < j < after.len() implies order::path_before(after[i].0@, after[j].0@) by {
        if i < at && j < at {
            assert(after[i] == before[i] && after[j] == before[j]);
        } else if i < at && j == at {
            assert(after[i] == before[i]);
        } else if i < at && j > at {
            assert(after[i] == before[i] && after[j] == before[j - 1]);
        } else if i == at {
            assert(after[j] == before[j - 1]);
            order::lemma_path_total(before[j - 1].0@, path);
            assert(before[j - 1].0@ != path);
        } else {
            assert(after[i] == before[i - 1] && after[j] == before[j - 1]);
        }
    }
    assert forall|i: int| 0 <= i < after.len() implies (#[trigger] after[i]).0@.len() > 0
        && vpath::is_path(after[i].0@) by {
        if i < at {
            assert(after[i] == before[i]);
        } else if i > at {
            assert(after[i] == before[i - 1]);
        }
    }
    assert forall|p: Seq<Seq<char>>| #[trigger]
        as_map(after).contains_key(p) <==> as_map(before).insert(path, node).contains_key(p) by {
        if holds(after, p) {
            let k = position(after, p);
            if k < at {
                assert(before[k].0@ == p);
            } else if k > at {
                assert(before[k - 1].0@ == p);
            }
        }
        if holds(before, p) {
            let k = position(before, p);
            if k < at {
                assert(after[k].0@ == p);
            } else {
                assert(after[k + 1].0@ == p);
            }
        }
        if p == path {
            assert(after[at].0@ == p);
        }
    }
    assert forall|p: Seq<Seq<char>>| #[trigger] as_map(after).contains_key(p) implies as_map(
        after,
    )[p] == as_map(before).insert(path, node)[p] by {
        let k = position(after, p);
        lemma_position(after, k);
        if k < at {
            lemma_position(before, k);
        } else if k > at {
            lemma_position(before, k - 1);
        }
    }
    assert(as_map(after) =~= as_map(before).insert(path, node));
}

/// Removing an entry keeps the order and removes its path from the map.
proof fn lemma_removed(
    before: Seq<(VPath, Node)>,
    after: Seq<(VPath, Node)>,
    path: Seq<Seq<char>>,
    i: int,
)
    requires
        sorted(before),
        0 <= i < before.len(),
        before[i].0@ == path,
        after == before.remove(i),
    ensures
        sorted(after),
        as_map(after) == as_map(before).remove(path),
{
    assert forall|k: int| 0 <= k < after.len() implies #[trigger] after[k] == before[if k < i {
        k
    } else {
        k + 1
    }] by {}
    assert forall|p: Seq<Seq<char>>| #[trigger]
        as_map(after).contains_key(p) <==> as_map(before).remove(path).contains_key(p) by {
        if holds(after, p) {
            let k = position(after, p);
            let m = if k < i {
                k
            } else {
                k + 1
            };
            assert(before[m].0@ == p);
            lemma_position(before, m);
            lemma_position(before, i);
        }
        if holds(before, p) && p != path {
            let k = position(before, p);
            if k < i {
                assert(after[k].0@ == p);
            } else {
                assert(after[k - 1].0@ == p);
            }
        }
    }
    assert forall|p: Seq<Seq<char>>| #[trigger] as_map(after).contains_key(p) implies as_map(
        after,
    )[p] == as_map(before).remove(path)[p] by {
        let k = position(after, p);
        lemma_position(after, k);
        lemma_position(
            before,
            if k < i {
                k
            } else {
                k + 1
            },
        );
    }
    assert(as_map(after) =~= as_map(before).remove(path));
}

} // verus!
