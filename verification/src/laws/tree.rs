//! What the in-memory tree promises.

use crate::tree::{self, Node, Written};
use vstd::prelude::*;

verus! {

/// The root is a directory; any other path holds what was stored there, or nothing.
pub proof fn a_tree_holds_what_was_stored(
    nodes: Map<Seq<Seq<char>>, Node>,
    path: Seq<Seq<char>>,
)
    ensures
        path.len() == 0 ==> tree::node_at(nodes, path) == Some(Node::Dir),
        path.len() > 0 && nodes.contains_key(path) ==> tree::node_at(nodes, path) == Some(
            nodes[path],
        ),
        path.len() > 0 && !nodes.contains_key(path) ==> tree::node_at(nodes, path) is None,
{
}

/// The children of a directory are what the tree holds one name below it: each of
/// them, once, with its node.
pub proof fn every_child_is_listed_once(
    nodes: Map<Seq<Seq<char>>, Node>,
    dir: Seq<Seq<char>>,
    children: Seq<(String, &Node)>,
    name: Seq<char>,
)
    requires
        tree::are_children(nodes, dir, children),
    ensures
        nodes.contains_key(dir.push(name)) ==> exists|i: int|
            0 <= i < children.len() && (#[trigger] children[i]).0@ == name && *children[i].1
                == nodes[dir.push(name)],
        !nodes.contains_key(dir.push(name)) ==> forall|i: int|
            0 <= i < children.len() ==> (#[trigger] children[i]).0@ != name,
        forall|i: int, j: int|
            #![trigger children[i], children[j]]
            0 <= i < j < children.len() ==> children[i].0@ != children[j].0@,
{
    if nodes.contains_key(dir.push(name)) {
        let i = choose|i: int| 0 <= i < children.len() && (#[trigger] children[i]).0@ == name;
        assert(*children[i].1 == nodes[dir.push(name)]);
    }
    assert forall|i: int, j: int|
        #![trigger children[i], children[j]]
        0 <= i < j < children.len() implies children[i].0@ != children[j].0@ by {
        crate::order::lemma_text_total(children[i].0@, children[i].0@);
    }
}

/// A directory is empty exactly when nothing is stored one name below it.
pub proof fn an_empty_directory_has_no_children(
    nodes: Map<Seq<Seq<char>>, Node>,
    dir: Seq<Seq<char>>,
    name: Seq<char>,
    node: Node,
)
    requires
        crate::vpath::is_component(name),
    ensures
        tree::finds_nothing_in(Map::empty(), dir),
        !tree::finds_nothing_in(nodes.insert(dir.push(name), node), dir),
{
    assert(dir.push(name).len() > 0);
    assert(nodes.insert(dir.push(name), node).contains_key(dir.push(name)));
}

/// A file has the length of its bytes, and writing over it displaces so many; a
/// directory, the root among them, and nothing have none.
pub proof fn files_have_the_length_of_their_bytes(
    nodes: Map<Seq<Seq<char>>, Node>,
    path: Seq<Seq<char>>,
    data: Vec<u8>,
)
    requires
        path.len() > 0,
    ensures
        tree::length_at(nodes.insert(path, Node::File(data)), path) == Some(data@.len() as u64),
        tree::displaced(nodes.insert(path, Node::File(data)), path) == Written::Replaced(
            data@.len() as u64,
        ),
        tree::length_at(nodes.insert(path, Node::Dir), path) is None,
        tree::displaced(nodes.insert(path, Node::Dir), path) == Written::New,
        tree::length_at(nodes.remove(path), path) is None,
        tree::displaced(nodes.remove(path), path) == Written::New,
        tree::length_at(nodes, Seq::empty()) is None,
        tree::displaced(nodes, Seq::empty()) == Written::New,
{
}

} // verus!
