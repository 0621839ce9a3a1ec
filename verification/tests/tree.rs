use agentd::tree::{MemTree, Node, Written};
use agentd::vpath::VPath;

fn root() -> VPath {
    VPath::root()
}

fn child(parent: &VPath, name: &str) -> VPath {
    parent.join(name)
}

#[test]
fn root_is_an_implicit_directory() {
    let tree = MemTree::new();

    assert!(tree.is_dir(&root()));
    assert!(tree.get(&root()).is_some());
    assert!(tree.children(&root()).is_empty());
}

#[test]
fn children_lists_only_direct_children() {
    let mut tree = MemTree::new();
    tree.insert(&root().join("a"), Node::Dir);
    tree.insert(&child(&root().join("a"), "b"), Node::Dir);
    tree.insert(&child(&root().join("a"), "c"), Node::File(vec![1]));
    tree.insert(&root().join("ab"), Node::Dir);

    let names: Vec<String> =
        tree.children(&root().join("a")).into_iter().map(|(name, _)| name).collect();

    assert_eq!(names, ["b", "c"]);
}

#[test]
fn replace_reports_what_it_displaced() {
    let mut tree = MemTree::new();
    let path = root().join("f");

    tree.insert(&path, Node::File(vec![1, 2, 3]));
    match tree.replace(&path, vec![4]) {
        Written::Replaced(previous_len) => assert_eq!(previous_len, 3),
        Written::New => panic!("expected a replacement"),
    }
    match tree.replace(&path, vec![5]) {
        Written::Replaced(previous_len) => assert_eq!(previous_len, 1),
        Written::New => panic!("expected a replacement"),
    }
}

#[test]
fn what_is_inserted_is_read_back_until_removed() {
    let mut tree = MemTree::new();
    let dir = root().join("d");
    let file = dir.join("f");
    tree.insert(&dir, Node::Dir);
    assert!(tree.is_empty_dir(&dir));
    tree.insert(&file, Node::File(vec![7, 8]));

    assert!(!tree.is_empty_dir(&dir));
    assert_eq!(tree.file_len(&file), Some(2));
    assert_eq!(tree.file_len(&dir), None);
    assert!(matches!(tree.get(&file), Some(Node::File(data)) if *data == vec![7, 8]));
    assert!(matches!(tree.remove(&file), Some(Node::File(_))));
    assert!(tree.get(&file).is_none());
    assert!(tree.remove(&file).is_none());
}

#[test]
fn the_root_is_never_stored() {
    let mut tree = MemTree::new();
    assert!(matches!(tree.replace(&root(), vec![1]), Written::New));
    assert!(tree.is_dir(&root()));
    assert_eq!(tree.file_len(&root()), None);
}

#[test]
fn a_new_file_displaces_nothing() {
    let mut tree = MemTree::new();
    assert!(matches!(tree.replace(&root().join("f"), vec![1]), Written::New));
    assert_eq!(tree.file_len(&root().join("f")), Some(1));
}

#[test]
fn a_directory_is_empty_when_no_name_is_found_in_it() {
    let mut tree = MemTree::new();
    let dir = root().join("d");
    tree.insert(&dir, Node::Dir);
    tree.insert(&root().join("de"), Node::Dir);
    tree.insert(&root().join("de").join("x"), Node::Dir);
    assert!(tree.is_empty_dir(&dir));
    assert!(tree.get(&dir.join("x")).is_none());

    // A deeper entry is found under no name of the directory itself.
    tree.insert(&dir.join("x").join("y"), Node::Dir);
    assert!(tree.is_empty_dir(&dir));
    tree.insert(&dir.join("x"), Node::Dir);
    assert!(!tree.is_empty_dir(&dir));
}
