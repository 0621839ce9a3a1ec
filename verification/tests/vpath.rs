use agentd::vpath::VPath;

fn path(value: &str) -> VPath {
    VPath::new(value).expect("a valid sandbox-absolute path")
}

#[test]
fn normalizes_separators_and_dot_components() {
    assert_eq!(path("/a//b/./c/").to_string(), "/a/b/c");
    assert_eq!(VPath::root().to_string(), "/");
    assert_eq!(path("/").to_string(), "/");
    assert_eq!(path("///").to_string(), "/");
}

#[test]
fn clamps_parent_traversal_at_the_root() {
    assert_eq!(path("/a/../b").to_string(), "/b");
    assert_eq!(path("/../../a").to_string(), "/a");
    assert_eq!(path("/a/b/../..").to_string(), "/");
}

#[test]
fn rejects_relative_paths() {
    assert!(VPath::new("a/b").is_none());
    assert!(VPath::new("").is_none());
    assert!(VPath::new("./a").is_none());
}

#[test]
fn navigation_helpers() {
    let target = path("/a/b/c.txt");

    assert_eq!(target.name(), "c.txt");
    assert_eq!(
        target.parent().as_ref().map(VPath::to_string),
        Some("/a/b".to_string())
    );
    assert!(!target.is_root());
    assert!(VPath::root().is_root());
    assert_eq!(VPath::root().name(), "");
    assert!(VPath::root().parent().is_none());

    assert_eq!(
        target.ancestors().iter().map(|ancestor| ancestor.to_string()).collect::<Vec<_>>(),
        ["/a/b", "/a"]
    );
    assert!(path("/a").ancestors().is_empty());
}

#[test]
fn prefix_operations() {
    let prefix = path("/a");
    let inside = path("/a/b/c");
    let outside = path("/ab/c");

    assert!(inside.starts_with(&prefix));
    assert!(!outside.starts_with(&prefix));
    assert_eq!(
        inside.strip_prefix(&prefix).map(|rest| rest.to_string()),
        Some("/b/c".to_string())
    );
    assert!(outside.strip_prefix(&prefix).is_none());
    assert_eq!(
        inside.strip_prefix(&inside).map(|rest| rest.to_string()),
        Some("/".to_string())
    );
}

#[test]
fn what_is_written_reads_back() {
    for text in ["/", "/a", "/a/b", "/a.b/.c"] {
        assert_eq!(path(text).to_string(), text);
    }
}

#[test]
fn joining_extends_the_parent() {
    let joined = path("/a").join("b");
    assert_eq!(joined.to_string(), "/a/b");
    assert!(joined.parent_or_root().same(&path("/a")));
    assert!(path("/a").parent_or_root().is_root());
    assert_eq!(joined.components(), ["a", "b"]);
}

#[test]
fn only_single_names_are_components() {
    assert!(VPath::is_component("b"));
    for name in ["", ".", "..", "b/c"] {
        assert!(!VPath::is_component(name));
    }
}
