use agentd::hostpath::{components_of, parent, starts_with};

#[test]
fn a_parent_is_the_beginning_of_the_path() {
    let cases = [
        ("/a/b", "/a"),
        ("/a//b/c", "/a//b"),
        ("/a/b//c", "/a/b"),
        ("/a/./b/c", "/a/./b"),
        ("a/./b", "a"),
        ("/a/b/", "/a"),
        ("/a/b/.", "/a"),
        ("/a/..", "/a"),
        ("/a", "/"),
        ("//a", "/"),
        ("//a/b", "//a"),
        ("a", ""),
        ("./a", "."),
        ("././a", "."),
        (".", ""),
    ];
    for (path, expected) in cases {
        assert_eq!(parent(path).as_deref(), Some(expected), "{path}");
        let native = std::path::Path::new(path).parent().and_then(|p| p.to_str());
        assert_eq!(parent(path).as_deref(), native, "{path}");
        let mut whole = components_of(path);
        whole.pop();
        assert_eq!(components_of(expected), whole, "{path}");
        assert!(starts_with(path, expected), "{path}");
    }
    for path in ["/", "//", "/.", ""] {
        assert_eq!(parent(path), None, "{path}");
        assert!(std::path::Path::new(path).parent().is_none(), "{path}");
    }
}
