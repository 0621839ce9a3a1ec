use agentd::error::{ErrorKind, FsError};
use agentd::guard::{ByteBudget, PathGuard};
use agentd::mount::{
    check_listing_target, resolve_host, DirEntry, HostWalk, Probe, ReadOnlyMount, ReadWriteMount,
    Removal, WalkStep,
};
use agentd::policy::Pattern;
use agentd::vpath::VPath;

fn filtered_guard() -> PathGuard {
    let refuse = vec![Pattern::new(".env")];
    let hide = vec![Pattern::new(".git/**"), Pattern::new(".hidden")];
    PathGuard::compile(&refuse, &hide).expect("valid globs")
}

fn open_guard() -> PathGuard {
    PathGuard::compile(&[], &[]).expect("valid globs")
}

#[test]
fn read_only_mount_refuses_every_mutation() {
    let mount = ReadOnlyMount::new(String::from("/host/ro"), open_guard());
    let path = VPath::root().join("file.txt");

    assert!(mount.check(&path).is_ok());
    assert_eq!(mount.root(), "/host/ro");
    assert_eq!(
        mount.write(&path, b"x").expect_err("write to read-only").kind(),
        ErrorKind::PermissionDenied
    );
    assert_eq!(
        mount.mkdir(&VPath::root().join("new")).expect_err("mkdir in read-only").kind(),
        ErrorKind::PermissionDenied
    );
    assert_eq!(
        mount.remove(&path).expect_err("remove in read-only").kind(),
        ErrorKind::PermissionDenied
    );
    assert_eq!(
        mount
            .rename(&path, &VPath::root().join("other"))
            .expect_err("rename in read-only")
            .kind(),
        ErrorKind::PermissionDenied
    );
}

#[test]
fn read_write_mount_round_trips_through_the_host() {
    let mut mount = ReadWriteMount::new(
        String::from("/host/rw"),
        open_guard(),
        ByteBudget::new(None, None),
    );
    let dir = VPath::root().join("dir");
    let file = dir.join("f.txt");

    mount.mkdir(&dir).expect("mkdir");
    let parent = mount.begin_write(&file).expect("write");
    assert_eq!(parent.to_string(), "/dir");
    mount.admit_write(true, Ok(()), 5).expect("within the budget");
    mount.settle_write(true, 5);
    mount.check(&file).expect("read");
    let listed =
        mount.listing(&dir, vec![DirEntry { name: String::from("f.txt"), is_dir: false }]);
    assert_eq!(listed, vec![DirEntry { name: String::from("f.txt"), is_dir: false }]);

    mount.rename(&file, &dir.join("g.txt")).expect("rename");
    ReadWriteMount::rename_target(false).expect("rename over a file");
    mount.remove(&dir.join("g.txt")).expect("remove");
    assert!(matches!(ReadWriteMount::removal(true), Removal::File));
}

#[test]
fn read_write_mount_enforces_globs_and_caps() {
    let mut mount = ReadWriteMount::new(
        String::from("/host/rw"),
        filtered_guard(),
        ByteBudget::new(Some(4), Some(6)),
    );

    assert_eq!(
        mount.check(&VPath::root().join(".env")).expect_err("refused").kind(),
        ErrorKind::PermissionDenied
    );
    mount.begin_write(&VPath::root().join("big")).expect("allowed path");
    assert_eq!(
        mount.admit_write(true, Ok(()), 5).expect_err("file cap").kind(),
        ErrorKind::FileTooLarge
    );
    mount.admit_write(true, Ok(()), 4).expect("within file cap");
    mount.settle_write(true, 4);
    mount.admit_write(true, Ok(()), 2).expect("within total cap");
    mount.settle_write(true, 2);
    assert_eq!(
        mount.admit_write(true, Ok(()), 1).expect_err("total cap").kind(),
        ErrorKind::StorageFull
    );
}

#[test]
fn a_failed_write_gives_its_bytes_back() {
    let mut mount = ReadWriteMount::new(
        String::from("/host/rw"),
        open_guard(),
        ByteBudget::new(None, Some(4)),
    );
    mount.admit_write(true, Ok(()), 4).expect("fits");
    mount.settle_write(false, 4);
    mount.admit_write(true, Ok(()), 4).expect("fits again");
    let unresolved = || Err::<(), FsError>(FsError::from_kind(ErrorKind::PermissionDenied));
    assert_eq!(
        mount.admit_write(false, unresolved(), 9).expect_err("no parent").kind(),
        ErrorKind::NotFound,
        "the parent must be a directory"
    );
    assert_eq!(
        mount.admit_write(true, unresolved(), 9).expect_err("an escape").kind(),
        ErrorKind::PermissionDenied
    );
}

#[test]
fn listings_filter_hidden_entries() {
    let mount = ReadWriteMount::new(
        String::from("/host/rw"),
        filtered_guard(),
        ByteBudget::new(None, None),
    );
    let entries = mount.listing(
        &VPath::root(),
        vec![
            DirEntry { name: String::from("visible.txt"), is_dir: false },
            DirEntry { name: String::from(".hidden"), is_dir: false },
            DirEntry { name: String::from(".git"), is_dir: true },
        ],
    );
    let names: Vec<&str> = entries.iter().map(|entry| entry.name()).collect();
    assert!(names.contains(&"visible.txt"));
    assert!(names.contains(&".git"), "the .git directory itself is not hidden");
    assert!(!names.contains(&".hidden"));
}

#[test]
fn resolution_maps_paths_and_clamps_at_the_root() {
    let target = VPath::new("/a/b/c").expect("valid");
    let mut walk = HostWalk::new("/root", &target);
    assert!(matches!(walk.next(), WalkStep::Probe(path) if path == "/root/a"));
    assert!(matches!(walk.probed(Probe::Found), WalkStep::Probe(path) if path == "/root/a/b"));
    assert!(matches!(walk.probed(Probe::Found), WalkStep::Probe(path) if path == "/root/a/b/c"));
    assert!(matches!(
        walk.probed(Probe::Missing),
        WalkStep::Canonicalize(path) if path == "/root/a/b"
    ));
    assert_eq!(walk.resolved(Ok(String::from("/root/a/b"))).expect("resolves"), "/root/a/b/c");

    let resolved = resolve_host("/root", &VPath::root(), 0, Ok(String::from("/root")));
    assert_eq!(resolved.expect("resolves"), "/root");
}

#[test]
fn symlink_escape_is_refused() {
    let target = VPath::root().join("link");
    let mut walk = HostWalk::new("/root", &target);
    assert!(matches!(walk.probed(Probe::Found), WalkStep::Canonicalize(_)));
    let error =
        walk.resolved(Ok(String::from("/outside/secret.txt"))).expect_err("symlink escape");
    assert_eq!(error.kind(), ErrorKind::PermissionDenied);

    // A link to a directory outside is no way to the files in it.
    let target = VPath::new("/dir-link/file").expect("valid");
    let mut walk = HostWalk::new("/root", &target);
    assert!(matches!(walk.next(), WalkStep::Probe(path) if path == "/root/dir-link"));
    assert!(matches!(
        walk.probed(Probe::Found),
        WalkStep::Probe(path) if path == "/root/dir-link/file"
    ));
    assert!(matches!(
        walk.probed(Probe::Found),
        WalkStep::Canonicalize(path) if path == "/root/dir-link/file"
    ));
    let error = walk
        .resolved(Ok(String::from("/outside/file")))
        .expect_err("symlink escape through a directory");
    assert_eq!(error.kind(), ErrorKind::PermissionDenied);

    // Nor to files that are yet to be made there.
    let mut walk = HostWalk::new("/root", &target);
    assert!(matches!(walk.probed(Probe::Found), WalkStep::Probe(_)));
    assert!(matches!(
        walk.probed(Probe::Missing),
        WalkStep::Canonicalize(path) if path == "/root/dir-link"
    ));
    let error = walk.resolved(Ok(String::from("/outside"))).expect_err("symlink escape");
    assert_eq!(error.kind(), ErrorKind::PermissionDenied);
}

#[test]
fn only_directories_are_listed() {
    assert!(check_listing_target(Ok(true)).is_ok());
    assert_eq!(
        check_listing_target(Ok(false)).expect_err("a file").kind(),
        ErrorKind::NotADirectory
    );
    let failed = check_listing_target(Err(FsError::from_kind(ErrorKind::NotFound)));
    assert_eq!(failed.expect_err("gone").kind(), ErrorKind::NotFound);
}

#[test]
fn a_failed_probe_fails_the_walk() {
    let mut walk = HostWalk::new("/root", &VPath::root().join("f"));
    let step = walk.probed(Probe::Failed(FsError::from_kind(ErrorKind::Other)));
    assert!(matches!(step, WalkStep::Fail(error) if error.kind() == ErrorKind::Other));
}

#[test]
fn read_only_listings_filter_hidden_entries() {
    let mount = ReadOnlyMount::new(String::from("/host/ro"), filtered_guard());
    let entry = |name: &str| DirEntry { name: String::from(name), is_dir: false };

    let shown = mount.listing(
        &VPath::root(),
        vec![entry(".hidden"), entry("a"), entry(".env"), entry("b")],
    );

    assert_eq!(shown, vec![entry("a"), entry(".env"), entry("b")]);
}
