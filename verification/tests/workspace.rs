use std::path::Path;

use markspace::path::FsPath;
use markspace::workspace::{Workspace, WorkspaceList};
use tempfile::tempdir;

fn fs(p: &Path) -> FsPath {
    FsPath::parse(p.to_str().unwrap())
}

fn open(list: &mut WorkspaceList, p: &Path) -> bool {
    list.open(fs(p), p.is_dir())
}

#[test]
fn open_accepts_a_directory() {
    let dir = tempdir().unwrap();
    let workspace = Workspace::open(fs(dir.path()), dir.path().is_dir());
    assert_eq!(workspace.map(|w| w.root), Some(fs(dir.path())));
}

#[test]
fn new_workspace_list_is_empty_with_no_active() {
    let list = WorkspaceList::new();
    assert!(list.active().is_none());
    assert_eq!(list.iter().count(), 0);
}

#[test]
fn open_adds_a_directory_and_makes_it_active() {
    let dir = tempdir().unwrap();
    let mut list = WorkspaceList::new();

    let opened = open(&mut list, dir.path());

    assert!(opened);
    assert_eq!(list.iter().count(), 1);
    assert_eq!(list.active().map(|w| &w.root), Some(&fs(dir.path())));
}

#[test]
fn open_does_not_duplicate_an_already_open_workspace() {
    let a = tempdir().unwrap();
    let b = tempdir().unwrap();
    let mut list = WorkspaceList::new();

    open(&mut list, a.path()); // active = a
    open(&mut list, b.path()); // active = b
    let reopened = open(&mut list, a.path()); // already open

    assert!(reopened);
    assert_eq!(list.iter().count(), 2, "no duplicate entry");
    assert_eq!(
        list.active().map(|w| &w.root),
        Some(&fs(a.path())),
        "reopening selects the existing workspace"
    );
}

#[test]
fn from_paths_restores_existing_dirs_with_nothing_active() {
    let a = tempdir().unwrap();
    let b = tempdir().unwrap();
    let bad = a.path().join("gone"); // never created

    let list = WorkspaceList::from_paths(vec![
        (fs(a.path()), a.path().is_dir()),
        (fs(&bad), bad.is_dir()),
        (fs(b.path()), b.path().is_dir()),
    ]);

    assert_eq!(
        list.paths(),
        vec![fs(a.path()), fs(b.path())],
        "stale path filtered, order preserved"
    );
    assert!(list.active().is_none(), "nothing active until the user picks");
}

#[test]
fn select_next_and_prev_walk_the_list_and_clamp() {
    let (a, b, c) = (tempdir().unwrap(), tempdir().unwrap(), tempdir().unwrap());
    let mut list = WorkspaceList::new();
    open(&mut list, a.path());
    open(&mut list, b.path());
    open(&mut list, c.path()); // active = c (index 2)

    list.select(0); // a
    list.select_next();
    assert_eq!(list.active().map(|w| &w.root), Some(&fs(b.path())));
    list.select_next();
    assert_eq!(list.active().map(|w| &w.root), Some(&fs(c.path())));
    list.select_next(); // clamp at last
    assert_eq!(list.active().map(|w| &w.root), Some(&fs(c.path())));

    list.select_prev();
    assert_eq!(list.active().map(|w| &w.root), Some(&fs(b.path())));
    list.select_prev();
    list.select_prev(); // clamp at first
    assert_eq!(list.active().map(|w| &w.root), Some(&fs(a.path())));
}

#[test]
fn select_changes_the_active_workspace() {
    let a = tempdir().unwrap();
    let b = tempdir().unwrap();
    let mut list = WorkspaceList::new();
    open(&mut list, a.path());
    open(&mut list, b.path()); // active = b (index 1)

    list.select(0);

    assert_eq!(list.active().map(|w| &w.root), Some(&fs(a.path())));
}

#[test]
fn open_rejects_a_non_directory_and_leaves_the_list_unchanged() {
    let dir = tempdir().unwrap();
    let file = tempfile::Builder::new()
        .prefix("note")
        .suffix(".md")
        .tempfile_in(dir.path())
        .unwrap();
    let mut list = WorkspaceList::new();

    let opened = open(&mut list, file.path());

    assert!(!opened);
    assert_eq!(list.iter().count(), 0);
    assert!(list.active().is_none());
}

#[test]
fn open_caps_the_list_at_twenty_dropping_the_oldest() {
    let root = tempdir().unwrap();
    let mut list = WorkspaceList::new();
    let mut dirs = Vec::new();
    for i in 0..21 {
        let d = tempfile::Builder::new()
            .prefix(&format!("w{i:02}"))
            .rand_bytes(0)
            .tempdir_in(root.path())
            .unwrap();
        open(&mut list, d.path());
        dirs.push(d);
    }

    assert_eq!(list.iter().count(), 20, "capped at 20");
    assert!(
        list.iter().all(|w| w.root != fs(dirs[0].path())),
        "oldest (w00) was dropped"
    );
    assert!(
        list.iter().any(|w| w.root == fs(dirs[20].path())),
        "newest (w20) is kept"
    );
}

#[test]
fn opening_a_twenty_first_workspace_activates_it_last() {
    let mut list = WorkspaceList::new();
    for i in 0..21 {
        list.open(FsPath::parse(&format!("/w/w{i:02}")), true);
    }
    assert_eq!(list.iter().count(), 20);
    assert_eq!(list.active_index(), Some(19));
    assert_eq!(list.active().map(|w| w.root.clone()), Some(FsPath::parse("/w/w20")));
}

#[test]
fn name_is_the_final_path_component() {
    let dir = tempdir().unwrap();
    let sub = tempfile::Builder::new()
        .prefix("my-notes")
        .rand_bytes(0)
        .tempdir_in(dir.path())
        .unwrap();

    let workspace = Workspace::open(fs(sub.path()), sub.path().is_dir()).unwrap();

    assert_eq!(workspace.name(), "my-notes");
}

#[test]
fn name_of_a_filesystem_root_is_the_whole_path() {
    let root = Workspace::open(FsPath::parse("/"), true).unwrap();
    assert_eq!(root.name(), "/");
}

#[test]
fn name_without_a_final_component_is_the_text_as_written() {
    let up = Workspace::open(FsPath::parse("/a//b/.."), true).unwrap();
    assert_eq!(up.name(), "/a//b/..");
    let doubled = Workspace::open(FsPath::parse("//"), true).unwrap();
    assert_eq!(doubled.name(), "//");
}

#[test]
fn select_out_of_range_and_empty_list_moves_are_ignored() {
    let mut list = WorkspaceList::new();
    list.select_next();
    list.select_prev();
    list.select(3);
    assert!(list.active().is_none());
    list.open(FsPath::parse("/a"), true);
    list.select(5);
    assert_eq!(list.active_index(), Some(0));
}

#[test]
fn persisted_paths_restore_the_same_list() {
    let mut list = WorkspaceList::new();
    for name in ["/a", "/b", "/c", "/a"] {
        list.open(FsPath::parse(name), true);
    }
    let saved = list.paths();
    let restored = WorkspaceList::from_paths(saved.iter().map(|p| (p.clone(), true)).collect());
    assert_eq!(restored.paths(), saved);
    assert!(restored.active().is_none());
}

#[test]
fn open_rejects_a_file_or_missing_path() {
    let dir = tempdir().unwrap();
    let file = tempfile::Builder::new()
        .prefix("note")
        .suffix(".md")
        .tempfile_in(dir.path())
        .unwrap();
    let missing = dir.path().join("nope");

    assert!(
        Workspace::open(fs(file.path()), file.path().is_dir()).is_none(),
        "a file is not a workspace"
    );
    assert!(
        Workspace::open(fs(&missing), missing.is_dir()).is_none(),
        "a missing path is not a workspace"
    );
}
