use markspace::file_tree::{FileTree, Row};
use markspace::path::FsPath;
use markspace::scan::Node;

fn p(path: &str) -> FsPath {
    FsPath::parse(path)
}

fn file(path: &str) -> Node {
    Node {
        name: leaf(path),
        path: p(path),
        is_dir: false,
        children: Vec::new(),
    }
}

fn dir(path: &str, children: Vec<Node>) -> Node {
    Node {
        name: leaf(path),
        path: p(path),
        is_dir: true,
        children,
    }
}

fn leaf(path: &str) -> String {
    path.rsplit('/').next().unwrap().to_string()
}

fn names(rows: &[Row<'_>]) -> Vec<String> {
    rows.iter().map(|r| r.node.name.clone()).collect()
}

#[test]
fn visible_rows_are_top_level_and_collapsed_by_default() {
    let tree = FileTree::new(vec![
        dir("/w/src", vec![file("/w/src/main.rs")]),
        file("/w/readme.md"),
    ]);

    let rows = tree.visible_rows();

    assert_eq!(names(&rows), ["src", "readme.md"]);
    assert!(rows.iter().all(|r| r.depth == 0), "top level is depth 0");
    assert!(tree.selected().is_none(), "nothing selected initially");
}

#[test]
fn toggle_expanded_shows_and_hides_children() {
    let mut tree = FileTree::new(vec![
        dir("/w/src", vec![file("/w/src/main.rs")]),
        file("/w/readme.md"),
    ]);

    tree.toggle_expanded(&p("/w/src"));
    let rows = tree.visible_rows();
    assert_eq!(names(&rows), ["src", "main.rs", "readme.md"]);
    let main = rows.iter().find(|r| r.node.name == "main.rs").unwrap();
    assert_eq!(main.depth, 1, "child indented one level");

    tree.toggle_expanded(&p("/w/src"));
    assert_eq!(names(&tree.visible_rows()), ["src", "readme.md"], "collapsed again");
}

#[test]
fn select_marks_the_selected_path() {
    let mut tree = FileTree::new(vec![file("/w/readme.md")]);

    tree.select(p("/w/readme.md"));

    assert_eq!(tree.selected(), Some(&p("/w/readme.md")));
}

#[test]
fn select_next_walks_down_visible_rows_and_clamps() {
    let mut tree = FileTree::new(vec![
        dir("/w/src", vec![file("/w/src/main.rs")]),
        file("/w/readme.md"),
    ]);
    tree.toggle_expanded(&p("/w/src")); // visible: src, main.rs, readme.md

    tree.select_next(); // from None -> first row
    assert_eq!(tree.selected(), Some(&p("/w/src")));
    tree.select_next();
    assert_eq!(tree.selected(), Some(&p("/w/src/main.rs")));
    tree.select_next();
    assert_eq!(tree.selected(), Some(&p("/w/readme.md")));
    tree.select_next(); // clamp at last
    assert_eq!(tree.selected(), Some(&p("/w/readme.md")));
}

#[test]
fn select_prev_walks_up_visible_rows_and_clamps() {
    let mut tree = FileTree::new(vec![
        dir("/w/src", vec![file("/w/src/main.rs")]),
        file("/w/readme.md"),
    ]);
    tree.toggle_expanded(&p("/w/src"));
    tree.select(p("/w/readme.md")); // start at last

    tree.select_prev();
    assert_eq!(tree.selected(), Some(&p("/w/src/main.rs")));
    tree.select_prev();
    assert_eq!(tree.selected(), Some(&p("/w/src")));
    tree.select_prev(); // clamp at first
    assert_eq!(tree.selected(), Some(&p("/w/src")));
}

#[test]
fn move_right_expands_then_enters_child_and_ignores_files() {
    let mut tree = FileTree::new(vec![
        dir("/w/src", vec![file("/w/src/main.rs")]),
        file("/w/readme.md"),
    ]);
    tree.select(p("/w/src")); // collapsed folder

    tree.move_right(); // expands, stays on folder
    assert!(tree.is_expanded(&p("/w/src")));
    assert_eq!(tree.selected(), Some(&p("/w/src")));

    tree.move_right(); // already expanded -> into first child
    assert_eq!(tree.selected(), Some(&p("/w/src/main.rs")));

    tree.move_right(); // on a file -> no change
    assert_eq!(tree.selected(), Some(&p("/w/src/main.rs")));
}

#[test]
fn update_roots_preserves_expansion_and_shows_new_entries() {
    let mut tree = FileTree::new(vec![dir("/w/src", vec![file("/w/src/main.rs")])]);
    tree.toggle_expanded(&p("/w/src"));

    // A new file appeared under src (filesystem changed → rescan).
    tree.update_roots(vec![dir(
        "/w/src",
        vec![file("/w/src/main.rs"), file("/w/src/lib.rs")],
    )]);

    assert!(tree.is_expanded(&p("/w/src")), "expansion preserved");
    assert_eq!(
        names(&tree.visible_rows()),
        ["src", "main.rs", "lib.rs"],
        "new file is visible under the still-expanded folder"
    );
}

#[test]
fn update_roots_keeps_selection_if_present_else_clears_it() {
    let mut tree = FileTree::new(vec![file("/w/a.md"), file("/w/b.md")]);
    tree.select(p("/w/b.md"));

    // b.md still there -> selection kept.
    tree.update_roots(vec![file("/w/a.md"), file("/w/b.md")]);
    assert_eq!(tree.selected(), Some(&p("/w/b.md")));

    // b.md deleted -> selection cleared.
    tree.update_roots(vec![file("/w/a.md")]);
    assert_eq!(tree.selected(), None);
}

#[test]
fn update_roots_prunes_expansion_of_removed_folders() {
    let mut tree = FileTree::new(vec![
        dir("/w/a", vec![file("/w/a/x.md")]),
        dir("/w/b", vec![file("/w/b/y.md")]),
    ]);
    tree.toggle_expanded(&p("/w/a"));
    tree.toggle_expanded(&p("/w/b"));

    // Folder b was deleted.
    tree.update_roots(vec![dir("/w/a", vec![file("/w/a/x.md")])]);

    assert!(tree.is_expanded(&p("/w/a")), "surviving folder stays expanded");
    assert!(!tree.is_expanded(&p("/w/b")), "removed folder's expansion pruned");
}

#[test]
fn move_left_collapses_then_goes_to_parent_and_stops_at_top() {
    let mut tree = FileTree::new(vec![
        dir(
            "/w/src",
            vec![
                dir("/w/src/sub", vec![file("/w/src/sub/deep.md")]),
                file("/w/src/main.rs"),
            ],
        ),
        file("/w/readme.md"),
    ]);

    // Expanded dir -> collapse, stays selected.
    tree.select(p("/w/src"));
    tree.toggle_expanded(&p("/w/src"));
    tree.move_left();
    assert!(!tree.is_expanded(&p("/w/src")));
    assert_eq!(tree.selected(), Some(&p("/w/src")));

    // File -> select parent.
    tree.select(p("/w/src/main.rs"));
    tree.move_left();
    assert_eq!(tree.selected(), Some(&p("/w/src")));

    // Collapsed nested dir -> select parent.
    tree.select(p("/w/src/sub"));
    tree.move_left();
    assert_eq!(tree.selected(), Some(&p("/w/src")));

    // Top-level node -> no parent in tree, no-op.
    tree.select(p("/w/readme.md"));
    tree.move_left();
    assert_eq!(tree.selected(), Some(&p("/w/readme.md")));
}

#[test]
fn toggling_twice_restores_expansion() {
    let mut tree = FileTree::new(vec![dir("/w/a", vec![file("/w/a/x.md")]), file("/w/b.md")]);
    tree.toggle_expanded(&p("/w/a"));
    tree.toggle_expanded(&p("/w/a"));
    assert!(!tree.is_expanded(&p("/w/a")));
    assert_eq!(names(&tree.visible_rows()), ["a", "b.md"]);
}

#[test]
fn right_then_left_on_a_collapsed_folder_restores_it() {
    let mut tree = FileTree::new(vec![dir("/w/a", vec![file("/w/a/x.md")]), file("/w/b.md")]);
    tree.select(p("/w/a"));
    tree.move_right();
    tree.move_left();
    assert!(!tree.is_expanded(&p("/w/a")));
    assert_eq!(tree.selected(), Some(&p("/w/a")));
}

#[test]
fn navigation_on_an_empty_tree_changes_nothing() {
    let mut tree = FileTree::new(Vec::new());
    tree.select_next();
    tree.select_prev();
    tree.move_right();
    tree.move_left();
    assert_eq!(tree.selected(), None);
    assert!(tree.visible_rows().is_empty());
}

#[test]
fn select_next_from_a_hidden_selection_starts_at_the_top() {
    let mut tree = FileTree::new(vec![dir("/w/a", vec![file("/w/a/x.md")]), file("/w/b.md")]);
    tree.select(p("/w/a/x.md")); // inside a collapsed folder: not visible
    tree.select_next();
    assert_eq!(tree.selected(), Some(&p("/w/a")));
}

#[test]
fn rows_nest_two_levels_deep() {
    let mut tree = FileTree::new(vec![dir(
        "/w/a",
        vec![dir("/w/a/b", vec![file("/w/a/b/c.md")])],
    )]);
    tree.toggle_expanded(&p("/w/a"));
    tree.toggle_expanded(&p("/w/a/b"));
    let rows = tree.visible_rows();
    let depths: Vec<usize> = rows.iter().map(|r| r.depth).collect();
    let expanded: Vec<bool> = rows.iter().map(|r| r.expanded).collect();
    assert_eq!(names(&rows), ["a", "b", "c.md"]);
    assert_eq!(depths, [0, 1, 2]);
    assert_eq!(expanded, [true, true, false]);
}

#[test]
fn find_node_searches_only_inside_folders() {
    let nodes = vec![dir("/w/a", vec![file("/w/a/x.md")]), file("/w/b.md")];
    let found = markspace::file_tree::find_node(&nodes, &p("/w/a/x.md"));
    assert_eq!(found.map(|n| n.name.clone()), Some("x.md".to_string()));
    assert!(markspace::file_tree::find_node(&nodes, &p("/w/c.md")).is_none());
}
