use markspace::file_tree::FileTree;
use markspace::input::{
    apply_shortcuts, file_row_clicked, route_arrows, workspace_row_clicked, ArrowKeys, FocusPane,
    Requests, Shortcuts,
};
use markspace::layout::Layout;
use markspace::path::FsPath;
use markspace::registry::WorkspaceRegistry;
use markspace::scan::Node;

fn node(path: &str, is_dir: bool, children: Vec<Node>) -> Node {
    Node::entry(FsPath::parse(path), is_dir, children)
}

fn keys(up: bool, down: bool, left: bool, right: bool) -> ArrowKeys {
    ArrowKeys { up, down, left, right }
}

#[test]
fn arrows_drive_only_the_focused_pane() {
    let mut registry = WorkspaceRegistry::load_from(None, Vec::new());
    registry.open(FsPath::parse("/a"), true);
    registry.open(FsPath::parse("/b"), true);
    let mut tree = FileTree::new(vec![node("/a/x.md", false, Vec::new()), node("/a/y.md", false, Vec::new())]);

    route_arrows(FocusPane::Workspaces, keys(true, false, false, false), &mut registry, &mut tree);
    assert_eq!(registry.active_index(), Some(0));
    assert!(tree.selected().is_none(), "file tree untouched");

    route_arrows(FocusPane::Files, keys(false, true, false, false), &mut registry, &mut tree);
    assert_eq!(tree.selected(), Some(&FsPath::parse("/a/x.md")));
    assert_eq!(registry.active_index(), Some(0), "workspaces untouched");

    route_arrows(FocusPane::Files, keys(false, true, false, false), &mut registry, &mut tree);
    assert_eq!(tree.selected(), Some(&FsPath::parse("/a/y.md")));
}

#[test]
fn right_arrow_in_files_expands_a_folder() {
    let mut registry = WorkspaceRegistry::load_from(None, Vec::new());
    let mut tree = FileTree::new(vec![node("/a/d", true, vec![node("/a/d/f", false, Vec::new())])]);
    tree.select(FsPath::parse("/a/d"));
    route_arrows(FocusPane::Files, keys(false, false, false, true), &mut registry, &mut tree);
    assert!(tree.is_expanded(&FsPath::parse("/a/d")));
    route_arrows(FocusPane::Files, keys(false, false, true, false), &mut registry, &mut tree);
    assert!(!tree.is_expanded(&FsPath::parse("/a/d")));
}

#[test]
fn shortcuts_toggle_the_layout() {
    let mut layout = Layout::new();
    apply_shortcuts(
        &mut layout,
        Shortcuts {
            workspaces_pane: true,
            context_column: false,
            quick_info: true,
            focus_mode: false,
            quick_open: false,
            new_document: false,
        },
    );
    assert!(!layout.show_workspaces_pane);
    assert!(!layout.quick_info_expanded);
    assert!(layout.show_context_column);
    apply_shortcuts(
        &mut layout,
        Shortcuts {
            workspaces_pane: false,
            context_column: false,
            quick_info: false,
            focus_mode: true,
            quick_open: false,
            new_document: false,
        },
    );
    assert!(layout.focus_mode && !layout.show_context_column);
}

fn only(quick_open: bool, new_document: bool) -> Shortcuts {
    Shortcuts {
        workspaces_pane: false,
        context_column: false,
        quick_info: false,
        focus_mode: false,
        quick_open,
        new_document,
    }
}

#[test]
fn palette_and_new_document_shortcuts_are_requests_that_keep_the_layout() {
    let mut layout = Layout::new();
    let req = apply_shortcuts(&mut layout, only(true, false));
    assert_eq!(req, Requests { open_palette: true, new_document: false });
    let req = apply_shortcuts(&mut layout, only(false, true));
    assert_eq!(req, Requests { open_palette: false, new_document: true });
    let req = apply_shortcuts(&mut layout, only(false, false));
    assert_eq!(req, Requests { open_palette: false, new_document: false });
    assert!(layout.workspaces_pane_shown());
    assert!(layout.context_column_shown());
    assert!(layout.quick_info_shown());
    assert!(!layout.in_focus_mode());
}

#[test]
fn clicking_a_folder_selects_and_toggles_it() {
    let mut tree = FileTree::new(vec![node("/a/d", true, vec![node("/a/d/f", false, Vec::new())])]);
    let focus = file_row_clicked(&mut tree, FsPath::parse("/a/d"), true);
    assert_eq!(focus, FocusPane::Files);
    assert_eq!(tree.selected(), Some(&FsPath::parse("/a/d")));
    assert!(tree.is_expanded(&FsPath::parse("/a/d")));
    file_row_clicked(&mut tree, FsPath::parse("/a/d/f"), false);
    assert_eq!(tree.selected(), Some(&FsPath::parse("/a/d/f")));
    assert!(tree.is_expanded(&FsPath::parse("/a/d")));
}

#[test]
fn clicking_a_workspace_activates_it() {
    let mut registry = WorkspaceRegistry::load_from(None, Vec::new());
    registry.open(FsPath::parse("/a"), true);
    registry.open(FsPath::parse("/b"), true);
    assert_eq!(workspace_row_clicked(&mut registry, 0), FocusPane::Workspaces);
    assert_eq!(registry.active_index(), Some(0));
}
