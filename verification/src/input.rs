//! Routing of keyboard and pointer input to the state types: which pane the
//! arrow keys drive, the keyboard shortcuts, and File Tree clicks.
//!
//! Reading the keys and the pointer is the GUI's job; it reports what was
//! pressed or clicked, and these functions apply it.

use vstd::prelude::*;

use crate::file_tree::{FileTree, TreeModel};
use crate::layout::{Layout, LayoutModel};
use crate::path::FsPath;
use crate::registry::WorkspaceRegistry;
use crate::workspace::ListModel;

verus! {

/// Which pane the arrow keys currently drive.
#[derive(Debug, PartialEq, Eq, Structural, Clone, Copy)]
pub enum FocusPane {
    Workspaces,
    Files,
}

/// The arrow keys pressed this frame.
#[derive(Debug, PartialEq, Eq, Structural, Clone, Copy)]
pub struct ArrowKeys {
    pub up: bool,
    pub down: bool,
    pub left: bool,
    pub right: bool,
}

/// The layout shortcuts pressed this frame.
#[derive(Debug, PartialEq, Eq, Structural, Clone, Copy)]
pub struct Shortcuts {
    /// `Cmd/Ctrl + 1`.
    pub workspaces_pane: bool,
    /// `Cmd/Ctrl + 2`.
    pub context_column: bool,
    /// `Cmd/Ctrl + I`.
    pub quick_info: bool,
    /// `Cmd/Ctrl + Shift + F`.
    pub focus_mode: bool,
    /// `Cmd/Ctrl + P`: the quick-open file palette.
    pub quick_open: bool,
    /// `Cmd/Ctrl + N`: a new markdown document.
    pub new_document: bool,
}

/// The commands the shortcuts ask the application to carry out this frame,
/// beyond the layout toggles it applies itself.
#[derive(Debug, PartialEq, Eq, Structural, Clone, Copy)]
pub struct Requests {
    /// Open the quick-open file palette (see `commands::palette_matches`).
    pub open_palette: bool,
    /// Create a new markdown document (see `commands::new_document_dir`).
    pub new_document: bool,
}

/// The File Tree after the arrows: up, then down, then left, then right.
pub open spec fn tree_after_arrows(t: TreeModel, keys: ArrowKeys) -> TreeModel {
    let t1 = if keys.up {
        t.selected_prev()
    } else {
        t
    };
    let t2 = if keys.down {
        t1.selected_next()
    } else {
        t1
    };
    let t3 = if keys.left {
        t2.moved_left()
    } else {
        t2
    };
    if keys.right {
        t3.moved_right()
    } else {
        t3
    }
}

/// The workspace list after the arrows: up, then down (left and right do
/// nothing there).
pub open spec fn list_after_arrows(l: ListModel, keys: ArrowKeys) -> ListModel {
    let l1 = if keys.up {
        l.selected_prev()
    } else {
        l
    };
    if keys.down {
        l1.selected_next()
    } else {
        l1
    }
}

/// The layout after the shortcuts, applied in the order listed.
pub open spec fn layout_after_shortcuts(l: LayoutModel, keys: Shortcuts) -> LayoutModel {
    let l1 = if keys.workspaces_pane {
        l.workspaces_pane_toggled()
    } else {
        l
    };
    let l2 = if keys.context_column {
        l1.context_column_toggled()
    } else {
        l1
    };
    let l3 = if keys.quick_info {
        l2.quick_info_toggled()
    } else {
        l2
    };
    if keys.focus_mode {
        l3.focus_toggled()
    } else {
        l3
    }
}

/// Route the arrow keys to the focused pane: the Workspaces Pane moves the
/// active workspace up/down; the File Tree moves the selection and
/// expands/collapses. The other pane is left alone.
pub fn route_arrows(
    focus: FocusPane,
    keys: ArrowKeys,
    workspaces: &mut WorkspaceRegistry,
    tree: &mut FileTree,
)
    ensures
        match focus {
            FocusPane::Workspaces => {
                &&& final(workspaces)@.list == list_after_arrows(old(workspaces)@.list, keys)
                &&& final(workspaces)@.path == old(workspaces)@.path
                &&& final(tree)@ == old(tree)@
            },
            FocusPane::Files => {
                &&& final(workspaces)@ == old(workspaces)@
                &&& final(tree)@ == tree_after_arrows(old(tree)@, keys)
            },
        },
{
    match focus {
        FocusPane::Workspaces => {
            if keys.up {
                workspaces.select_prev();
            }
            if keys.down {
                workspaces.select_next();
            }
        },
        FocusPane::Files => {
            if keys.up {
                tree.select_prev();
            }
            if keys.down {
                tree.select_next();
            }
            if keys.left {
                tree.move_left();
            }
            if keys.right {
                tree.move_right();
            }
        },
    }
}

/// Apply the shortcuts pressed this frame: the layout toggles change
/// `layout`; the palette and new-document shortcuts are handed back as
/// requests, and change no layout.
pub fn apply_shortcuts(layout: &mut Layout, keys: Shortcuts) -> (req: Requests)
    ensures
        final(layout)@ == layout_after_shortcuts(old(layout)@, keys),
        req == (Requests { open_palette: keys.quick_open, new_document: keys.new_document }),
{
    if keys.workspaces_pane {
        layout.toggle_workspaces_pane();
    }
    if keys.context_column {
        layout.toggle_context_column();
    }
    if keys.quick_info {
        layout.toggle_quick_info();
    }
    if keys.focus_mode {
        layout.toggle_focus_mode();
    }
    Requests { open_palette: keys.quick_open, new_document: keys.new_document }
}

/// A File Tree row was clicked: select it, and expand or collapse it when it
/// is a directory. The arrow keys then drive the File Tree.
pub fn file_row_clicked(tree: &mut FileTree, path: FsPath, is_dir: bool) -> (focus: FocusPane)
    ensures
        focus == FocusPane::Files,
        final(tree)@ == if is_dir {
            old(tree)@.with_selected(Some(path@)).toggled(path@)
        } else {
            old(tree)@.with_selected(Some(path@))
        },
{
    if is_dir {
        let again = path.duplicate();
        tree.select(path);
        tree.toggle_expanded(&again);
    } else {
        tree.select(path);
    }
    FocusPane::Files
}

/// A Workspaces Pane row was clicked: make it active. The arrow keys then
/// drive the Workspaces Pane.
pub fn workspace_row_clicked(workspaces: &mut WorkspaceRegistry, index: usize) -> (focus: FocusPane)
    ensures
        focus == FocusPane::Workspaces,
        final(workspaces)@.list == old(workspaces)@.list.selected(index as int),
        final(workspaces)@.path == old(workspaces)@.path,
{
    workspaces.select(index);
    FocusPane::Workspaces
}

} // verus!
