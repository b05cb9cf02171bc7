//! Panel layout state machine: which panels are drawn, and focus mode.
//!
//! The application reads this to decide which panels to draw and wires the
//! keyboard shortcuts to its toggle methods.

use vstd::prelude::*;

verus! {

/// Visibility and layout state for the panels.
pub struct Layout {
    /// Far-left workspaces pane, listing open workspaces (`Cmd/Ctrl + 1`).
    pub show_workspaces_pane: bool,
    /// Far-right context column: file tree + quick info (`Cmd/Ctrl + 2`).
    pub show_context_column: bool,
    /// Quick info sub-panel expanded vs collapsed to status bar (`Cmd/Ctrl + I`).
    pub quick_info_expanded: bool,
    /// Focus mode: both side panels collapsed (`Cmd/Ctrl + Shift + F`).
    pub focus_mode: bool,
    /// Snapshot of `(show_workspaces_pane, show_context_column)` taken on
    /// entering focus mode, restored on exit. `None` when not in focus mode.
    focus_snapshot: Option<(bool, bool)>,
}

/// The model of a layout: the four visible flags and the saved pane
/// visibility held while in focus mode.
pub struct LayoutModel {
    pub show_workspaces_pane: bool,
    pub show_context_column: bool,
    pub quick_info_expanded: bool,
    pub focus_mode: bool,
    pub saved_panes: Option<(bool, bool)>,
}

impl LayoutModel {
    /// The default panel visibility: every panel shown, quick info expanded,
    /// focus mode off.
    pub open spec fn initial() -> LayoutModel {
        LayoutModel {
            show_workspaces_pane: true,
            show_context_column: true,
            quick_info_expanded: true,
            focus_mode: false,
            saved_panes: None,
        }
    }

    /// The workspaces pane flipped.
    pub open spec fn workspaces_pane_toggled(self) -> LayoutModel {
        LayoutModel { show_workspaces_pane: !self.show_workspaces_pane, ..self }
    }

    /// The context column flipped.
    pub open spec fn context_column_toggled(self) -> LayoutModel {
        LayoutModel { show_context_column: !self.show_context_column, ..self }
    }

    /// Quick info flipped between expanded and collapsed.
    pub open spec fn quick_info_toggled(self) -> LayoutModel {
        LayoutModel { quick_info_expanded: !self.quick_info_expanded, ..self }
    }

    /// Focus mode toggled: entering saves both side panes' visibility and
    /// hides them; exiting restores what was saved.
    pub open spec fn focus_toggled(self) -> LayoutModel {
        match self.saved_panes {
            None => LayoutModel {
                show_workspaces_pane: false,
                show_context_column: false,
                quick_info_expanded: self.quick_info_expanded,
                focus_mode: true,
                saved_panes: Some((self.show_workspaces_pane, self.show_context_column)),
            },
            Some((workspaces, context)) => LayoutModel {
                show_workspaces_pane: workspaces,
                show_context_column: context,
                quick_info_expanded: self.quick_info_expanded,
                focus_mode: false,
                saved_panes: None,
            },
        }
    }
}

impl View for Layout {
    type V = LayoutModel;

    closed spec fn view(&self) -> LayoutModel {
        LayoutModel {
            show_workspaces_pane: self.show_workspaces_pane,
            show_context_column: self.show_context_column,
            quick_info_expanded: self.quick_info_expanded,
            focus_mode: self.focus_mode,
            saved_panes: self.focus_snapshot,
        }
    }
}

impl Layout {
    /// Whether the workspaces pane is shown.
    pub fn workspaces_pane_shown(&self) -> (b: bool)
        ensures
            b == self@.show_workspaces_pane,
    {
        self.show_workspaces_pane
    }

    /// Whether the context column is shown.
    pub fn context_column_shown(&self) -> (b: bool)
        ensures
            b == self@.show_context_column,
    {
        self.show_context_column
    }

    /// Whether quick info is expanded (rather than collapsed to a status bar).
    pub fn quick_info_shown(&self) -> (b: bool)
        ensures
            b == self@.quick_info_expanded,
    {
        self.quick_info_expanded
    }

    /// Whether focus mode is on.
    pub fn in_focus_mode(&self) -> (b: bool)
        ensures
            b == self@.focus_mode,
    {
        self.focus_mode
    }

    /// A layout with the default panel visibility: every panel shown, quick
    /// info expanded, focus mode off.
    pub fn new() -> (l: Layout)
        ensures
            l@ == LayoutModel::initial(),
    {
        Layout {
            show_workspaces_pane: true,
            show_context_column: true,
            quick_info_expanded: true,
            focus_mode: false,
            focus_snapshot: None,
        }
    }

    /// Toggle the far-left workspaces pane.
    pub fn toggle_workspaces_pane(&mut self)
        ensures
            final(self)@ == old(self)@.workspaces_pane_toggled(),
    {
        self.show_workspaces_pane = !self.show_workspaces_pane;
    }

    /// Toggle the far-right context column.
    pub fn toggle_context_column(&mut self)
        ensures
            final(self)@ == old(self)@.context_column_toggled(),
    {
        self.show_context_column = !self.show_context_column;
    }

    /// Toggle the quick info sub-panel between expanded and collapsed.
    pub fn toggle_quick_info(&mut self)
        ensures
            final(self)@ == old(self)@.quick_info_toggled(),
    {
        self.quick_info_expanded = !self.quick_info_expanded;
    }

    /// Toggle focus mode. Entering snapshots both side panels' visibility and
    /// hides them; exiting restores the snapshot (a pane hidden beforehand
    /// stays hidden).
    pub fn toggle_focus_mode(&mut self)
        ensures
            final(self)@ == old(self)@.focus_toggled(),
    {
        match self.focus_snapshot.take() {
            None => {
                self.focus_snapshot = Some((self.show_workspaces_pane, self.show_context_column));
                self.show_workspaces_pane = false;
                self.show_context_column = false;
                self.focus_mode = true;
            },
            Some((workspaces, context)) => {
                self.show_workspaces_pane = workspaces;
                self.show_context_column = context;
                self.focus_mode = false;
            },
        }
    }
}

impl Default for Layout {
    fn default() -> (l: Layout)
        ensures
            l@ == LayoutModel::initial(),
    {
        Layout::new()
    }
}

/// Leaving focus mode restores the panes exactly as they were before it was
/// entered: two toggles from outside focus mode give back the same layout.
pub proof fn law_focus_mode_round_trip(l: LayoutModel)
    requires
        l.saved_panes is None,
        !l.focus_mode,
    ensures
        l.focus_toggled().focus_toggled() == l,
{
}

/// Entering focus mode hides both side panels and saves their visibility
/// from just before.
pub proof fn law_entering_focus_mode_hides_both_panes(l: LayoutModel)
    requires
        l.saved_panes is None,
    ensures
        l.focus_toggled().focus_mode,
        !l.focus_toggled().show_workspaces_pane,
        !l.focus_toggled().show_context_column,
        l.focus_toggled().saved_panes == Some((l.show_workspaces_pane, l.show_context_column)),
        l.focus_toggled().quick_info_expanded == l.quick_info_expanded,
{
}

/// Focus mode is on exactly while a snapshot is held; every toggle keeps
/// this true, and the initial layout satisfies it.
pub proof fn law_focus_flag_tracks_snapshot(l: LayoutModel)
    ensures
        LayoutModel::initial().focus_mode == LayoutModel::initial().saved_panes is Some,
        l.focus_mode == l.saved_panes is Some ==> {
            &&& l.focus_toggled().focus_mode == l.focus_toggled().saved_panes is Some
            &&& l.workspaces_pane_toggled().focus_mode
                == l.workspaces_pane_toggled().saved_panes is Some
            &&& l.context_column_toggled().focus_mode
                == l.context_column_toggled().saved_panes is Some
            &&& l.quick_info_toggled().focus_mode == l.quick_info_toggled().saved_panes is Some
        },
{
}

/// Each pane toggle undoes itself.
pub proof fn law_pane_toggles_are_involutions(l: LayoutModel)
    ensures
        l.workspaces_pane_toggled().workspaces_pane_toggled() == l,
        l.context_column_toggled().context_column_toggled() == l,
        l.quick_info_toggled().quick_info_toggled() == l,
{
}

/// Leaving focus mode sets both side panes to exactly what they were when
/// focus mode was entered, whatever they were switched to in the meantime.
pub proof fn law_leaving_focus_mode_restores_the_saved_panes(
    l: LayoutModel,
    workspaces_inside: bool,
    context_inside: bool,
)
    requires
        l.saved_panes is None,
    ensures
        ({
            let inside = LayoutModel {
                show_workspaces_pane: workspaces_inside,
                show_context_column: context_inside,
                ..l.focus_toggled()
            };
            &&& inside.focus_toggled().show_workspaces_pane == l.show_workspaces_pane
            &&& inside.focus_toggled().show_context_column == l.show_context_column
            &&& inside.focus_toggled().quick_info_expanded == l.quick_info_expanded
            &&& !inside.focus_toggled().focus_mode
            &&& inside.focus_toggled().saved_panes is None
        }),
{
}

} // verus!
