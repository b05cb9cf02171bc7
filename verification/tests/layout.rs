use markspace::layout::Layout;

#[test]
fn new_layout_uses_prd_default_visibility() {
    let layout = Layout::new();

    assert!(layout.show_workspaces_pane, "workspaces pane visible by default");
    assert!(layout.show_context_column, "context column visible by default");
    assert!(layout.quick_info_expanded, "quick info expanded by default");
    assert!(!layout.focus_mode, "focus mode off by default");
}

#[test]
fn toggle_workspaces_pane_flips_visibility() {
    let mut layout = Layout::new();

    layout.toggle_workspaces_pane();
    assert!(!layout.show_workspaces_pane);

    layout.toggle_workspaces_pane();
    assert!(layout.show_workspaces_pane);
}

#[test]
fn toggle_context_column_flips_visibility() {
    let mut layout = Layout::new();

    layout.toggle_context_column();
    assert!(!layout.show_context_column);

    layout.toggle_context_column();
    assert!(layout.show_context_column);
}

#[test]
fn toggle_quick_info_flips_expanded() {
    let mut layout = Layout::new();

    layout.toggle_quick_info();
    assert!(!layout.quick_info_expanded);

    layout.toggle_quick_info();
    assert!(layout.quick_info_expanded);
}

#[test]
fn entering_focus_mode_hides_both_panes() {
    let mut layout = Layout::new();

    layout.toggle_focus_mode();

    assert!(layout.focus_mode);
    assert!(!layout.show_workspaces_pane);
    assert!(!layout.show_context_column);
}

#[test]
fn exiting_focus_mode_restores_prior_pane_state() {
    let mut layout = Layout::new();
    // Workspaces pane hidden before focus mode; context column left visible.
    layout.toggle_workspaces_pane();

    layout.toggle_focus_mode(); // enter — both hidden
    layout.toggle_focus_mode(); // exit — restore snapshot

    assert!(!layout.focus_mode);
    assert!(!layout.show_workspaces_pane, "was hidden before, stays hidden");
    assert!(layout.show_context_column, "was visible before, restored");
}

#[test]
fn focus_mode_round_trips_from_defaults() {
    let mut layout = Layout::new();

    layout.toggle_focus_mode();
    assert!(layout.focus_mode);

    layout.toggle_focus_mode();
    assert!(!layout.focus_mode);
    assert!(layout.show_workspaces_pane);
    assert!(layout.show_context_column);
}

#[test]
fn default_layout_matches_new() {
    let layout = Layout::default();
    assert!(layout.show_workspaces_pane && layout.show_context_column);
    assert!(layout.quick_info_expanded && !layout.focus_mode);
}

#[test]
fn focus_mode_keeps_quick_info_and_restores_after_pane_toggle_inside() {
    let mut layout = Layout::new();
    layout.toggle_quick_info();
    layout.toggle_focus_mode();
    // A pane shown while in focus mode is overridden by the snapshot on exit.
    layout.toggle_context_column();
    assert!(layout.show_context_column);
    layout.toggle_focus_mode();
    assert!(!layout.quick_info_expanded);
    assert!(layout.show_workspaces_pane);
    assert!(layout.show_context_column);
    assert!(!layout.focus_mode);
}
