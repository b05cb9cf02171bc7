use markspace::file_tree::FileTree;
use markspace::live_tree::{LiveState, RootChange, ScanKind, ScanState};
use markspace::path::FsPath;
use markspace::scan::Node;

#[test]
fn opening_a_root_requests_an_initial_scan() {
    let mut state = ScanState::default();

    let kind = state.root_opened();

    assert_eq!(kind, ScanKind::Initial);
    assert!(state.is_scanning());
}

#[test]
fn a_burst_of_events_coalesces_into_one_refresh() {
    let mut state = ScanState::default();

    state.mark_dirty();
    state.mark_dirty();
    state.mark_dirty();

    assert_eq!(state.take_refresh(), Some(ScanKind::Refresh));
    assert_eq!(state.take_refresh(), None, "burst collapsed to a single rescan");
}

#[test]
fn no_refresh_while_a_scan_is_in_flight() {
    let mut state = ScanState::default();
    state.root_opened(); // initial scan now in flight
    state.mark_dirty(); // change arrives mid-scan

    assert_eq!(state.take_refresh(), None, "must not scan while one is running");

    state.scan_finished();
    assert_eq!(
        state.take_refresh(),
        Some(ScanKind::Refresh),
        "pending change scanned once the in-flight scan completes"
    );
}

#[test]
fn opening_a_root_supersedes_a_pending_change() {
    let mut state = ScanState::default();
    state.mark_dirty(); // a stale change from a previous root

    state.root_opened(); // fresh initial scan will cover current state
    state.scan_finished();

    assert_eq!(
        state.take_refresh(),
        None,
        "the initial scan already reflects the current tree; no extra refresh"
    );
}

#[test]
fn closing_the_root_cancels_pending_work() {
    let mut state = ScanState::default();
    state.root_opened();
    state.mark_dirty();

    state.root_closed();

    assert!(!state.is_scanning());
    assert_eq!(state.take_refresh(), None, "no scan without a workspace");
}

fn file(path: &str, name: &str) -> Node {
    Node {
        name: name.to_string(),
        path: FsPath::parse(path),
        is_dir: false,
        children: Vec::new(),
    }
}

fn dir(path: &str, name: &str, children: Vec<Node>) -> Node {
    Node {
        name: name.to_string(),
        path: FsPath::parse(path),
        is_dir: true,
        children,
    }
}

fn names(tree: &FileTree) -> Vec<String> {
    tree.visible_rows().iter().map(|r| r.node.name.clone()).collect()
}

#[test]
fn live_state_initial_scan_then_refresh_keeps_expansion() {
    let mut live = LiveState::new();
    assert_eq!(live.set_root(Some(FsPath::parse("/w"))), RootChange::Opened);
    assert!(live.is_scanning());
    assert_eq!(live.pending_scan(), Some(ScanKind::Initial));
    assert_eq!(live.refresh_due(), None, "no refresh while the initial scan runs");

    live.scan_delivered(vec![dir("/w/src", "src", vec![file("/w/src/a.md", "a.md")])]);
    assert!(!live.is_scanning());
    live.tree_mut().toggle_expanded(&FsPath::parse("/w/src"));
    assert_eq!(names(live.tree()), ["src", "a.md"]);

    live.watch_event();
    live.watch_event();
    let due = live.refresh_due();
    assert_eq!(due.map(|(p, k)| (p.display(), k)), Some(("/w".to_string(), ScanKind::Refresh)));
    assert_eq!(live.refresh_due(), None, "events coalesced into one refresh");

    live.scan_delivered(vec![dir(
        "/w/src",
        "src",
        vec![file("/w/src/a.md", "a.md"), file("/w/src/b.md", "b.md")],
    )]);
    assert_eq!(names(live.tree()), ["src", "a.md", "b.md"], "refresh keeps expansion");
}

#[test]
fn live_state_same_root_is_a_no_op_and_none_closes() {
    let mut live = LiveState::new();
    assert_eq!(live.set_root(None), RootChange::Unchanged);
    assert_eq!(live.set_root(Some(FsPath::parse("/w"))), RootChange::Opened);
    assert_eq!(live.set_root(Some(FsPath::parse("/w"))), RootChange::Unchanged);
    assert_eq!(live.set_root(None), RootChange::Closed);
    assert!(!live.is_scanning());
    live.watch_event();
    assert_eq!(live.refresh_due(), None, "no refresh without a root");
}

#[test]
fn live_state_switching_root_resets_the_tree() {
    let mut live = LiveState::new();
    live.set_root(Some(FsPath::parse("/w")));
    live.scan_delivered(vec![file("/w/a.md", "a.md")]);
    assert_eq!(names(live.tree()), ["a.md"]);
    assert_eq!(live.set_root(Some(FsPath::parse("/v"))), RootChange::Opened);
    assert!(live.tree().visible_rows().is_empty());
    assert_eq!(live.pending_scan(), Some(ScanKind::Initial));
}
