//! The live File Tree's decisions: when to scan a workspace root, whether a
//! delivered scan is an initial load or a live refresh, and how filesystem
//! events coalesce into rescans.
//!
//! The background scan, the filesystem watcher and the repaint callback are
//! I/O and live with the application; it reports events to [`LiveState`] and
//! performs the scans it asks for.

use vstd::prelude::*;

use crate::file_tree::{FileTree, TreeModel};
use crate::path::{FsPath, PathModel};
use crate::scan::Node;

verus! {

/// Whether a delivered scan is an initial load (reset expand/selection) or a
/// live refresh (preserve them).
#[derive(Debug, PartialEq, Eq, Structural, Clone, Copy)]
pub enum ScanKind {
    Initial,
    Refresh,
}

/// The model of the scan-scheduling policy.
pub struct ScanModel {
    /// A scan is in flight.
    pub scanning: bool,
    /// A filesystem change has been seen and not yet rescanned.
    pub dirty: bool,
}

impl ScanModel {
    /// Nothing in flight, nothing pending.
    pub open spec fn idle() -> ScanModel {
        ScanModel { scanning: false, dirty: false }
    }

    /// After a root was opened: an initial scan in flight, no pending change.
    pub open spec fn opened() -> ScanModel {
        ScanModel { scanning: true, dirty: false }
    }

    /// After a filesystem change was observed.
    pub open spec fn marked(self) -> ScanModel {
        ScanModel { scanning: self.scanning, dirty: true }
    }

    /// Whether a refresh is due: a change is pending and no scan is running.
    pub open spec fn refresh_due(self) -> bool {
        self.dirty && !self.scanning
    }

    /// After asking for a refresh: started if due, otherwise unchanged.
    pub open spec fn after_take_refresh(self) -> ScanModel {
        if self.refresh_due() {
            ScanModel { scanning: true, dirty: false }
        } else {
            self
        }
    }

    /// After the in-flight scan delivered.
    pub open spec fn finished(self) -> ScanModel {
        ScanModel { scanning: false, dirty: self.dirty }
    }
}

/// The scan-scheduling policy: pure state, no I/O. Encodes the coalescing rule
/// (a burst of filesystem events collapses to one rescan; never scan while a
/// scan is in flight) and the initial-vs-refresh decision.
pub struct ScanState {
    scanning: bool,
    dirty: bool,
}

impl View for ScanState {
    type V = ScanModel;

    closed spec fn view(&self) -> ScanModel {
        ScanModel { scanning: self.scanning, dirty: self.dirty }
    }
}

impl Default for ScanState {
    fn default() -> (s: ScanState)
        ensures
            s@ == ScanModel::idle(),
    {
        ScanState { scanning: false, dirty: false }
    }
}

impl ScanState {
    /// The active root changed to an actual workspace: launch an initial scan
    /// now, superseding any pending refresh.
    pub fn root_opened(&mut self) -> (kind: ScanKind)
        ensures
            kind == ScanKind::Initial,
            final(self)@ == ScanModel::opened(),
    {
        self.dirty = false;
        self.scanning = true;
        ScanKind::Initial
    }

    /// Whether a scan is in flight.
    pub fn is_scanning(&self) -> (res: bool)
        ensures
            res == self@.scanning,
    {
        self.scanning
    }

    /// A filesystem change was observed under the root.
    pub fn mark_dirty(&mut self)
        ensures
            final(self)@ == old(self)@.marked(),
    {
        self.dirty = true;
    }

    /// Launch a coalesced refresh if a change is pending and no scan is in
    /// flight. Returns the scan to run, or `None`.
    pub fn take_refresh(&mut self) -> (res: Option<ScanKind>)
        ensures
            res == (if old(self)@.refresh_due() {
                Some(ScanKind::Refresh)
            } else {
                None
            }),
            final(self)@ == old(self)@.after_take_refresh(),
    {
        if self.dirty && !self.scanning {
            self.dirty = false;
            self.scanning = true;
            Some(ScanKind::Refresh)
        } else {
            None
        }
    }

    /// The in-flight scan delivered.
    pub fn scan_finished(&mut self)
        ensures
            final(self)@ == old(self)@.finished(),
    {
        self.scanning = false;
    }

    /// The active root was cleared: cancel any pending or in-flight work.
    pub fn root_closed(&mut self)
        ensures
            final(self)@ == ScanModel::idle(),
    {
        self.scanning = false;
        self.dirty = false;
    }
}

/// A burst of filesystem events coalesces into a single rescan: marking is
/// idempotent, and once a refresh has started no second one is due.
pub proof fn law_burst_coalesces_into_one_refresh(s: ScanModel)
    ensures
        s.marked().marked() == s.marked(),
        !s.scanning ==> s.marked().refresh_due(),
        !s.marked().after_take_refresh().refresh_due(),
{
}

/// No refresh starts while a scan is in flight; a change seen meanwhile is
/// rescanned once that scan has finished.
pub proof fn law_no_refresh_while_scanning(s: ScanModel)
    requires
        s.scanning,
    ensures
        !s.refresh_due(),
        s.after_take_refresh() == s,
        s.marked().finished().refresh_due(),
{
}

/// Opening a root supersedes a pending change: once its initial scan has
/// finished, no refresh is due.
pub proof fn law_opening_supersedes_pending_change()
    ensures
        !ScanModel::opened().finished().refresh_due(),
        ScanModel::opened().scanning,
{
}

/// Closing the root cancels pending and in-flight work: nothing is scanning
/// and no refresh is due, whatever changes were pending.
pub proof fn law_closing_cancels_pending_work()
    ensures
        !ScanModel::idle().scanning,
        !ScanModel::idle().refresh_due(),
        ScanModel::idle().after_take_refresh() == ScanModel::idle(),
{
}

/// The application-side state of the live File Tree: the active root, the
/// tree shown for it, the scan policy, and the kind of the scan in flight.
pub struct LiveState {
    root: Option<FsPath>,
    tree: FileTree,
    state: ScanState,
    pending: Option<ScanKind>,
}

/// The model of the live File Tree state.
pub struct LiveModel {
    pub root: Option<PathModel>,
    pub tree: TreeModel,
    pub scan: ScanModel,
    pub pending: Option<ScanKind>,
}

/// What the application must do after the root changed.
#[derive(Debug, PartialEq, Eq, Structural, Clone, Copy)]
pub enum RootChange {
    /// Same root as before: nothing to do.
    Unchanged,
    /// A new root: drop any scan and watcher, start an initial scan of it and
    /// watch it.
    Opened,
    /// No root any more: drop any scan and the watcher.
    Closed,
}

impl View for LiveState {
    type V = LiveModel;

    closed spec fn view(&self) -> LiveModel {
        LiveModel {
            root: match self.root {
                Some(r) => Some(r@),
                None => None,
            },
            tree: self.tree@,
            scan: self.state@,
            pending: self.pending,
        }
    }
}

impl LiveModel {
    /// A scan is pending exactly while the policy says one is in flight.
    pub open spec fn consistent(self) -> bool {
        self.pending is Some <==> self.scan.scanning
    }
}

impl LiveState {
    /// An empty live tree: no root, an empty File Tree, nothing in flight.
    pub fn new() -> (s: LiveState)
        ensures
            s@.root is None,
            s@.tree == TreeModel::fresh(Seq::empty()),
            s@.scan == ScanModel::idle(),
            s@.pending is None,
            s@.consistent(),
    {
        LiveState {
            root: None,
            tree: FileTree::new(Vec::new()),
            state: ScanState::default(),
            pending: None,
        }
    }

    /// Point the live tree at a workspace root (or `None`). Nothing changes
    /// when the root is the same; otherwise the tree is reset and, for a new
    /// root, an initial scan becomes pending.
    pub fn set_root(&mut self, root: Option<FsPath>) -> (change: RootChange)
        ensures
            old(self)@.consistent() ==> final(self)@.consistent(),
            match root {
                Some(r) => if old(self)@.root == Some(r@) {
                    change == RootChange::Unchanged && final(self)@ == old(self)@
                } else {
                    &&& change == RootChange::Opened
                    &&& final(self)@.root == Some(r@)
                    &&& final(self)@.tree == TreeModel::fresh(Seq::empty())
                    &&& final(self)@.scan == ScanModel::opened()
                    &&& final(self)@.pending == Some(ScanKind::Initial)
                },
                None => if old(self)@.root is None {
                    change == RootChange::Unchanged && final(self)@ == old(self)@
                } else {
                    &&& change == RootChange::Closed
                    &&& final(self)@.root is None
                    &&& final(self)@.tree == TreeModel::fresh(Seq::empty())
                    &&& final(self)@.scan == ScanModel::idle()
                    &&& final(self)@.pending is None
                },
            },
    {
        let same = match (&root, &self.root) {
            (Some(a), Some(b)) => a.same_as(b),
            (None, None) => true,
            _ => false,
        };
        if same {
            return RootChange::Unchanged;
        }
        let opened = root.is_some();
        self.root = root;
        self.tree = FileTree::new(Vec::new());
        if opened {
            let mut state = ScanState::default();
            std::mem::swap(&mut state, &mut self.state);
            let kind = state.root_opened();
            self.pending = Some(kind);
            self.state = state;
            RootChange::Opened
        } else {
            let mut state = ScanState::default();
            std::mem::swap(&mut state, &mut self.state);
            state.root_closed();
            self.pending = None;
            self.state = state;
            RootChange::Closed
        }
    }

    /// The watcher reported a filesystem change under the root.
    pub fn watch_event(&mut self)
        ensures
            old(self)@.consistent() ==> final(self)@.consistent(),
            final(self)@.root == old(self)@.root,
            final(self)@.tree == old(self)@.tree,
            final(self)@.scan == old(self)@.scan.marked(),
            final(self)@.pending == old(self)@.pending,
    {
        let mut state = ScanState::default();
        std::mem::swap(&mut state, &mut self.state);
        state.mark_dirty();
        self.state = state;
    }

    /// The coalesced refresh to launch now, if one is due and there is a
    /// root: the root to rescan, as a refresh. It becomes the pending scan.
    pub fn refresh_due(&mut self) -> (res: Option<(FsPath, ScanKind)>)
        ensures
            old(self)@.consistent() ==> final(self)@.consistent(),
            final(self)@.root == old(self)@.root,
            final(self)@.tree == old(self)@.tree,
            match old(self)@.root {
                Some(r) => if old(self)@.scan.refresh_due() {
                    &&& res matches Some((p, kind)) && p@ == r && kind == ScanKind::Refresh
                    &&& final(self)@.scan == old(self)@.scan.after_take_refresh()
                    &&& final(self)@.pending == Some(ScanKind::Refresh)
                } else {
                    res is None && final(self)@ == old(self)@
                },
                None => res is None && final(self)@ == old(self)@,
            },
    {
        let root = match &self.root {
            Some(r) => r.duplicate(),
            None => return None,
        };
        let mut state = ScanState::default();
        std::mem::swap(&mut state, &mut self.state);
        let taken = state.take_refresh();
        match taken {
            Some(kind) => {
                self.pending = Some(kind);
                self.state = state;
                Some((root, kind))
            },
            None => {
                self.state = state;
                None
            },
        }
    }

    /// The pending scan delivered `nodes`: an initial load replaces the tree
    /// (expansion and selection reset), a refresh updates it (kept where the
    /// paths survive). Nothing is pending afterwards.
    pub fn scan_delivered(&mut self, nodes: Vec<Node>)
        ensures
            final(self)@.consistent(),
            final(self)@.root == old(self)@.root,
            final(self)@.tree == (if old(self)@.pending == Some(ScanKind::Initial) {
                TreeModel::fresh(nodes@)
            } else {
                old(self)@.tree.updated(nodes@)
            }),
            final(self)@.scan == old(self)@.scan.finished(),
            final(self)@.pending is None,
    {
        let initial = match self.pending {
            Some(ScanKind::Initial) => true,
            _ => false,
        };
        if initial {
            self.tree = FileTree::new(nodes);
        } else {
            let mut tree = FileTree::new(Vec::new());
            std::mem::swap(&mut tree, &mut self.tree);
            tree.update_roots(nodes);
            self.tree = tree;
        }
        let mut state = ScanState::default();
        std::mem::swap(&mut state, &mut self.state);
        state.scan_finished();
        self.pending = None;
        self.state = state;
    }

    /// The current File Tree (read-only).
    pub fn tree(&self) -> (t: &FileTree)
        ensures
            t@ == self@.tree,
    {
        &self.tree
    }

    /// The current File Tree, for selection and navigation.
    pub fn tree_mut(&mut self) -> (t: &mut FileTree)
        ensures
            t@ == old(self)@.tree,
            final(self)@.tree == final(t)@,
            final(self)@.root == old(self)@.root,
            final(self)@.scan == old(self)@.scan,
            final(self)@.pending == old(self)@.pending,
    {
        &mut self.tree
    }

    /// Whether a scan is currently in flight (for a "Scanning…" indicator).
    pub fn is_scanning(&self) -> (res: bool)
        ensures
            res == self@.scan.scanning,
    {
        self.state.is_scanning()
    }

    /// The kind of the scan in flight, if any.
    pub fn pending_scan(&self) -> (res: Option<ScanKind>)
        ensures
            res == self@.pending,
    {
        self.pending
    }
}

} // verus!
