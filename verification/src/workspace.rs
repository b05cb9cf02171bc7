//! A workspace: an opened folder (a directory root), and the list of recently
//! opened workspaces with one selected as active.
//!
//! Whether a path is a directory is a question for the filesystem; the
//! caller asks it and passes the answer in, and the list decides the rest.

use vstd::prelude::*;

use crate::path::{file_name_of, lemma_paths_push, paths_model, FsPath, PathModel};
use vstd::std_specs::iter::IteratorSpec;

verus! {

/// An open workspace: a directory root whose contents feed the File Tree.
pub struct Workspace {
    pub root: FsPath,
}

/// The name shown for a workspace rooted at `root`: the root's final
/// component, or the root's whole text when it has none (a filesystem root).
pub open spec fn workspace_name(root: FsPath) -> Seq<char> {
    match file_name_of(root@) {
        Some(n) => n,
        None => root.text@,
    }
}

impl Workspace {
    /// Open `path` as a workspace, or `None` if it isn't a directory
    /// (`is_dir` tells whether it is), so a dropped file or a bad path is
    /// ignored rather than crashing.
    pub fn open(path: FsPath, is_dir: bool) -> (w: Option<Workspace>)
        ensures
            match w {
                Some(w) => is_dir && w.root == path,
                None => !is_dir,
            },
    {
        if is_dir {
            Some(Workspace { root: path })
        } else {
            None
        }
    }

    /// Display name for the Workspaces Pane: the root's final path component,
    /// falling back to the full path (e.g. for a filesystem root).
    pub fn name(&self) -> (n: String)
        ensures
            n@ == workspace_name(self.root),
    {
        match self.root.file_name() {
            Some(n) => n,
            None => self.root.display(),
        }
    }
}

/// Maximum recent workspaces kept in the list / persisted.
pub const MAX_RECENT: usize = 20;

/// The roots of a list of workspaces.
pub open spec fn roots_of(ws: Seq<Workspace>) -> Seq<PathModel> {
    ws.map_values(|w: Workspace| w.root@)
}

/// No root occurs twice.
pub open spec fn distinct_roots(roots: Seq<PathModel>) -> bool {
    forall|i: int, j: int| 0 <= i < j < roots.len() ==> roots[i] != roots[j]
}

/// The model of the workspace list: the roots in list order and the index of
/// the active one.
pub struct ListModel {
    pub roots: Seq<PathModel>,
    pub active: Option<int>,
}

impl ListModel {
    /// The empty list with nothing active.
    pub open spec fn empty() -> ListModel {
        ListModel { roots: Seq::empty(), active: None }
    }

    /// Well-formed: distinct roots, at most `MAX_RECENT` of them, and the
    /// active index in range.
    pub open spec fn valid(self) -> bool {
        &&& distinct_roots(self.roots)
        &&& self.roots.len() <= MAX_RECENT
        &&& match self.active {
            Some(i) => 0 <= i < self.roots.len(),
            None => true,
        }
    }

    /// The roots after opening `p`: unchanged if already there, else `p`
    /// appended, dropping the oldest (first) root beyond `MAX_RECENT`.
    pub open spec fn roots_with(self, p: PathModel) -> Seq<PathModel> {
        if self.roots.contains(p) {
            self.roots
        } else if self.roots.len() + 1 > MAX_RECENT {
            self.roots.push(p).drop_first()
        } else {
            self.roots.push(p)
        }
    }

    /// The index of `p` among the roots after opening it.
    pub open spec fn index_after_open(self, p: PathModel) -> int {
        if self.roots.contains(p) {
            choose|i: int| 0 <= i < self.roots.len() && self.roots[i] == p
        } else {
            self.roots_with(p).len() - 1
        }
    }

    /// After opening `p` (a directory when `is_dir`): it is in the list and
    /// active; a non-directory changes nothing.
    pub open spec fn opened(self, p: PathModel, is_dir: bool) -> ListModel {
        if is_dir {
            ListModel { roots: self.roots_with(p), active: Some(self.index_after_open(p)) }
        } else {
            self
        }
    }

    /// After selecting `index`: active if in range, otherwise unchanged.
    pub open spec fn selected(self, index: int) -> ListModel {
        if 0 <= index < self.roots.len() {
            ListModel { roots: self.roots, active: Some(index) }
        } else {
            self
        }
    }

    /// "Down": the next workspace (clamped at the last); the first when
    /// nothing is active.
    pub open spec fn selected_next(self) -> ListModel {
        match self.active {
            Some(i) => self.selected(
                if i + 1 < self.roots.len() {
                    i + 1
                } else if self.roots.len() > 0 {
                    self.roots.len() - 1
                } else {
                    0
                },
            ),
            None => if self.roots.len() > 0 {
                self.selected(0)
            } else {
                self
            },
        }
    }

    /// "Up": the previous workspace (clamped at the first); the first when
    /// nothing is active.
    pub open spec fn selected_prev(self) -> ListModel {
        match self.active {
            Some(i) => self.selected(
                if i > 0 {
                    i - 1
                } else {
                    0
                },
            ),
            None => if self.roots.len() > 0 {
                self.selected(0)
            } else {
                self
            },
        }
    }
}

/// The roots restored from `paths` (each with whether it is a directory):
/// every directory opened in turn.
pub open spec fn restored_roots(paths: Seq<(PathModel, bool)>) -> Seq<PathModel>
    decreases paths.len(),
{
    if paths.len() == 0 {
        Seq::empty()
    } else {
        let before = ListModel { roots: restored_roots(paths.drop_last()), active: None };
        before.opened(paths.last().0, paths.last().1).roots
    }
}

/// The models of the pairs handed to `from_paths`.
pub open spec fn candidates_model(paths: Seq<(FsPath, bool)>) -> Seq<(PathModel, bool)> {
    paths.map_values(|c: (FsPath, bool)| (c.0@, c.1))
}

/// The set of open workspaces, with one selected as active.
pub struct WorkspaceList {
    items: Vec<Workspace>,
    active: Option<usize>,
}

impl View for WorkspaceList {
    type V = ListModel;

    closed spec fn view(&self) -> ListModel {
        ListModel {
            roots: roots_of(self.items@),
            active: match self.active {
                Some(i) => Some(i as int),
                None => None,
            },
        }
    }
}

/// Appending a workspace appends its root.
proof fn lemma_roots_push(ws: Seq<Workspace>, w: Workspace)
    ensures
        roots_of(ws.push(w)) == roots_of(ws).push(w.root@),
{
    assert(roots_of(ws.push(w)) =~= roots_of(ws).push(w.root@));
}

impl WorkspaceList {
    #[verifier::type_invariant]
    spec fn inv(&self) -> bool {
        self@.valid()
    }

    /// An empty list with no active workspace.
    pub fn new() -> (l: WorkspaceList)
        ensures
            l@ == ListModel::empty(),
    {
        let l = WorkspaceList { items: Vec::new(), active: None };
        proof {
            assert(l@.roots =~= Seq::<PathModel>::empty());
        }
        l
    }

    /// The index of the workspace rooted at `path`, if open.
    fn position(&self, path: &FsPath) -> (res: Option<usize>)
        ensures
            match res {
                Some(i) => i < self@.roots.len() && self@.roots[i as int] == path@,
                None => !self@.roots.contains(path@),
            },
    {
        let mut i: usize = 0;
        while i < self.items.len()
            invariant
                i <= self.items@.len(),
                forall|j: int| 0 <= j < i ==> self@.roots[j] != path@,
            decreases self.items@.len() - i,
        {
            proof {
                assert(self@.roots[i as int] == self.items@[i as int].root@);
            }
            if self.items[i].root.same_as(path) {
                return Some(i);
            }
            i = i + 1;
        }
        None
    }

    /// Open `path` as a workspace (`is_dir` tells whether it is a directory):
    /// add it if not already open, and make it active. Returns `false` (and
    /// changes nothing) for a non-directory.
    pub fn open(&mut self, path: FsPath, is_dir: bool) -> (opened: bool)
        ensures
            opened == is_dir,
            final(self)@ == old(self)@.opened(path@, is_dir),
            old(self)@.valid(),
            final(self)@.valid(),
    {
        proof {
            use_type_invariant(&*self);
        }
        if !is_dir {
            return false;
        }
        let index = match self.position(&path) {
            Some(i) => {
                proof {
                    let k = choose|k: int|
                        0 <= k < self@.roots.len() && self@.roots[k] == path@;
                    assert(k == i as int);
                }
                i
            },
            None => {
                let ghost before = self.items@;
                let mut list: Vec<Workspace> = Vec::new();
                self.active = None;
                std::mem::swap(&mut list, &mut self.items);
                let ghost p = path@;
                let w = Workspace { root: path };
                proof {
                    lemma_roots_push(list@, w);
                }
                list.push(w);
                if list.len() > MAX_RECENT {
                    list.remove(0);
                    proof {
                        assert(roots_of(list@) =~= roots_of(before).push(p).drop_first());
                    }
                }
                proof {
                    assert(roots_of(list@) == old(self)@.roots_with(p));
                    assert forall|a: int, b: int|
                        0 <= a < b < roots_of(list@).len() implies roots_of(list@)[a] != roots_of(
                        list@,
                    )[b] by {
                        let r = roots_of(before).push(p);
                        if roots_of(before).len() + 1 > MAX_RECENT {
                            assert(roots_of(list@)[a] == r[a + 1]);
                            assert(roots_of(list@)[b] == r[b + 1]);
                            if b + 1 == roots_of(before).len() {
                                assert(roots_of(before).contains(r[a + 1]));
                            }
                        } else {
                            if b == roots_of(before).len() {
                                assert(roots_of(before).contains(r[a]));
                            }
                        }
                    }
                }
                let last = list.len() - 1;
                self.items = list;
                last
            },
        };
        self.active = Some(index);
        true
    }

    /// Make the workspace at `index` active. Out-of-range indices are ignored.
    pub fn select(&mut self, index: usize)
        ensures
            final(self)@ == old(self)@.selected(index as int),
            old(self)@.valid(),
            final(self)@.valid(),
    {
        proof {
            use_type_invariant(&*self);
        }
        if index < self.items.len() {
            self.active = Some(index);
        }
    }

    /// Activate the next workspace down the list (clamped at the last).
    pub fn select_next(&mut self)
        ensures
            final(self)@ == old(self)@.selected_next(),
            old(self)@.valid(),
            final(self)@.valid(),
    {
        proof {
            use_type_invariant(&*self);
        }
        match self.active {
            Some(i) => {
                let last = if self.items.len() > 0 {
                    self.items.len() - 1
                } else {
                    0
                };
                let next = if i + 1 < last {
                    i + 1
                } else {
                    last
                };
                self.select(next);
            },
            None => {
                if self.items.len() > 0 {
                    self.select(0);
                }
            },
        }
    }

    /// Activate the previous workspace up the list (clamped at the first).
    pub fn select_prev(&mut self)
        ensures
            final(self)@ == old(self)@.selected_prev(),
            old(self)@.valid(),
            final(self)@.valid(),
    {
        proof {
            use_type_invariant(&*self);
        }
        match self.active {
            Some(i) => {
                let prev = if i > 0 {
                    i - 1
                } else {
                    0
                };
                self.select(prev);
            },
            None => {
                if self.items.len() > 0 {
                    self.select(0);
                }
            },
        }
    }

    /// Rebuild the list from persisted roots (startup), each with whether it
    /// is still a directory: directories are kept, capped and
    /// de-duplicated, with nothing active until the user picks one.
    pub fn from_paths(paths: Vec<(FsPath, bool)>) -> (l: WorkspaceList)
        ensures
            l@.roots == restored_roots(candidates_model(paths@)),
            l@.active is None,
            l@.valid(),
    {
        let mut list = WorkspaceList::new();
        let ghost cands = candidates_model(paths@);
        let mut i: usize = 0;
        while i < paths.len()
            invariant
                i <= paths@.len(),
                cands == candidates_model(paths@),
                list@.roots == restored_roots(cands.take(i as int)),
            decreases paths@.len() - i,
        {
            let (p, is_dir) = (&paths[i].0, paths[i].1);
            let ghost before = list@;
            list.open(p.duplicate(), is_dir);
            proof {
                assert(cands.take(i + 1).drop_last() =~= cands.take(i as int));
                assert(cands.take(i + 1).last() == cands[i as int]);
                assert(cands[i as int] == (p@, is_dir));
                let b2 = ListModel { roots: before.roots, active: None };
                assert(b2.opened(p@, is_dir).roots == before.opened(p@, is_dir).roots);
            }
            i = i + 1;
        }
        proof {
            assert(cands.take(paths@.len() as int) =~= cands);
            use_type_invariant(&list);
        }
        list.active = None;
        list
    }

    /// The workspace roots in list order, for persisting to config.
    pub fn paths(&self) -> (res: Vec<FsPath>)
        ensures
            paths_model(res@) == self@.roots,
    {
        let mut res: Vec<FsPath> = Vec::new();
        let mut i: usize = 0;
        while i < self.items.len()
            invariant
                i <= self.items@.len(),
                paths_model(res@) == self@.roots.take(i as int),
            decreases self.items@.len() - i,
        {
            let p = self.items[i].root.duplicate();
            proof {
                assert(self@.roots[i as int] == self.items@[i as int].root@);
            }
            proof {
                lemma_paths_push(res@, p);
            }
            res.push(p);
            proof {
                assert(paths_model(res@) =~= self@.roots.take(i + 1));
            }
            i = i + 1;
        }
        proof {
            assert(self@.roots.take(self.items@.len() as int) =~= self@.roots);
        }
        res
    }

    /// The currently active workspace, if any.
    pub fn active(&self) -> (res: Option<&Workspace>)
        ensures
            match self@.active {
                Some(i) => res matches Some(w) && w.root@ == self@.roots[i],
                None => res is None,
            },
    {
        proof {
            use_type_invariant(self);
        }
        match self.active {
            Some(i) => {
                proof {
                    assert(self@.roots[i as int] == self.items@[i as int].root@);
                }
                Some(&self.items[i])
            },
            None => None,
        }
    }

    /// Index of the active workspace, for rendering selection in the pane.
    pub fn active_index(&self) -> (res: Option<usize>)
        ensures
            match self@.active {
                Some(i) => res == Some(i as usize),
                None => res is None,
            },
    {
        self.active
    }

    /// Iterate the open workspaces in insertion order.
    pub fn iter(&self) -> (it: std::slice::Iter<'_, Workspace>)
        ensures
            roots_of(it.remaining().unref()) == self@.roots,
    {
        broadcast use vstd::std_specs::slice::group_slice_axioms;

        let it = self.items.iter();
        proof {
            assert(it.remaining().unref() =~= self.items@);
        }
        it
    }
}

impl Default for WorkspaceList {
    fn default() -> (l: WorkspaceList)
        ensures
            l@ == ListModel::empty(),
    {
        WorkspaceList::new()
    }
}

/// The candidates that re-open every root of `roots`, all directories.
pub open spec fn all_dirs(roots: Seq<PathModel>) -> Seq<(PathModel, bool)> {
    roots.map_values(|r: PathModel| (r, true))
}

/// Opening a directory keeps the list well-formed, puts it in the list and
/// makes it the active workspace.
pub proof fn law_open_activates_the_directory(l: ListModel, p: PathModel)
    requires
        l.valid(),
    ensures
        l.opened(p, true).valid(),
        l.opened(p, true).active matches Some(i) && l.opened(p, true).roots[i] == p,
{
    let r = l.roots_with(p);
    if l.roots.contains(p) {
        let i = choose|i: int| 0 <= i < l.roots.len() && l.roots[i] == p;
    } else {
        let pushed = l.roots.push(p);
        assert forall|a: int, b: int| 0 <= a < b < r.len() implies r[a] != r[b] by {
            if l.roots.len() + 1 > MAX_RECENT {
                assert(r[a] == pushed[a + 1] && r[b] == pushed[b + 1]);
                if b + 1 == l.roots.len() {
                    assert(l.roots.contains(pushed[a + 1]));
                }
            } else if b == l.roots.len() {
                assert(l.roots.contains(r[a]));
            }
        }
        assert(r.last() == p);
    }
}

/// A path that is not a directory is never added and changes nothing.
pub proof fn law_non_directory_changes_nothing(l: ListModel, p: PathModel)
    ensures
        l.opened(p, false) == l,
{
}

/// Opening a workspace that is already open adds no entry and only makes it
/// active; opening the same folder twice is the same as opening it once.
pub proof fn law_reopening_does_not_duplicate(l: ListModel, p: PathModel)
    requires
        l.valid(),
    ensures
        l.roots.contains(p) ==> l.opened(p, true).roots == l.roots,
        l.opened(p, true).opened(p, true) == l.opened(p, true),
{
    law_open_activates_the_directory(l, p);
    let m = l.opened(p, true);
    let i = m.active->0;
    assert(m.roots.contains(p));
    let k = choose|k: int| 0 <= k < m.roots.len() && m.roots[k] == p;
    assert(k == i);
}

/// The list never holds more than `MAX_RECENT` workspaces: opening a new one
/// into a full list drops the oldest and keeps the newest last.
pub proof fn law_open_caps_the_list(l: ListModel, p: PathModel)
    requires
        l.valid(),
        l.roots.len() == MAX_RECENT,
        !l.roots.contains(p),
    ensures
        l.opened(p, true).roots.len() == MAX_RECENT,
        l.opened(p, true).roots == l.roots.drop_first().push(p),
        l.opened(p, true).roots.last() == p,
{
    assert(l.roots.push(p).drop_first() =~= l.roots.drop_first().push(p));
}

/// Moving down at the last workspace, or up at the first, keeps it active.
pub proof fn law_selection_clamps_at_the_ends(l: ListModel)
    requires
        l.valid(),
    ensures
        l.active == Some(l.roots.len() - 1) ==> l.selected_next() == l,
        l.active == Some(0int) ==> l.selected_prev() == l,
        l.selected_next().valid(),
        l.selected_prev().valid(),
{
}

/// Persisting then restoring gives back the same list: re-opening the saved
/// roots in order (all still directories) rebuilds exactly those roots.
pub proof fn law_restore_round_trips(l: ListModel)
    requires
        l.valid(),
    ensures
        restored_roots(all_dirs(l.roots)) == l.roots,
{
    lemma_restore_distinct(l.roots);
}

proof fn lemma_restore_distinct(roots: Seq<PathModel>)
    requires
        distinct_roots(roots),
        roots.len() <= MAX_RECENT,
    ensures
        restored_roots(all_dirs(roots)) == roots,
    decreases roots.len(),
{
    if roots.len() > 0 {
        let front = roots.drop_last();
        assert(all_dirs(roots).drop_last() =~= all_dirs(front));
        lemma_restore_distinct(front);
        let before = ListModel { roots: front, active: None };
        assert(!front.contains(roots.last())) by {
            if front.contains(roots.last()) {
                let k = choose|k: int| 0 <= k < front.len() && front[k] == roots.last();
                assert(roots[k] == roots[roots.len() - 1]);
            }
        }
        assert(front.push(roots.last()) =~= roots);
    } else {
        assert(restored_roots(all_dirs(roots)) =~= roots);
    }
}

/// Moving down or up with nothing active makes the first workspace active;
/// with one active, down moves to the next and up to the previous, staying
/// put at the ends. The roots never change.
pub proof fn law_moves_start_at_the_first_and_step_by_one(l: ListModel)
    requires
        l.valid(),
    ensures
        l.active is None && l.roots.len() > 0 ==> l.selected_next().active == Some(0int)
            && l.selected_prev().active == Some(0int),
        l.active is Some && l.active->0 + 1 < l.roots.len() ==> l.selected_next().active == Some(
            l.active->0 + 1,
        ),
        l.active is Some && l.active->0 > 0 ==> l.selected_prev().active == Some(l.active->0 - 1),
        l.selected_next().roots == l.roots,
        l.selected_prev().roots == l.roots,
{
}

} // verus!
