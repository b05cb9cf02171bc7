//! Interactive state for the File Tree: which folders are expanded and which
//! node is selected, plus keyboard navigation over the *visible* rows.
//!
//! The state is modelled by [`TreeModel`]; every operation's contract says
//! which model it produces, and the laws at the end of the file relate the
//! operations to each other. The selected node, when it is a file, is the
//! active file.

use vstd::prelude::*;

use crate::path::{parent_of, paths_model, FsPath, PathModel};
use crate::scan::Node;

verus! {

/// A visible row in the rendered File Tree: a node at a given indent `depth`,
/// with `expanded` telling the renderer which triangle to draw for a directory.
pub struct Row<'a> {
    pub node: &'a Node,
    pub depth: usize,
    pub expanded: bool,
}

/// A row as a value: the node, its depth, and whether it is expanded.
pub type RowModel = (Node, nat, bool);

/// The model of a row.
pub open spec fn row_model<'a>(r: Row<'a>) -> RowModel {
    (*r.node, r.depth as nat, r.expanded)
}

/// The models of a list of rows.
pub open spec fn rows_model<'a>(rows: Seq<Row<'a>>) -> Seq<RowModel> {
    rows.map_values(|r: Row<'a>| row_model(r))
}

/// The first node (pre-order, searching only inside directories) whose path
/// is `p`.
pub open spec fn find(nodes: Seq<Node>, p: PathModel) -> Option<Node>
    decreases nodes,
{
    if nodes.len() == 0 {
        None
    } else {
        let n = nodes[0];
        if n.path@ == p {
            Some(n)
        } else if n.is_dir && find(n.children@, p) is Some {
            find(n.children@, p)
        } else {
            find(nodes.drop_first(), p)
        }
    }
}

/// Whether a node with path `p` is in the forest.
pub open spec fn in_forest(nodes: Seq<Node>, p: PathModel) -> bool {
    find(nodes, p) is Some
}

/// The rows shown for `nodes` at indent `depth`: each node, followed by the
/// rows of its children when it is an expanded directory. Depth stops growing
/// at `usize::MAX`, the largest indent a row can carry.
pub open spec fn rows_of(nodes: Seq<Node>, expanded: Set<PathModel>, depth: nat) -> Seq<RowModel>
    decreases nodes,
{
    if nodes.len() == 0 {
        Seq::empty()
    } else {
        let n = nodes[0];
        let e = expanded.contains(n.path@);
        let below = if n.is_dir && e && depth < usize::MAX {
            rows_of(n.children@, expanded, depth + 1)
        } else {
            Seq::empty()
        };
        seq![(n, depth, e)] + below + rows_of(nodes.drop_first(), expanded, depth)
    }
}

/// The paths of a list of rows.
pub open spec fn row_paths(rows: Seq<RowModel>) -> Seq<PathModel> {
    rows.map_values(|r: RowModel| r.0.path@)
}

/// The index of the first occurrence of `p` in `s`.
pub open spec fn first_pos(s: Seq<PathModel>, p: PathModel) -> Option<int> {
    if exists|i: int| 0 <= i < s.len() && s[i] == p && forall|j: int| 0 <= j < i ==> s[j] != p {
        Some(
            choose|i: int| 0 <= i < s.len() && s[i] == p && forall|j: int| 0 <= j < i ==> s[j] != p,
        )
    } else {
        None
    }
}

/// The model of a File Tree: the scanned forest, the set of expanded
/// directory paths, and the selected path.
pub struct TreeModel {
    pub roots: Seq<Node>,
    pub expanded: Set<PathModel>,
    pub selected: Option<PathModel>,
}

impl TreeModel {
    /// The visible rows, top to bottom.
    pub open spec fn rows(self) -> Seq<RowModel> {
        rows_of(self.roots, self.expanded, 0)
    }

    /// The paths of the visible rows, top to bottom.
    pub open spec fn visible_paths(self) -> Seq<PathModel> {
        row_paths(self.rows())
    }

    /// The same tree with a different selection.
    pub open spec fn with_selected(self, selected: Option<PathModel>) -> TreeModel {
        TreeModel { roots: self.roots, expanded: self.expanded, selected }
    }

    /// The same tree with a different expansion set.
    pub open spec fn with_expanded(self, expanded: Set<PathModel>) -> TreeModel {
        TreeModel { roots: self.roots, expanded, selected: self.selected }
    }

    /// A freshly built tree: all folders collapsed, nothing selected.
    pub open spec fn fresh(roots: Seq<Node>) -> TreeModel {
        TreeModel { roots, expanded: Set::empty(), selected: None }
    }

    /// After a rescan: the new forest, keeping expansion and selection only
    /// for paths that are still in it.
    pub open spec fn updated(self, roots: Seq<Node>) -> TreeModel {
        TreeModel {
            roots,
            expanded: self.expanded.filter(|p: PathModel| in_forest(roots, p)),
            selected: match self.selected {
                Some(s) => if in_forest(roots, s) {
                    Some(s)
                } else {
                    None
                },
                None => None,
            },
        }
    }

    /// The visible row index the selection moves to on "down": the next row
    /// (clamped at the last), or the first row when the selection is not
    /// visible.
    pub open spec fn next_index(self) -> int {
        let paths = self.visible_paths();
        match self.selected {
            Some(s) => match first_pos(paths, s) {
                Some(i) => if i + 1 < paths.len() {
                    i + 1
                } else {
                    paths.len() - 1
                },
                None => 0,
            },
            None => 0,
        }
    }

    /// The visible row index the selection moves to on "up": the previous row
    /// (clamped at the first), or the first row when the selection is not
    /// visible.
    pub open spec fn prev_index(self) -> int {
        let paths = self.visible_paths();
        match self.selected {
            Some(s) => match first_pos(paths, s) {
                Some(i) => if i > 0 {
                    i - 1
                } else {
                    0
                },
                None => 0,
            },
            None => 0,
        }
    }

    /// Selection moved down one visible row; unchanged when nothing is visible.
    pub open spec fn selected_next(self) -> TreeModel {
        if self.visible_paths().len() == 0 {
            self
        } else {
            self.with_selected(Some(self.visible_paths()[self.next_index()]))
        }
    }

    /// Selection moved up one visible row; unchanged when nothing is visible.
    pub open spec fn selected_prev(self) -> TreeModel {
        if self.visible_paths().len() == 0 {
            self
        } else {
            self.with_selected(Some(self.visible_paths()[self.prev_index()]))
        }
    }

    /// `p` expanded if it was collapsed, collapsed if it was expanded.
    pub open spec fn toggled(self, p: PathModel) -> TreeModel {
        if self.expanded.contains(p) {
            self.with_expanded(self.expanded.remove(p))
        } else {
            self.with_expanded(self.expanded.insert(p))
        }
    }

    /// Right arrow: with nothing selected, as "down"; on a collapsed
    /// directory, expand it; on an expanded directory, select its first child;
    /// otherwise no change.
    pub open spec fn moved_right(self) -> TreeModel {
        match self.selected {
            None => self.selected_next(),
            Some(sel) => match find(self.roots, sel) {
                None => self,
                Some(n) => if !n.is_dir {
                    self
                } else if !self.expanded.contains(sel) {
                    self.with_expanded(self.expanded.insert(sel))
                } else if n.children@.len() > 0 {
                    self.with_selected(Some(n.children@[0].path@))
                } else {
                    self
                },
            },
        }
    }

    /// Left arrow: with nothing selected, as "down"; on an expanded directory,
    /// collapse it; otherwise select the parent when it is a node of the tree.
    pub open spec fn moved_left(self) -> TreeModel {
        match self.selected {
            None => self.selected_next(),
            Some(sel) => {
                let is_dir = match find(self.roots, sel) {
                    Some(n) => n.is_dir,
                    None => false,
                };
                if is_dir && self.expanded.contains(sel) {
                    self.with_expanded(self.expanded.remove(sel))
                } else {
                    match parent_of(sel) {
                        Some(p) => if in_forest(self.roots, p) {
                            self.with_selected(Some(p))
                        } else {
                            self
                        },
                        None => self,
                    }
                }
            },
        }
    }
}

/// The set of paths held in a list.
pub open spec fn path_set(v: Seq<FsPath>) -> Set<PathModel> {
    Set::new(|p: PathModel| exists|i: int| 0 <= i < v.len() && #[trigger] v[i]@ == p)
}

/// Expansion + selection state over a scanned node tree.
pub struct FileTree {
    roots: Vec<Node>,
    expanded: Vec<FsPath>,
    selected: Option<FsPath>,
}

impl View for FileTree {
    type V = TreeModel;

    closed spec fn view(&self) -> TreeModel {
        TreeModel {
            roots: self.roots@,
            expanded: path_set(self.expanded@),
            selected: match self.selected {
                Some(p) => Some(p@),
                None => None,
            },
        }
    }
}

/// The index of the first path in `paths` equal to `p`.
fn position_of(paths: &Vec<FsPath>, p: &FsPath) -> (res: Option<usize>)
    ensures
        match first_pos(paths_model(paths@), p@) {
            Some(k) => res == Some(k as usize),
            None => res is None,
        },
{
    let ghost pm = paths_model(paths@);
    let mut i: usize = 0;
    while i < paths.len()
        invariant
            i <= paths@.len(),
            pm == paths_model(paths@),
            forall|j: int| 0 <= j < i ==> pm[j] != p@,
        decreases paths@.len() - i,
    {
        if paths[i].same_as(p) {
            proof {
                assert(pm[i as int] == p@);
                assert(0 <= i < pm.len() && pm[i as int] == p@ && forall|j: int|
                    0 <= j < i ==> pm[j] != p@);
                let k = choose|k: int|
                    0 <= k < pm.len() && pm[k] == p@ && forall|j: int| 0 <= j < k ==> pm[j] != p@;
                assert(k == i as int) by {
                    if k < i {
                        assert(pm[k] != p@);
                    }
                    if k > i {
                        assert(pm[i as int] != p@);
                    }
                }
            }
            return Some(i);
        }
        i = i + 1;
    }
    None
}

/// Find a node by exact path within a forest, searching recursively.
pub fn find_node<'a>(nodes: &'a Vec<Node>, path: &FsPath) -> (res: Option<&'a Node>)
    ensures
        match res {
            Some(n) => find(nodes@, path@) == Some(*n),
            None => find(nodes@, path@) is None,
        },
    decreases nodes@,
{
    let mut i: usize = 0;
    proof {
        assert(nodes@.skip(0) =~= nodes@);
    }
    while i < nodes.len()
        invariant
            i <= nodes@.len(),
            find(nodes@, path@) == find(nodes@.skip(i as int), path@),
        decreases nodes@.len() - i,
    {
        let node = &nodes[i];
        proof {
            assert(nodes@.skip(i as int)[0] == *node);
            assert(nodes@.skip(i as int).drop_first() =~= nodes@.skip(i + 1));
        }
        if node.path.same_as(path) {
            return Some(node);
        }
        if node.is_dir {
            proof {
                assert(decreases_to!(nodes@ => nodes@[i as int]));
            }
            match find_node(&node.children, path) {
                Some(found) => {
                    return Some(found);
                },
                None => {},
            }
        }
        i = i + 1;
    }
    None
}

impl FileTree {
    /// Internal consistency: no expanded path is held twice.
    #[verifier::type_invariant]
    spec fn inv(&self) -> bool {
        forall|i: int, j: int|
            0 <= i < j < self.expanded@.len() ==> self.expanded@[i]@ != self.expanded@[j]@
    }

    /// Build a tree from scanned roots: all folders collapsed, nothing selected.
    pub fn new(roots: Vec<Node>) -> (t: FileTree)
        ensures
            t@ == TreeModel::fresh(roots@),
    {
        let t = FileTree { roots, expanded: Vec::new(), selected: None };
        proof {
            assert(t@.expanded =~= Set::<PathModel>::empty());
        }
        t
    }

    /// The scanned forest the tree shows.
    pub fn roots(&self) -> (res: &Vec<Node>)
        ensures
            res@ == self@.roots,
    {
        &self.roots
    }

    /// The selected node's path, if any. When it points to a file, that's the
    /// active file.
    pub fn selected(&self) -> (res: Option<&FsPath>)
        ensures
            match res {
                Some(p) => self@.selected == Some(p@),
                None => self@.selected is None,
            },
    {
        self.selected.as_ref()
    }

    /// The position of `path` in the expansion list.
    fn expanded_position(&self, path: &FsPath) -> (res: Option<usize>)
        ensures
            match res {
                Some(i) => i < self.expanded@.len() && self.expanded@[i as int]@ == path@,
                None => !self@.expanded.contains(path@),
            },
    {
        let mut i: usize = 0;
        while i < self.expanded.len()
            invariant
                i <= self.expanded@.len(),
                forall|j: int| 0 <= j < i ==> self.expanded@[j]@ != path@,
            decreases self.expanded@.len() - i,
        {
            if self.expanded[i].same_as(path) {
                return Some(i);
            }
            i = i + 1;
        }
        None
    }

    /// Whether a directory is currently expanded.
    pub fn is_expanded(&self, path: &FsPath) -> (res: bool)
        ensures
            res == self@.expanded.contains(path@),
    {
        match self.expanded_position(path) {
            Some(_) => true,
            None => false,
        }
    }

    /// Add `path` to the expansion set (it must not be there yet).
    fn expand(&mut self, path: FsPath)
        requires
            !old(self)@.expanded.contains(path@),
        ensures
            final(self)@ == old(self)@.with_expanded(old(self)@.expanded.insert(path@)),
    {
        proof {
            use_type_invariant(&*self);
        }
        let ghost before = self.expanded@;
        let mut list: Vec<FsPath> = Vec::new();
        std::mem::swap(&mut list, &mut self.expanded);
        list.push(path);
        proof {
            assert(path_set(list@) =~= old(self)@.expanded.insert(path@)) by {
                assert forall|p: PathModel| #[trigger] path_set(list@).contains(p) implies old(
                    self,
                )@.expanded.insert(path@).contains(p) by {
                    let i = choose|i: int| 0 <= i < list@.len() && #[trigger] list@[i]@ == p;
                    if i < before.len() {
                        assert(before[i] == list@[i]);
                    }
                }
                assert forall|p: PathModel| #[trigger]
                    old(self)@.expanded.insert(path@).contains(p) implies path_set(list@).contains(
                    p,
                ) by {
                    if p == path@ {
                        assert(list@[before.len() as int]@ == p);
                    } else {
                        let i = choose|i: int| 0 <= i < before.len() && #[trigger] before[i]@ == p;
                        assert(list@[i] == before[i]);
                    }
                }
            }
            assert forall|i: int, j: int| 0 <= i < j < list@.len() implies list@[i]@
                != list@[j]@ by {
                if j == before.len() {
                    assert(before[i] == list@[i]);
                    assert(old(self)@.expanded.contains(before[i]@));
                } else {
                    assert(before[i] == list@[i]);
                    assert(before[j] == list@[j]);
                }
            }
        }
        self.expanded = list;
    }

    /// Remove the expansion entry at `index`.
    fn collapse_at(&mut self, index: usize)
        requires
            index < old(self).expanded@.len(),
        ensures
            final(self)@ == old(self)@.with_expanded(
                old(self)@.expanded.remove(old(self).expanded@[index as int]@),
            ),
    {
        proof {
            use_type_invariant(&*self);
        }
        let ghost before = self.expanded@;
        let ghost gone = before[index as int]@;
        let mut list: Vec<FsPath> = Vec::new();
        std::mem::swap(&mut list, &mut self.expanded);
        list.remove(index);
        proof {
            assert(path_set(list@) =~= old(self)@.expanded.remove(gone)) by {
                assert forall|p: PathModel| #[trigger] path_set(list@).contains(p) implies old(
                    self,
                )@.expanded.remove(gone).contains(p) by {
                    let i = choose|i: int| 0 <= i < list@.len() && #[trigger] list@[i]@ == p;
                    if i < index {
                        assert(before[i] == list@[i]);
                        assert(before[i]@ != gone);
                    } else {
                        assert(before[i + 1] == list@[i]);
                        assert(before[i + 1]@ != gone);
                    }
                }
                assert forall|p: PathModel| #[trigger]
                    old(self)@.expanded.remove(gone).contains(p) implies path_set(list@).contains(
                    p,
                ) by {
                    let i = choose|i: int| 0 <= i < before.len() && #[trigger] before[i]@ == p;
                    if i < index {
                        assert(list@[i] == before[i]);
                    } else {
                        assert(i != index);
                        assert(list@[i - 1] == before[i]);
                    }
                }
            }
            assert forall|i: int, j: int| 0 <= i < j < list@.len() implies list@[i]@
                != list@[j]@ by {
                let oi = if i < index {
                    i
                } else {
                    i + 1
                };
                let oj = if j < index {
                    j
                } else {
                    j + 1
                };
                assert(list@[i] == before[oi]);
                assert(list@[j] == before[oj]);
            }
        }
        self.expanded = list;
    }

    /// Replace the tree after a rescan, preserving expand/collapse and
    /// selection for paths that still exist (stale entries are pruned).
    pub fn update_roots(&mut self, roots: Vec<Node>)
        ensures
            final(self)@ == old(self)@.updated(roots@),
    {
        proof {
            use_type_invariant(&*self);
        }
        self.roots = roots;
        let ghost old_set = old(self)@.expanded;
        let mut kept: Vec<FsPath> = Vec::new();
        let mut i: usize = 0;
        while i < self.expanded.len()
            invariant
                i <= self.expanded@.len(),
                self.expanded@ == old(self).expanded@,
                forall|a: int, b: int|
                    0 <= a < b < self.expanded@.len() ==> self.expanded@[a]@
                        != self.expanded@[b]@,
                self.roots@ == roots@,
                forall|a: int, b: int| 0 <= a < b < kept@.len() ==> kept@[a]@ != kept@[b]@,
                forall|a: int|
                    0 <= a < kept@.len() ==> exists|b: int|
                        0 <= b < i && #[trigger] self.expanded@[b]@ == #[trigger] kept@[a]@,
                forall|p: PathModel|
                    path_set(kept@).contains(p) <==> (exists|b: int|
                        0 <= b < i && #[trigger] self.expanded@[b]@ == p) && in_forest(roots@, p),
            decreases self.expanded@.len() - i,
        {
            let ghost pk = kept@;
            let present = match find_node(&self.roots, &self.expanded[i]) {
                Some(_) => true,
                None => false,
            };
            if present {
                kept.push(self.expanded[i].duplicate());
            }
            proof {
                let cur = self.expanded@[i as int]@;
                assert forall|a: int, b: int| 0 <= a < b < kept@.len() implies kept@[a]@
                    != kept@[b]@ by {
                    if b == pk.len() {
                        assert(kept@[a] == pk[a]);
                        let c = choose|c: int|
                            0 <= c < i && #[trigger] self.expanded@[c]@ == #[trigger] pk[a]@;
                        assert(self.expanded@[c]@ != self.expanded@[i as int]@);
                    } else {
                        assert(kept@[a] == pk[a]);
                        assert(kept@[b] == pk[b]);
                    }
                }
                assert forall|a: int| 0 <= a < kept@.len() implies exists|b: int|
                    0 <= b < i + 1 && #[trigger] self.expanded@[b]@ == #[trigger] kept@[a]@ by {
                    if a == pk.len() {
                        assert(self.expanded@[i as int]@ == kept@[a]@);
                    } else {
                        assert(kept@[a] == pk[a]);
                        let c = choose|c: int|
                            0 <= c < i && #[trigger] self.expanded@[c]@ == #[trigger] pk[a]@;
                        assert(self.expanded@[c]@ == kept@[a]@);
                    }
                }
                assert forall|p: PathModel|
                    path_set(kept@).contains(p) <==> (exists|b: int|
                        0 <= b < i + 1 && #[trigger] self.expanded@[b]@ == p) && in_forest(
                        roots@,
                        p,
                    ) by {
                    if path_set(kept@).contains(p) {
                        let a = choose|a: int| 0 <= a < kept@.len() && #[trigger] kept@[a]@ == p;
                        if a < pk.len() {
                            assert(kept@[a] == pk[a]);
                            assert(path_set(pk).contains(p));
                            let c = choose|c: int|
                                0 <= c < i && #[trigger] self.expanded@[c]@ == p;
                            assert(0 <= c < i + 1 && self.expanded@[c]@ == p);
                        } else {
                            assert(self.expanded@[i as int]@ == p);
                        }
                    }
                    if (exists|b: int| 0 <= b < i + 1 && #[trigger] self.expanded@[b]@ == p)
                        && in_forest(roots@, p) {
                        let b = choose|b: int| 0 <= b < i + 1 && #[trigger] self.expanded@[b]@ == p;
                        if b < i {
                            assert(path_set(pk).contains(p));
                            let a = choose|a: int| 0 <= a < pk.len() && #[trigger] pk[a]@ == p;
                            assert(kept@[a] == pk[a]);
                        } else {
                            assert(kept@[pk.len() as int]@ == p);
                        }
                    }
                }
            }
            i = i + 1;
        }
        self.expanded = kept;
        let clear = match &self.selected {
            Some(sel) => match find_node(&self.roots, sel) {
                Some(_) => false,
                None => true,
            },
            None => false,
        };
        if clear {
            self.selected = None;
        }
        proof {
            assert(self@.expanded =~= old_set.filter(|p: PathModel| in_forest(roots@, p)));
        }
    }

    /// Select a node by path (e.g. from a click).
    pub fn select(&mut self, path: FsPath)
        ensures
            final(self)@ == old(self)@.with_selected(Some(path@)),
    {
        proof {
            use_type_invariant(&*self);
        }
        self.selected = Some(path);
    }

    /// Expand a collapsed directory or collapse an expanded one.
    pub fn toggle_expanded(&mut self, path: &FsPath)
        ensures
            final(self)@ == old(self)@.toggled(path@),
    {
        match self.expanded_position(path) {
            Some(i) => self.collapse_at(i),
            None => self.expand(path.duplicate()),
        }
    }

    /// The visible rows, top to bottom, skipping the contents of collapsed
    /// directories.
    pub fn visible_rows(&self) -> (rows: Vec<Row<'_>>)
        ensures
            rows_model(rows@) == self@.rows(),
    {
        let mut rows: Vec<Row<'_>> = Vec::new();
        self.push_rows(&self.roots, 0, &mut rows);
        proof {
            assert(rows_model(rows@) =~= Seq::<RowModel>::empty() + self@.rows());
        }
        rows
    }

    /// Append the rows of `nodes` at indent `depth`.
    fn push_rows<'a>(&'a self, nodes: &'a Vec<Node>, depth: usize, rows: &mut Vec<Row<'a>>)
        ensures
            rows_model(final(rows)@) == rows_model(old(rows)@) + rows_of(
                nodes@,
                self@.expanded,
                depth as nat,
            ),
        decreases nodes@,
    {
        let ghost start = rows_model(rows@);
        let mut i: usize = 0;
        proof {
            assert(nodes@.skip(0) =~= nodes@);
            assert(rows_model(rows@) + rows_of(nodes@, self@.expanded, depth as nat) =~= start
                + rows_of(nodes@, self@.expanded, depth as nat));
        }
        while i < nodes.len()
            invariant
                i <= nodes@.len(),
                rows_model(rows@) + rows_of(nodes@.skip(i as int), self@.expanded, depth as nat)
                    == start + rows_of(nodes@, self@.expanded, depth as nat),
            decreases nodes@.len() - i,
        {
            let node = &nodes[i];
            let expanded = self.is_expanded(&node.path);
            let ghost before = rows_model(rows@);
            let ghost rest = nodes@.skip(i as int);
            proof {
                assert(rest[0] == *node);
                assert(rest.drop_first() =~= nodes@.skip(i + 1));
            }
            rows.push(Row { node, depth, expanded });
            proof {
                assert(rows_model(rows@) =~= before + seq![(*node, depth as nat, expanded)]);
            }
            if node.is_dir && expanded && depth < usize::MAX {
                proof {
                    assert(decreases_to!(nodes@ => nodes@[i as int]));
                }
                self.push_rows(&node.children, depth + 1, rows);
            }
            proof {
                let below = if node.is_dir && expanded && depth < usize::MAX {
                    rows_of(node.children@, self@.expanded, (depth + 1) as nat)
                } else {
                    Seq::empty()
                };
                assert(rows_model(rows@) =~= before + seq![(*node, depth as nat, expanded)]
                    + below);
                assert(rows_of(rest, self@.expanded, depth as nat) == seq![
                    (*node, depth as nat, expanded),
                ] + below + rows_of(nodes@.skip(i + 1), self@.expanded, depth as nat));
                assert(rows_model(rows@) + rows_of(nodes@.skip(i + 1), self@.expanded, depth as nat)
                    =~= before + rows_of(rest, self@.expanded, depth as nat));
            }
            i = i + 1;
        }
    }

    /// The paths of the visible rows, top to bottom.
    fn visible_paths(&self) -> (paths: Vec<FsPath>)
        ensures
            paths_model(paths@) == self@.visible_paths(),
    {
        let rows = self.visible_rows();
        let ghost model = self@.rows();
        let mut paths: Vec<FsPath> = Vec::new();
        let mut i: usize = 0;
        while i < rows.len()
            invariant
                i <= rows@.len(),
                paths@.len() == i,
                rows_model(rows@) == model,
                paths_model(paths@) == row_paths(model.take(i as int)),
            decreases rows@.len() - i,
        {
            let p = rows[i].node.path.duplicate();
            proof {
                assert(model[i as int] == row_model(rows@[i as int]));
            }
            let ghost pp = paths@;
            paths.push(p);
            proof {
                assert forall|j: int| 0 <= j < i + 1 implies #[trigger] paths_model(paths@)[j]
                    == row_paths(model.take(i + 1))[j] by {
                    if j < i {
                        assert(paths@[j] == pp[j]);
                        assert(paths_model(pp)[j] == row_paths(model.take(i as int))[j]);
                    }
                }
                assert(paths_model(paths@) =~= row_paths(model.take(i + 1)));
            }
            i = i + 1;
        }
        proof {
            assert(model.take(rows@.len() as int) =~= model);
        }
        paths
    }

    /// The position of the selection among `paths`, if it is there.
    fn selected_index(&self, paths: &Vec<FsPath>) -> (res: Option<usize>)
        ensures
            match self@.selected {
                Some(s) => match first_pos(paths_model(paths@), s) {
                    Some(k) => res == Some(k as usize),
                    None => res is None,
                },
                None => res is None,
            },
    {
        match &self.selected {
            Some(sel) => position_of(paths, sel),
            None => None,
        }
    }

    /// Move the selection down one visible row (clamped at the last row); with
    /// nothing selected, selects the first row.
    pub fn select_next(&mut self)
        ensures
            final(self)@ == old(self)@.selected_next(),
    {
        proof {
            use_type_invariant(&*self);
        }
        let paths = self.visible_paths();
        if paths.len() == 0 {
            return;
        }
        let next = match self.selected_index(&paths) {
            None => 0,
            Some(i) => if i + 1 < paths.len() {
                i + 1
            } else {
                paths.len() - 1
            },
        };
        let chosen = paths[next].duplicate();
        proof {
            assert(next as int == old(self)@.next_index());
            assert(chosen@ == paths_model(paths@)[next as int]);
        }
        self.selected = Some(chosen);
        proof {
            assert(self@ =~= old(self)@.selected_next());
        }
    }

    /// Move the selection up one visible row (clamped at the first row); with
    /// nothing selected, selects the first row.
    pub fn select_prev(&mut self)
        ensures
            final(self)@ == old(self)@.selected_prev(),
    {
        proof {
            use_type_invariant(&*self);
        }
        let paths = self.visible_paths();
        if paths.len() == 0 {
            return;
        }
        let prev = match self.selected_index(&paths) {
            None => 0,
            Some(i) => if i > 0 {
                i - 1
            } else {
                0
            },
        };
        let chosen = paths[prev].duplicate();
        proof {
            assert(prev as int == old(self)@.prev_index());
            assert(chosen@ == paths_model(paths@)[prev as int]);
        }
        self.selected = Some(chosen);
        proof {
            assert(self@ =~= old(self)@.selected_prev());
        }
    }

    /// Right arrow: expand a collapsed directory; if already expanded, move
    /// into its first child. No-op on a file (or a childless expanded dir).
    pub fn move_right(&mut self)
        ensures
            final(self)@ == old(self)@.moved_right(),
    {
        proof {
            use_type_invariant(&*self);
        }
        let selected = match &self.selected {
            Some(s) => s.duplicate(),
            None => {
                self.select_next();
                return;
            },
        };
        let (is_dir, first_child) = match find_node(&self.roots, &selected) {
            Some(n) => (
                n.is_dir,
                if n.children.len() > 0 {
                    Some(n.children[0].path.duplicate())
                } else {
                    None
                },
            ),
            None => return,
        };
        if !is_dir {
            return;
        }
        if !self.is_expanded(&selected) {
            self.expand(selected);
        } else {
            match first_child {
                Some(first) => {
                    self.selected = Some(first);
                    proof {
                        assert(self@ =~= old(self)@.moved_right());
                    }
                },
                None => {},
            }
        }
    }

    /// Left arrow: collapse an expanded directory; otherwise select the parent
    /// node (if it's in the tree). No-op at the top level (parent is the
    /// workspace root, which isn't a tree node).
    pub fn move_left(&mut self)
        ensures
            final(self)@ == old(self)@.moved_left(),
    {
        proof {
            use_type_invariant(&*self);
        }
        let selected = match &self.selected {
            Some(s) => s.duplicate(),
            None => {
                self.select_next();
                return;
            },
        };
        let is_dir = match find_node(&self.roots, &selected) {
            Some(n) => n.is_dir,
            None => false,
        };
        if is_dir {
            match self.expanded_position(&selected) {
                Some(i) => {
                    self.collapse_at(i);
                    return;
                },
                None => {},
            }
        }
        match selected.parent() {
            Some(parent) => {
                let present = match find_node(&self.roots, &parent) {
                    Some(_) => true,
                    None => false,
                };
                if present {
                    self.selected = Some(parent);
                    proof {
                        assert(self@ =~= old(self)@.moved_left());
                    }
                }
            },
            None => {},
        }
    }

}

/// With nothing expanded, the rows of a forest are its top-level nodes, in
/// order, at the given depth and collapsed.
pub proof fn lemma_collapsed_rows(nodes: Seq<Node>, depth: nat)
    ensures
        rows_of(nodes, Set::empty(), depth) == nodes.map_values(|n: Node| (n, depth, false)),
    decreases nodes.len(),
{
    if nodes.len() > 0 {
        lemma_collapsed_rows(nodes.drop_first(), depth);
        assert(rows_of(nodes, Set::empty(), depth) =~= nodes.map_values(
            |n: Node| (n, depth, false),
        ));
    } else {
        assert(rows_of(nodes, Set::empty(), depth) =~= nodes.map_values(
            |n: Node| (n, depth, false),
        ));
    }
}

/// A freshly built tree shows exactly its top-level nodes, at depth 0,
/// collapsed, with nothing selected.
pub proof fn law_fresh_tree_shows_top_level(roots: Seq<Node>)
    ensures
        TreeModel::fresh(roots).rows() == roots.map_values(|n: Node| (n, 0nat, false)),
        TreeModel::fresh(roots).selected is None,
{
    lemma_collapsed_rows(roots, 0);
}

/// Toggling a directory twice leaves the tree as it was.
pub proof fn law_toggle_twice_is_identity(t: TreeModel, p: PathModel)
    ensures
        t.toggled(p).toggled(p) == t,
{
    if t.expanded.contains(p) {
        assert(t.expanded.remove(p).insert(p) =~= t.expanded);
    } else {
        assert(t.expanded.insert(p).remove(p) =~= t.expanded);
    }
}

/// After a rescan, every expanded path and the selection (if any) name nodes
/// of the new forest, and expansion or selection of a surviving path is kept.
pub proof fn law_update_keeps_only_surviving_paths(t: TreeModel, roots: Seq<Node>)
    ensures
        forall|p: PathModel| #[trigger]
            t.updated(roots).expanded.contains(p) <==> t.expanded.contains(p) && in_forest(
                roots,
                p,
            ),
        match t.updated(roots).selected {
            Some(s) => in_forest(roots, s) && t.selected == Some(s),
            None => t.selected is None || !in_forest(roots, t.selected->0),
        },
        t.updated(roots).roots == roots,
{
}

/// Rescanning twice with the same forest is the same as rescanning once.
pub proof fn law_update_is_idempotent(t: TreeModel, roots: Seq<Node>)
    ensures
        t.updated(roots).updated(roots) == t.updated(roots),
{
    assert(t.updated(roots).updated(roots).expanded =~= t.updated(roots).expanded);
}

/// Keyboard navigation never changes the forest, and moving up or down never
/// changes which folders are expanded.
pub proof fn law_navigation_keeps_the_forest(t: TreeModel)
    ensures
        t.selected_next().roots == t.roots,
        t.selected_prev().roots == t.roots,
        t.moved_right().roots == t.roots,
        t.moved_left().roots == t.roots,
        t.selected_next().expanded == t.expanded,
        t.selected_prev().expanded == t.expanded,
{
}

/// Moving down selects a visible row whenever any row is visible, and at the
/// last row the selection stays put.
pub proof fn law_select_next_stays_visible_and_clamps(t: TreeModel)
    requires
        t.visible_paths().len() > 0,
    ensures
        t.selected_next().selected is Some,
        t.visible_paths().contains(t.selected_next().selected->0),
        t.selected is Some && first_pos(t.visible_paths(), t.selected->0) == Some(
            t.visible_paths().len() - 1,
        ) ==> t.selected_next() == t,
{
    let paths = t.visible_paths();
    let k = t.next_index();
    assert(0 <= k < paths.len());
    assert(paths[k] == t.selected_next().selected->0);
    if t.selected is Some && first_pos(paths, t.selected->0) == Some(paths.len() - 1) {
        let i = paths.len() - 1;
        assert(paths[i] == t.selected->0);
    }
}

/// Moving up selects a visible row whenever any row is visible, and at the
/// first row the selection stays put.
pub proof fn law_select_prev_stays_visible_and_clamps(t: TreeModel)
    requires
        t.visible_paths().len() > 0,
    ensures
        t.selected_prev().selected is Some,
        t.visible_paths().contains(t.selected_prev().selected->0),
        t.selected is Some && first_pos(t.visible_paths(), t.selected->0) == Some(0int) ==> t.selected_prev()
            == t,
{
    let paths = t.visible_paths();
    let k = t.prev_index();
    assert(0 <= k < paths.len());
    assert(paths[k] == t.selected_prev().selected->0);
    if t.selected is Some && first_pos(paths, t.selected->0) == Some(0int) {
        assert(paths[0] == t.selected->0);
    }
}

/// On a selected collapsed directory, right arrow then left arrow leaves the
/// tree as it was (expand, then collapse).
pub proof fn law_right_then_left_restores_a_collapsed_folder(t: TreeModel)
    requires
        t.selected is Some,
        find(t.roots, t.selected->0) is Some,
        find(t.roots, t.selected->0)->0.is_dir,
        !t.expanded.contains(t.selected->0),
    ensures
        t.moved_right().moved_left() == t,
{
    let s = t.selected->0;
    assert(t.expanded.insert(s).remove(s) =~= t.expanded);
}

/// Every visible row shows a node that the path search finds in the forest.
pub proof fn lemma_rows_in_forest(nodes: Seq<Node>, expanded: Set<PathModel>, depth: nat)
    ensures
        forall|i: int|
            0 <= i < rows_of(nodes, expanded, depth).len() ==> in_forest(
                nodes,
                #[trigger] rows_of(nodes, expanded, depth)[i].0.path@,
            ),
    decreases nodes,
{
    if nodes.len() > 0 {
        let n = nodes[0];
        let e = expanded.contains(n.path@);
        let below = if n.is_dir && e && depth < usize::MAX {
            rows_of(n.children@, expanded, depth + 1)
        } else {
            Seq::empty()
        };
        let rest = rows_of(nodes.drop_first(), expanded, depth);
        let rows = rows_of(nodes, expanded, depth);
        assert(rows == seq![(n, depth, e)] + below + rest);
        if n.is_dir && e && depth < usize::MAX {
            lemma_rows_in_forest(n.children@, expanded, depth + 1);
        }
        lemma_rows_in_forest(nodes.drop_first(), expanded, depth);
        assert forall|i: int| 0 <= i < rows.len() implies in_forest(
            nodes,
            #[trigger] rows[i].0.path@,
        ) by {
            let p = rows[i].0.path@;
            if i == 0 {
            } else if i < 1 + below.len() {
                assert(rows[i] == below[i - 1]);
                assert(in_forest(n.children@, p));
            } else {
                assert(rows[i] == rest[i - 1 - below.len()]);
                assert(in_forest(nodes.drop_first(), p));
            }
        }
    }
}

/// Moving the selection up or down always lands on a node of the tree (when
/// any row is visible).
pub proof fn law_keyboard_selection_names_a_tree_node(t: TreeModel)
    requires
        t.visible_paths().len() > 0,
    ensures
        in_forest(t.roots, t.selected_next().selected->0),
        in_forest(t.roots, t.selected_prev().selected->0),
{
    lemma_rows_in_forest(t.roots, t.expanded, 0);
    let rows = t.rows();
    let k = t.next_index();
    let j = t.prev_index();
    assert(t.visible_paths()[k] == rows[k].0.path@);
    assert(t.visible_paths()[j] == rows[j].0.path@);
}

/// Right arrow on a selected folder: a collapsed folder is expanded and stays
/// selected; an expanded folder with children hands the selection to its
/// first child (the first of `children`), leaving the expansion alone.
pub proof fn law_right_opens_then_enters_the_first_child(t: TreeModel, sel: PathModel, n: Node)
    requires
        t.selected == Some(sel),
        find(t.roots, sel) == Some(n),
        n.is_dir,
    ensures
        !t.expanded.contains(sel) ==> t.moved_right().expanded == t.expanded.insert(sel)
            && t.moved_right().selected == Some(sel),
        t.expanded.contains(sel) && n.children@.len() > 0 ==> t.moved_right().selected == Some(
            n.children@[0].path@,
        ) && t.moved_right().expanded == t.expanded,
        t.moved_right().roots == t.roots,
{
}

/// The first visible row of a non-empty forest is its first node, at the
/// forest's depth.
proof fn lemma_rows_start_with_first_node(nodes: Seq<Node>, expanded: Set<PathModel>, depth: nat)
    requires
        nodes.len() > 0,
    ensures
        rows_of(nodes, expanded, depth).len() > 0,
        rows_of(nodes, expanded, depth)[0] == (nodes[0], depth, expanded.contains(nodes[0].path@)),
{
}

/// In the visible rows, the row of an expanded folder that has children (at
/// an indent below the limit) is followed directly by the row of its first
/// child, one level deeper: an open folder always shows what it holds,
/// however deep it sits.
pub proof fn law_open_folder_is_followed_by_its_first_child(
    nodes: Seq<Node>,
    expanded: Set<PathModel>,
    depth: nat,
    i: int,
)
    requires
        0 <= i < rows_of(nodes, expanded, depth).len(),
        rows_of(nodes, expanded, depth)[i].0.is_dir,
        rows_of(nodes, expanded, depth)[i].2,
        rows_of(nodes, expanded, depth)[i].1 < usize::MAX,
        rows_of(nodes, expanded, depth)[i].0.children@.len() > 0,
    ensures
        i + 1 < rows_of(nodes, expanded, depth).len(),
        rows_of(nodes, expanded, depth)[i + 1] == (
            rows_of(nodes, expanded, depth)[i].0.children@[0],
            rows_of(nodes, expanded, depth)[i].1 + 1,
            expanded.contains(rows_of(nodes, expanded, depth)[i].0.children@[0].path@),
        ),
    decreases nodes,
{
    let rows = rows_of(nodes, expanded, depth);
    let n = nodes[0];
    let e = expanded.contains(n.path@);
    let below = if n.is_dir && e && depth < usize::MAX {
        rows_of(n.children@, expanded, depth + 1)
    } else {
        Seq::empty()
    };
    let rest = rows_of(nodes.drop_first(), expanded, depth);
    assert(rows == seq![(n, depth, e)] + below + rest);
    if i == 0 {
        assert(rows[0] == (n, depth, e));
        lemma_rows_start_with_first_node(n.children@, expanded, depth + 1);
        assert(rows[1] == below[0]);
    } else if i < 1 + below.len() {
        assert(n.is_dir && e && depth < usize::MAX);
        assert(rows[i] == below[i - 1]);
        assert(decreases_to!(nodes => nodes[0]));
        law_open_folder_is_followed_by_its_first_child(n.children@, expanded, depth + 1, i - 1);
        assert(rows[i + 1] == below[i]);
    } else {
        let j = i - 1 - below.len();
        assert(rows[i] == rest[j]);
        law_open_folder_is_followed_by_its_first_child(nodes.drop_first(), expanded, depth, j);
        assert(rows[i + 1] == rest[j + 1]);
    }
}

} // verus!
