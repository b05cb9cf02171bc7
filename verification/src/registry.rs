//! The workspace registry: the recent-workspace list together with where it
//! is persisted. Opening a workspace changes what must be saved, and startup
//! restores it.
//!
//! The file itself is read and written by the application: it hands the
//! roots it read (each with whether it is still a directory) to
//! [`WorkspaceRegistry::load_from`], and writes what
//! [`WorkspaceRegistry::save_request`] returns after every change.

use vstd::prelude::*;

use crate::config::Config;
use crate::path::{join_text, FsPath};
use crate::workspace::{candidates_model, restored_roots, ListModel, Workspace, WorkspaceList};

verus! {

/// The config location under a home directory (as text):
/// `<home>/.config/markspace/config.toml` (explicitly `~/.config`, even on
/// macOS), joined as `Path::join` joins.
pub open spec fn config_location(home: Seq<char>) -> Seq<char> {
    join_text(home, ".config/markspace/config.toml"@)
}

/// The config location for a home directory, or `None` without one (which
/// disables persistence).
pub fn config_path(home: Option<FsPath>) -> (res: Option<FsPath>)
    ensures
        match home {
            Some(h) => res matches Some(p) && p.text@ == config_location(h.text@),
            None => res is None,
        },
{
    match home {
        Some(h) => Some(h.join(".config/markspace/config.toml")),
        None => None,
    }
}

/// The recent-workspace registry: a [`WorkspaceList`] and the config path it
/// persists to (`None` disables persistence).
pub struct WorkspaceRegistry {
    list: WorkspaceList,
    path: Option<FsPath>,
}

/// The model of the registry.
pub struct RegistryModel {
    pub list: ListModel,
    pub path: Option<Seq<char>>,
}

impl View for WorkspaceRegistry {
    type V = RegistryModel;

    closed spec fn view(&self) -> RegistryModel {
        RegistryModel {
            list: self.list@,
            path: match self.path {
                Some(p) => Some(p.text@),
                None => None,
            },
        }
    }
}

impl WorkspaceRegistry {
    /// The registry for a config path (`None` disables persistence), from
    /// the roots the config held (each with whether it is still a
    /// directory; a missing or malformed file holds none). Without a path
    /// the registry starts empty.
    pub fn load_from(path: Option<FsPath>, stored: Vec<(FsPath, bool)>) -> (r: WorkspaceRegistry)
        ensures
            r@.path == (match path {
                Some(p) => Some(p.text@),
                None => None::<Seq<char>>,
            }),
            r@.list == (if path is Some {
                ListModel { roots: restored_roots(candidates_model(stored@)), active: None }
            } else {
                ListModel::empty()
            }),
            r@.list.valid(),
    {
        let list = match &path {
            Some(_) => WorkspaceList::from_paths(stored),
            None => WorkspaceList::new(),
        };
        WorkspaceRegistry { list, path }
    }

    /// The registry persisted under the home directory `home` (at
    /// `config_path(home)`), from the roots that config held.
    pub fn load(home: Option<FsPath>, stored: Vec<(FsPath, bool)>) -> (r: WorkspaceRegistry)
        ensures
            r@.path == (match home {
                Some(h) => Some(config_location(h.text@)),
                None => None::<Seq<char>>,
            }),
            r@.list == (if home is Some {
                ListModel { roots: restored_roots(candidates_model(stored@)), active: None }
            } else {
                ListModel::empty()
            }),
            r@.list.valid(),
    {
        WorkspaceRegistry::load_from(config_path(home), stored)
    }

    /// Open a workspace (`is_dir` tells whether `path` is a directory).
    /// Returns whether it opened; the registry then has a new state to save.
    pub fn open(&mut self, path: FsPath, is_dir: bool) -> (opened: bool)
        ensures
            opened == is_dir,
            final(self)@.list == old(self)@.list.opened(path@, is_dir),
            final(self)@.path == old(self)@.path,
            final(self)@.list.valid(),
    {
        self.list.open(path, is_dir)
    }

    /// What to persist: the config path and a config holding the current
    /// roots in list order, or `None` when persistence is disabled.
    pub fn save_request(&self) -> (res: Option<(FsPath, Config)>)
        ensures
            match self@.path {
                Some(p) => res matches Some((q, c)) && q.text@ == p && c.roots() == self@.list.roots,
                None => res is None,
            },
    {
        match &self.path {
            Some(p) => Some((p.duplicate(), Config { workspaces: self.list.paths() })),
            None => None,
        }
    }

    /// The currently active workspace, if any.
    pub fn active(&self) -> (res: Option<&Workspace>)
        ensures
            match self@.list.active {
                Some(i) => res matches Some(w) && w.root@ == self@.list.roots[i],
                None => res is None,
            },
    {
        self.list.active()
    }

    /// Iterate the open workspaces in list order.
    pub fn iter(&self) -> (it: std::slice::Iter<'_, Workspace>)
        ensures
            crate::workspace::roots_of(vstd::std_specs::iter::IteratorSpec::remaining(&it).unref())
                == self@.list.roots,
    {
        self.list.iter()
    }

    /// Index of the active workspace, for rendering selection in the pane.
    pub fn active_index(&self) -> (res: Option<usize>)
        ensures
            match self@.list.active {
                Some(i) => res == Some(i as usize),
                None => res is None,
            },
    {
        self.list.active_index()
    }

    /// Make the workspace at `index` active. Selection isn't persisted.
    pub fn select(&mut self, index: usize)
        ensures
            final(self)@.list == old(self)@.list.selected(index as int),
            final(self)@.path == old(self)@.path,
    {
        self.list.select(index)
    }

    /// Activate the next workspace down the list (clamped).
    pub fn select_next(&mut self)
        ensures
            final(self)@.list == old(self)@.list.selected_next(),
            final(self)@.path == old(self)@.path,
    {
        self.list.select_next()
    }

    /// Activate the previous workspace up the list (clamped).
    pub fn select_prev(&mut self)
        ensures
            final(self)@.list == old(self)@.list.selected_prev(),
            final(self)@.path == old(self)@.path,
    {
        self.list.select_prev()
    }
}

} // verus!
