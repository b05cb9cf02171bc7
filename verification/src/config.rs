//! The persisted configuration: the ordered list of recent workspace roots.
//!
//! Reading and writing the file (TOML at `~/.config/markspace/config.toml`)
//! is done by the application; the library only builds and reads this value.

use vstd::prelude::*;

use crate::path::{paths_model, FsPath, PathModel};

verus! {

/// The on-disk config: the ordered list of recent workspace roots.
pub struct Config {
    pub workspaces: Vec<FsPath>,
}

impl Config {
    /// The roots held, in order.
    pub open spec fn roots(&self) -> Seq<PathModel> {
        paths_model(self.workspaces@)
    }
}

impl Default for Config {
    /// An empty config: no workspaces.
    fn default() -> (c: Config)
        ensures
            c.roots() == Seq::<PathModel>::empty(),
    {
        let c = Config { workspaces: Vec::new() };
        proof {
            assert(c.roots() =~= Seq::<PathModel>::empty());
        }
        c
    }
}

} // verus!
