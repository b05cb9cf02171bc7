//! The Document source: the active file's full markdown text held in the
//! editor, the single source of truth for editing. Loading it from disk is
//! done by the application.

use vstd::prelude::*;

use crate::path::FsPath;

verus! {

/// The active file's editable text and its path.
pub struct Document {
    pub path: FsPath,
    pub text: String,
}

} // verus!
