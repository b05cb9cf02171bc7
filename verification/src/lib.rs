//! Workspace, file-tree and layout state for a local-first markdown editor.

pub mod path;
pub mod scan;
pub mod file_tree;
pub mod layout;
pub mod live_tree;
pub mod workspace;
pub mod quick_info;
pub mod config;
pub mod document;
pub mod registry;
pub mod input;
pub mod commands;
