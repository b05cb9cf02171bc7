use std::path::Path;

use markspace::path::FsPath;
use markspace::registry::{config_path, WorkspaceRegistry};
use tempfile::tempdir;

fn fs(p: &Path) -> FsPath {
    FsPath::parse(p.to_str().unwrap())
}

/// What a saved config holds when read back: each root with whether it is
/// still a directory.
fn reread(paths: &[FsPath]) -> Vec<(FsPath, bool)> {
    paths
        .iter()
        .map(|p| {
            let text = p.display();
            (p.clone(), Path::new(&text).is_dir())
        })
        .collect()
}

#[test]
fn opening_persists_and_a_reload_restores() {
    let cfg_dir = tempdir().unwrap();
    let cfg = fs(&cfg_dir.path().join("config.toml"));
    let ws = tempdir().unwrap();

    let mut registry = WorkspaceRegistry::load_from(Some(cfg.clone()), Vec::new());
    assert!(registry.active().is_none(), "starts empty");

    registry.open(fs(ws.path()), ws.path().is_dir());
    let (saved_to, config) = registry.save_request().expect("persistence enabled");
    assert_eq!(saved_to, cfg);

    let reloaded = WorkspaceRegistry::load_from(Some(cfg), reread(&config.workspaces));
    let roots: Vec<FsPath> = reloaded.iter().map(|w| w.root.clone()).collect();
    assert_eq!(
        roots,
        vec![fs(ws.path())],
        "the opened workspace was restored from disk"
    );
}

#[test]
fn works_without_a_config_path() {
    let ws = tempdir().unwrap();
    let mut registry = WorkspaceRegistry::load_from(None, Vec::new());

    let opened = registry.open(fs(ws.path()), ws.path().is_dir()); // must not panic

    assert!(opened);
    assert_eq!(registry.active().map(|w| &w.root), Some(&fs(ws.path())));
    assert!(registry.save_request().is_none(), "nothing to persist");
}

#[test]
fn missing_config_file_loads_empty() {
    let dir = tempdir().unwrap();
    let registry = WorkspaceRegistry::load_from(Some(fs(&dir.path().join("nope.toml"))), Vec::new());

    assert!(registry.active().is_none());
    assert_eq!(registry.iter().count(), 0);
}

#[test]
fn config_path_is_under_dot_config() {
    let p = config_path(Some(FsPath::parse("/home/me"))).unwrap();
    assert_eq!(p.display(), "/home/me/.config/markspace/config.toml");
    assert!(config_path(None).is_none());
}

#[test]
fn load_uses_the_home_config_location_and_drops_stale_roots() {
    let registry = WorkspaceRegistry::load(
        Some(FsPath::parse("/home/me")),
        vec![(FsPath::parse("/a"), true), (FsPath::parse("/gone"), false), (FsPath::parse("/a"), true)],
    );
    let (path, config) = registry.save_request().unwrap();
    assert_eq!(path.display(), "/home/me/.config/markspace/config.toml");
    assert_eq!(config.workspaces, vec![FsPath::parse("/a")]);
    assert!(registry.active_index().is_none());
}

#[test]
fn registry_selection_moves_and_clamps() {
    let mut registry = WorkspaceRegistry::load_from(None, Vec::new());
    registry.open(FsPath::parse("/a"), true);
    registry.open(FsPath::parse("/b"), true);
    registry.select_prev();
    assert_eq!(registry.active_index(), Some(0));
    registry.select_prev();
    assert_eq!(registry.active_index(), Some(0));
    registry.select_next();
    registry.select_next();
    assert_eq!(registry.active_index(), Some(1));
    registry.select(0);
    assert_eq!(registry.active_index(), Some(0));
}
