# markspace

The state and rules behind MarkSpace, a local-first desktop markdown editor
with a Workspaces Pane (recent folders), a File Tree over the active folder,
a Quick Info panel, a quick-open palette and a focus mode — written in
Verus. The library's functions are proved against their contracts, except
for a few small wrappers around `std` calls (`Path::components`,
`Path::parent`, `Path::strip_prefix`, `str::to_lowercase`, `String::push`)
whose contracts are trusted; each says in its doc comment what it claims.

Paths follow Unix syntax (`/` as separator and root), the platforms
MarkSpace targets first; Windows paths are not described by the library's
path model.

## Layout

- `src/` — the verified library.
  - `path.rs` — paths kept as their own text and modelled by their
    components, compared as `std::path::Path` compares them; parent, final
    name, join, prefix, relative text.
  - `scan.rs` — File Tree nodes and the display order of a directory level
    (directories first, then case-insensitive names, stable), with the sort
    by given keys exposed as `order_by_keys`.
  - `file_tree.rs` — expansion, selection and keyboard navigation over the
    visible rows, modelled by `TreeModel`, with its laws.
  - `layout.rs` — panel visibility and focus mode, with its laws.
  - `live_tree.rs` — when to scan, how filesystem events coalesce, and how a
    delivered scan is applied.
  - `workspace.rs` — the recent-workspace list (distinct, at most 20, one
    active) and its laws, including that saving and restoring round-trips.
  - `registry.rs` — the list together with its config location.
  - `quick_info.rs` — word / character / line counts, size and age
    formatting, workspace-relative paths, change detection.
  - `input.rs` — routing of arrow keys, shortcuts and clicks.
  - `commands.rs` — what the quick-open palette lists for a query, and
    where and under which name a new markdown document is created.
  - `config.rs`, `document.rs` — plain values.
- `app/` — the desktop shell: `eframe`/`egui` drawing and input, directory
  scanning with `walkdir`, watching with `notify`, TOML config files with
  `serde`/`toml`, and the home directory from `dirs`.
- `tests/` — tests of the library.
