use markspace::commands::{new_document_dir, palette_matches, untitled_name};
use markspace::file_tree::FileTree;
use markspace::path::FsPath;
use markspace::scan::Node;

fn node(path: &str, is_dir: bool, children: Vec<Node>) -> Node {
    Node::entry(FsPath::parse(path), is_dir, children)
}

fn sample() -> FileTree {
    FileTree::new(vec![
        node(
            "/w/docs",
            true,
            vec![node("/w/docs/Notes.md", false, Vec::new()), node("/w/docs/todo.txt", false, Vec::new())],
        ),
        node("/w/notebook", true, Vec::new()),
        node("/w/README.md", false, Vec::new()),
        node("/w/notes-old.md", false, Vec::new()),
    ])
}

fn texts(paths: Vec<FsPath>) -> Vec<String> {
    paths.iter().map(|p| p.display()).collect()
}

#[test]
fn palette_lists_matching_files_ignoring_case() {
    let tree = sample();
    assert_eq!(texts(palette_matches(&tree, "NOTE")), ["/w/docs/Notes.md", "/w/notes-old.md"]);
    assert_eq!(texts(palette_matches(&tree, ".md")), ["/w/docs/Notes.md", "/w/README.md", "/w/notes-old.md"]);
    assert!(palette_matches(&tree, "zzz").is_empty());
}

#[test]
fn empty_palette_query_lists_every_file_depth_first() {
    let tree = sample();
    assert_eq!(
        texts(palette_matches(&tree, "")),
        ["/w/docs/Notes.md", "/w/docs/todo.txt", "/w/README.md", "/w/notes-old.md"]
    );
}

#[test]
fn new_document_goes_to_the_current_directory() {
    let root = FsPath::parse("/w");
    let mut tree = sample();
    assert_eq!(new_document_dir(&tree, &root).display(), "/w", "nothing selected: the root");
    tree.select(FsPath::parse("/w/docs"));
    assert_eq!(new_document_dir(&tree, &root).display(), "/w/docs", "a selected folder");
    tree.select(FsPath::parse("/w/docs/todo.txt"));
    assert_eq!(new_document_dir(&tree, &root).display(), "/w/docs", "a selected file's folder");
    tree.select(FsPath::parse("/w/README.md"));
    assert_eq!(new_document_dir(&tree, &root).display(), "/w");
    tree.select(FsPath::parse("/w/gone/x.md"));
    assert_eq!(new_document_dir(&tree, &root).display(), "/w", "a selection not in the tree");
}

#[test]
fn untitled_names_count_up() {
    assert_eq!(untitled_name(0), "Untitled.md");
    assert_eq!(untitled_name(1), "Untitled 2.md");
    assert_eq!(untitled_name(9), "Untitled 10.md");
    assert_eq!(untitled_name(u32::MAX), "Untitled 4294967296.md");
}
