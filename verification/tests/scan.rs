use markspace::path::FsPath;
use markspace::scan::{order_by_keys, order_level, KeyedNode, Node};

fn entry(path: &str, is_dir: bool) -> Node {
    Node::entry(FsPath::parse(path), is_dir, Vec::new())
}

fn names(nodes: &[Node]) -> Vec<String> {
    nodes.iter().map(|n| n.name.clone()).collect()
}

#[test]
fn order_level_puts_dirs_first_then_case_insensitive_names() {
    let level = vec![
        entry("/w/banana.txt", false),
        entry("/w/Apple", true),
        entry("/w/cherry", true),
    ];
    assert_eq!(names(&order_level(level)), ["Apple", "cherry", "banana.txt"]);

    let nested = vec![entry("/w/Apple/zebra.md", false), entry("/w/Apple/Box", true)];
    assert_eq!(names(&order_level(nested)), ["Box", "zebra.md"]);
}

#[test]
fn order_level_is_stable_for_equal_keys() {
    let level = vec![
        entry("/w/b.md", false),
        entry("/w/README", false),
        entry("/w/a.md", false),
        entry("/w/readme", false),
        entry("/w/ReadMe", false),
    ];
    assert_eq!(
        names(&order_level(level)),
        ["a.md", "b.md", "README", "readme", "ReadMe"]
    );
}

#[test]
fn order_level_matches_std_stable_sort() {
    let words = [
        "zeta", "Alpha", "beta", "alpha", "Gamma", "delta", "BETA", "épée", "Zulu", "éclair",
        "Ωmega", "omega", "_under", "10", "9", "a", "A", "",
    ];
    let mut level = Vec::new();
    let mut expected: Vec<(bool, String)> = Vec::new();
    for (i, w) in words.iter().enumerate() {
        let is_dir = i % 3 == 0;
        level.push(Node {
            name: w.to_string(),
            path: FsPath::parse(&format!("/w/{i}")),
            is_dir,
            children: Vec::new(),
        });
        expected.push((is_dir, w.to_string()));
    }
    expected.sort_by(|a, b| b.0.cmp(&a.0).then_with(|| a.1.to_lowercase().cmp(&b.1.to_lowercase())));
    let got: Vec<(bool, String)> = order_level(level).into_iter().map(|n| (n.is_dir, n.name)).collect();
    assert_eq!(got, expected);
}

#[test]
fn entry_takes_its_name_from_the_path() {
    let n = Node::entry(FsPath::parse("/w/notes/todo.md"), false, Vec::new());
    assert_eq!(n.name, "todo.md");
    assert!(!n.is_dir);
    assert!(n.children.is_empty());
    let root = Node::entry(FsPath::parse("/"), true, Vec::new());
    assert_eq!(root.name, "");
}

#[test]
fn order_level_of_one_or_none_is_unchanged() {
    assert!(order_level(Vec::new()).is_empty());
    assert_eq!(names(&order_level(vec![entry("/w/x", false)])), ["x"]);
}

fn keyed(name: &str, key: &str, is_dir: bool) -> KeyedNode {
    KeyedNode {
        key: key.chars().collect(),
        node: Node::entry(FsPath::parse(&format!("/w/{name}")), is_dir, Vec::new()),
    }
}

#[test]
fn order_by_keys_sorts_by_the_given_keys() {
    let level = vec![
        keyed("cherry", "cherry", false),
        keyed("Apple", "apple", false),
        keyed("Banana", "banana", true),
    ];
    let got: Vec<String> = order_by_keys(level).into_iter().map(|e| e.node.name).collect();
    assert_eq!(got, ["Banana", "Apple", "cherry"]);
}

#[test]
fn order_by_keys_uses_keys_not_names_and_is_stable() {
    let level = vec![
        keyed("b", "same", false),
        keyed("zzz", "a", false),
        keyed("a", "same", false),
        keyed("dir", "z", true),
    ];
    let got: Vec<String> = order_by_keys(level).into_iter().map(|e| e.node.name).collect();
    assert_eq!(got, ["dir", "zzz", "b", "a"]);
}
