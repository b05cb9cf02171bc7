use std::path::Path;

use markspace::path::FsPath;

#[test]
fn components_follow_std() {
    let p = FsPath::parse("/w/src/main.rs");
    assert_eq!(p.components(), vec!["/", "w", "src", "main.rs"]);
    let rel = FsPath::parse("docs//a.md/");
    assert_eq!(rel.components(), vec!["docs", "a.md"]);
    assert_eq!(FsPath::parse("./a/../b").components(), vec![".", "a", "..", "b"]);
}

#[test]
fn equality_is_component_wise() {
    assert!(FsPath::parse("/w/src").same_as(&FsPath::parse("/w//src/")));
    assert_eq!(FsPath::parse("/w/src"), FsPath::parse("/w/./src"));
    assert!(!FsPath::parse("/w/src").same_as(&FsPath::parse("/w/src/x")));
    assert_ne!(FsPath::parse("/w/src"), FsPath::parse("w/src"));
}

#[test]
fn parent_and_file_name_follow_std() {
    for text in ["/w/src/main.rs", "/w", "/", "a", "a/..", "./x", "", "/a//b/", "/a/./b/."] {
        let p = FsPath::parse(text);
        let std_parent = Path::new(text).parent().map(|q| q.to_str().unwrap().to_string());
        assert_eq!(p.parent().map(|q| q.display()), std_parent, "parent of {text:?}");
        let std_name = Path::new(text).file_name().map(|n| n.to_str().unwrap().to_string());
        assert_eq!(p.file_name(), std_name, "file name of {text:?}");
    }
}

#[test]
fn parent_keeps_the_text_it_was_given() {
    let p = FsPath::parse("/a//b/c");
    let parent = p.parent().unwrap();
    assert_eq!(parent.display(), "/a//b");
    assert_eq!(parent, FsPath::parse("/a/b"));
    assert!(FsPath::parse("/").parent().is_none());
    assert!(FsPath::parse("").parent().is_none());
}

#[test]
fn display_gives_the_text_back() {
    assert_eq!(FsPath::parse("/w/src").display(), "/w/src");
    assert_eq!(FsPath::parse("/").display(), "/");
    assert_eq!(FsPath::parse("a//b/").display(), "a//b/");
    assert_eq!(FsPath::parse("").display(), "");
}

#[test]
fn join_and_starts_with() {
    let home = FsPath::parse("/home/me");
    let cfg = home.join(".config/app");
    assert_eq!(cfg.display(), "/home/me/.config/app");
    assert!(cfg.starts_with(&home));
    assert!(!home.starts_with(&cfg));
    assert_eq!(cfg.duplicate(), cfg);
    assert_eq!(cfg.duplicate().display(), cfg.display());
}

#[test]
fn join_follows_std() {
    for (base, rest) in [
        ("/home/me", "x/y"),
        ("/home/me/", "x"),
        ("", "x"),
        ("/", "x"),
        ("a", "/abs"),
        ("a", ""),
        ("a/b", "../c"),
    ] {
        let expected = Path::new(base).join(rest).to_str().unwrap().to_string();
        assert_eq!(FsPath::parse(base).join(rest).display(), expected, "{base:?} join {rest:?}");
    }
}

#[test]
fn relative_to_keeps_the_remaining_text() {
    for (file, root) in [
        ("/w/docs//a.md", "/w"),
        ("/w/docs/a.md", "/w/"),
        ("/w", "/w"),
        ("/wx/a.md", "/w"),
        ("/a//b/..", "/x"),
    ] {
        let expected = match Path::new(file).strip_prefix(root) {
            Ok(rest) => rest.to_str().unwrap().to_string(),
            Err(_) => file.to_string(),
        };
        let got = FsPath::parse(file).relative_to(&FsPath::parse(root));
        assert_eq!(got, expected, "{file:?} under {root:?}");
    }
    assert_eq!(FsPath::parse("/w/docs//a.md").relative_to(&FsPath::parse("/w")), "docs//a.md");
    assert_eq!(FsPath::parse("/a//b/..").relative_to(&FsPath::parse("/x")), "/a//b/..");
}
