//! The two commands behind `Cmd/Ctrl + P` and `Cmd/Ctrl + N`: what the
//! quick-open palette lists for a query across the active workspace, and
//! where, and under which name, a new markdown document is created.
//!
//! Drawing the palette and creating the file are the application's job; it
//! asks these functions what to show and where to write.

use vstd::prelude::*;

use crate::file_tree::{find, find_node, FileTree, TreeModel};
use crate::path::{lemma_paths_push, parent_of, paths_model, FsPath, PathModel};
use crate::quick_info::{decimal, push_decimal};
use crate::scan::{lowercase_of, std_lowercase, Node};

verus! {

/// `needle` occurs in `hay` as a run of consecutive characters.
pub open spec fn contains_text(hay: Seq<char>, needle: Seq<char>) -> bool {
    exists|i: int|
        0 <= i && i + needle.len() <= hay.len() && #[trigger] hay.subrange(i, i + needle.len())
            == needle
}

/// The paths the palette lists for the lowercase query `query`: every file
/// of the forest, depth first in display order, whose lowercase name
/// contains the query.
pub open spec fn palette_hits(nodes: Seq<Node>, query: Seq<char>) -> Seq<PathModel>
    decreases nodes,
{
    if nodes.len() == 0 {
        Seq::empty()
    } else {
        let n = nodes[nodes.len() - 1];
        let here = if n.is_dir {
            palette_hits(n.children@, query)
        } else if contains_text(lowercase_of(n.name@), query) {
            seq![n.path@]
        } else {
            Seq::empty()
        };
        palette_hits(nodes.subrange(0, nodes.len() - 1), query) + here
    }
}

/// The directory a new document goes into: the selected directory, the
/// directory holding the selected file, or the workspace root when nothing
/// in the tree is selected.
pub open spec fn document_dir(t: TreeModel, root: PathModel) -> PathModel {
    match t.selected {
        Some(s) => match find(t.roots, s) {
            Some(n) => if n.is_dir {
                s
            } else {
                match parent_of(s) {
                    Some(p) => p,
                    None => root,
                }
            },
            None => root,
        },
        None => root,
    }
}

/// The name tried for a new document on attempt `n`: `Untitled.md` first,
/// then `Untitled 2.md`, `Untitled 3.md`, and so on.
pub open spec fn untitled_text(n: nat) -> Seq<char> {
    if n == 0 {
        "Untitled.md"@
    } else {
        "Untitled "@ + decimal(n + 1) + ".md"@
    }
}

/// Whether `needle` occurs in `hay`.
fn contains_chars(hay: &Vec<char>, needle: &Vec<char>) -> (res: bool)
    ensures
        res == contains_text(hay@, needle@),
{
    let n = needle.len();
    let h = hay.len();
    if n > h {
        return false;
    }
    let mut i: usize = 0;
    while i <= h - n
        invariant
            n == needle@.len(),
            h == hay@.len(),
            n <= h,
            i <= h - n + 1,
            forall|k: int| 0 <= k < i ==> #[trigger] hay@.subrange(k, k + n) != needle@,
        decreases h - n + 1 - i,
    {
        let mut j: usize = 0;
        while j < n && hay[i + j] == needle[j]
            invariant
                n == needle@.len(),
                h == hay@.len(),
                i + n <= h,
                j <= n,
                forall|m: int| 0 <= m < j ==> hay@[i + m] == needle@[m],
            decreases n - j,
        {
            j = j + 1;
        }
        if j == n {
            proof {
                assert(hay@.subrange(i as int, i + n) =~= needle@);
            }
            return true;
        }
        proof {
            assert(hay@.subrange(i as int, i + n)[j as int] != needle@[j as int]);
        }
        i = i + 1;
    }
    proof {
        assert forall|k: int| 0 <= k && k + n <= h implies #[trigger] hay@.subrange(k, k + n)
            != needle@ by {
            assert(k < i);
        }
    }
    false
}

/// Appends to `out` the palette hits of `nodes` for the lowercase `query`.
fn collect_hits(nodes: &Vec<Node>, query: &Vec<char>, out: &mut Vec<FsPath>)
    ensures
        paths_model(final(out)@) == paths_model(old(out)@) + palette_hits(nodes@, query@),
    decreases nodes@,
{
    let ghost start = paths_model(out@);
    let mut i: usize = 0;
    proof {
        assert(nodes@.subrange(0, 0) =~= Seq::<Node>::empty());
        assert(start + palette_hits(nodes@.subrange(0, 0), query@) =~= start);
    }
    while i < nodes.len()
        invariant
            i <= nodes@.len(),
            paths_model(out@) == start + palette_hits(nodes@.subrange(0, i as int), query@),
        decreases nodes@.len() - i,
    {
        let node = &nodes[i];
        let ghost before = paths_model(out@);
        let ghost next = nodes@.subrange(0, i + 1);
        proof {
            assert(next.subrange(0, next.len() - 1) =~= nodes@.subrange(0, i as int));
            assert(next[next.len() - 1] == *node);
        }
        if node.is_dir {
            proof {
                assert(decreases_to!(nodes@ => nodes@[i as int]));
            }
            collect_hits(&node.children, query, out);
        } else {
            let low = std_lowercase(node.name.as_str());
            if contains_chars(&low, query) {
                let p = node.path.duplicate();
                proof {
                    lemma_paths_push(out@, p);
                }
                out.push(p);
            }
        }
        proof {
            assert(paths_model(out@) =~= start + palette_hits(next, query@));
        }
        i = i + 1;
    }
    proof {
        assert(nodes@.subrange(0, nodes@.len() as int) =~= nodes@);
    }
}

/// The files the quick-open palette lists for `query`: every file of the
/// tree, depth first in display order, whose name contains the query,
/// ignoring case. An empty query lists every file.
pub fn palette_matches(tree: &FileTree, query: &str) -> (res: Vec<FsPath>)
    ensures
        paths_model(res@) == palette_hits(tree@.roots, lowercase_of(query@)),
{
    let low = std_lowercase(query);
    let mut out: Vec<FsPath> = Vec::new();
    proof {
        assert(paths_model(out@) =~= Seq::<PathModel>::empty());
    }
    collect_hits(tree.roots(), &low, &mut out);
    proof {
        assert(Seq::<PathModel>::empty() + palette_hits(tree@.roots, low@) =~= palette_hits(
            tree@.roots,
            low@,
        ));
    }
    out
}

/// The directory a new document goes into (see `document_dir`), for the
/// workspace rooted at `root`.
pub fn new_document_dir(tree: &FileTree, root: &FsPath) -> (dir: FsPath)
    ensures
        dir@ == document_dir(tree@, root@),
{
    match tree.selected() {
        None => root.duplicate(),
        Some(s) => match find_node(tree.roots(), s) {
            None => root.duplicate(),
            Some(n) => {
                if n.is_dir {
                    s.duplicate()
                } else {
                    match s.parent() {
                        Some(p) => p,
                        None => root.duplicate(),
                    }
                }
            },
        },
    }
}

/// The file name tried for a new document on attempt `attempt` (see
/// `untitled_text`); the application tries attempts in order until the name
/// is free in the directory.
pub fn untitled_name(attempt: u32) -> (name: String)
    ensures
        name@ == untitled_text(attempt as nat),
{
    if attempt == 0 {
        String::from_str("Untitled.md")
    } else {
        let mut out = String::from_str("Untitled ");
        push_decimal(&mut out, attempt as u64 + 1);
        out.append(".md");
        out
    }
}

} // verus!
