//! Filesystem paths. A path keeps the text it was given, as `PathBuf` does,
//! and is modelled by its components, the way `std::path::Path` compares
//! paths: two paths are equal exactly when their component lists are.
//!
//! The components come from `std::path::Path::components`; every operation
//! on them (equality, prefix, parent, final name) is verified against the
//! spec functions below, and shown text is always the path's own.
//!
//! Paths follow Unix syntax, the platform MarkSpace targets first (macOS and
//! Linux): `/` is the only separator and the root, and there are no drive or
//! UNC prefixes. On Windows `std::path` parses differently, and the spec
//! functions here do not describe it.

use vstd::prelude::*;
use vstd::std_specs::cmp::PartialEqSpecImpl;

verus! {

/// The mathematical model of a path: its components, each as text.
/// A root directory component is the single-character text `/`.
pub type PathModel = Seq<Seq<char>>;

/// The `/`-separated pieces of `text`, empty pieces included: `a//b/`
/// gives `a`, ``, `b`, ``.
pub open spec fn slash_pieces(text: Seq<char>) -> Seq<Seq<char>>
    decreases text.len(),
{
    if text.len() == 0 {
        seq![Seq::empty()]
    } else if text.last() == '/' {
        slash_pieces(text.drop_last()).push(Seq::empty())
    } else {
        let p = slash_pieces(text.drop_last());
        p.update(p.len() - 1, p.last().push(text.last()))
    }
}

/// The pieces that name something: neither empty nor `.`.
pub open spec fn named_pieces(pieces: Seq<Seq<char>>) -> Seq<Seq<char>> {
    pieces.filter(|p: Seq<char>| p.len() > 0 && p != seq!['.'])
}

/// What `std::path::Path::components` yields on Unix for a path given as
/// text, each component taken as text. As its documentation says: a leading
/// `/` is the root component (written `/`); repeated separators and a
/// trailing one are ignored; `.` is dropped except at the very start of a
/// path without a root; `..` and every other piece are kept as written.
pub open spec fn path_components(text: Seq<char>) -> PathModel {
    let pieces = slash_pieces(text);
    if text.len() > 0 && text[0] == '/' {
        seq![root_part()] + named_pieces(pieces)
    } else if pieces[0] == seq!['.'] {
        seq![seq!['.']] + named_pieces(pieces.drop_first())
    } else {
        named_pieces(pieces)
    }
}

/// The root-directory component.
pub open spec fn root_part() -> Seq<char> {
    seq!['/']
}

/// A component that names an entry: not the root, `.` or `..`.
pub open spec fn is_normal_part(c: Seq<char>) -> bool {
    &&& c != seq!['/']
    &&& c != seq!['.']
    &&& c != seq!['.', '.']
}

/// `Path::parent`: drop the final component, unless there is none or it is
/// the root.
pub open spec fn parent_of(p: PathModel) -> Option<PathModel> {
    if p.len() == 0 || p.last() == root_part() {
        None
    } else {
        Some(p.drop_last())
    }
}

/// `Path::file_name`: the final component when it names an entry.
pub open spec fn file_name_of(p: PathModel) -> Option<Seq<char>> {
    if p.len() > 0 && is_normal_part(p.last()) {
        Some(p.last())
    } else {
        None
    }
}

/// `Path::join` on Unix, as text: a `rest` that starts at the root replaces
/// the path; otherwise `rest` is appended, with a `/` between the two unless
/// the path is empty or already ends in one.
pub open spec fn join_text(base: Seq<char>, rest: Seq<char>) -> Seq<char> {
    if rest.len() > 0 && rest[0] == '/' {
        rest
    } else if base.len() > 0 && base.last() != '/' {
        base + seq!['/'] + rest
    } else {
        base + rest
    }
}

/// `base` is a component-wise prefix of `p` (what `Path::strip_prefix` and
/// `Path::starts_with` test).
pub open spec fn is_prefix_path(base: PathModel, p: PathModel) -> bool {
    base.len() <= p.len() && p.take(base.len() as int) == base
}

/// A filesystem path, held as its text.
#[derive(Debug, Clone, Eq)]
pub struct FsPath {
    pub text: String,
}

/// The texts of a list of components.
pub open spec fn texts_of(parts: Seq<String>) -> PathModel {
    parts.map_values(|s: String| s@)
}

/// The models of a list of paths.
pub open spec fn paths_model(v: Seq<FsPath>) -> Seq<PathModel> {
    v.map_values(|p: FsPath| p@)
}

/// Appending a path appends its model.
pub proof fn lemma_paths_push(v: Seq<FsPath>, p: FsPath)
    ensures
        paths_model(v.push(p)) == paths_model(v).push(p@),
{
    assert(paths_model(v.push(p)) =~= paths_model(v).push(p@));
}

/// The literals `/`, `.` and `..` are the texts of the special components.
pub proof fn lemma_special_literals()
    ensures
        "/"@ == root_part(),
        "."@ == seq!['.'],
        ".."@ == seq!['.', '.'],
{
    reveal_strlit("/");
    reveal_strlit(".");
    reveal_strlit("..");
    assert("/"@ =~= root_part());
    assert("."@ =~= seq!['.']);
    assert(".."@ =~= seq!['.', '.']);
}

impl View for FsPath {
    type V = PathModel;

    open spec fn view(&self) -> PathModel {
        path_components(self.text@)
    }
}

/// Two paths are equal when their components are, as with `Path`'s `==`.
impl PartialEq for FsPath {
    fn eq(&self, other: &FsPath) -> (res: bool) {
        self.same_as(other)
    }
}

impl PartialEqSpecImpl for FsPath {
    open spec fn obeys_eq_spec() -> bool {
        true
    }

    open spec fn eq_spec(&self, other: &FsPath) -> bool {
        self@ == other@
    }
}

/// Splits `text` with `std::path::Path::components`, each component turned
/// into owned text (`/` for the root, `.` and `..` as written). Claims that
/// the texts are the component list of `text` as `path_components` states
/// it for Unix.
#[verifier::external_body]
fn std_components(text: &str) -> (parts: Vec<String>)
    ensures
        texts_of(parts@) == path_components(text@),
{
    std::path::Path::new(text).components().map(
        |c| c.as_os_str().to_string_lossy().into_owned(),
    ).collect()
}

/// The text that `std::path::Path::parent` gives for the path written as
/// `text`; it depends on `text` alone.
pub uninterp spec fn parent_text(text: Seq<char>) -> Seq<char>;

/// `std::path::Path::parent` on the path written as `text`, as text. As its
/// documentation says, it returns the path without its final component, and
/// nothing when the path ends in a root or is empty: so the result is there
/// exactly when `parent_of` gives one, and its components are the path's
/// without the last. Which text it keeps (separators are not re-written) is
/// named by `parent_text`.
#[verifier::external_body]
fn std_parent(text: &str) -> (res: Option<String>)
    ensures
        res is Some <==> parent_of(path_components(text@)) is Some,
        res matches Some(t) ==> t@ == parent_text(text@) && path_components(t@) == path_components(
            text@,
        ).drop_last(),
{
    std::path::Path::new(text).parent().map(|p| p.to_string_lossy().into_owned())
}

/// The text that `std::path::Path::strip_prefix` gives for `path` and
/// `base`; it depends on the two alone.
pub uninterp spec fn strip_prefix_text(path: Seq<char>, base: Seq<char>) -> Seq<char>;

/// `std::path::Path::strip_prefix(path, base)`, as text. As its
/// documentation says, it fails exactly when `base` is not a prefix of
/// `path` in whole components (what `starts_with` tests). What text remains
/// on success is named by `strip_prefix_text`.
#[verifier::external_body]
fn std_strip_prefix(path: &str, base: &str) -> (res: Option<String>)
    ensures
        res is Some <==> is_prefix_path(path_components(base@), path_components(path@)),
        res matches Some(t) ==> t@ == strip_prefix_text(path@, base@),
{
    match std::path::Path::new(path).strip_prefix(base) {
        Ok(rest) => Some(rest.to_string_lossy().into_owned()),
        Err(_) => None,
    }
}

/// Appends `c` to `s`: `String::push`, which adds the character at the end.
#[verifier::external_body]
pub(crate) fn push_char(s: &mut String, c: char)
    ensures
        final(s)@ == old(s)@.push(c),
{
    s.push(c);
}

/// Whether the text `s` equals the text `t`.
pub fn text_is(s: &String, t: &str) -> (res: bool)
    ensures
        res == (s@ == t@),
{
    let owned = String::from_str(t);
    *s == owned
}

/// A copy of the text `s`.
pub fn copy_text(s: &String) -> (res: String)
    ensures
        res@ == s@,
{
    s.clone()
}

/// `text` relative to `root`: what `Path::strip_prefix` leaves when `root`
/// is a component-wise prefix of `text`, otherwise `text` itself.
pub open spec fn relative_text(text: Seq<char>, root: Seq<char>) -> Seq<char> {
    if is_prefix_path(path_components(root), path_components(text)) {
        strip_prefix_text(text, root)
    } else {
        text
    }
}

impl FsPath {
    /// The path written as `text`.
    pub fn parse(text: &str) -> (p: FsPath)
        ensures
            p.text@ == text@,
            p@ == path_components(text@),
    {
        FsPath { text: String::from_str(text) }
    }

    /// The components, each as text (`Path::components`).
    pub fn components(&self) -> (parts: Vec<String>)
        ensures
            texts_of(parts@) == self@,
    {
        std_components(self.text.as_str())
    }

    /// A copy of this path, text and all.
    pub fn duplicate(&self) -> (res: FsPath)
        ensures
            res.text@ == self.text@,
            res@ == self@,
    {
        FsPath { text: copy_text(&self.text) }
    }

    /// Path equality, component by component (as `Path`'s `==`).
    pub fn same_as(&self, other: &FsPath) -> (res: bool)
        ensures
            res == (self@ == other@),
    {
        let a = self.components();
        let b = other.components();
        let n = a.len();
        if n != b.len() {
            proof {
                assert(self@.len() != other@.len());
            }
            return false;
        }
        let mut i: usize = 0;
        while i < n
            invariant
                n == a@.len(),
                n == b@.len(),
                texts_of(a@) == self@,
                texts_of(b@) == other@,
                i <= n,
                forall|j: int| 0 <= j < i ==> self@[j] == other@[j],
            decreases n - i,
        {
            proof {
                assert(self@[i as int] == a@[i as int]@);
                assert(other@[i as int] == b@[i as int]@);
            }
            if a[i] != b[i] {
                proof {
                    assert(self@[i as int] != other@[i as int]);
                }
                return false;
            }
            i = i + 1;
        }
        proof {
            assert(self@ =~= other@);
        }
        true
    }

    /// `Path::parent`: the path without its final component, keeping the
    /// text that `Path::parent` keeps.
    pub fn parent(&self) -> (res: Option<FsPath>)
        ensures
            match res {
                Some(q) => parent_of(self@) == Some(q@) && q.text@ == parent_text(self.text@),
                None => parent_of(self@) is None,
            },
    {
        match std_parent(self.text.as_str()) {
            Some(t) => Some(FsPath { text: t }),
            None => None,
        }
    }

    /// `Path::file_name`: the final component when it names an entry.
    pub fn file_name(&self) -> (res: Option<String>)
        ensures
            match res {
                Some(s) => file_name_of(self@) == Some(s@),
                None => file_name_of(self@) is None,
            },
    {
        let parts = self.components();
        let n = parts.len();
        if n == 0 {
            return None;
        }
        let last = &parts[n - 1];
        proof {
            assert(self@.last() == parts@[n - 1]@);
        }
        let special = text_is(last, "/") || text_is(last, ".") || text_is(last, "..");
        proof {
            lemma_special_literals();
        }
        if special {
            None
        } else {
            Some(copy_text(last))
        }
    }

    /// The path's own text.
    pub fn display(&self) -> (res: String)
        ensures
            res@ == self.text@,
    {
        copy_text(&self.text)
    }

    /// `Path::join` with the path written as `rest` (see `join_text`).
    pub fn join(&self, rest: &str) -> (res: FsPath)
        ensures
            res.text@ == join_text(self.text@, rest@),
            res@ == path_components(join_text(self.text@, rest@)),
    {
        let rest_len = rest.unicode_len();
        if rest_len > 0 && rest.get_char(0) == '/' {
            return FsPath::parse(rest);
        }
        let base = self.text.as_str();
        let base_len = base.unicode_len();
        let mut out = copy_text(&self.text);
        if base_len > 0 && base.get_char(base_len - 1) != '/' {
            push_char(&mut out, '/');
        }
        out.append(rest);
        proof {
            assert(out@ =~= join_text(self.text@, rest@));
        }
        FsPath { text: out }
    }

    /// Whether `base` is a component-wise prefix of this path.
    pub fn starts_with(&self, base: &FsPath) -> (res: bool)
        ensures
            res == is_prefix_path(base@, self@),
    {
        let mine = self.components();
        let theirs = base.components();
        let n = theirs.len();
        if n > mine.len() {
            return false;
        }
        let mut i: usize = 0;
        while i < n
            invariant
                n == base@.len(),
                n <= self@.len(),
                texts_of(mine@) == self@,
                texts_of(theirs@) == base@,
                i <= n,
                forall|j: int| 0 <= j < i ==> self@[j] == base@[j],
            decreases n - i,
        {
            proof {
                assert(self@[i as int] == mine@[i as int]@);
                assert(base@[i as int] == theirs@[i as int]@);
            }
            if mine[i] != theirs[i] {
                proof {
                    assert(self@.take(n as int)[i as int] != base@[i as int]);
                }
                return false;
            }
            i = i + 1;
        }
        proof {
            assert(self@.take(n as int) =~= base@);
        }
        true
    }

    /// This path's text relative to `root`: what `Path::strip_prefix` leaves
    /// when `root` is a component-wise prefix of it, otherwise its whole text.
    pub fn relative_to(&self, root: &FsPath) -> (res: String)
        ensures
            res@ == relative_text(self.text@, root.text@),
    {
        match std_strip_prefix(self.text.as_str(), root.text.as_str()) {
            Some(t) => t,
            None => copy_text(&self.text),
        }
    }
}

} // verus!
