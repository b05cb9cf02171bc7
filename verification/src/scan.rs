//! File Tree nodes and the order in which a scanned directory level is shown:
//! directories before files, then case-insensitive alphabetical, with entries
//! that compare equal kept in the order the scan produced them.
//!
//! Reading the directory itself is filesystem I/O and happens outside the
//! library; the scanner hands each level's entries to [`order_level`].

use vstd::prelude::*;

use crate::path::{file_name_of, FsPath};

verus! {

/// A node in the File Tree: a file or directory. Directories carry their
/// nested `children`; files have none.
pub struct Node {
    pub name: String,
    pub path: FsPath,
    pub is_dir: bool,
    pub children: Vec<Node>,
}

/// What `str::to_lowercase` gives for `text` (full Unicode lowercase mapping).
pub uninterp spec fn lowercase_of(text: Seq<char>) -> Seq<char>;

/// `str::to_lowercase`, returned as its characters. Claims only that the
/// result is the lowercase form named by `lowercase_of`.
#[verifier::external_body]
pub(crate) fn std_lowercase(text: &str) -> (low: Vec<char>)
    ensures
        low@ == lowercase_of(text@),
{
    text.to_lowercase().chars().collect()
}

/// Strict lexicographic order on texts, character by character (by code
/// point), a proper prefix coming first. This is how `String`'s `Ord`
/// compares, UTF-8 byte order agreeing with code point order.
pub open spec fn text_lt(a: Seq<char>, b: Seq<char>) -> bool
    decreases a.len(),
{
    if a.len() == 0 {
        b.len() > 0
    } else if b.len() == 0 {
        false
    } else if a[0] != b[0] {
        (a[0] as int) < (b[0] as int)
    } else {
        text_lt(a.drop_first(), b.drop_first())
    }
}

/// The key a level is ordered by: directory flag and lowercase name.
pub open spec fn sort_key(n: Node) -> (bool, Seq<char>) {
    (n.is_dir, lowercase_of(n.name@))
}

/// `a` comes strictly before `b`: a directory before a file, otherwise the
/// lowercase names in lexicographic order.
pub open spec fn node_before(a: Node, b: Node) -> bool {
    ||| (a.is_dir && !b.is_dir)
    ||| (a.is_dir == b.is_dir && text_lt(lowercase_of(a.name@), lowercase_of(b.name@)))
}

/// No node is strictly before one that precedes it.
pub open spec fn is_ordered(s: Seq<Node>) -> bool {
    forall|i: int, j: int| 0 <= i < j < s.len() ==> !node_before(s[j], s[i])
}

/// The nodes of `s` whose key is `k`, in their order in `s`.
pub open spec fn with_key(s: Seq<Node>, k: (bool, Seq<char>)) -> Seq<Node> {
    s.filter(|n: Node| sort_key(n) == k)
}

/// `output` is `input` arranged for display: ordered, and for every key the
/// nodes with that key are exactly those of `input`, in the same order (a
/// stable sort).
pub open spec fn arranged(input: Seq<Node>, output: Seq<Node>) -> bool {
    &&& is_ordered(output)
    &&& forall|k: (bool, Seq<char>)| #[trigger] with_key(output, k) == with_key(input, k)
}

/// The name shown for a node at `path`: its final component, or empty.
pub open spec fn entry_name(path: Seq<Seq<char>>) -> Seq<char> {
    match file_name_of(path) {
        Some(n) => n,
        None => Seq::empty(),
    }
}

proof fn lemma_text_lt_irreflexive(a: Seq<char>)
    ensures
        !text_lt(a, a),
    decreases a.len(),
{
    if a.len() > 0 {
        lemma_text_lt_irreflexive(a.drop_first());
    }
}

proof fn lemma_text_lt_transitive(a: Seq<char>, b: Seq<char>, c: Seq<char>)
    requires
        text_lt(a, b),
        text_lt(b, c),
    ensures
        text_lt(a, c),
    decreases a.len(),
{
    if a.len() > 0 && b.len() > 0 && c.len() > 0 && a[0] == b[0] && b[0] == c[0] {
        lemma_text_lt_transitive(a.drop_first(), b.drop_first(), c.drop_first());
    }
}

proof fn lemma_text_lt_total(a: Seq<char>, b: Seq<char>)
    requires
        a != b,
    ensures
        text_lt(a, b) || text_lt(b, a),
    decreases a.len(),
{
    if a.len() > 0 && b.len() > 0 && a[0] == b[0] {
        if a.drop_first() == b.drop_first() {
            assert(a =~= seq![a[0]] + a.drop_first());
            assert(b =~= seq![b[0]] + b.drop_first());
        }
        lemma_text_lt_total(a.drop_first(), b.drop_first());
    } else if a.len() > 0 && b.len() > 0 {
        assert((a[0] as int) != (b[0] as int));
    } else if a.len() == 0 && b.len() == 0 {
        assert(a =~= b);
    }
}

/// A node together with the key its level is ordered by (its name in
/// lowercase).
pub struct KeyedNode {
    pub key: Vec<char>,
    pub node: Node,
}

/// The key an entry is ordered by: directory flag and its given key.
pub open spec fn keyed_key(e: KeyedNode) -> (bool, Seq<char>) {
    (e.node.is_dir, e.key@)
}

/// `a` comes strictly before `b`: a directory before a file, otherwise the
/// keys in lexicographic order.
pub open spec fn keyed_before(a: KeyedNode, b: KeyedNode) -> bool {
    ||| (a.node.is_dir && !b.node.is_dir)
    ||| (a.node.is_dir == b.node.is_dir && text_lt(a.key@, b.key@))
}

/// No entry is strictly before one that precedes it.
pub open spec fn keyed_ordered(s: Seq<KeyedNode>) -> bool {
    forall|i: int, j: int| 0 <= i < j < s.len() ==> !keyed_before(s[j], s[i])
}

/// The entries of `s` whose key is `k`, in their order in `s`.
pub open spec fn keyed_with_key(s: Seq<KeyedNode>, k: (bool, Seq<char>)) -> Seq<KeyedNode> {
    s.filter(|e: KeyedNode| keyed_key(e) == k)
}

/// `output` is `input` arranged by the given keys: ordered, and for every
/// key the entries with that key are exactly those of `input`, in the same
/// order (a stable sort).
pub open spec fn keyed_arranged(input: Seq<KeyedNode>, output: Seq<KeyedNode>) -> bool {
    &&& keyed_ordered(output)
    &&& forall|k: (bool, Seq<char>)| #[trigger] keyed_with_key(output, k) == keyed_with_key(input, k)
}

/// Every entry's key is its node's name in lowercase.
pub open spec fn keyed_by_lowercase(s: Seq<KeyedNode>) -> bool {
    forall|i: int| 0 <= i < s.len() ==> (#[trigger] s[i]).key@ == lowercase_of(s[i].node.name@)
}

/// The nodes of a list of entries.
pub open spec fn nodes_of(s: Seq<KeyedNode>) -> Seq<Node> {
    s.map_values(|e: KeyedNode| e.node)
}

/// `keyed_before` is a strict weak order: irreflexive, transitive, and nodes
/// with different keys are comparable.
proof fn lemma_before_order(a: KeyedNode, b: KeyedNode, c: KeyedNode)
    ensures
        !keyed_before(a, a),
        keyed_before(a, b) && keyed_before(b, c) ==> keyed_before(a, c),
        keyed_before(a, b) ==> !keyed_before(b, a),
        keyed_key(a) != keyed_key(b) ==> keyed_before(a, b) || keyed_before(b, a),
        keyed_key(a) == keyed_key(b) ==> (keyed_before(a, c) == keyed_before(b, c)),
        keyed_key(a) == keyed_key(b) ==> (keyed_before(c, a) == keyed_before(c, b)),
        keyed_before(a, c) ==> keyed_before(a, b) || keyed_before(b, c),
{
    let la = a.key@;
    let lb = b.key@;
    let lc = c.key@;
    lemma_text_lt_irreflexive(la);
    if text_lt(la, lb) && text_lt(lb, lc) {
        lemma_text_lt_transitive(la, lb, lc);
    }
    if text_lt(la, lb) && text_lt(lb, la) {
        lemma_text_lt_transitive(la, lb, la);
    }
    if la != lb {
        lemma_text_lt_total(la, lb);
    }
    if la != lc {
        lemma_text_lt_total(la, lc);
    }
    if lb != lc {
        lemma_text_lt_total(lb, lc);
    }
    if text_lt(la, lc) && text_lt(lc, lb) {
        lemma_text_lt_transitive(la, lc, lb);
    }
    if text_lt(lb, la) && text_lt(la, lc) {
        lemma_text_lt_transitive(lb, la, lc);
    }
    if text_lt(lc, lb) && text_lt(lb, la) {
        lemma_text_lt_transitive(lc, lb, la);
    }
}

/// Whether text `a` is strictly before text `b` (see `text_lt`).
fn chars_lt(a: &Vec<char>, b: &Vec<char>) -> (res: bool)
    ensures
        res == text_lt(a@, b@),
{
    let mut i: usize = 0;
    proof {
        assert(a@.skip(0) =~= a@);
        assert(b@.skip(0) =~= b@);
        assert(a@.take(0) =~= b@.take(0));
    }
    while i < a.len() && i < b.len()
        invariant
            i <= a@.len(),
            i <= b@.len(),
            a@.take(i as int) == b@.take(i as int),
            text_lt(a@, b@) == text_lt(a@.skip(i as int), b@.skip(i as int)),
        decreases a.len() - i,
    {
        let ca = a[i];
        let cb = b[i];
        if ca != cb {
            proof {
                assert(a@.skip(i as int)[0] == ca);
                assert(b@.skip(i as int)[0] == cb);
            }
            return ca < cb;
        }
        proof {
            assert(a@.skip(i as int).drop_first() =~= a@.skip(i + 1));
            assert(b@.skip(i as int).drop_first() =~= b@.skip(i + 1));
            assert(a@.take(i + 1) =~= a@.take(i as int).push(ca));
            assert(b@.take(i + 1) =~= b@.take(i as int).push(cb));
        }
        i = i + 1;
    }
    i < b.len()
}

/// Whether entry `a` is shown strictly before entry `b`.
fn before(a: &KeyedNode, b: &KeyedNode) -> (res: bool)
    ensures
        res == keyed_before(*a, *b),
{
    if a.node.is_dir != b.node.is_dir {
        return a.node.is_dir;
    }
    chars_lt(&a.key, &b.key)
}

/// Removes and returns the last entry of a non-empty vector.
fn take_last(v: &mut Vec<KeyedNode>) -> (x: KeyedNode)
    requires
        old(v)@.len() > 0,
    ensures
        x == old(v)@.last(),
        final(v)@ == old(v)@.drop_last(),
{
    v.pop().unwrap()
}

/// Filtering by key distributes over concatenation.
proof fn lemma_with_key_add(a: Seq<KeyedNode>, b: Seq<KeyedNode>, k: (bool, Seq<char>))
    ensures
        keyed_with_key(a + b, k) == keyed_with_key(a, k) + keyed_with_key(b, k),
{
    Seq::filter_distributes_over_add(a, b, |n: KeyedNode| keyed_key(n) == k);
}

/// Filtering `[x] + s` by key.
proof fn lemma_with_key_prepend(x: KeyedNode, s: Seq<KeyedNode>, k: (bool, Seq<char>))
    ensures
        keyed_with_key(seq![x] + s, k) == (if keyed_key(x) == k {
            seq![x]
        } else {
            Seq::empty()
        }) + keyed_with_key(s, k),
{
    s.lemma_filter_prepend(x, |n: KeyedNode| keyed_key(n) == k);
}

/// Filtering `s.push(x)` by key.
proof fn lemma_with_key_push(s: Seq<KeyedNode>, x: KeyedNode, k: (bool, Seq<char>))
    ensures
        keyed_with_key(s.push(x), k) == if keyed_key(x) == k {
            keyed_with_key(s, k).push(x)
        } else {
            keyed_with_key(s, k)
        },
{
    s.lemma_filter_push(x, |n: KeyedNode| keyed_key(n) == k);
}

/// Nothing in `s` has key `k` when every node of `s` differs from `x` in key
/// and `x` has key `k`.
proof fn lemma_with_key_none(s: Seq<KeyedNode>, k: (bool, Seq<char>))
    requires
        forall|i: int| 0 <= i < s.len() ==> keyed_key(#[trigger] s[i]) != k,
    ensures
        keyed_with_key(s, k) == Seq::<KeyedNode>::empty(),
    decreases s.len(),
{
    reveal(Seq::filter);
    if s.len() > 0 {
        lemma_with_key_none(s.drop_last(), k);
    }
    assert(keyed_with_key(s, k) =~= Seq::<KeyedNode>::empty());
}

/// Merges two ordered runs; on equal keys the entries of `a` come first.
fn merge(a: Vec<KeyedNode>, b: Vec<KeyedNode>) -> (res: Vec<KeyedNode>)
    requires
        keyed_ordered(a@),
        keyed_ordered(b@),
    ensures
        keyed_ordered(res@),
        forall|k: (bool, Seq<char>)|
            #[trigger] keyed_with_key(res@, k) == keyed_with_key(a@, k) + keyed_with_key(b@, k),
{
    let ghost a0 = a@;
    let ghost b0 = b@;
    let mut a = a;
    let mut b = b;
    // `rev` holds the merged tail, largest first; `m` is that tail in order.
    let mut rev: Vec<KeyedNode> = Vec::new();
    let ghost mut m: Seq<KeyedNode> = Seq::empty();
    while a.len() > 0 || b.len() > 0
        invariant
            keyed_ordered(a@),
            keyed_ordered(b@),
            keyed_ordered(m),
            rev@.len() == m.len(),
            forall|i: int| 0 <= i < m.len() ==> rev@[i] == #[trigger] m[m.len() - 1 - i],
            forall|i: int, j: int|
                0 <= i < a@.len() && 0 <= j < m.len() ==> !keyed_before(m[j], a@[i]),
            forall|i: int, j: int|
                0 <= i < b@.len() && 0 <= j < m.len() ==> !keyed_before(m[j], b@[i]),
            forall|k: (bool, Seq<char>)|
                #[trigger] keyed_with_key(a0, k) + keyed_with_key(b0, k) == keyed_with_key(a@, k) + keyed_with_key(b@, k)
                    + keyed_with_key(m, k),
        decreases a@.len() + b@.len(),
    {
        let take_a = if a.len() == 0 {
            false
        } else if b.len() == 0 {
            true
        } else {
            before(&b[b.len() - 1], &a[a.len() - 1])
        };
        let ghost pa = a@;
        let ghost pb = b@;
        let ghost pm = m;
        if take_a {
            let x = take_last(&mut a);
            proof {
                m = seq![x] + pm;
                assert forall|i: int, j: int|
                    0 <= i < a@.len() && 0 <= j < m.len() implies !keyed_before(
                    m[j],
                    a@[i],
                ) by {
                    if j == 0 {
                        assert(pa[i] == a@[i]);
                    } else {
                        assert(m[j] == pm[j - 1]);
                        assert(pa[i] == a@[i]);
                    }
                }
                assert forall|i: int, j: int|
                    0 <= i < b@.len() && 0 <= j < m.len() implies !keyed_before(
                    m[j],
                    b@[i],
                ) by {
                    if j == 0 {
                        // b@[i] <= b.last < x
                        let bl = pb.last();
                        lemma_before_order(bl, x, b@[i]);
                        lemma_before_order(x, b@[i], bl);
                        lemma_before_order(b@[i], bl, x);
                        if i < pb.len() - 1 {
                            assert(!keyed_before(bl, b@[i]));
                        }
                        lemma_before_order(bl, b@[i], x);
                        lemma_before_order(x, bl, b@[i]);
                    } else {
                        assert(m[j] == pm[j - 1]);
                    }
                }
                assert forall|i: int, j: int| 0 <= i < j < m.len() implies !keyed_before(
                    m[j],
                    m[i],
                ) by {
                    if i == 0 {
                        assert(m[j] == pm[j - 1]);
                    } else {
                        assert(m[i] == pm[i - 1] && m[j] == pm[j - 1]);
                    }
                }
                assert forall|k: (bool, Seq<char>)|
                    #[trigger] keyed_with_key(a0, k) + keyed_with_key(b0, k) == keyed_with_key(a@, k) + keyed_with_key(
                        b@,
                        k,
                    ) + keyed_with_key(m, k) by {
                    assert(pa =~= a@.push(x));
                    lemma_with_key_push(a@, x, k);
                    lemma_with_key_prepend(x, pm, k);
                    if keyed_key(x) == k {
                        // nothing in b has x's key: all of b is before x
                        assert forall|i: int| 0 <= i < pb.len() implies keyed_key(
                            #[trigger] pb[i],
                        ) != k by {
                            let bl = pb.last();
                            if keyed_key(pb[i]) == k {
                                lemma_before_order(pb[i], x, bl);
                                lemma_before_order(bl, pb[i], x);
                                if i < pb.len() - 1 {
                                    assert(!keyed_before(bl, pb[i]));
                                }
                                lemma_before_order(x, pb[i], bl);
                            }
                        }
                        lemma_with_key_none(pb, k);
                        assert(keyed_with_key(a@, k).push(x) =~= keyed_with_key(a@, k) + seq![x]);
                        assert(keyed_with_key(a@, k) + keyed_with_key(b@, k) + keyed_with_key(m, k) =~= keyed_with_key(
                            a@,
                            k,
                        ) + (seq![x] + keyed_with_key(pm, k)));
                        assert(keyed_with_key(pa, k) + keyed_with_key(pb, k) + keyed_with_key(pm, k) =~= keyed_with_key(
                            a@,
                            k,
                        ).push(x) + keyed_with_key(pm, k));
                    } else {
                        assert(keyed_with_key(m, k) =~= keyed_with_key(pm, k));
                    }
                }
            }
            rev.push(x);
            proof {
                assert forall|i: int| 0 <= i < m.len() implies rev@[i] == #[trigger] m[m.len() - 1
                    - i] by {
                    if i < pm.len() {
                        assert(m[m.len() - 1 - i] == pm[pm.len() - 1 - i]);
                    }
                }
            }
        } else {
            let x = take_last(&mut b);
            proof {
                m = seq![x] + pm;
                assert forall|i: int, j: int|
                    0 <= i < a@.len() && 0 <= j < m.len() implies !keyed_before(
                    m[j],
                    a@[i],
                ) by {
                    if j == 0 {
                        // a@[i] <= a.last <= x
                        let al = pa.last();
                        lemma_before_order(x, a@[i], al);
                        lemma_before_order(al, a@[i], x);
                        if i < pa.len() - 1 {
                            assert(!keyed_before(al, a@[i]));
                        }
                    } else {
                        assert(m[j] == pm[j - 1]);
                    }
                }
                assert forall|i: int, j: int|
                    0 <= i < b@.len() && 0 <= j < m.len() implies !keyed_before(
                    m[j],
                    b@[i],
                ) by {
                    if j == 0 {
                        assert(pb[i] == b@[i]);
                    } else {
                        assert(m[j] == pm[j - 1]);
                        assert(pb[i] == b@[i]);
                    }
                }
                assert forall|i: int, j: int| 0 <= i < j < m.len() implies !keyed_before(
                    m[j],
                    m[i],
                ) by {
                    if i == 0 {
                        assert(m[j] == pm[j - 1]);
                    } else {
                        assert(m[i] == pm[i - 1] && m[j] == pm[j - 1]);
                    }
                }
                assert forall|k: (bool, Seq<char>)|
                    #[trigger] keyed_with_key(a0, k) + keyed_with_key(b0, k) == keyed_with_key(a@, k) + keyed_with_key(
                        b@,
                        k,
                    ) + keyed_with_key(m, k) by {
                    assert(pb =~= b@.push(x));
                    lemma_with_key_push(b@, x, k);
                    lemma_with_key_prepend(x, pm, k);
                    if keyed_key(x) == k {
                        assert(keyed_with_key(pa, k) + keyed_with_key(pb, k) + keyed_with_key(pm, k) =~= keyed_with_key(
                            a@,
                            k,
                        ) + keyed_with_key(b@, k) + (seq![x] + keyed_with_key(pm, k)));
                    } else {
                        assert(keyed_with_key(m, k) =~= keyed_with_key(pm, k));
                    }
                }
            }
            rev.push(x);
            proof {
                assert forall|i: int| 0 <= i < m.len() implies rev@[i] == #[trigger] m[m.len() - 1
                    - i] by {
                    if i < pm.len() {
                        assert(m[m.len() - 1 - i] == pm[pm.len() - 1 - i]);
                    }
                }
            }
        }
    }
    proof {
        assert forall|k: (bool, Seq<char>)| #[trigger] keyed_with_key(m, k) == keyed_with_key(a0, k) + keyed_with_key(
            b0,
            k,
        ) by {
            assert(keyed_with_key(a@, k) =~= Seq::<KeyedNode>::empty()) by {
                reveal(Seq::filter);
            }
            assert(keyed_with_key(b@, k) =~= Seq::<KeyedNode>::empty()) by {
                reveal(Seq::filter);
            }
            assert(keyed_with_key(a0, k) + keyed_with_key(b0, k) =~= keyed_with_key(m, k));
        }
    }
    // Unreverse the merged run.
    let mut out: Vec<KeyedNode> = Vec::new();
    while rev.len() > 0
        invariant
            rev@.len() + out@.len() == m.len(),
            forall|i: int| 0 <= i < rev@.len() ==> rev@[i] == #[trigger] m[m.len() - 1 - i],
            out@ == m.take(out@.len() as int),
        decreases rev@.len(),
    {
        let ghost pr = rev@;
        let x = take_last(&mut rev);
        proof {
            assert(pr[pr.len() - 1] == m[m.len() - 1 - (pr.len() - 1)]);
            assert(x == m[out@.len() as int]);
            assert forall|i: int| 0 <= i < rev@.len() implies rev@[i] == #[trigger] m[m.len() - 1
                - i] by {
                assert(rev@[i] == pr[i]);
            }
        }
        out.push(x);
        proof {
            assert(out@ =~= m.take(out@.len() as int));
        }
    }
    proof {
        assert(out@ =~= m);
    }
    out
}

/// One directory level sorted by the keys it carries: directories first,
/// then the keys in lexicographic order; entries with equal keys keep their
/// order.
pub fn order_by_keys(entries: Vec<KeyedNode>) -> (res: Vec<KeyedNode>)
    ensures
        keyed_arranged(entries@, res@),
    decreases entries@.len(),
{
    if entries.len() <= 1 {
        return entries;
    }
    let ghost all = entries@;
    let mut left = entries;
    let mid = left.len() / 2;
    let right = left.split_off(mid);
    proof {
        assert(all =~= left@ + right@);
    }
    let l = order_by_keys(left);
    let r = order_by_keys(right);
    let res = merge(l, r);
    proof {
        assert forall|k: (bool, Seq<char>)| #[trigger] keyed_with_key(res@, k) == keyed_with_key(
            all,
            k,
        ) by {
            lemma_with_key_add(left@, right@, k);
        }
    }
    res
}

/// The elements of `v` in reverse order.
fn reversed<T>(v: Vec<T>) -> (r: Vec<T>)
    ensures
        r@.len() == v@.len(),
        forall|i: int| 0 <= i < v@.len() ==> #[trigger] r@[i] == v@[v@.len() - 1 - i],
{
    let ghost all = v@;
    let mut v = v;
    let mut r: Vec<T> = Vec::new();
    while v.len() > 0
        invariant
            v@.len() + r@.len() == all.len(),
            v@ == all.take(v@.len() as int),
            forall|i: int| 0 <= i < r@.len() ==> #[trigger] r@[i] == all[all.len() - 1 - i],
        decreases v@.len(),
    {
        let x = v.pop().unwrap();
        proof {
            assert(x == all[v@.len() as int]);
            assert(v@ =~= all.take(v@.len() as int));
        }
        r.push(x);
    }
    r
}

/// Each node of a level with its lowercase name as key, in order.
fn keyed_level(nodes: Vec<Node>) -> (res: Vec<KeyedNode>)
    ensures
        nodes_of(res@) == nodes@,
        keyed_by_lowercase(res@),
{
    let ghost all = nodes@;
    let mut rest = reversed(nodes);
    let mut out: Vec<KeyedNode> = Vec::new();
    while rest.len() > 0
        invariant
            rest@.len() + out@.len() == all.len(),
            forall|i: int| 0 <= i < rest@.len() ==> #[trigger] rest@[i] == all[all.len() - 1 - i],
            nodes_of(out@) == all.take(out@.len() as int),
            keyed_by_lowercase(out@),
        decreases rest@.len(),
    {
        let ghost pr = rest@;
        let node = rest.pop().unwrap();
        proof {
            assert(node == pr[pr.len() - 1]);
            assert(node == all[out@.len() as int]);
            assert forall|i: int| 0 <= i < rest@.len() implies #[trigger] rest@[i] == all[all.len()
                - 1 - i] by {
                assert(rest@[i] == pr[i]);
            }
        }
        let key = std_lowercase(node.name.as_str());
        let ghost po = out@;
        out.push(KeyedNode { key, node });
        proof {
            assert(nodes_of(out@) =~= all.take(out@.len() as int)) by {
                assert(nodes_of(out@) =~= nodes_of(po).push(node));
            }
        }
    }
    proof {
        assert(all.take(all.len() as int) =~= all);
    }
    out
}

/// The nodes of a list of entries, in order.
fn unkeyed(entries: Vec<KeyedNode>) -> (res: Vec<Node>)
    ensures
        res@ == nodes_of(entries@),
{
    let ghost all = entries@;
    let mut rest = reversed(entries);
    let mut out: Vec<Node> = Vec::new();
    while rest.len() > 0
        invariant
            rest@.len() + out@.len() == all.len(),
            forall|i: int| 0 <= i < rest@.len() ==> #[trigger] rest@[i] == all[all.len() - 1 - i],
            out@ == nodes_of(all.take(out@.len() as int)),
        decreases rest@.len(),
    {
        let ghost pr = rest@;
        let e = rest.pop().unwrap();
        proof {
            assert(e == pr[pr.len() - 1]);
            assert(e == all[out@.len() as int]);
            assert forall|i: int| 0 <= i < rest@.len() implies #[trigger] rest@[i] == all[all.len()
                - 1 - i] by {
                assert(rest@[i] == pr[i]);
            }
        }
        out.push(e.node);
        proof {
            assert(out@ =~= nodes_of(all.take(out@.len() as int)));
        }
    }
    proof {
        assert(all.take(all.len() as int) =~= all);
    }
    out
}

/// For entries keyed by their lowercase names, picking the nodes with a key
/// and picking the entries with that key agree.
proof fn lemma_keys_agree(s: Seq<KeyedNode>, k: (bool, Seq<char>))
    requires
        keyed_by_lowercase(s),
    ensures
        with_key(nodes_of(s), k) == nodes_of(keyed_with_key(s, k)),
    decreases s.len(),
{
    if s.len() == 0 {
        assert(with_key(nodes_of(s), k) =~= Seq::<Node>::empty()) by {
            reveal(Seq::filter);
        }
        assert(keyed_with_key(s, k) =~= Seq::<KeyedNode>::empty()) by {
            reveal(Seq::filter);
        }
        assert(nodes_of(keyed_with_key(s, k)) =~= Seq::<Node>::empty());
    } else {
        let init = s.drop_last();
        let x = s.last();
        assert(keyed_by_lowercase(init)) by {
            assert forall|i: int| 0 <= i < init.len() implies (#[trigger] init[i]).key@
                == lowercase_of(init[i].node.name@) by {
                assert(init[i] == s[i]);
            }
        }
        lemma_keys_agree(init, k);
        assert(s =~= init.push(x));
        assert(nodes_of(s) =~= nodes_of(init).push(x.node));
        nodes_of(init).lemma_filter_push(x.node, |n: Node| sort_key(n) == k);
        init.lemma_filter_push(x, |e: KeyedNode| keyed_key(e) == k);
        assert(x.key@ == lowercase_of(x.node.name@)) by {
            assert(s[s.len() - 1] == x);
        }
        assert(sort_key(x.node) == keyed_key(x));
        if keyed_key(x) == k {
            assert(nodes_of(keyed_with_key(init, k).push(x)) =~= nodes_of(keyed_with_key(init, k)).push(
                x.node,
            ));
        }
    }
}

/// Entries kept by a keyed sort are keyed as the input was.
proof fn lemma_arranged_keeps_keys(input: Seq<KeyedNode>, output: Seq<KeyedNode>)
    requires
        keyed_arranged(input, output),
        keyed_by_lowercase(input),
    ensures
        keyed_by_lowercase(output),
{
    assert forall|i: int| 0 <= i < output.len() implies (#[trigger] output[i]).key@ == lowercase_of(
        output[i].node.name@,
    ) by {
        let e = output[i];
        let p = |x: KeyedNode| keyed_key(x) == keyed_key(e);
        output.lemma_filter_contains(p, i);
        assert(keyed_with_key(output, keyed_key(e)) == keyed_with_key(input, keyed_key(e)));
        input.lemma_filter_contains_rev(p, e);
        let j = choose|j: int| 0 <= j < input.len() && input[j] == e;
        assert(input[j].key@ == lowercase_of(input[j].node.name@));
    }
}

/// One directory level arranged for display: directories first, then
/// case-insensitive alphabetical; nodes that compare equal keep their order.
pub fn order_level(nodes: Vec<Node>) -> (res: Vec<Node>)
    ensures
        arranged(nodes@, res@),
{
    let ghost input = nodes@;
    let entries = keyed_level(nodes);
    let sorted = order_by_keys(entries);
    proof {
        lemma_arranged_keeps_keys(entries@, sorted@);
    }
    let res = unkeyed(sorted);
    proof {
        assert forall|i: int, j: int| 0 <= i < j < res@.len() implies !node_before(
            res@[j],
            res@[i],
        ) by {
            assert(!keyed_before(sorted@[j], sorted@[i]));
            assert(res@[i] == sorted@[i].node && res@[j] == sorted@[j].node);
            assert(sorted@[i].key@ == lowercase_of(sorted@[i].node.name@));
            assert(sorted@[j].key@ == lowercase_of(sorted@[j].node.name@));
        }
        assert forall|k: (bool, Seq<char>)| #[trigger] with_key(res@, k) == with_key(input, k) by {
            lemma_keys_agree(sorted@, k);
            lemma_keys_agree(entries@, k);
        }
    }
    res
}

impl Node {
    /// A scanned entry: its name is the path's final component (empty when
    /// the path has none).
    pub fn entry(path: FsPath, is_dir: bool, children: Vec<Node>) -> (n: Node)
        ensures
            n.name@ == entry_name(path@),
            n.path == path,
            n.is_dir == is_dir,
            n.children == children,
    {
        let name = match path.file_name() {
            Some(s) => s,
            None => String::new(),
        };
        Node { name, path, is_dir, children }
    }
}

/// In an arranged level every directory comes before every file, and no
/// node is lost or added.
pub proof fn law_arranged_puts_directories_first(input: Seq<Node>, output: Seq<Node>)
    requires
        arranged(input, output),
    ensures
        forall|i: int, j: int|
            #![trigger output[i], output[j]]
            0 <= i < j < output.len() && output[j].is_dir ==> output[i].is_dir,
        forall|k: (bool, Seq<char>)| #[trigger] with_key(output, k).len() == with_key(input, k).len(),
{
    assert forall|i: int, j: int|
        #![trigger output[i], output[j]]
        0 <= i < j < output.len() && output[j].is_dir implies output[i].is_dir by {
        assert(!node_before(output[j], output[i]));
    }
    assert forall|k: (bool, Seq<char>)| #[trigger] with_key(output, k).len() == with_key(input, k).len() by {
        assert(with_key(output, k) == with_key(input, k));
    }
}

} // verus!
