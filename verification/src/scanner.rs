//! Depth-bounded directory scanning with deterministic ordering.
//!
//! The scanner works over a snapshot of a directory tree handed in by
//! the boundary layer as plain values: each listing is a sequence of
//! raw entries in whatever order the host filesystem produced them.
//! Scanning clamps the requested depth to a hard ceiling, turns the
//! entries into an ordered tree of [`FileNode`]s, and sorts every
//! listing case-insensitively by name with ties broken by the exact
//! name, so the output order never depends on the enumeration order.
//!
//! Failure is asymmetric on purpose: an entry whose metadata could not
//! be read aborts the whole scan with the failing detail, while an
//! entry that vanished mid-listing is skipped silently.  A listing that
//! could not be read at all is fatal as soon as the traversal reaches
//! it.

use crate::errors::CoreError;
use vstd::prelude::*;
use vstd::multiset::Multiset;
use vstd::relations::sorted_by;

verus! {

/// Depth ceiling applied regardless of what the caller requests.
pub const MAX_DEPTH: u32 = 3;

/// Entries are processed in batches of this size; the boundary layer
/// briefly yields control after each full batch.
pub const BATCH_SIZE: usize = 50;

/// One node of the scanned tree.  A non-directory never has children;
/// a directory that sits at the depth limit keeps `children` absent
/// even though it is a directory.
#[derive(PartialEq)]
pub struct FileNode {
    pub name: String,
    pub path: String,
    pub is_directory: bool,
    pub children: Option<Vec<FileNode>>,
}

/// One raw directory entry as the boundary layer read it.
pub enum RawEntry {
    /// A plain file.
    File { name: String, path: String },
    /// A directory; `listing` holds its entries, or the failure message
    /// if the directory itself could not be read.
    Dir { name: String, path: String, listing: Result<Vec<RawEntry>, String> },
    /// An entry whose metadata could not be read; aborts the scan.
    MetaError { detail: String },
    /// An entry that disappeared between enumeration and inspection;
    /// skipped silently.
    Vanished,
}

/// Mathematical mirror of [`FileNode`].
pub struct NodeView {
    pub name: Seq<char>,
    pub path: Seq<char>,
    pub is_directory: bool,
    pub children: Option<Seq<NodeView>>,
}

/// Mathematical mirror of [`RawEntry`].
pub enum RawEntryView {
    File { name: Seq<char>, path: Seq<char> },
    Dir { name: Seq<char>, path: Seq<char>, listing: Result<Seq<RawEntryView>, Seq<char>> },
    MetaError { detail: Seq<char> },
    Vanished,
}

/// The mathematical value of one node.
pub open spec fn node_view(n: FileNode) -> NodeView
    decreases n,
{
    NodeView {
        name: n.name@,
        path: n.path@,
        is_directory: n.is_directory,
        children: match n.children {
            Some(v) => Some(nodes_view(v@)),
            None => None,
        },
    }
}

/// The mathematical value of a node list.
pub open spec fn nodes_view(s: Seq<FileNode>) -> Seq<NodeView>
    decreases s,
{
    if s.len() == 0 {
        Seq::empty()
    } else {
        seq![node_view(s[0])] + nodes_view(s.drop_first())
    }
}

/// The mathematical value of one raw entry.
pub open spec fn entry_view(e: RawEntry) -> RawEntryView
    decreases e,
{
    match e {
        RawEntry::File { name, path } => RawEntryView::File { name: name@, path: path@ },
        RawEntry::Dir { name, path, listing } => RawEntryView::Dir {
            name: name@,
            path: path@,
            listing: match listing {
                Ok(v) => Ok(entries_view(v@)),
                Err(m) => Err(m@),
            },
        },
        RawEntry::MetaError { detail } => RawEntryView::MetaError { detail: detail@ },
        RawEntry::Vanished => RawEntryView::Vanished,
    }
}

/// The mathematical value of a raw entry list.
pub open spec fn entries_view(s: Seq<RawEntry>) -> Seq<RawEntryView>
    decreases s,
{
    if s.len() == 0 {
        Seq::empty()
    } else {
        seq![entry_view(s[0])] + entries_view(s.drop_first())
    }
}

/// A node list's view is the pointwise view of its nodes.
pub proof fn lemma_nodes_view_index(s: Seq<FileNode>)
    ensures
        nodes_view(s).len() == s.len(),
        forall|i: int| 0 <= i < s.len() ==> nodes_view(s)[i] == node_view(#[trigger] s[i]),
    decreases s,
{
    if s.len() > 0 {
        lemma_nodes_view_index(s.drop_first());
        assert forall|i: int| 0 <= i < s.len() implies nodes_view(s)[i] == node_view(
            #[trigger] s[i],
        ) by {
            if i > 0 {
                assert(s.drop_first()[i - 1] == s[i]);
            }
        }
    }
}

/// An entry list's view is the pointwise view of its entries.
pub proof fn lemma_entries_view_index(s: Seq<RawEntry>)
    ensures
        entries_view(s).len() == s.len(),
        forall|i: int| 0 <= i < s.len() ==> entries_view(s)[i] == entry_view(#[trigger] s[i]),
    decreases s,
{
    if s.len() > 0 {
        lemma_entries_view_index(s.drop_first());
        assert forall|i: int| 0 <= i < s.len() implies entries_view(s)[i] == entry_view(
            #[trigger] s[i],
        ) by {
            if i > 0 {
                assert(s.drop_first()[i - 1] == s[i]);
            }
        }
    }
}

/// The sort key of one character: its scalar value, with ASCII capitals
/// folded onto the lower-case letters when `fold` is set.
pub open spec fn char_key(c: char, fold: bool) -> u32 {
    if fold && 65 <= c as u32 <= 90 {
        (c as u32 + 32) as u32
    } else {
        c as u32
    }
}

/// Lexicographic "at most" on character strings under the chosen key.
pub open spec fn lex_le(a: Seq<char>, b: Seq<char>, fold: bool) -> bool
    decreases a.len(),
{
    if a.len() == 0 {
        true
    } else if b.len() == 0 {
        false
    } else if char_key(a[0], fold) < char_key(b[0], fold) {
        true
    } else if char_key(a[0], fold) > char_key(b[0], fold) {
        false
    } else {
        lex_le(a.drop_first(), b.drop_first(), fold)
    }
}

/// Two names that fold to the same key.
pub open spec fn lex_eq(a: Seq<char>, b: Seq<char>, fold: bool) -> bool {
    lex_le(a, b, fold) && lex_le(b, a, fold)
}

/// The listing order: case-insensitively by name, with ties between
/// names that fold alike broken by the exact name.
pub open spec fn node_le(x: NodeView, y: NodeView) -> bool {
    if lex_eq(x.name, y.name, true) {
        lex_le(x.name, y.name, false)
    } else {
        lex_le(x.name, y.name, true)
    }
}

/// The listing order as a relation value.
pub open spec fn node_order() -> spec_fn(NodeView, NodeView) -> bool {
    |x: NodeView, y: NodeView| node_le(x, y)
}

/// Any two strings are ordered one way or the other.
pub proof fn lemma_lex_le_connex(a: Seq<char>, b: Seq<char>, fold: bool)
    ensures
        lex_le(a, b, fold) || lex_le(b, a, fold),
    decreases a.len(),
{
    if a.len() > 0 && b.len() > 0 && char_key(a[0], fold) == char_key(b[0], fold) {
        lemma_lex_le_connex(a.drop_first(), b.drop_first(), fold);
    }
}

/// The string order is transitive.
pub proof fn lemma_lex_le_trans(a: Seq<char>, b: Seq<char>, c: Seq<char>, fold: bool)
    requires
        lex_le(a, b, fold),
        lex_le(b, c, fold),
    ensures
        lex_le(a, c, fold),
    decreases a.len(),
{
    if a.len() > 0 && b.len() > 0 && c.len() > 0 {
        if char_key(a[0], fold) == char_key(b[0], fold) && char_key(b[0], fold) == char_key(
            c[0],
            fold,
        ) {
            lemma_lex_le_trans(a.drop_first(), b.drop_first(), c.drop_first(), fold);
        }
    }
}

/// Strings ordered both ways under the exact key are equal.
pub proof fn lemma_lex_le_antisym_raw(a: Seq<char>, b: Seq<char>)
    requires
        lex_le(a, b, false),
        lex_le(b, a, false),
    ensures
        a =~= b,
    decreases a.len(),
{
    if a.len() > 0 && b.len() > 0 {
        assert(char_key(a[0], false) == char_key(b[0], false));
        assert(a[0] as u32 == b[0] as u32);
        vstd::utf8::char_u32_cast(a[0], a[0] as u32);
        vstd::utf8::char_u32_cast(b[0], b[0] as u32);
        assert(a[0] == b[0]);
        lemma_lex_le_antisym_raw(a.drop_first(), b.drop_first());
        assert forall|i: int| 0 <= i < a.len() implies a[i] == b[i] by {
            if i > 0 {
                assert(a.drop_first()[i - 1] == b.drop_first()[i - 1]);
            }
        }
    }
}

/// Any two nodes are ordered one way or the other.
pub proof fn lemma_node_le_connex(x: NodeView, y: NodeView)
    ensures
        node_le(x, y) || node_le(y, x),
{
    lemma_lex_le_connex(x.name, y.name, true);
    lemma_lex_le_connex(x.name, y.name, false);
}

/// The listing order is transitive.
pub proof fn lemma_node_le_trans(x: NodeView, y: NodeView, z: NodeView)
    requires
        node_le(x, y),
        node_le(y, z),
    ensures
        node_le(x, z),
{
    let a = x.name;
    let b = y.name;
    let c = z.name;
    if lex_eq(a, b, true) && lex_eq(b, c, true) {
        lemma_lex_le_trans(a, b, c, true);
        lemma_lex_le_trans(c, b, a, true);
        lemma_lex_le_trans(a, b, c, false);
    } else if lex_eq(a, b, true) {
        lemma_lex_le_trans(a, b, c, true);
        if lex_le(c, a, true) {
            lemma_lex_le_trans(c, a, b, true);
        }
    } else if lex_eq(b, c, true) {
        lemma_lex_le_trans(a, b, c, true);
        if lex_le(c, a, true) {
            lemma_lex_le_trans(b, c, a, true);
        }
    } else {
        lemma_lex_le_trans(a, b, c, true);
        if lex_le(c, a, true) {
            lemma_lex_le_trans(c, a, b, true);
        }
    }
}

/// Nodes ordered both ways carry the same name.
pub proof fn lemma_node_le_tie(x: NodeView, y: NodeView)
    requires
        node_le(x, y),
        node_le(y, x),
    ensures
        x.name == y.name,
{
    if lex_eq(x.name, y.name, true) {
        lemma_lex_le_antisym_raw(x.name, y.name);
    }
}

/// Outcome of comparing two strings under one key.
enum KeyCmp {
    Less,
    Equal,
    Greater,
}

/// The sort key of one character, computed.
fn char_key_exec(c: char, fold: bool) -> (k: u32)
    ensures
        k == char_key(c, fold),
{
    let u = c as u32;
    if fold && 65 <= u && u <= 90 {
        u + 32
    } else {
        u
    }
}

/// Compares two strings lexicographically under the chosen key.
fn lex_cmp(a: &str, b: &str, fold: bool) -> (c: KeyCmp)
    ensures
        c is Less <==> (lex_le(a@, b@, fold) && !lex_le(b@, a@, fold)),
        c is Equal <==> lex_eq(a@, b@, fold),
        c is Greater <==> (!lex_le(a@, b@, fold) && lex_le(b@, a@, fold)),
{
    let a_len = a.unicode_len();
    let b_len = b.unicode_len();
    let mut i: usize = 0;
    proof {
        assert(a@.skip(0) =~= a@);
        assert(b@.skip(0) =~= b@);
    }
    loop
        invariant
            i <= a_len,
            i <= b_len,
            a_len == a@.len(),
            b_len == b@.len(),
            lex_le(a@, b@, fold) == lex_le(a@.skip(i as int), b@.skip(i as int), fold),
            lex_le(b@, a@, fold) == lex_le(b@.skip(i as int), a@.skip(i as int), fold),
        decreases a_len - i,
    {
        let ghost sa = a@.skip(i as int);
        let ghost sb = b@.skip(i as int);
        if i == a_len {
            if i == b_len {
                return KeyCmp::Equal;
            }
            return KeyCmp::Less;
        }
        if i == b_len {
            return KeyCmp::Greater;
        }
        let ka = char_key_exec(a.get_char(i), fold);
        let kb = char_key_exec(b.get_char(i), fold);
        proof {
            assert(sa[0] == a@[i as int]);
            assert(sb[0] == b@[i as int]);
        }
        if ka < kb {
            return KeyCmp::Less;
        }
        if ka > kb {
            return KeyCmp::Greater;
        }
        proof {
            assert(sa.drop_first() =~= a@.skip(i as int + 1));
            assert(sb.drop_first() =~= b@.skip(i as int + 1));
        }
        i = i + 1;
    }
}

/// Decides the listing order between two nodes.
pub fn node_le_exec(a: &FileNode, b: &FileNode) -> (r: bool)
    ensures
        r == node_le(node_view(*a), node_view(*b)),
{
    match lex_cmp(a.name.as_str(), b.name.as_str(), true) {
        KeyCmp::Less => true,
        KeyCmp::Greater => false,
        KeyCmp::Equal => match lex_cmp(a.name.as_str(), b.name.as_str(), false) {
            KeyCmp::Greater => false,
            _ => true,
        },
    }
}

/// Where a node lands in an already sorted listing: before the first
/// element it precedes.
pub open spec fn insert_sorted(x: NodeView, s: Seq<NodeView>) -> Seq<NodeView>
    decreases s.len(),
{
    if s.len() == 0 {
        seq![x]
    } else if node_le(x, s[0]) {
        seq![x] + s
    } else {
        seq![s[0]] + insert_sorted(x, s.drop_first())
    }
}

/// The sorted listing: every element inserted, in order, into the
/// sorted rest.
pub open spec fn sort_nodes(s: Seq<NodeView>) -> Seq<NodeView>
    decreases s.len(),
{
    if s.len() == 0 {
        Seq::empty()
    } else {
        insert_sorted(s[0], sort_nodes(s.drop_first()))
    }
}

/// Inserting into a sorted listing keeps it sorted and adds exactly the
/// new element.
pub proof fn lemma_insert_sorted_props(x: NodeView, s: Seq<NodeView>)
    requires
        sorted_by(s, node_order()),
    ensures
        sorted_by(insert_sorted(x, s), node_order()),
        insert_sorted(x, s).to_multiset() =~= s.to_multiset().insert(x),
        insert_sorted(x, s).len() == s.len() + 1,
    decreases s.len(),
{
    broadcast use vstd::seq_lib::group_to_multiset_ensures;
    broadcast use vstd::multiset::group_multiset_axioms;
    broadcast use vstd::multiset::lemma_insert_increases_count_by_1;
    broadcast use vstd::multiset::lemma_insert_other_elements_unchanged;

    let out = insert_sorted(x, s);
    if s.len() == 0 {
        assert(out =~= Seq::empty().push(x));
        assert(out.to_multiset() =~= s.to_multiset().insert(x));
    } else if node_le(x, s[0]) {
        assert(out =~= s.insert(0, x));
        assert(out.remove(0) =~= s);
        assert(out.remove(0).to_multiset() =~= out.to_multiset().remove(x));
        lemma_multiset_insert_remove(out.to_multiset(), s.to_multiset(), x);
        assert forall|i: int, j: int| 0 <= i < j < out.len() implies node_order()(
            out[i],
            out[j],
        ) by {
            if i == 0 {
                if j > 1 {
                    assert(node_order()(s[0], s[j - 1]));
                    lemma_node_le_trans(x, s[0], s[j - 1]);
                }
            } else {
                assert(out[i] == s[i - 1]);
                assert(out[j] == s[j - 1]);
            }
        }
    } else {
        let rest = s.drop_first();
        assert(sorted_by(rest, node_order())) by {
            assert forall|i: int, j: int| 0 <= i < j < rest.len() implies node_order()(
                rest[i],
                rest[j],
            ) by {
                assert(rest[i] == s[i + 1]);
                assert(rest[j] == s[j + 1]);
            }
        }
        lemma_insert_sorted_props(x, rest);
        let sub = insert_sorted(x, rest);
        assert(out =~= seq![s[0]] + sub);
        lemma_node_le_connex(x, s[0]);
        assert(node_le(s[0], x));
        assert forall|i: int, j: int| 0 <= i < j < out.len() implies node_order()(
            out[i],
            out[j],
        ) by {
            if i == 0 {
                let e = sub[j - 1];
                assert(sub.contains(e));
                assert(sub.to_multiset().count(e) > 0);
                if e == x {
                } else {
                    assert(rest.to_multiset().count(e) > 0);
                    assert(rest.contains(e));
                    let k = choose|k: int| 0 <= k < rest.len() && rest[k] == e;
                    assert(rest[k] == s[k + 1]);
                    assert(node_order()(s[0], s[k + 1]));
                }
            } else {
                assert(sub[i - 1] == out[i]);
                assert(sub[j - 1] == out[j]);
            }
        }
        assert(s =~= seq![s[0]] + rest);
        vstd::seq_lib::lemma_multiset_commutative(seq![s[0]], sub);
        vstd::seq_lib::lemma_multiset_commutative(seq![s[0]], rest);
        assert(seq![s[0]] =~= Seq::empty().push(s[0]));
        assert(seq![s[0]].to_multiset() =~= Seq::<NodeView>::empty().to_multiset().insert(s[0]));
        assert(out.to_multiset() =~= s.to_multiset().insert(x)) by {
            assert(out.to_multiset() == seq![s[0]].to_multiset().add(sub.to_multiset()));
            assert(s.to_multiset() == seq![s[0]].to_multiset().add(rest.to_multiset()));
            assert(sub.to_multiset() == rest.to_multiset().insert(x));
        }
    }
}

/// Counts transfer across one shared removal.
proof fn lemma_multiset_insert_remove(m1: Multiset<NodeView>, m2: Multiset<NodeView>, x: NodeView)
    requires
        m1.count(x) > 0,
        m1.remove(x) =~= m2,
    ensures
        m1 =~= m2.insert(x),
{
}

/// Sorting yields a listing that is sorted under the listing order and
/// holds exactly the original elements.
pub proof fn lemma_sort_nodes_props(s: Seq<NodeView>)
    ensures
        sorted_by(sort_nodes(s), node_order()),
        sort_nodes(s).to_multiset() =~= s.to_multiset(),
        sort_nodes(s).len() == s.len(),
    decreases s.len(),
{
    broadcast use vstd::seq_lib::group_to_multiset_ensures;

    if s.len() > 0 {
        lemma_sort_nodes_props(s.drop_first());
        lemma_insert_sorted_props(s[0], sort_nodes(s.drop_first()));
        assert(s.remove(0) =~= s.drop_first());
        assert(s.remove(0).to_multiset() =~= s.to_multiset().remove(s[0]));
        lemma_multiset_insert_remove(
            s.to_multiset(),
            s.drop_first().to_multiset(),
            s[0],
        );
    }
}

/// Spelling out where [`insert_sorted`] puts the new node: before the
/// first element it precedes.
pub proof fn lemma_insert_sorted_at(x: NodeView, s: Seq<NodeView>, j: int)
    requires
        0 <= j <= s.len(),
        forall|k: int| 0 <= k < j ==> !node_le(x, #[trigger] s[k]),
        j < s.len() ==> node_le(x, s[j]),
    ensures
        insert_sorted(x, s) =~= s.subrange(0, j) + seq![x] + s.subrange(j, s.len() as int),
    decreases j,
{
    if j == 0 {
        if s.len() == 0 {
            assert(insert_sorted(x, s) =~= s.subrange(0, 0) + seq![x] + s.subrange(0, 0));
        } else {
            assert(insert_sorted(x, s) =~= seq![x] + s);
        }
    } else {
        let rest = s.drop_first();
        assert(!node_le(x, s[0]));
        assert forall|k: int| 0 <= k < j - 1 implies !node_le(x, #[trigger] rest[k]) by {
            assert(rest[k] == s[k + 1]);
        }
        if j - 1 < rest.len() {
            assert(rest[j - 1] == s[j]);
        }
        lemma_insert_sorted_at(x, rest, j - 1);
    }
}

/// Inserts a node into a listing sorted under the listing order, at
/// the position [`insert_sorted`] gives it.
pub fn insert_node(sorted: &mut Vec<FileNode>, x: FileNode)
    ensures
        nodes_view(final(sorted)@) == insert_sorted(node_view(x), nodes_view(old(sorted)@)),
{
    let ghost entry_seq = old(sorted)@;
    let ghost sv = nodes_view(old(sorted)@);
    let mut j: usize = 0;
    loop
        invariant
            j <= sorted@.len(),
            sorted@ == entry_seq,
            sv == nodes_view(entry_seq),
            forall|k: int| 0 <= k < j ==> !node_le(node_view(x), #[trigger] sv[k]),
        ensures
            j <= sorted@.len(),
            sorted@ == entry_seq,
            forall|k: int| 0 <= k < j ==> !node_le(node_view(x), #[trigger] sv[k]),
            j < sv.len() ==> node_le(node_view(x), sv[j as int]),
        decreases sorted@.len() - j,
    {
        proof {
            lemma_nodes_view_index(sorted@);
            assert(nodes_view(sorted@) == sv);
            assert(sv.len() == sorted@.len());
        }
        if j == sorted.len() {
            break;
        }
        let le = node_le_exec(&x, &sorted[j]);
        proof {
            assert(sv[j as int] == node_view(sorted@[j as int]));
        }
        if le {
            break;
        }
        j = j + 1;
    }
    proof {
        lemma_nodes_view_index(sorted@);
        lemma_insert_sorted_at(node_view(x), sv, j as int);
    }
    sorted.insert(j, x);
    proof {
        lemma_nodes_view_index(sorted@);
        assert(sorted@ =~= old(sorted)@.subrange(0, j as int) + seq![x] + old(sorted)@.subrange(
            j as int,
            old(sorted)@.len() as int,
        ));
        assert forall|i: int| 0 <= i < sorted@.len() implies nodes_view(sorted@)[i]
            == insert_sorted(node_view(x), sv)[i] by {
            lemma_nodes_view_index(old(sorted)@);
            if i < j {
                assert(sorted@[i] == old(sorted)@[i]);
            } else if i == j {
                assert(sorted@[i] == x);
            } else {
                assert(sorted@[i] == old(sorted)@[i - 1]);
            }
        }
        assert(nodes_view(sorted@) =~= insert_sorted(node_view(x), sv));
    }
}

/// Sorts a listing under the listing order.
pub fn sort_file_nodes(nodes: Vec<FileNode>) -> (r: Vec<FileNode>)
    ensures
        nodes_view(r@) == sort_nodes(nodes_view(nodes@)),
{
    let ghost orig = nodes@;
    let mut work = nodes;
    let mut sorted: Vec<FileNode> = Vec::new();
    proof {
        assert(orig.skip(orig.len() as int) =~= Seq::empty());
    }
    while work.len() > 0
        invariant
            work@ == orig.subrange(0, work@.len() as int),
            work@.len() <= orig.len(),
            nodes_view(sorted@) == sort_nodes(nodes_view(orig.skip(work@.len() as int))),
        decreases work@.len(),
    {
        let ghost k = work@.len() - 1;
        let x = work.pop().unwrap();
        proof {
            assert(x == orig[k]);
            assert(work@ =~= orig.subrange(0, k));
            let suffix = orig.skip(k);
            assert(suffix[0] == orig[k]);
            assert(suffix.drop_first() =~= orig.skip(k + 1));
            lemma_nodes_view_index(suffix);
            assert(nodes_view(suffix)[0] == node_view(orig[k]));
            assert(nodes_view(suffix).drop_first() =~= nodes_view(suffix.drop_first())) by {
                lemma_nodes_view_index(suffix.drop_first());
                assert forall|i: int| 0 <= i < nodes_view(suffix).drop_first().len() implies
                    nodes_view(suffix).drop_first()[i] == nodes_view(suffix.drop_first())[i] by {
                    assert(suffix.drop_first()[i] == suffix[i + 1]);
                }
            }
            assert(nodes_view(suffix) =~= seq![node_view(orig[k])] + nodes_view(orig.skip(k + 1)));
            assert(sort_nodes(nodes_view(suffix)) == insert_sorted(
                node_view(orig[k]),
                sort_nodes(nodes_view(orig.skip(k + 1))),
            ));
        }
        insert_node(&mut sorted, x);
    }
    proof {
        assert(orig.skip(0) =~= orig);
        assert(work@.len() == 0);
    }
    sorted
}

/// The requested depth, clamped to the hard ceiling.
pub open spec fn clamp_depth(d: u32) -> u32 {
    if d > MAX_DEPTH {
        MAX_DEPTH
    } else {
        d
    }
}

/// What scanning a listing produces, before the listing itself is
/// sorted: nodes in entry order, each directory carrying its fully
/// scanned and sorted children while `budget` levels remain.  The
/// first failure in traversal order wins: an unreadable entry or an
/// unreadable reachable listing turns the whole scan into that error.
pub open spec fn scan_entries(ents: Seq<RawEntryView>, budget: u32) -> Result<
    Seq<NodeView>,
    Seq<char>,
>
    decreases ents,
{
    if ents.len() == 0 {
        Ok(Seq::empty())
    } else {
        match ents[0] {
            RawEntryView::MetaError { detail } => Err(detail),
            RawEntryView::Vanished => scan_entries(ents.drop_first(), budget),
            RawEntryView::File { name, path } => match scan_entries(ents.drop_first(), budget) {
                Ok(ns) => Ok(
                    seq![NodeView { name, path, is_directory: false, children: None }] + ns,
                ),
                Err(e) => Err(e),
            },
            RawEntryView::Dir { name, path, listing } => {
                if budget == 0 {
                    match scan_entries(ents.drop_first(), budget) {
                        Ok(ns) => Ok(
                            seq![NodeView { name, path, is_directory: true, children: None }] + ns,
                        ),
                        Err(e) => Err(e),
                    }
                } else {
                    match listing {
                        Err(m) => Err(m),
                        Ok(sub) => match scan_entries(sub, (budget - 1) as u32) {
                            Err(e) => Err(e),
                            Ok(children_raw) => match scan_entries(ents.drop_first(), budget) {
                                Ok(ns) => Ok(
                                    seq![
                                        NodeView {
                                            name,
                                            path,
                                            is_directory: true,
                                            children: Some(sort_nodes(children_raw)),
                                        },
                                    ] + ns,
                                ),
                                Err(e) => Err(e),
                            },
                        },
                    }
                }
            },
        }
    }
}

/// One scanned listing as a caller sees it: the nodes of
/// [`scan_entries`], sorted under the listing order.
pub open spec fn scan_listing(ents: Seq<RawEntryView>, budget: u32) -> Result<
    Seq<NodeView>,
    Seq<char>,
> {
    match scan_entries(ents, budget) {
        Ok(ns) => Ok(sort_nodes(ns)),
        Err(e) => Err(e),
    }
}

/// The exec result matches the scan specification.
pub open spec fn scan_result_matches(
    r: Result<Vec<FileNode>, CoreError>,
    spec_r: Result<Seq<NodeView>, Seq<char>>,
) -> bool {
    match (r, spec_r) {
        (Ok(v), Ok(ns)) => nodes_view(v@) == ns,
        (Err(e), Err(d)) => e matches CoreError::PermissionOrIo(m) && m@ == d,
        _ => false,
    }
}

/// Scans one listing of the snapshot.  The caller-supplied depth is
/// already clamped; `current_depth` is how deep this listing sits.
/// Past the ceiling the result is an empty listing; otherwise it is
/// exactly what [`scan_listing`] gives with the remaining depth budget.
pub fn read_dir_recursive(entries: &Vec<RawEntry>, max_depth: u32, current_depth: u32) -> (r:
    Result<Vec<FileNode>, CoreError>)
    ensures
        current_depth > clamp_depth(max_depth) ==> (r matches Ok(v) && v@.len() == 0),
        current_depth <= clamp_depth(max_depth) ==> scan_result_matches(
            r,
            scan_listing(
                entries_view(entries@),
                (clamp_depth(max_depth) - current_depth) as u32,
            ),
        ),
    decreases clamp_depth(max_depth) as int - current_depth as int,
{
    let clamped = if max_depth > MAX_DEPTH {
        MAX_DEPTH
    } else {
        max_depth
    };
    if current_depth > clamped {
        let empty: Vec<FileNode> = Vec::new();
        return Ok(empty);
    }
    let budget = clamped - current_depth;
    let ghost ev = entries_view(entries@);
    proof {
        lemma_entries_view_index(entries@);
    }
    let mut i: usize = entries.len();
    let mut acc: Vec<FileNode> = Vec::new();
    let mut failure: Option<CoreError> = None;
    proof {
        assert(ev.skip(i as int) =~= Seq::empty());
    }
    while i > 0
        invariant
            i <= entries@.len(),
            ev == entries_view(entries@),
            ev.len() == entries@.len(),
            budget == clamp_depth(max_depth) - current_depth,
            current_depth <= clamp_depth(max_depth),
            forall|k: int| 0 <= k < entries@.len() ==> ev[k] == entry_view(#[trigger] entries@[k]),
            failure is None ==> (scan_entries(ev.skip(i as int), budget) matches Ok(ns)
                && nodes_view(acc@) == ns),
            failure matches Some(e) ==> (scan_entries(ev.skip(i as int), budget) matches Err(d)
                && (e matches CoreError::PermissionOrIo(m) && m@ == d)),
        decreases i,
    {
        i = i - 1;
        let ghost suffix = ev.skip(i as int);
        proof {
            assert(suffix[0] == ev[i as int]);
            assert(suffix.drop_first() =~= ev.skip(i as int + 1));
            assert(ev[i as int] == entry_view(entries@[i as int]));
        }
        match &entries[i] {
            RawEntry::Vanished => {},
            RawEntry::MetaError { detail } => {
                failure = Some(CoreError::PermissionOrIo(detail.clone()));
            },
            RawEntry::File { name, path } => {
                if failure.is_none() {
                    let node = FileNode {
                        name: name.clone(),
                        path: path.clone(),
                        is_directory: false,
                        children: None,
                    };
                    proof {
                        assert(node_view(node) == (NodeView {
                            name: name@,
                            path: path@,
                            is_directory: false,
                            children: None,
                        }));
                    }
                    let ghost old_acc = acc@;
                    acc.insert(0, node);
                    proof {
                        assert(acc@ =~= seq![node] + old_acc);
                        assert(acc@.drop_first() =~= old_acc);
                        assert(nodes_view(acc@) =~= seq![node_view(node)] + nodes_view(old_acc));
                    }
                }
            },
            RawEntry::Dir { name, path, listing } => {
                if budget == 0 {
                    if failure.is_none() {
                        let node = FileNode {
                            name: name.clone(),
                            path: path.clone(),
                            is_directory: true,
                            children: None,
                        };
                        let ghost old_acc = acc@;
                        acc.insert(0, node);
                        proof {
                            assert(acc@ =~= seq![node] + old_acc);
                            assert(acc@.drop_first() =~= old_acc);
                            assert(nodes_view(acc@) =~= seq![node_view(node)] + nodes_view(
                                old_acc,
                            ));
                        }
                    }
                } else {
                    match listing {
                        Err(m) => {
                            failure = Some(CoreError::PermissionOrIo(m.clone()));
                        },
                        Ok(sub_entries) => {
                            let child = read_dir_recursive(
                                sub_entries,
                                max_depth,
                                current_depth + 1,
                            );
                            match child {
                                Err(ce) => {
                                    failure = Some(ce);
                                },
                                Ok(child_nodes) => {
                                    if failure.is_none() {
                                        let node = FileNode {
                                            name: name.clone(),
                                            path: path.clone(),
                                            is_directory: true,
                                            children: Some(child_nodes),
                                        };
                                        let ghost old_acc = acc@;
                                        acc.insert(0, node);
                                        proof {
                                            assert(acc@ =~= seq![node] + old_acc);
                                            assert(acc@.drop_first() =~= old_acc);
                                            assert(nodes_view(acc@) =~= seq![node_view(node)]
                                                + nodes_view(old_acc));
                                        }
                                    }
                                },
                            }
                        },
                    }
                }
            },
        }
    }
    proof {
        assert(ev.skip(0) =~= ev);
    }
    match failure {
        Some(e) => Err(e),
        None => Ok(sort_file_nodes(acc)),
    }
}

/// What an absent depth request means: the immediate listing only.
pub open spec fn depth_or_zero(d: Option<u32>) -> u32 {
    match d {
        Some(k) => k,
        None => 0,
    }
}

/// Scans a directory snapshot to the requested depth, clamped to the
/// ceiling; an absent depth lists only the immediate children.
pub fn list_files(entries: &Vec<RawEntry>, depth: Option<u32>) -> (r: Result<
    Vec<FileNode>,
    CoreError,
>)
    ensures
        scan_result_matches(
            r,
            scan_listing(entries_view(entries@), clamp_depth(depth_or_zero(depth))),
        ),
{
    let d = match depth {
        Some(k) => k,
        None => 0,
    };
    read_dir_recursive(entries, d, 0)
}

/// A depth request at or above the ceiling clamps to the ceiling, so a
/// scan with any such depth behaves exactly like a scan with the
/// ceiling itself: the contract of [`read_dir_recursive`] depends on
/// the request only through [`clamp_depth`].
pub proof fn lemma_scan_depth_clamped(ents: Seq<RawEntryView>, k: u32)
    requires
        k >= MAX_DEPTH,
    ensures
        clamp_depth(k) == clamp_depth(MAX_DEPTH),
        scan_listing(ents, clamp_depth(k)) == scan_listing(ents, clamp_depth(MAX_DEPTH)),
{
}

/// The names a scanned listing keeps, in entry order: files and
/// directories contribute their name, everything else is dropped.
pub open spec fn kept_names(ents: Seq<RawEntryView>) -> Seq<Seq<char>>
    decreases ents,
{
    if ents.len() == 0 {
        Seq::empty()
    } else {
        match ents[0] {
            RawEntryView::File { name, .. } => seq![name] + kept_names(ents.drop_first()),
            RawEntryView::Dir { name, .. } => seq![name] + kept_names(ents.drop_first()),
            RawEntryView::MetaError { .. } => kept_names(ents.drop_first()),
            RawEntryView::Vanished => kept_names(ents.drop_first()),
        }
    }
}

/// A successful scan lists exactly the kept entries, by name and in
/// entry order, whatever the depth budget.
pub proof fn lemma_scan_names(ents: Seq<RawEntryView>, budget: u32)
    ensures
        scan_entries(ents, budget) matches Ok(ns) ==> ns.map_values(|n: NodeView| n.name)
            =~= kept_names(ents),
    decreases ents,
{
    if ents.len() > 0 {
        lemma_scan_names(ents.drop_first(), budget);
        if scan_entries(ents, budget) is Ok {
            let ns = scan_entries(ents, budget)->Ok_0;
            match ents[0] {
                RawEntryView::MetaError { .. } => {},
                RawEntryView::Vanished => {},
                RawEntryView::File { name, .. } => {
                    let rest = scan_entries(ents.drop_first(), budget)->Ok_0;
                    assert(ns.map_values(|n: NodeView| n.name) =~= seq![name]
                        + rest.map_values(|n: NodeView| n.name));
                },
                RawEntryView::Dir { name, .. } => {
                    let rest = scan_entries(ents.drop_first(), budget)->Ok_0;
                    assert(ns.map_values(|n: NodeView| n.name) =~= seq![name]
                        + rest.map_values(|n: NodeView| n.name));
                },
            }
        }
    }
}

/// With no depth budget, every node a scan returns is childless: the
/// listing holds the immediate children only, and even its directory
/// entries carry no child listing.
pub proof fn lemma_scan_entries_shallow(ents: Seq<RawEntryView>)
    ensures
        scan_entries(ents, 0) matches Ok(ns) ==> forall|i: int|
            0 <= i < ns.len() ==> (#[trigger] ns[i]).children is None,
    decreases ents,
{
    if ents.len() > 0 {
        lemma_scan_entries_shallow(ents.drop_first());
    }
}

/// The childlessness of a zero-depth scan survives the sort: a
/// caller-facing listing at depth zero is exactly the immediate
/// children, every one of them without a child listing.
pub proof fn lemma_scan_depth_zero(ents: Seq<RawEntryView>)
    ensures
        scan_listing(ents, 0) matches Ok(ns) ==> forall|i: int|
            0 <= i < ns.len() ==> (#[trigger] ns[i]).children is None,
{
    broadcast use vstd::seq_lib::group_to_multiset_ensures;

    lemma_scan_entries_shallow(ents);
    if scan_listing(ents, 0) is Ok {
        let raw = scan_entries(ents, 0)->Ok_0;
        let ns = scan_listing(ents, 0)->Ok_0;
        lemma_sort_nodes_props(raw);
        assert forall|i: int| 0 <= i < ns.len() implies (#[trigger] ns[i]).children is None by {
            assert(ns.contains(ns[i]));
            assert(ns.to_multiset().count(ns[i]) > 0);
            assert(raw.to_multiset().count(ns[i]) > 0);
            assert(raw.contains(ns[i]));
            let j = choose|j: int| 0 <= j < raw.len() && raw[j] == ns[i];
            assert(raw[j].children is None);
        }
    }
}

/// No two nodes of the listing share a name.
pub open spec fn distinct_names(s: Seq<NodeView>) -> bool {
    forall|i: int, j: int| 0 <= i < j < s.len() ==> (#[trigger] s[i]).name != (#[trigger] s[j]).name
}

/// No two distinct nodes of the collection share a name, and no node
/// occurs twice.
pub open spec fn names_injective(m: Multiset<NodeView>) -> bool {
    &&& forall|a: NodeView, b: NodeView| #![trigger m.count(a), m.count(b)]
        m.count(a) > 0 && m.count(b) > 0 && a != b ==> a.name != b.name
    &&& forall|a: NodeView| #[trigger] m.count(a) <= 1
}

/// Two sorted listings holding the same nodes are identical, provided
/// no name occurs twice: the listing order leaves nodes with distinct
/// names exactly one arrangement.
pub proof fn lemma_sorted_unique(x: Seq<NodeView>, y: Seq<NodeView>)
    requires
        sorted_by(x, node_order()),
        sorted_by(y, node_order()),
        x.to_multiset() =~= y.to_multiset(),
        names_injective(x.to_multiset()),
    ensures
        x =~= y,
    decreases x.len(),
{
    broadcast use vstd::seq_lib::group_to_multiset_ensures;
    broadcast use vstd::multiset::group_multiset_axioms;

    if x.len() == 0 {
        assert(y.to_multiset().len() == 0);
    } else {
        assert(x.to_multiset().len() == y.to_multiset().len());
        assert(y.len() > 0);
        assert(x.contains(x[0]));
        assert(y.contains(y[0]));
        assert(x.to_multiset().count(x[0]) > 0);
        assert(y.to_multiset().count(y[0]) > 0);
        if x[0] != y[0] {
            assert(x.to_multiset().count(y[0]) > 0);
            assert(x.contains(y[0]));
            let jx = choose|j: int| 0 <= j < x.len() && x[j] == y[0];
            assert(jx != 0);
            assert(node_order()(x[0], x[jx]));
            assert(y.to_multiset().count(x[0]) > 0);
            assert(y.contains(x[0]));
            let jy = choose|j: int| 0 <= j < y.len() && y[j] == x[0];
            assert(jy != 0);
            assert(node_order()(y[0], y[jy]));
            lemma_node_le_tie(x[0], y[0]);
            assert(x[0].name == y[0].name);
            assert(false);
        }
        let x1 = x.drop_first();
        let y1 = y.drop_first();
        assert(x.remove(0) =~= x1);
        assert(x.remove(0).to_multiset() =~= x.to_multiset().remove(x[0]));
        assert(y.remove(0) =~= y1);
        assert(y.remove(0).to_multiset() =~= y.to_multiset().remove(y[0]));
        assert(x1.to_multiset() =~= y1.to_multiset());
        assert(sorted_by(x1, node_order())) by {
            assert forall|i: int, j: int| 0 <= i < j < x1.len() implies node_order()(
                x1[i],
                x1[j],
            ) by {
                assert(x1[i] == x[i + 1]);
                assert(x1[j] == x[j + 1]);
            }
        }
        assert(sorted_by(y1, node_order())) by {
            assert forall|i: int, j: int| 0 <= i < j < y1.len() implies node_order()(
                y1[i],
                y1[j],
            ) by {
                assert(y1[i] == y[i + 1]);
                assert(y1[j] == y[j + 1]);
            }
        }
        assert(names_injective(x1.to_multiset())) by {
            assert forall|a: NodeView| #[trigger] x1.to_multiset().count(a) <= 1 by {
                assert(x1.to_multiset().count(a) <= x.to_multiset().count(a));
            }
            assert forall|a: NodeView, b: NodeView| #![trigger x1.to_multiset().count(a), x1.to_multiset().count(b)]
                x1.to_multiset().count(a) > 0 && x1.to_multiset().count(b) > 0 && a != b implies
                a.name != b.name by {
                assert(x1.to_multiset().count(a) <= x.to_multiset().count(a));
                assert(x1.to_multiset().count(b) <= x.to_multiset().count(b));
                assert(x.to_multiset().count(a) > 0 && x.to_multiset().count(b) > 0);
            }
        }
        lemma_sorted_unique(x1, y1);
        assert forall|i: int| 0 <= i < x.len() implies x[i] == y[i] by {
            if i > 0 {
                assert(x1[i - 1] == y1[i - 1]);
            }
        }
    }
}

/// The listing order is canonical: sorting any two snapshots of the
/// same set of uniquely named nodes, whatever enumeration order the
/// host filesystem produced them in, yields one identical listing.
/// Re-scanning an unchanged directory therefore reproduces the
/// ordering exactly.
pub proof fn lemma_listing_canonical(s1: Seq<NodeView>, s2: Seq<NodeView>)
    requires
        s1.to_multiset() =~= s2.to_multiset(),
        distinct_names(s1),
    ensures
        sort_nodes(s1) =~= sort_nodes(s2),
{
    broadcast use vstd::seq_lib::group_to_multiset_ensures;

    lemma_sort_nodes_props(s1);
    lemma_sort_nodes_props(s2);
    assert(names_injective(s1.to_multiset())) by {
        assert(s1.no_duplicates()) by {
            assert forall|i: int, j: int|
                0 <= i < s1.len() && 0 <= j < s1.len() && i != j implies s1[i] != s1[j] by {
                if i < j {
                    assert(s1[i].name != s1[j].name);
                } else {
                    assert(s1[j].name != s1[i].name);
                }
            }
        }
        s1.lemma_multiset_has_no_duplicates();
        assert forall|a: NodeView| #[trigger] s1.to_multiset().count(a) <= 1 by {
            if s1.to_multiset().count(a) > 0 {
                assert(s1.to_multiset().contains(a));
            }
        }
        assert forall|a: NodeView, b: NodeView| #![trigger s1.to_multiset().count(a), s1.to_multiset().count(b)]
            s1.to_multiset().count(a) > 0 && s1.to_multiset().count(b) > 0 && a != b implies
            a.name != b.name by {
            assert(s1.contains(a));
            assert(s1.contains(b));
            let ia = choose|i: int| 0 <= i < s1.len() && s1[i] == a;
            let ib = choose|i: int| 0 <= i < s1.len() && s1[i] == b;
            if ia < ib {
                assert(s1[ia].name != s1[ib].name);
            } else {
                assert(s1[ib].name != s1[ia].name);
            }
        }
    }
    lemma_sorted_unique(sort_nodes(s1), sort_nodes(s2));
}

} // verus!
