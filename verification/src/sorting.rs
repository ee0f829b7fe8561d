//! The stable path sort: every directory's children are reordered by
//! path, ascending in lexicographic order of character code points, and
//! the sort recurses into every child.

use vstd::prelude::*;
use vstd::string::*;
use crate::tree::lemma_dir_format;
use crate::tree::lemma_dir_nest;
use crate::tree::lemma_dir_view;
use crate::tree::views_of;
use crate::tree::Dir;
use crate::tree::NodeV;

verus! {

broadcast use lemma_dir_view, lemma_dir_format, lemma_dir_nest,
    vstd::seq::axiom_seq_index_decreases, vstd::std_specs::vec::group_vec_axioms;

/// Strict lexicographic order on character sequences, by code point.
pub open spec fn lex_lt(a: Seq<char>, b: Seq<char>) -> bool
    decreases a.len(),
{
    if b.len() == 0 {
        false
    } else if a.len() == 0 {
        true
    } else if a[0] == b[0] {
        lex_lt(a.drop_first(), b.drop_first())
    } else {
        (a[0] as u32) < (b[0] as u32)
    }
}

/// The reflexive closure of [`lex_lt`].
pub open spec fn lex_le(a: Seq<char>, b: Seq<char>) -> bool {
    !lex_lt(b, a)
}

/// Nothing orders before itself.
pub proof fn lemma_lex_lt_irrefl(a: Seq<char>)
    ensures
        !lex_lt(a, a),
    decreases a.len(),
{
    if a.len() > 0 {
        lemma_lex_lt_irrefl(a.drop_first());
    }
}

/// The order is transitive.
pub proof fn lemma_lex_lt_trans(a: Seq<char>, b: Seq<char>, c: Seq<char>)
    requires
        lex_lt(a, b),
        lex_lt(b, c),
    ensures
        lex_lt(a, c),
    decreases a.len(),
{
    if a.len() == 0 || b.len() == 0 || c.len() == 0 {
    } else if a[0] == b[0] && b[0] == c[0] {
        lemma_lex_lt_trans(a.drop_first(), b.drop_first(), c.drop_first());
    }
}

/// Any two sequences are ordered or equal.
pub proof fn lemma_lex_connected(a: Seq<char>, b: Seq<char>)
    ensures
        lex_lt(a, b) || lex_lt(b, a) || a == b,
    decreases a.len(),
{
    if b.len() == 0 {
        if a.len() == 0 {
            assert(a =~= b);
        } else {
            assert(lex_lt(b, a));
        }
    } else if a.len() == 0 {
        assert(lex_lt(a, b));
    } else if a[0] == b[0] {
        lemma_lex_connected(a.drop_first(), b.drop_first());
        if lex_lt(a.drop_first(), b.drop_first()) {
            assert(lex_lt(a, b));
        } else if lex_lt(b.drop_first(), a.drop_first()) {
            assert(lex_lt(b, a));
        } else {
            assert(a.drop_first() == b.drop_first());
            assert(a.drop_first().len() == a.len() - 1);
            assert(b.drop_first().len() == b.len() - 1);
            assert forall|k: int| 0 <= k < a.len() implies a[k] == b[k] by {
                if k > 0 {
                    assert(a[k] == a.drop_first()[k - 1]);
                    assert(b[k] == b.drop_first()[k - 1]);
                }
            }
            assert(a =~= b);
        }
    } else {
        let ca: char = a[0];
        let cb: char = b[0];
        if (ca as u32) < (cb as u32) {
            assert(lex_lt(a, b));
        } else {
            assert((ca as u32) != (cb as u32)) by {
                if (ca as u32) == (cb as u32) {
                    vstd::utf8::char_u32_cast(ca, ca as u32);
                    vstd::utf8::char_u32_cast(cb, cb as u32);
                }
            }
            assert(lex_lt(b, a));
        }
    }
}

/// The order is asymmetric.
pub proof fn lemma_lex_lt_asym(a: Seq<char>, b: Seq<char>)
    requires
        lex_lt(a, b),
    ensures
        !lex_lt(b, a),
{
    if lex_lt(b, a) {
        lemma_lex_lt_trans(a, b, a);
        lemma_lex_lt_irrefl(a);
    }
}

/// Whether a child list is ordered by path.
pub open spec fn kids_sorted(s: Seq<NodeV>) -> bool {
    forall|i: int, j: int| 0 <= i < j < s.len() ==> lex_le(#[trigger] s[i].path, #[trigger] s[j].path)
}

/// Whether every directory's children, at every level, are ordered by
/// path.
pub open spec fn tree_sorted(t: NodeV) -> bool
    decreases t,
{
    kids_sorted(t.children) && forall|i: int|
        0 <= i < t.children.len() ==> tree_sorted(#[trigger] t.children[i])
}

/// A node placed into an ordered list: before the first element it does
/// not strictly follow.
pub open spec fn spec_insert(x: NodeV, s: Seq<NodeV>) -> Seq<NodeV>
    decreases s.len(),
{
    if s.len() == 0 {
        seq![x]
    } else if lex_lt(s[0].path, x.path) {
        seq![s[0]] + spec_insert(x, s.drop_first())
    } else {
        seq![x] + s
    }
}

/// A child list ordered by path: insertion sort, element by element.
pub open spec fn spec_sort_seq(s: Seq<NodeV>) -> Seq<NodeV>
    decreases s.len(),
{
    if s.len() == 0 {
        Seq::<NodeV>::empty()
    } else {
        spec_insert(s[0], spec_sort_seq(s.drop_first()))
    }
}

/// Every subtree of the list sorted, in place.
pub open spec fn spec_sort_each(s: Seq<NodeV>) -> Seq<NodeV>
    decreases s,
{
    if s.len() == 0 {
        Seq::<NodeV>::empty()
    } else {
        seq![spec_sort_node(s[0])] + spec_sort_each(s.drop_first())
    }
}

/// The sorted tree: every subtree sorted first, then this node's
/// children reordered by path.
pub open spec fn spec_sort_node(t: NodeV) -> NodeV
    decreases t,
{
    NodeV { children: spec_sort_seq(spec_sort_each(t.children)), ..t }
}

/// The inserted list holds one more element: the new one, before or
/// after the old ones.
proof fn lemma_insert_elems(x: NodeV, s: Seq<NodeV>)
    ensures
        spec_insert(x, s).len() == s.len() + 1,
        forall|k: int|
            0 <= k < spec_insert(x, s).len() ==> (#[trigger] spec_insert(x, s)[k]) == x
                || s.contains(spec_insert(x, s)[k]),
    decreases s.len(),
{
    if s.len() > 0 && lex_lt(s[0].path, x.path) {
        lemma_insert_elems(x, s.drop_first());
        assert forall|k: int| 0 <= k < spec_insert(x, s).len() implies (#[trigger] spec_insert(
            x,
            s,
        )[k]) == x || s.contains(spec_insert(x, s)[k]) by {
            if k > 0 {
                let e = spec_insert(x, s)[k];
                assert(e == spec_insert(x, s.drop_first())[k - 1]);
                if e != x {
                    let j = choose|j: int|
                        0 <= j < s.drop_first().len() && s.drop_first()[j] == e;
                    assert(s[j + 1] == e);
                }
            }
        }
    }
}

/// Insertion keeps a list ordered.
proof fn lemma_insert_sorted(x: NodeV, s: Seq<NodeV>)
    requires
        kids_sorted(s),
    ensures
        kids_sorted(spec_insert(x, s)),
    decreases s.len(),
{
    lemma_insert_elems(x, s);
    if s.len() == 0 {
    } else if lex_lt(s[0].path, x.path) {
        let rest = s.drop_first();
        assert(kids_sorted(rest));
        lemma_insert_sorted(x, rest);
        lemma_insert_elems(x, rest);
        let r = spec_insert(x, s);
        assert forall|i: int, j: int| 0 <= i < j < r.len() implies lex_le(
            #[trigger] r[i].path,
            #[trigger] r[j].path,
        ) by {
            if i == 0 {
                let e = r[j];
                assert(e == spec_insert(x, rest)[j - 1]);
                if e == x {
                    lemma_lex_lt_asym(s[0].path, x.path);
                } else {
                    let k = choose|k: int| 0 <= k < rest.len() && rest[k] == e;
                    assert(s[k + 1] == e);
                    assert(lex_le(s[0].path, s[k + 1].path));
                }
            } else {
                assert(r[i] == spec_insert(x, rest)[i - 1]);
                assert(r[j] == spec_insert(x, rest)[j - 1]);
            }
        }
    } else {
        let r = spec_insert(x, s);
        assert forall|i: int, j: int| 0 <= i < j < r.len() implies lex_le(
            #[trigger] r[i].path,
            #[trigger] r[j].path,
        ) by {
            if i == 0 {
                // r[0] == x; r[j] == s[j - 1]
                if j == 1 {
                } else {
                    assert(lex_le(s[0].path, s[j - 1].path));
                    if lex_lt(r[j].path, x.path) {
                        lemma_lex_connected(s[0].path, s[j - 1].path);
                        if s[0].path == s[j - 1].path {
                        } else {
                            lemma_lex_lt_trans(s[0].path, s[j - 1].path, x.path);
                        }
                    }
                }
            }
        }
    }
}

/// The sorted list: ordered, of the same length, and of the same
/// elements.
proof fn lemma_sort_seq_sorted(s: Seq<NodeV>)
    ensures
        kids_sorted(spec_sort_seq(s)),
        spec_sort_seq(s).len() == s.len(),
        forall|k: int|
            0 <= k < spec_sort_seq(s).len() ==> s.contains(#[trigger] spec_sort_seq(s)[k]),
    decreases s.len(),
{
    if s.len() > 0 {
        let rest = s.drop_first();
        lemma_sort_seq_sorted(rest);
        lemma_insert_sorted(s[0], spec_sort_seq(rest));
        lemma_insert_elems(s[0], spec_sort_seq(rest));
        assert forall|k: int| 0 <= k < spec_sort_seq(s).len() implies s.contains(
            #[trigger] spec_sort_seq(s)[k],
        ) by {
            let e = spec_sort_seq(s)[k];
            if e == s[0] {
                assert(s.contains(e));
            } else {
                if spec_sort_seq(rest).contains(e) {
                    let j = choose|j: int|
                        0 <= j < spec_sort_seq(rest).len() && spec_sort_seq(rest)[j] == e;
                    assert(rest.contains(e));
                    let m = choose|m: int| 0 <= m < rest.len() && rest[m] == e;
                    assert(s[m + 1] == e);
                }
            }
        }
    }
}

/// Sorting an already ordered list changes nothing.
proof fn lemma_sort_of_sorted(s: Seq<NodeV>)
    requires
        kids_sorted(s),
    ensures
        spec_sort_seq(s) == s,
    decreases s.len(),
{
    if s.len() == 0 {
        assert(spec_sort_seq(s) =~= s);
    } else {
        let rest = s.drop_first();
        assert(kids_sorted(rest));
        lemma_sort_of_sorted(rest);
        if rest.len() == 0 {
            assert(spec_insert(s[0], rest) =~= s);
        } else {
            assert(lex_le(s[0].path, rest[0].path)) by {
                assert(rest[0] == s[1]);
            }
            assert(spec_insert(s[0], rest) =~= seq![s[0]] + rest);
            assert(seq![s[0]] + rest =~= s);
        }
    }
}

/// The pointwise form of [`spec_sort_each`].
proof fn lemma_sort_each_elems(s: Seq<NodeV>)
    ensures
        spec_sort_each(s).len() == s.len(),
        forall|k: int|
            0 <= k < s.len() ==> (#[trigger] spec_sort_each(s)[k]) == spec_sort_node(s[k]),
    decreases s,
{
    if s.len() > 0 {
        lemma_sort_each_elems(s.drop_first());
    }
}

/// The sorted tree is sorted at every level.
pub proof fn lemma_sort_node_sorted(t: NodeV)
    ensures
        tree_sorted(spec_sort_node(t)),
    decreases t,
{
    let mapped = spec_sort_each(t.children);
    lemma_sort_each_elems(t.children);
    lemma_sort_seq_sorted(mapped);
    let r = spec_sort_node(t);
    assert forall|i: int| 0 <= i < r.children.len() implies tree_sorted(
        #[trigger] r.children[i],
    ) by {
        assert(mapped.contains(r.children[i]));
        let k = choose|k: int| 0 <= k < mapped.len() && mapped[k] == r.children[i];
        assert(mapped[k] == spec_sort_node(t.children[k]));
        lemma_sort_node_sorted(t.children[k]);
    }
}

/// Sorting a tree that is sorted at every level changes nothing.
pub proof fn lemma_sort_node_identity(t: NodeV)
    requires
        tree_sorted(t),
    ensures
        spec_sort_node(t) == t,
    decreases t,
{
    lemma_sort_each_elems(t.children);
    assert forall|k: int| 0 <= k < t.children.len() implies (#[trigger] spec_sort_each(
        t.children,
    )[k]) == t.children[k] by {
        lemma_sort_node_identity(t.children[k]);
    }
    assert(spec_sort_each(t.children) =~= t.children);
    lemma_sort_of_sorted(t.children);
    assert(spec_sort_node(t) =~= t);
}

/// Sorting twice yields the same tree, child ordering included, as
/// sorting once.
pub proof fn lemma_sort_idempotent(t: NodeV)
    ensures
        spec_sort_node(spec_sort_node(t)) == spec_sort_node(t),
{
    lemma_sort_node_sorted(t);
    lemma_sort_node_identity(spec_sort_node(t));
}

/// Sorting keeps the structural invariant: a tree whose non-directory
/// nodes have no children stays that way.
pub proof fn lemma_sort_kinds(t: NodeV)
    requires
        crate::tree::kinds_ok(t),
    ensures
        crate::tree::kinds_ok(spec_sort_node(t)),
    decreases t,
{
    let mapped = spec_sort_each(t.children);
    lemma_sort_each_elems(t.children);
    lemma_sort_seq_sorted(mapped);
    let r = spec_sort_node(t);
    if t.children.len() == 0 {
        assert(spec_sort_each(t.children) =~= Seq::<NodeV>::empty());
        assert(spec_sort_seq(mapped).len() == mapped.len());
    }
    assert forall|i: int| 0 <= i < r.children.len() implies crate::tree::kinds_ok(
        #[trigger] r.children[i],
    ) by {
        assert(mapped.contains(r.children[i]));
        let k = choose|k: int| 0 <= k < mapped.len() && mapped[k] == r.children[i];
        assert(mapped[k] == spec_sort_node(t.children[k]));
        lemma_sort_kinds(t.children[k]);
    }
    assert(crate::tree::kinds_ok(r));
}

/// Whether the paths of a child list are pairwise distinct.
pub open spec fn distinct_paths(s: Seq<NodeV>) -> bool {
    forall|i: int, j: int|
        0 <= i < j < s.len() ==> (#[trigger] s[i].path) != (#[trigger] s[j].path)
}

/// On a child list with pairwise distinct paths, the sorted order is
/// strict: each child's path lexicographically precedes the next one's.
pub proof fn lemma_sorted_strict(s: Seq<NodeV>)
    requires
        kids_sorted(s),
        distinct_paths(s),
    ensures
        forall|i: int, j: int|
            0 <= i < j < s.len() ==> lex_lt(#[trigger] s[i].path, #[trigger] s[j].path),
{
    assert forall|i: int, j: int| 0 <= i < j < s.len() implies lex_lt(
        #[trigger] s[i].path,
        #[trigger] s[j].path,
    ) by {
        lemma_lex_connected(s[i].path, s[j].path);
    }
}

/// Strict lexicographic order on path texts.
fn lex_lt_exec(a: &str, b: &str) -> (r: bool)
    ensures
        r == lex_lt(a@, b@),
{
    let alen = a.unicode_len();
    let blen = b.unicode_len();
    let mut i: usize = 0;
    proof {
        assert(a@.skip(0) =~= a@);
        assert(b@.skip(0) =~= b@);
    }
    while i < alen && i < blen
        invariant
            0 <= i <= alen,
            0 <= i <= blen,
            alen == a@.len(),
            blen == b@.len(),
            lex_lt(a@, b@) == lex_lt(a@.skip(i as int), b@.skip(i as int)),
        decreases alen - i,
    {
        let ca = a.get_char(i);
        let cb = b.get_char(i);
        if ca == cb {
            proof {
                assert(a@.skip(i as int).drop_first() =~= a@.skip(i + 1));
                assert(b@.skip(i as int).drop_first() =~= b@.skip(i + 1));
            }
            i = i + 1;
        } else {
            return (ca as u32) < (cb as u32);
        }
    }
    alen < blen
}

impl Dir {
    /// Reorder every directory's children by path, ascending, at every
    /// level of the tree.
    pub fn sort_children(&mut self)
        ensures
            final(self)@ == spec_sort_node(old(self)@),
            final(self).format_spec() == old(self).format_spec(),
            final(self).nest_spec() == old(self).nest_spec(),
    {
        let mut kids: Vec<Dir> = Vec::new();
        core::mem::swap(&mut self.contents, &mut kids);
        let sorted = sort_vec(kids);
        self.contents = sorted;
        proof {
            assert(final(self)@ =~= spec_sort_node(old(self)@));
        }
    }
}

/// Place a node into a list kept ordered by path.
#[verifier::loop_isolation(false)]
fn insert_sorted(out: &mut Vec<Dir>, c: Dir)
    ensures
        views_of(final(out)@) == spec_insert(c@, views_of(old(out)@)),
{
    let ghost s = views_of(old(out)@);
    let mut j: usize = 0;
    proof {
        assert(s.skip(0) =~= s);
        assert(s.subrange(0, 0) + spec_insert(c@, s) =~= spec_insert(c@, s));
    }
    while j < out.len() && lex_lt_exec(out[j].path.as_str(), c.path.as_str())
        invariant
            0 <= j <= out@.len(),
            *out == *old(out),
            spec_insert(c@, s) == s.subrange(0, j as int) + spec_insert(c@, s.skip(j as int)),
        decreases out@.len() - j,
    {
        proof {
            assert(s.skip(j as int)[0] == s[j as int]);
            assert(s[j as int].path == out@[j as int].path@);
            assert(s.skip(j as int).drop_first() =~= s.skip(j + 1));
            assert(s.subrange(0, j as int) + (seq![s[j as int]] + spec_insert(
                c@,
                s.skip(j + 1),
            )) =~= s.subrange(0, j + 1) + spec_insert(c@, s.skip(j + 1)));
        }
        j = j + 1;
    }
    proof {
        if j < out@.len() {
            assert(s.skip(j as int)[0] == s[j as int]);
            assert(s[j as int].path == out@[j as int].path@);
        }
        assert(spec_insert(c@, s.skip(j as int)) =~= seq![c@] + s.skip(j as int));
    }
    let ghost prev = out@;
    out.insert(j, c);
    proof {
        assert(views_of(out@) =~= s.subrange(0, j as int) + (seq![c@] + s.skip(j as int)));
        assert(views_of(out@) =~= spec_insert(c@, s));
    }
}

/// Sort a child list: every subtree first, then this level by path.
#[verifier::loop_isolation(false)]
fn sort_vec(kids: Vec<Dir>) -> (r: Vec<Dir>)
    ensures
        views_of(r@) == spec_sort_seq(spec_sort_each(views_of(kids@))),
    decreases kids,
{
    let ghost kids0 = kids;
    let ghost orig = kids@;
    let mut rest = kids;
    let mut mapped: Vec<Dir> = Vec::new();
    let ghost i: int = 0;
    proof {
        assert(orig.skip(0) =~= orig);
        assert(views_of(mapped@) + spec_sort_each(views_of(orig)) =~= spec_sort_each(
            views_of(orig),
        ));
    }
    while rest.len() > 0
        invariant
            0 <= i <= orig.len(),
            kids0@ == orig,
            rest@ == orig.skip(i),
            views_of(mapped@) + spec_sort_each(views_of(rest@)) == spec_sort_each(views_of(orig)),
        decreases orig.len() - i,
    {
        let ghost before = rest@;
        let mut c = rest.remove(0);
        proof {
            assert(c == orig[i]);
            assert(before.drop_first() =~= orig.skip(i + 1));
            assert(views_of(before)[0] == c@);
            assert(views_of(before).drop_first() =~= views_of(rest@));
        }
        let ghost c0 = c;
        let mut grand: Vec<Dir> = Vec::new();
        core::mem::swap(&mut c.contents, &mut grand);
        let sorted_grand = sort_vec(grand);
        c.contents = sorted_grand;
        proof {
            assert(c@ =~= spec_sort_node(c0@));
        }
        let ghost prev = mapped@;
        mapped.push(c);
        proof {
            assert(views_of(mapped@) =~= views_of(prev).push(spec_sort_node(c0@)));
            assert(views_of(prev).push(spec_sort_node(c0@)) + spec_sort_each(views_of(rest@))
                =~= views_of(prev) + (seq![spec_sort_node(c0@)] + spec_sort_each(
                views_of(rest@),
            )));
            i = i + 1;
        }
    }
    proof {
        assert(views_of(rest@) =~= Seq::<NodeV>::empty());
        assert(views_of(mapped@) =~= spec_sort_each(views_of(orig)));
    }
    let ghost m = views_of(mapped@);
    let mut out: Vec<Dir> = Vec::new();
    proof {
        assert(views_of(mapped@) =~= m.subrange(0, mapped@.len() as int));
        assert(m.skip(m.len() as int) =~= Seq::<NodeV>::empty());
        assert(views_of(out@) =~= spec_sort_seq(m.skip(mapped@.len() as int)));
    }
    while mapped.len() > 0
        invariant
            m == spec_sort_each(views_of(orig)),
            mapped@.len() <= m.len(),
            views_of(mapped@) == m.subrange(0, mapped@.len() as int),
            views_of(out@) == spec_sort_seq(m.skip(mapped@.len() as int)),
        decreases mapped@.len(),
    {
        let ghost before = mapped@;
        let c = mapped.pop().unwrap();
        proof {
            let k = before.len() - 1;
            assert(c@ == views_of(before)[k]);
            assert(c@ == m[k]);
            assert(m.skip(k)[0] == m[k]);
            assert(m.skip(k).drop_first() =~= m.skip(k + 1));
            assert(views_of(mapped@) =~= m.subrange(0, mapped@.len() as int));
        }
        insert_sorted(&mut out, c);
    }
    proof {
        assert(m.skip(0) =~= m);
    }
    out
}

} // verus!
