//! Post-construction tree transforms: bottom-up pruning of subtrees
//! without eligible content (the stable path sort stands beside it in
//! the sorting module).

use vstd::prelude::*;
use crate::tree::kinds_ok;
use crate::tree::lemma_dir_format;
use crate::tree::lemma_dir_nest;
use crate::tree::lemma_dir_view;
use crate::tree::views_of;
use crate::tree::Dir;
use crate::tree::FType;
use crate::tree::NodeV;

verus! {

broadcast use lemma_dir_view, lemma_dir_format, lemma_dir_nest,
    vstd::seq::axiom_seq_index_decreases, vstd::std_specs::vec::group_vec_axioms;

/// Whether a subtree counts as eligible content: a non-directory node
/// always does; a directory only if at least one of its children,
/// evaluated recursively, does.
pub open spec fn has_content(t: NodeV) -> bool
    decreases t,
{
    if t.kind is Directory {
        t.children.len() > 0 && exists|i: int|
            0 <= i < t.children.len() && has_content(#[trigger] t.children[i])
    } else {
        true
    }
}

/// The pruned tree: every child subtree is pruned first, then the
/// children without eligible content are dropped.
pub open spec fn spec_prune(t: NodeV) -> NodeV
    decreases t,
{
    NodeV { children: spec_prune_kids(t.children), ..t }
}

/// The pruned children of one node, bottom-up and in order.
pub open spec fn spec_prune_kids(s: Seq<NodeV>) -> Seq<NodeV>
    decreases s,
{
    if s.len() == 0 {
        Seq::<NodeV>::empty()
    } else {
        let p = spec_prune(s[0]);
        let rest = spec_prune_kids(s.drop_first());
        if has_content(p) {
            seq![p] + rest
        } else {
            rest
        }
    }
}

/// Pruning is idempotent on child lists: pruning an already pruned list
/// changes nothing.
proof fn lemma_prune_kids_idempotent(s: Seq<NodeV>)
    ensures
        spec_prune_kids(spec_prune_kids(s)) == spec_prune_kids(s),
    decreases s,
{
    if s.len() > 0 {
        let p = spec_prune(s[0]);
        let rest = spec_prune_kids(s.drop_first());
        lemma_prune_idempotent(s[0]);
        lemma_prune_kids_idempotent(s.drop_first());
        if has_content(p) {
            let whole = seq![p] + rest;
            assert(whole[0] == p);
            assert(whole.drop_first() =~= rest);
            assert(spec_prune_kids(whole) =~= seq![p] + spec_prune_kids(rest));
        }
    }
}

/// Prune idempotence: applying the prune transform twice yields the
/// same tree as applying it once.
pub proof fn lemma_prune_idempotent(t: NodeV)
    ensures
        spec_prune(spec_prune(t)) == spec_prune(t),
    decreases t,
{
    let kids = t.children;
    if kids.len() > 0 {
        lemma_prune_kids_idempotent(kids);
    } else {
        assert(spec_prune_kids(Seq::<NodeV>::empty()) =~= Seq::<NodeV>::empty());
    }
    assert(spec_prune(spec_prune(t)) =~= spec_prune(t));
}

proof fn lemma_prune_kids_kinds(s: Seq<NodeV>)
    requires
        forall|i: int| 0 <= i < s.len() ==> kinds_ok(#[trigger] s[i]),
    ensures
        forall|j: int|
            0 <= j < spec_prune_kids(s).len() ==> kinds_ok(#[trigger] spec_prune_kids(s)[j]),
    decreases s,
{
    if s.len() > 0 {
        let p = spec_prune(s[0]);
        let rest = s.drop_first();
        assert forall|i: int| 0 <= i < rest.len() implies kinds_ok(#[trigger] rest[i]) by {
            assert(rest[i] == s[i + 1]);
        }
        lemma_prune_kids_kinds(rest);
        lemma_prune_kinds(s[0]);
        let r = spec_prune_kids(s);
        let rest_r = spec_prune_kids(rest);
        if has_content(p) {
            assert forall|j: int| 0 <= j < r.len() implies kinds_ok(#[trigger] r[j]) by {
                if j == 0 {
                    assert(r[0] == p);
                } else {
                    assert(r[j] == rest_r[j - 1]);
                }
            }
        }
    }
}

/// Pruning keeps the structural invariant: a tree whose non-directory
/// nodes have no children stays that way.
pub proof fn lemma_prune_kinds(t: NodeV)
    requires
        kinds_ok(t),
    ensures
        kinds_ok(spec_prune(t)),
    decreases t,
{
    if t.children.len() == 0 {
        assert(spec_prune_kids(t.children) =~= Seq::<NodeV>::empty());
    } else {
        lemma_prune_kids_kinds(t.children);
        assert(spec_prune_kids(t.children).len() <= t.children.len()) by {
            lemma_prune_kids_len(t.children);
        }
    }
    assert(kinds_ok(spec_prune(t)));
}

/// Pruning never adds children.
proof fn lemma_prune_kids_len(s: Seq<NodeV>)
    ensures
        spec_prune_kids(s).len() <= s.len(),
    decreases s,
{
    if s.len() > 0 {
        lemma_prune_kids_len(s.drop_first());
    }
}

impl Dir {
    /// Whether this subtree counts as eligible content.
    fn has_nested_children(&self) -> (r: bool)
        ensures
            r == has_content(self@),
        decreases *self,
    {
        let is_dir = match &self.ftype {
            FType::Dir => true,
            _ => false,
        };
        if !is_dir {
            return true;
        }
        let mut i: usize = 0;
        while i < self.contents.len()
            invariant
                0 <= i <= self.contents@.len(),
                forall|j: int| 0 <= j < i ==> !has_content(#[trigger] self@.children[j]),
            decreases self.contents@.len() - i,
        {
            if self.contents[i].has_nested_children() {
                proof {
                    assert(has_content(self@.children[i as int]));
                }
                return true;
            }
            i = i + 1;
        }
        false
    }

    /// Drop every child subtree without eligible content, bottom-up:
    /// each retained child is pruned first, and the child list is then
    /// filtered by the content predicate evaluated on the already-pruned
    /// children.
    pub fn prune(&mut self)
        ensures
            final(self)@ == spec_prune(old(self)@),
            final(self).format_spec() == old(self).format_spec(),
            final(self).nest_spec() == old(self).nest_spec(),
    {
        let mut kids: Vec<Dir> = Vec::new();
        core::mem::swap(&mut self.contents, &mut kids);
        let pruned = prune_vec(kids);
        self.contents = pruned;
        proof {
            assert(final(self)@ =~= spec_prune(old(self)@));
        }
    }
}

/// Prune a child list, bottom-up and in order.
#[verifier::loop_isolation(false)]
fn prune_vec(kids: Vec<Dir>) -> (r: Vec<Dir>)
    ensures
        views_of(r@) == spec_prune_kids(views_of(kids@)),
    decreases kids,
{
    let ghost all = spec_prune_kids(views_of(kids@));
    let ghost kids0 = kids;
    let ghost orig = kids@;
    let mut rest = kids;
    let mut out: Vec<Dir> = Vec::new();
    let ghost i: int = 0;
    proof {
        assert(orig.skip(0) =~= orig);
        assert(views_of(out@) + all =~= all);
    }
    while rest.len() > 0
        invariant
            0 <= i <= orig.len(),
            kids0@ == orig,
            rest@ == orig.skip(i),
            all == spec_prune_kids(views_of(orig)),
            views_of(out@) + spec_prune_kids(views_of(rest@)) == all,
        decreases orig.len() - i,
    {
        let ghost before = rest@;
        let mut c = rest.remove(0);
        proof {
            assert(c == orig[i]);
            assert(before.drop_first() =~= orig.skip(i + 1));
            assert(views_of(before)[0] == c@);
            assert(views_of(before).drop_first() =~= views_of(rest@));
        }
        let ghost c0 = c;
        let mut grand: Vec<Dir> = Vec::new();
        core::mem::swap(&mut c.contents, &mut grand);
        proof {
            assert(decreases_to!(kids0 => kids0@));
            assert(decreases_to!(kids0@ => kids0@[i]));
            assert(decreases_to!(kids0@[i] => kids0@[i].contents));
            assert(grand == kids0@[i].contents);
            assert(decreases_to!(kids0 => grand));
        }
        let pruned_grand = prune_vec(grand);
        c.contents = pruned_grand;
        proof {
            assert(c@ =~= spec_prune(c0@));
        }
        if c.has_nested_children() {
            let ghost prev = out@;
            out.push(c);
            proof {
                assert(views_of(out@) =~= views_of(prev).push(spec_prune(c0@)));
                assert(views_of(prev).push(spec_prune(c0@)) + spec_prune_kids(views_of(rest@))
                    =~= views_of(prev) + (seq![spec_prune(c0@)] + spec_prune_kids(
                    views_of(rest@),
                )));
            }
        }
        proof {
            i = i + 1;
        }
    }
    proof {
        assert(views_of(rest@) =~= Seq::<NodeV>::empty());
        assert(views_of(out@) =~= all);
    }
    out
}

} // verus!
