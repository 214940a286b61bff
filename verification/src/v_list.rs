//! The virtual fragment: an ordered list of nodes grouped without a live
//! node of their own. Reconciliation is positional: the child at each
//! position is diffed against the ancestor child at the same position, and
//! leftover ancestor children are detached.

use crate::dom::{ctx_extends, DomContext};
use crate::live::{LiveId, LiveTree};
use crate::node_ref::{NodeRef, NodeRefTable};
use crate::v_node::{
    detach_sched_ok, detached_list_from, lemma_drop_first_size, lemma_elem_size_le,
    lemma_wf_monotone, vnode_size, vnodes_size, VNode,
};
use vstd::prelude::*;

verus! {

/// A list of virtual nodes grouping a fragment.
pub struct VList {
    /// The nodes of the fragment, in sibling order.
    pub children: Vec<VNode>,
    /// The correlation key of the fragment in its wrapping context.
    pub key: Option<String>,
}

impl VList {
    /// Every child's live pieces exist in the given tree and table.
    pub open spec fn wf_in(&self, tree: &LiveTree, refs: &NodeRefTable) -> bool
        decreases 1 + vnodes_size(self.children@),
        via Self::wf_in_decreases
    {
        forall|i: int|
            0 <= i < self.children@.len() ==> (#[trigger] self.children@[i]).wf_in(tree, refs)
    }

    #[via_fn]
    proof fn wf_in_decreases(&self, tree: &LiveTree, refs: &NodeRefTable) {
        assert forall|i: int|
            0 <= i < self.children@.len() implies vnode_size(#[trigger] self.children@[i]) < 1
                + vnodes_size(self.children@) by {
            lemma_elem_size_le(self.children@, i);
        }
    }

    /// No child contains an imported raw node.
    pub open spec fn vref_free(&self) -> bool
        decreases 1 + vnodes_size(self.children@),
        via Self::vref_free_decreases
    {
        forall|i: int|
            0 <= i < self.children@.len() ==> (#[trigger] self.children@[i]).vref_free()
    }

    #[via_fn]
    proof fn vref_free_decreases(&self) {
        assert forall|i: int|
            0 <= i < self.children@.len() implies vnode_size(#[trigger] self.children@[i]) < 1
                + vnodes_size(self.children@) by {
            lemma_elem_size_le(self.children@, i);
        }
    }

    /// No reference cell in any child is the cell `h`.
    pub open spec fn nr_avoids(&self, h: NodeRef) -> bool
        decreases 1 + vnodes_size(self.children@),
        via Self::nr_avoids_decreases
    {
        forall|i: int|
            0 <= i < self.children@.len() ==> (#[trigger] self.children@[i]).nr_avoids(h)
    }

    #[via_fn]
    proof fn nr_avoids_decreases(&self, h: NodeRef) {
        assert forall|i: int|
            0 <= i < self.children@.len() implies vnode_size(#[trigger] self.children@[i]) < 1
                + vnodes_size(self.children@) by {
            lemma_elem_size_le(self.children@, i);
        }
    }

    /// No live reference in any child names `id`.
    pub open spec fn avoids(&self, id: LiveId) -> bool
        decreases 1 + vnodes_size(self.children@),
        via Self::avoids_decreases
    {
        forall|i: int|
            0 <= i < self.children@.len() ==> (#[trigger] self.children@[i]).avoids(id)
    }

    #[via_fn]
    proof fn avoids_decreases(&self, id: LiveId) {
        assert forall|i: int|
            0 <= i < self.children@.len() implies vnode_size(#[trigger] self.children@[i]) < 1
                + vnodes_size(self.children@) by {
            lemma_elem_size_le(self.children@, i);
        }
    }

    /// Every child has been applied.
    pub open spec fn rendered(&self) -> bool
        decreases 1 + vnodes_size(self.children@),
        via Self::rendered_decreases
    {
        forall|i: int| 0 <= i < self.children@.len() ==> (#[trigger] self.children@[i]).rendered()
    }

    #[via_fn]
    proof fn rendered_decreases(&self) {
        assert forall|i: int|
            0 <= i < self.children@.len() implies vnode_size(#[trigger] self.children@[i]) < 1
                + vnodes_size(self.children@) by {
            lemma_elem_size_le(self.children@, i);
        }
    }

    /// No child has been applied yet.
    pub open spec fn pristine(&self) -> bool
        decreases 1 + vnodes_size(self.children@),
        via Self::pristine_decreases
    {
        forall|i: int| 0 <= i < self.children@.len() ==> (#[trigger] self.children@[i]).pristine()
    }

    #[via_fn]
    proof fn pristine_decreases(&self) {
        assert forall|i: int|
            0 <= i < self.children@.len() implies vnode_size(#[trigger] self.children@[i]) < 1
                + vnodes_size(self.children@) by {
            lemma_elem_size_le(self.children@, i);
        }
    }

    /// An empty fragment.
    pub fn new() -> (r: VList)
        ensures
            r.children@ == Seq::<VNode>::empty(),
            r.key is None,
    {
        VList { children: Vec::new(), key: None }
    }

    /// Append one node.
    pub fn add_child(&mut self, child: VNode)
        ensures
            final(self).children@ == old(self).children@.push(child),
            final(self).key == old(self).key,
    {
        self.children.push(child);
    }

    /// Append several nodes, in order.
    pub fn add_children(&mut self, children: Vec<VNode>)
        ensures
            final(self).children@ == old(self).children@ + children@,
            final(self).key == old(self).key,
    {
        let mut rest = children;
        let ghost all = rest@;
        while rest.len() > 0
            invariant
                rest@.len() <= all.len(),
                rest@ == all.subrange(all.len() - rest@.len(), all.len() as int),
                self.children@ == old(self).children@ + all.subrange(0, all.len() - rest@.len()),
                self.key == old(self).key,
            decreases rest@.len(),
        {
            let ghost rl = rest@;
            let c = rest.remove(0);
            proof {
                assert(rl[0] == c);
                assert(rest@ =~= rl.drop_first());
            }
            self.children.push(c);
            proof {
                assert(rest@ =~= all.subrange(all.len() - rest@.len(), all.len() as int));
                assert(self.children@ =~= old(self).children@ + all.subrange(
                    0,
                    all.len() - rest@.len(),
                ));
            }
        }
        proof {
            assert(all.subrange(0, all.len() as int) =~= all);
        }
    }

    /// The first live node of the fragment: the first child that has one.
    pub fn first_node(&self, tree: &LiveTree, refs: &NodeRefTable) -> (r: Option<LiveId>)
        requires
            refs.wf(),
            self.wf_in(tree, refs),
        ensures
            r == crate::v_node::spec_first_of(self.children@, refs),
        decreases 1 + vnodes_size(self.children@),
    {
        let n = self.children.len();
        let mut i: usize = 0;
        while i < n
            invariant
                i <= n,
                n == self.children@.len(),
                refs.wf(),
                self.wf_in(tree, refs),
                forall|j: int|
                    0 <= j < i ==> (#[trigger] self.children@[j]).spec_first_node(refs) is None,
            decreases n - i,
        {
            proof {
                lemma_elem_size_le(self.children@, i as int);
            }
            let r = self.children[i].first_node(tree, refs);
            if r.is_some() {
                proof {
                    crate::v_node::lemma_first_of_skip(self.children@, i as int, refs);
                    assert(self.children@.subrange(i as int, n as int)[0] == self.children@[
                        i as int
                    ]);
                    assert(self.children@.subrange(i as int, n as int).drop_first()
                        =~= self.children@.subrange(i + 1, n as int));
                }
                return r;
            }
            i = i + 1;
        }
        proof {
            crate::v_node::lemma_first_of_skip(self.children@, n as int, refs);
            assert(self.children@.subrange(n as int, n as int).len() == 0);
        }
        None
    }

    /// Detach every child from `parent`, in order.
    pub fn detach(self, ctx: &mut DomContext, parent: LiveId)
        requires
            old(ctx).wf(),
            old(ctx).tree.is_element(parent),
            self.wf_in(&old(ctx).tree, &old(ctx).refs),
            self.rendered(),
        ensures
            final(ctx).wf(),
            ctx_extends(final(ctx), old(ctx)),
            final(ctx).tree.spec_num_nodes() == old(ctx).tree.spec_num_nodes(),
            final(ctx).refs == old(ctx).refs,
            old(ctx).tree.spec_log().is_prefix_of(final(ctx).tree.spec_log()),
            detach_sched_ok(old(ctx), final(ctx)),
            forall|o: crate::live::LiveId|
                old(ctx).tree.valid(o) ==> #[trigger] final(ctx).tree.node_state_unchanged(&old(ctx).tree, o),
            // each child's live root leaves the parent's children, in order
            self.avoids(parent) ==> final(ctx).tree.children_of(parent) == detached_list_from(
                self.children@,
                old(ctx).tree.children_of(parent),
            ),
            forall|o: crate::live::LiveId|
                old(ctx).tree.valid(o) && o != parent && self.avoids(o)
                    ==> #[trigger] final(ctx).tree.children_of(o) == old(ctx).tree.children_of(o),
        decreases 1 + vnodes_size(self.children@), 0int,
    {
        let VList { children, key: _ } = self;
        detach_list(children, ctx, parent);
    }

    /// Reconcile the fragment positionally: each child against the ancestor
    /// child at the same position, leftover ancestor children detached.
    /// Returns the applied fragment and a reference for its first live node
    /// — or an empty placeholder reference for a fragment with no nodes.
    pub fn apply(
        self,
        ctx: &mut DomContext,
        parent: LiveId,
        next_sibling: NodeRef,
        ancestor: Option<VNode>,
    ) -> (res: (VList, NodeRef))
        requires
            old(ctx).wf(),
            old(ctx).tree.is_element(parent),
            next_sibling.valid(&old(ctx).refs),
            self.wf_in(&old(ctx).tree, &old(ctx).refs),
            self.pristine(),
            ancestor matches Some(a) ==> a.wf_in(&old(ctx).tree, &old(ctx).refs) && a.rendered(),
        ensures
            final(ctx).wf(),
            ctx_extends(final(ctx), old(ctx)),
            old(ctx).tree.spec_log().is_prefix_of(final(ctx).tree.spec_log()),
            res.0.wf_in(&final(ctx).tree, &final(ctx).refs),
            res.0.rendered(),
            res.0.children@.len() == self.children@.len(),
            res.0.key == self.key,
            res.1.valid(&final(ctx).refs),
            final(ctx).sched.main_queue() == old(ctx).sched.main_queue(),
            crate::v_node::opt_avoids(ancestor, parent) ==> final(ctx).tree.node_state_unchanged(
                &old(ctx).tree,
                parent,
            ),
            forall|o: LiveId|
                old(ctx).tree.valid(o) && o != parent && crate::v_node::opt_avoids(ancestor, o)
                    ==> #[trigger] final(ctx).tree.node_unchanged(&old(ctx).tree, o),
            // no reference cell outside the fragment's own nodes is written
            forall|hr: NodeRef|
                hr.valid(&old(ctx).refs) && self.nr_avoids(hr)
                    ==> #[trigger] final(ctx).refs.node_of(hr) == old(ctx).refs.node_of(hr)
                    && final(ctx).refs.link_of(hr) == old(ctx).refs.link_of(hr),
            // all-fresh application appends the children's live roots under
            // the parent, in sibling order
            (ancestor is None && old(ctx).refs.node_of(next_sibling) is None && old(ctx).refs.link_of(next_sibling) is None && self.nr_avoids(next_sibling) && self.vref_free()) ==> final(ctx).tree.children_of(parent) == old(ctx).tree.children_of(parent)
                + crate::v_node::root_ids_list(res.0.children@),
        decreases 1 + vnodes_size(self.children@), 0int,
    {
        let VList { children, key } = self;
        let mut rights: Vec<VNode> = Vec::new();
        match ancestor {
            Some(anc) => match anc {
                VNode::VList(al) => {
                    rights = al.children;
                    proof {
                        crate::live::lemma_prefix_refl(ctx.tree.spec_log());
                    }
                },
                other => {
                    other.detach(ctx, parent);
                },
            },
            None => {
                proof {
                    crate::live::lemma_prefix_refl(ctx.tree.spec_log());
                }
            },
        }
        proof {
            assert(ctx.tree.is_element(parent)) by {
                assert(crate::live::tree_extends(&ctx.tree, &old(ctx).tree));
            }
            assert forall|i: int|
                0 <= i < children@.len() implies (#[trigger] children@[i]).wf_in(
                &ctx.tree,
                &ctx.refs,
            ) by {
                lemma_wf_monotone(
                    &children@[i],
                    &old(ctx).tree,
                    &old(ctx).refs,
                    &ctx.tree,
                    &ctx.refs,
                );
            }
            assert forall|i: int|
                0 <= i < rights@.len() implies (#[trigger] rights@[i]).wf_in(&ctx.tree, &ctx.refs)
                    && rights@[i].rendered() by {
                lemma_wf_monotone(&rights@[i], &old(ctx).tree, &old(ctx).refs, &ctx.tree, &ctx.refs);
            }
        }
        let ghost mid = *ctx;
        let (new_children, first_ref) = apply_children(children, rights, ctx, parent, next_sibling);
        let ghost mid2 = *ctx;
        let out_ref: NodeRef = match first_ref {
            Some(r) => r,
            None => ctx.refs.fresh(),
        };
        proof {
            crate::dom::lemma_ctx_extends_trans(old(ctx), &mid, ctx);
            crate::live::lemma_prefix_steps(
                old(ctx).tree.spec_log(),
                mid.tree.spec_log(),
                ctx.tree.spec_log(),
            );
            assert forall|i: int|
                0 <= i < new_children@.len() implies (#[trigger] new_children@[i]).wf_in(
                &ctx.tree,
                &ctx.refs,
            ) && new_children@[i].rendered() by {
                lemma_wf_monotone(&new_children@[i], &mid2.tree, &mid2.refs, &ctx.tree, &ctx.refs);
            }
            assert forall|o: LiveId|
                old(ctx).tree.valid(o) && o != parent && crate::v_node::opt_avoids(ancestor, o)
                    implies #[trigger] ctx.tree.node_unchanged(&old(ctx).tree, o) by {
                assert(mid.tree.node_state_unchanged(&old(ctx).tree, o));
                assert(mid.tree.children_of(o) == old(ctx).tree.children_of(o));
                assert(mid.tree.node_unchanged(&old(ctx).tree, o));
                assert(mid.tree.valid(o));
                assert(forall|i: int|
                    0 <= i < rights@.len() ==> (#[trigger] rights@[i]).avoids(o));
                assert(ctx.tree.node_unchanged(&mid.tree, o));
            }
            if crate::v_node::opt_avoids(ancestor, parent) {
                assert(mid.tree.node_state_unchanged(&old(ctx).tree, parent));
                assert(mid.tree.valid(parent));
                assert(forall|i: int|
                    0 <= i < rights@.len() ==> (#[trigger] rights@[i]).avoids(parent));
                assert(ctx.tree.node_state_unchanged(&mid.tree, parent));
            }
            assert forall|hr: NodeRef|
                hr.valid(&old(ctx).refs) && self.nr_avoids(hr)
                    implies #[trigger] ctx.refs.node_of(hr) == old(ctx).refs.node_of(hr)
                    && ctx.refs.link_of(hr) == old(ctx).refs.link_of(hr) by {
                assert(mid2.refs.node_of(hr) == old(ctx).refs.node_of(hr) && mid2.refs.link_of(
                    hr,
                ) == old(ctx).refs.link_of(hr));
                assert(hr.valid(&mid2.refs));
            }
            if ancestor is None && old(ctx).refs.node_of(next_sibling) is None && old(ctx).refs.link_of(next_sibling) is None && self.nr_avoids(next_sibling)
                && self.vref_free() {
                assert(ctx.tree.children_of(parent) == old(ctx).tree.children_of(parent)
                    + crate::v_node::root_ids_list(new_children@));
            }
        }
        (VList { children: new_children, key }, out_ref)
    }
}

/// Detach each node of the list from `parent`, first to last.
fn detach_list(nodes: Vec<VNode>, ctx: &mut DomContext, parent: LiveId)
    requires
        old(ctx).wf(),
        old(ctx).tree.is_element(parent),
        forall|i: int|
            0 <= i < nodes@.len() ==> (#[trigger] nodes@[i]).wf_in(&old(ctx).tree, &old(ctx).refs)
                && nodes@[i].rendered(),
    ensures
        final(ctx).wf(),
        ctx_extends(final(ctx), old(ctx)),
        final(ctx).tree.spec_num_nodes() == old(ctx).tree.spec_num_nodes(),
        final(ctx).refs == old(ctx).refs,
        old(ctx).tree.spec_log().is_prefix_of(final(ctx).tree.spec_log()),
        detach_sched_ok(old(ctx), final(ctx)),
        forall|o: crate::live::LiveId|
            old(ctx).tree.valid(o) ==> #[trigger] final(ctx).tree.node_state_unchanged(&old(ctx).tree, o),
        (forall|i: int| 0 <= i < nodes@.len() ==> (#[trigger] nodes@[i]).avoids(parent)) ==> final(ctx).tree.children_of(parent) == detached_list_from(
            nodes@,
            old(ctx).tree.children_of(parent),
        ),
        forall|o: crate::live::LiveId|
            old(ctx).tree.valid(o) && o != parent && (forall|i: int|
                0 <= i < nodes@.len() ==> (#[trigger] nodes@[i]).avoids(o))
                ==> #[trigger] final(ctx).tree.children_of(o) == old(ctx).tree.children_of(o),
    decreases vnodes_size(nodes@), 1int,
{
    let mut rest = nodes;
    if rest.len() == 0 {
        proof {
            crate::live::lemma_prefix_refl(old(ctx).tree.spec_log());
            crate::live::lemma_prefix_refl(
                old(ctx).sched.comp_queue(crate::scheduler::ComponentRunnableType::Destroy),
            );
        }
        return ;
    }
    let ghost rl = rest@;
    let c = rest.remove(0);
    proof {
        assert(rl[0] == c);
        assert(rest@ =~= rl.drop_first());
        lemma_drop_first_size(rl);
        lemma_elem_size_le(rl, 0);
    }
    c.detach(ctx, parent);
    let ghost mid = *ctx;
    proof {
        assert(ctx.tree.is_element(parent)) by {
            assert(crate::live::tree_extends(&ctx.tree, &old(ctx).tree));
        }
        assert forall|i: int|
            0 <= i < rest@.len() implies (#[trigger] rest@[i]).wf_in(&ctx.tree, &ctx.refs)
                && rest@[i].rendered() by {
            assert(rest@[i] == rl[i + 1]);
            lemma_wf_monotone(&rest@[i], &old(ctx).tree, &old(ctx).refs, &ctx.tree, &ctx.refs);
        }
    }
    detach_list(rest, ctx, parent);
    proof {
        crate::dom::lemma_ctx_extends_trans(old(ctx), &mid, ctx);
        assert forall|o: crate::live::LiveId|
            old(ctx).tree.valid(o) implies ctx.tree.node_state_unchanged(&old(ctx).tree, o) by {
            assert(mid.tree.node_state_unchanged(&old(ctx).tree, o));
            assert(mid.tree.valid(o));
            assert(ctx.tree.node_state_unchanged(&mid.tree, o));
        }
        crate::live::lemma_prefix_steps(
            old(ctx).tree.spec_log(),
            mid.tree.spec_log(),
            ctx.tree.spec_log(),
        );
        crate::live::lemma_prefix_steps(
            old(ctx).sched.comp_queue(crate::scheduler::ComponentRunnableType::Destroy),
            mid.sched.comp_queue(crate::scheduler::ComponentRunnableType::Destroy),
            ctx.sched.comp_queue(crate::scheduler::ComponentRunnableType::Destroy),
        );
    }
}

/// Reconcile the nodes of a fragment positionally: the first new node
/// against the first ancestor node, then the rest; ancestor nodes without a
/// partner are detached. Returns the applied nodes and a reference for the
/// first one.
fn apply_children(
    lefts: Vec<VNode>,
    rights: Vec<VNode>,
    ctx: &mut DomContext,
    parent: LiveId,
    next_sibling: NodeRef,
) -> (res: (Vec<VNode>, Option<NodeRef>))
    requires
        old(ctx).wf(),
        old(ctx).tree.is_element(parent),
        next_sibling.valid(&old(ctx).refs),
        forall|i: int|
            0 <= i < lefts@.len() ==> (#[trigger] lefts@[i]).wf_in(&old(ctx).tree, &old(ctx).refs)
                && lefts@[i].pristine(),
        forall|i: int|
            0 <= i < rights@.len() ==> (#[trigger] rights@[i]).wf_in(&old(ctx).tree, &old(ctx).refs)
                && rights@[i].rendered(),
    ensures
        final(ctx).wf(),
        ctx_extends(final(ctx), old(ctx)),
        old(ctx).tree.spec_log().is_prefix_of(final(ctx).tree.spec_log()),
        res.0@.len() == lefts@.len(),
        forall|i: int|
            0 <= i < res.0@.len() ==> (#[trigger] res.0@[i]).wf_in(&final(ctx).tree, &final(ctx).refs) && res.0@[i].rendered(),
        lefts@.len() > 0 ==> res.1 is Some,
        res.1 matches Some(r) ==> r.valid(&final(ctx).refs),
        final(ctx).sched.main_queue() == old(ctx).sched.main_queue(),
        (forall|i: int| 0 <= i < rights@.len() ==> (#[trigger] rights@[i]).avoids(parent)) ==> final(ctx).tree.node_state_unchanged(&old(ctx).tree, parent),
        forall|hr: NodeRef|
            hr.valid(&old(ctx).refs) && (forall|i: int|
                0 <= i < lefts@.len() ==> (#[trigger] lefts@[i]).nr_avoids(hr))
                ==> #[trigger] final(ctx).refs.node_of(hr) == old(ctx).refs.node_of(hr)
                && final(ctx).refs.link_of(hr) == old(ctx).refs.link_of(hr),
        (rights@.len() == 0 && old(ctx).refs.node_of(next_sibling) is None && old(ctx).refs.link_of(next_sibling) is None && (forall|i: int|
            0 <= i < lefts@.len() ==> (#[trigger] lefts@[i]).nr_avoids(next_sibling)) && (forall|i: int|
            0 <= i < lefts@.len() ==> (#[trigger] lefts@[i]).vref_free())) ==> final(ctx).tree.children_of(parent) == old(ctx).tree.children_of(parent)
            + crate::v_node::root_ids_list(res.0@),
        forall|o: LiveId|
            old(ctx).tree.valid(o) && o != parent && (forall|i: int|
                0 <= i < rights@.len() ==> (#[trigger] rights@[i]).avoids(o))
                ==> #[trigger] final(ctx).tree.node_unchanged(&old(ctx).tree, o),
    decreases vnodes_size(lefts@), 1int,
{
    let ghost rights0 = rights@;
    let mut lefts = lefts;
    let mut rights = rights;
    if lefts.len() == 0 {
        // the ancestor had more children than this fragment: detach them
        detach_list(rights, ctx, parent);
        proof {
            if rights@.len() == 0 {
                assert(ctx.tree.children_of(parent) =~= old(ctx).tree.children_of(parent)
                    + crate::v_node::root_ids_list(Seq::<VNode>::empty()));
            }
            assert forall|o: LiveId|
                old(ctx).tree.valid(o) && o != parent && (forall|i: int|
                    0 <= i < rights@.len() ==> (#[trigger] rights@[i]).avoids(o))
                    implies #[trigger] ctx.tree.node_unchanged(&old(ctx).tree, o) by {
                assert(ctx.tree.node_state_unchanged(&old(ctx).tree, o));
                assert(ctx.tree.children_of(o) == old(ctx).tree.children_of(o));
            }
        }
        return (Vec::new(), None);
    }
    let ghost ll = lefts@;
    let left = lefts.remove(0);
    let anc_child: Option<VNode> = if rights.len() > 0 {
        let ghost rr = rights@;
        let r0 = rights.remove(0);
        proof {
            assert(rr[0] == r0);
            assert(rights@ =~= rr.drop_first());
        }
        Some(r0)
    } else {
        None
    };
    proof {
        assert(ll[0] == left);
        assert(lefts@ =~= ll.drop_first());
        lemma_drop_first_size(ll);
        lemma_elem_size_le(ll, 0);
    }
    let (nl, r) = left.apply(ctx, parent, next_sibling, anc_child);
    let ghost mid = *ctx;
    proof {
        assert(ctx.tree.is_element(parent)) by {
            assert(crate::live::tree_extends(&ctx.tree, &old(ctx).tree));
        }
        assert forall|i: int|
            0 <= i < lefts@.len() implies (#[trigger] lefts@[i]).wf_in(&ctx.tree, &ctx.refs)
                && lefts@[i].pristine() by {
            assert(lefts@[i] == ll[i + 1]);
            lemma_wf_monotone(&lefts@[i], &old(ctx).tree, &old(ctx).refs, &ctx.tree, &ctx.refs);
        }
        assert forall|i: int|
            0 <= i < rights@.len() implies (#[trigger] rights@[i]).wf_in(&ctx.tree, &ctx.refs)
                && rights@[i].rendered() by {
            lemma_wf_monotone(&rights@[i], &old(ctx).tree, &old(ctx).refs, &ctx.tree, &ctx.refs);
        }
    }
    let (mut tail, _tail_ref) = apply_children(lefts, rights, ctx, parent, next_sibling);
    let ghost tail_v = tail@;
    let mut out: Vec<VNode> = Vec::new();
    out.push(nl);
    out.append(&mut tail);
    proof {
        crate::dom::lemma_ctx_extends_trans(old(ctx), &mid, ctx);
        crate::live::lemma_prefix_steps(
            old(ctx).tree.spec_log(),
            mid.tree.spec_log(),
            ctx.tree.spec_log(),
        );
        assert forall|o: LiveId|
            old(ctx).tree.valid(o) && o != parent && (forall|i: int|
                0 <= i < rights0.len() ==> (#[trigger] rights0[i]).avoids(o))
                implies #[trigger] ctx.tree.node_unchanged(&old(ctx).tree, o) by {
            assert(crate::v_node::opt_avoids(anc_child, o)) by {
                if anc_child is Some {
                    assert(rights0[0].avoids(o));
                }
            }
            assert(mid.tree.node_unchanged(&old(ctx).tree, o));
            assert(mid.tree.valid(o));
            assert(forall|i: int|
                0 <= i < rights@.len() ==> (#[trigger] rights@[i]).avoids(o)) by {
                assert forall|i: int|
                    0 <= i < rights@.len() implies (#[trigger] rights@[i]).avoids(o) by {
                    if rights0.len() > 0 {
                        assert(rights@[i] == rights0[i + 1]);
                    }
                }
            }
            assert(ctx.tree.node_unchanged(&mid.tree, o));
        }
        if (forall|i: int| 0 <= i < rights0.len() ==> (#[trigger] rights0[i]).avoids(parent)) {
            assert(crate::v_node::opt_avoids(anc_child, parent)) by {
                if anc_child is Some {
                    assert(rights0[0].avoids(parent));
                }
            }
            assert(mid.tree.node_state_unchanged(&old(ctx).tree, parent));
            assert(mid.tree.valid(parent));
            assert(forall|i: int|
                0 <= i < rights@.len() ==> (#[trigger] rights@[i]).avoids(parent)) by {
                assert forall|i: int|
                    0 <= i < rights@.len() implies (#[trigger] rights@[i]).avoids(parent) by {
                    if rights0.len() > 0 {
                        assert(rights@[i] == rights0[i + 1]);
                    }
                }
            }
            assert(ctx.tree.node_state_unchanged(&mid.tree, parent));
        }
        assert(out@ =~= seq![nl] + tail_v);
        assert forall|i: int|
            0 <= i < out@.len() implies (#[trigger] out@[i]).wf_in(&ctx.tree, &ctx.refs)
                && out@[i].rendered() by {
            if i == 0 {
                assert(out@[0] == nl);
                lemma_wf_monotone(&nl, &mid.tree, &mid.refs, &ctx.tree, &ctx.refs);
            } else {
                assert(out@[i] == tail_v[i - 1]);
            }
        }
        // cells outside the fragment's own nodes stay untouched
        assert forall|hr: NodeRef|
            hr.valid(&old(ctx).refs) && (forall|i: int|
                0 <= i < ll.len() ==> (#[trigger] ll[i]).nr_avoids(hr))
                implies #[trigger] ctx.refs.node_of(hr) == old(ctx).refs.node_of(hr)
                && ctx.refs.link_of(hr) == old(ctx).refs.link_of(hr) by {
            assert(ll[0].nr_avoids(hr));
            assert(mid.refs.node_of(hr) == old(ctx).refs.node_of(hr) && mid.refs.link_of(hr)
                == old(ctx).refs.link_of(hr));
            assert(hr.valid(&mid.refs));
            assert(forall|i: int|
                0 <= i < lefts@.len() ==> (#[trigger] lefts@[i]).nr_avoids(hr)) by {
                assert forall|i: int|
                    0 <= i < lefts@.len() implies (#[trigger] lefts@[i]).nr_avoids(hr) by {
                    assert(lefts@[i] == ll[i + 1]);
                }
            }
        }
        // an all-fresh application appends the roots in sibling order
        if rights0.len() == 0 && old(ctx).refs.node_of(next_sibling) is None && old(ctx).refs.link_of(next_sibling) is None && (forall|i: int|
            0 <= i < ll.len() ==> (#[trigger] ll[i]).nr_avoids(next_sibling)) && (forall|i: int|
            0 <= i < ll.len() ==> (#[trigger] ll[i]).vref_free()) {
            assert(ll[0].nr_avoids(next_sibling));
            assert(ll[0].vref_free());
            assert(mid.tree.children_of(parent) == old(ctx).tree.children_of(parent)
                + crate::v_node::root_ids(nl));
            assert(mid.refs.node_of(next_sibling) is None && mid.refs.link_of(next_sibling)
                is None);
            assert(next_sibling.valid(&mid.refs));
            assert(forall|i: int|
                0 <= i < lefts@.len() ==> (#[trigger] lefts@[i]).nr_avoids(next_sibling)) by {
                assert forall|i: int|
                    0 <= i < lefts@.len() implies (#[trigger] lefts@[i]).nr_avoids(
                    next_sibling,
                ) by {
                    assert(lefts@[i] == ll[i + 1]);
                }
            }
            assert(forall|i: int|
                0 <= i < lefts@.len() ==> (#[trigger] lefts@[i]).vref_free()) by {
                assert forall|i: int|
                    0 <= i < lefts@.len() implies (#[trigger] lefts@[i]).vref_free() by {
                    assert(lefts@[i] == ll[i + 1]);
                }
            }
            assert(ctx.tree.children_of(parent) == mid.tree.children_of(parent)
                + crate::v_node::root_ids_list(tail_v));
            assert(crate::v_node::root_ids_list(out@) == crate::v_node::root_ids(nl)
                + crate::v_node::root_ids_list(tail_v)) by {
                assert(out@.drop_first() =~= tail_v);
                assert(out@[0] == nl);
            }
            assert(ctx.tree.children_of(parent) =~= old(ctx).tree.children_of(parent)
                + crate::v_node::root_ids_list(out@));
        }
    }
    (out, Some(r))
}

} // verus!
