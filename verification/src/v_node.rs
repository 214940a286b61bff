//! The virtual node: the tagged union the diff engine reconciles. A node is
//! an element, a text node, a fragment list, a component placeholder, or a
//! raw reference to a pre-existing live node.

use crate::dom::DomContext;
use crate::live::{LiveId, LiveTree};
use crate::node_ref::{NodeRef, NodeRefTable};
use crate::v_comp::VComp;
use crate::v_list::VList;
use crate::v_tag::VTag;
use crate::v_text::VText;
use vstd::prelude::*;

verus! {

/// A virtual node.
pub enum VNode {
    /// An element with attributes, listeners and children.
    VTag(Box<VTag>),
    /// A text node.
    VText(VText),
    /// A fragment: a list of nodes without a live node of its own.
    VList(VList),
    /// A component placeholder.
    VComp(VComp),
    /// A pre-existing live node imported into the tree without
    /// framework-managed diffing.
    VRef(LiveId),
}

/// A measure of a virtual node, used to bound the reconciliation recursion.
pub open spec fn vnode_size(n: VNode) -> nat
    decreases n,
{
    match n {
        VNode::VTag(t) => 3 + vnodes_size(t.children.children@),
        VNode::VList(l) => 2 + vnodes_size(l.children@),
        VNode::VText(_) => 1,
        VNode::VComp(_) => 1,
        VNode::VRef(_) => 1,
    }
}

/// The summed measure of a list of virtual nodes.
pub open spec fn vnodes_size(s: Seq<VNode>) -> nat
    decreases s,
{
    if s.len() == 0 {
        0
    } else {
        vnode_size(s[0]) + vnodes_size(s.drop_first())
    }
}

/// An element of a list measures no more than the whole list.
pub proof fn lemma_elem_size_le(s: Seq<VNode>, i: int)
    requires
        0 <= i < s.len(),
    ensures
        vnode_size(s[i]) <= vnodes_size(s),
    decreases s.len(),
{
    if i > 0 {
        lemma_elem_size_le(s.drop_first(), i - 1);
        assert(s.drop_first()[i - 1] == s[i]);
    }
}

/// Dropping the first element of a list drops exactly its measure.
pub proof fn lemma_drop_first_size(s: Seq<VNode>)
    requires
        s.len() > 0,
    ensures
        vnodes_size(s.drop_first()) == vnodes_size(s) - vnode_size(s[0]),
{
}

/// The sibling list `s` after every live root of the list `cs` left it, in
/// order; component placeholders stay, their teardown being the mounted
/// instance's own lifecycle work.
pub open spec fn detached_list_from(cs: Seq<VNode>, s: Seq<LiveId>) -> Seq<LiveId>
    decreases 1 + vnodes_size(cs),
    via detached_list_from_decreases
{
    if cs.len() == 0 {
        s
    } else {
        detached_list_from(cs.drop_first(), cs[0].detached_from(s))
    }
}

#[via_fn]
proof fn detached_list_from_decreases(cs: Seq<VNode>, s: Seq<LiveId>) {
    if cs.len() > 0 {
        lemma_elem_size_le(cs, 0);
        lemma_drop_first_size(cs);
        assert(vnode_size(cs[0]) >= 1);
    }
}

/// The optional ancestor, if present, avoids `id`.
pub open spec fn opt_avoids(ancestor: Option<VNode>, id: LiveId) -> bool {
    match ancestor {
        Some(a) => a.avoids(id),
        None => true,
    }
}

/// A well-formed subtree only names existing reference cells, so it cannot
/// write a cell created after it was checked.
pub proof fn lemma_nr_avoids_fresh(n: &VNode, tree: &LiveTree, refs: &NodeRefTable, h: NodeRef)
    requires
        n.wf_in(tree, refs),
        h.spec_id() >= refs.spec_len(),
    ensures
        n.nr_avoids(h),
    decreases vnode_size(*n),
{
    match n {
        VNode::VTag(t) => {
            assert(t.wf_in(tree, refs));
            assert(t.children.wf_in(tree, refs));
            assert forall|i: int|
                0 <= i < t.children.children@.len() implies (
            #[trigger] t.children.children@[i]).nr_avoids(h) by {
                assert(t.children.children@[i].wf_in(tree, refs));
                lemma_elem_size_le(t.children.children@, i);
                lemma_nr_avoids_fresh(&t.children.children@[i], tree, refs, h);
            }
            assert(t.children.nr_avoids(h));
            match t.node_ref {
                Some(r) => {
                    assert(r.valid(refs));
                    assert(r.spec_id() != h.spec_id());
                    assert(r != h);
                },
                None => {},
            }
        },
        VNode::VList(l) => {
            assert(l.wf_in(tree, refs));
            assert forall|i: int|
                0 <= i < l.children@.len() implies (#[trigger] l.children@[i]).nr_avoids(h) by {
                assert(l.children@[i].wf_in(tree, refs));
                lemma_elem_size_le(l.children@, i);
                lemma_nr_avoids_fresh(&l.children@[i], tree, refs, h);
            }
        },
        _ => {},
    }
}

/// A well-formed subtree only references existing nodes, so it avoids every
/// identity at or beyond the tree's node count.
pub proof fn lemma_avoids_fresh(n: &VNode, tree: &LiveTree, refs: &NodeRefTable, id: LiveId)
    requires
        n.wf_in(tree, refs),
        id >= tree.spec_num_nodes(),
    ensures
        n.avoids(id),
    decreases vnode_size(*n),
{
    match n {
        VNode::VTag(t) => {
            assert(t.wf_in(tree, refs));
            assert(t.children.wf_in(tree, refs));
            assert forall|i: int|
                0 <= i < t.children.children@.len() implies (
            #[trigger] t.children.children@[i]).avoids(id) by {
                assert(t.children.children@[i].wf_in(tree, refs));
                lemma_elem_size_le(t.children.children@, i);
                lemma_avoids_fresh(&t.children.children@[i], tree, refs, id);
            }
            assert(t.children.avoids(id));
        },
        VNode::VList(l) => {
            assert(l.wf_in(tree, refs));
            assert forall|i: int|
                0 <= i < l.children@.len() implies (#[trigger] l.children@[i]).avoids(id) by {
                assert(l.children@[i].wf_in(tree, refs));
                lemma_elem_size_le(l.children@, i);
                lemma_avoids_fresh(&l.children@[i], tree, refs, id);
            }
        },
        _ => {},
    }
}

/// The first resolved live node among the nodes of a list, scanning in
/// sibling order.
pub open spec fn spec_first_of(cs: Seq<VNode>, refs: &NodeRefTable) -> Option<LiveId>
    decreases 1 + vnodes_size(cs),
    via spec_first_of_decreases
{
    if cs.len() == 0 {
        None
    } else {
        match cs[0].spec_first_node(refs) {
            Some(n) => Some(n),
            None => spec_first_of(cs.drop_first(), refs),
        }
    }
}

#[via_fn]
proof fn spec_first_of_decreases(cs: Seq<VNode>, refs: &NodeRefTable) {
    if cs.len() > 0 {
        lemma_elem_size_le(cs, 0);
        lemma_drop_first_size(cs);
        assert(vnode_size(cs[0]) >= 1);
    }
}

/// Scanning a list whose first `i` nodes have no live node starts at `i`.
pub proof fn lemma_first_of_skip(cs: Seq<VNode>, i: int, refs: &NodeRefTable)
    requires
        0 <= i <= cs.len(),
        forall|j: int| 0 <= j < i ==> (#[trigger] cs[j]).spec_first_node(refs) is None,
    ensures
        spec_first_of(cs, refs) == spec_first_of(cs.subrange(i, cs.len() as int), refs),
    decreases i,
{
    if i > 0 {
        assert(cs[0].spec_first_node(refs) is None);
        assert(cs.drop_first() =~= cs.subrange(1, cs.len() as int));
        assert forall|j: int|
            0 <= j < i - 1 implies (#[trigger] cs.drop_first()[j]).spec_first_node(refs)
            is None by {
            assert(cs.drop_first()[j] == cs[j + 1]);
        }
        lemma_first_of_skip(cs.drop_first(), i - 1, refs);
        assert(cs.drop_first().subrange(i - 1, cs.drop_first().len() as int) =~= cs.subrange(
            i,
            cs.len() as int,
        ));
    } else {
        assert(cs.subrange(0, cs.len() as int) =~= cs);
    }
}

/// The live roots each node of a list stands for, in sibling order: what
/// the fragment's reconciliation places under the parent.
pub open spec fn root_ids_list(cs: Seq<VNode>) -> Seq<LiveId>
    decreases 1 + vnodes_size(cs),
    via root_ids_list_decreases
{
    if cs.len() == 0 {
        Seq::<LiveId>::empty()
    } else {
        root_ids(cs[0]) + root_ids_list(cs.drop_first())
    }
}

#[via_fn]
proof fn root_ids_list_decreases(cs: Seq<VNode>) {
    if cs.len() > 0 {
        lemma_elem_size_le(cs, 0);
        lemma_drop_first_size(cs);
        assert(vnode_size(cs[0]) >= 1);
    }
}

/// The live roots an applied node stands for: its element, text node or
/// imported node; a component's placeholder; a fragment's children's roots.
pub open spec fn root_ids(n: VNode) -> Seq<LiveId>
    decreases vnode_size(n),
{
    match n {
        VNode::VTag(t) => seq![(t.reference)->0],
        VNode::VText(t) => seq![(t.reference)->0],
        VNode::VList(l) => root_ids_list(l.children@),
        VNode::VComp(c) => match c.placeholder {
            Some(p) => seq![p],
            None => Seq::<LiveId>::empty(),
        },
        VNode::VRef(id) => seq![id],
    }
}

impl VNode {
    /// The subtree contains no imported raw node: every live root it will
    /// stand for is freshly created by its own application.
    pub open spec fn vref_free(&self) -> bool
        decreases vnode_size(*self),
    {
        match self {
            VNode::VTag(t) => t.vref_free(),
            VNode::VText(_) => true,
            VNode::VList(l) => l.vref_free(),
            VNode::VComp(_) => true,
            VNode::VRef(_) => false,
        }
    }

    /// No reference cell anywhere in this subtree is the cell `h`: applying
    /// the subtree cannot write that cell.
    pub open spec fn nr_avoids(&self, h: NodeRef) -> bool
        decreases vnode_size(*self),
    {
        match self {
            VNode::VTag(t) => t.nr_avoids(h),
            VNode::VText(t) => !(t.node_ref matches Some(r) && r == h),
            VNode::VList(l) => l.nr_avoids(h),
            VNode::VComp(c) => !(c.node_ref matches Some(r) && r == h),
            VNode::VRef(_) => true,
        }
    }

    /// The first live node of this subtree: the element, text node or
    /// imported node itself; a fragment's first child that has one; what a
    /// component's reference resolves to.
    pub open spec fn spec_first_node(&self, refs: &NodeRefTable) -> Option<LiveId>
        decreases vnode_size(*self),
    {
        match self {
            VNode::VTag(t) => t.reference,
            VNode::VText(t) => t.reference,
            VNode::VList(l) => spec_first_of(l.children@, refs),
            VNode::VComp(c) => match c.node_ref {
                Some(r) => refs.resolved(r),
                None => None,
            },
            VNode::VRef(n) => Some(*n),
        }
    }

    /// No live reference anywhere in this subtree names `id`: detaching the
    /// subtree cannot touch the children list of `id`.
    pub open spec fn avoids(&self, id: LiveId) -> bool
        decreases vnode_size(*self),
    {
        match self {
            VNode::VTag(t) => t.avoids(id),
            VNode::VText(t) => !(t.reference matches Some(r) && r == id),
            VNode::VList(l) => l.avoids(id),
            VNode::VComp(_) => true,
            VNode::VRef(n) => *n != id,
        }
    }

    /// The sibling list `s` after this subtree's live root left it: the
    /// element or text or imported node is removed; a fragment removes each
    /// of its children's roots in order; a component placeholder stays.
    pub open spec fn detached_from(&self, s: Seq<LiveId>) -> Seq<LiveId>
        decreases vnode_size(*self),
    {
        match self {
            VNode::VTag(t) => s.remove_value((t.reference)->0),
            VNode::VText(t) => s.remove_value((t.reference)->0),
            VNode::VList(l) => detached_list_from(l.children@, s),
            VNode::VComp(_) => s,
            VNode::VRef(n) => s.remove_value(*n),
        }
    }

    /// Every live piece the node names exists in the given tree and table.
    pub open spec fn wf_in(&self, tree: &LiveTree, refs: &NodeRefTable) -> bool
        decreases vnode_size(*self),
    {
        match self {
            VNode::VTag(t) => t.wf_in(tree, refs),
            VNode::VText(t) => t.wf_in(tree, refs),
            VNode::VList(l) => l.wf_in(tree, refs),
            VNode::VComp(c) => c.wf_in(refs),
            VNode::VRef(n) => tree.valid(*n),
        }
    }

    /// The node has been applied: every piece of it owns its live result.
    pub open spec fn rendered(&self) -> bool
        decreases vnode_size(*self),
    {
        match self {
            VNode::VTag(t) => t.rendered(),
            VNode::VText(t) => t.rendered(),
            VNode::VList(l) => l.rendered(),
            VNode::VComp(c) => c.rendered(),
            VNode::VRef(_) => true,
        }
    }

    /// The node has not been applied yet: nothing in it claims a live
    /// result, and every component still carries its payload.
    pub open spec fn pristine(&self) -> bool
        decreases vnode_size(*self),
    {
        match self {
            VNode::VTag(t) => t.pristine(),
            VNode::VText(t) => t.reference is None,
            VNode::VList(l) => l.pristine(),
            VNode::VComp(c) => c.spec_props() is Some && c.spec_instance() is None,
            VNode::VRef(_) => true,
        }
    }

    /// The first live node of this subtree, used as the insertion position
    /// when a replacement is spliced in before the subtree goes away.
    pub fn first_node(&self, tree: &LiveTree, refs: &NodeRefTable) -> (r: Option<LiveId>)
        requires
            refs.wf(),
            self.wf_in(tree, refs),
        ensures
            r == self.spec_first_node(refs),
        decreases vnode_size(*self),
    {
        match self {
            VNode::VTag(t) => t.reference,
            VNode::VText(t) => t.reference,
            VNode::VList(l) => l.first_node(tree, refs),
            VNode::VComp(c) => match c.node_ref {
                Some(r) => r.get(refs),
                None => None,
            },
            VNode::VRef(n) => Some(*n),
        }
    }

    /// Remove this subtree's live nodes from `parent`, detaching children
    /// before their parents; a component subtree schedules its teardown.
    pub fn detach(self, ctx: &mut DomContext, parent: LiveId)
        requires
            old(ctx).wf(),
            old(ctx).tree.is_element(parent),
            self.wf_in(&old(ctx).tree, &old(ctx).refs),
            self.rendered(),
        ensures
            final(ctx).wf(),
            crate::dom::ctx_extends(final(ctx), old(ctx)),
            final(ctx).tree.spec_num_nodes() == old(ctx).tree.spec_num_nodes(),
            final(ctx).refs == old(ctx).refs,
            old(ctx).tree.spec_log().is_prefix_of(final(ctx).tree.spec_log()),
            detach_sched_ok(old(ctx), final(ctx)),
            forall|o: crate::live::LiveId|
                old(ctx).tree.valid(o) ==> #[trigger] final(ctx).tree.node_state_unchanged(&old(ctx).tree, o),
            self.avoids(parent) ==> final(ctx).tree.children_of(parent) == self.detached_from(
                old(ctx).tree.children_of(parent),
            ),
            forall|o: crate::live::LiveId|
                old(ctx).tree.valid(o) && o != parent && self.avoids(o)
                    ==> #[trigger] final(ctx).tree.children_of(o) == old(ctx).tree.children_of(o),
        decreases vnode_size(self), 0int,
    {
        match self {
            VNode::VTag(t) => {
                let tag = *t;
                tag.detach(ctx, parent);
                proof {
                    assert forall|o: LiveId|
                        old(ctx).tree.valid(o) && o != parent && self.avoids(o)
                            implies #[trigger] ctx.tree.children_of(o) == old(
                        ctx,
                    ).tree.children_of(o) by {
                        assert(tag.avoids(o));
                    }
                }
            },
            VNode::VText(t) => {
                t.detach(ctx, parent);
                proof {
                    crate::live::lemma_prefix_refl(
                        old(ctx).sched.comp_queue(crate::scheduler::ComponentRunnableType::Destroy),
                    );
                }
            },
            VNode::VList(l) => {
                let ghost lg = l;
                l.detach(ctx, parent);
                proof {
                    assert forall|o: LiveId|
                        old(ctx).tree.valid(o) && o != parent && self.avoids(o)
                            implies #[trigger] ctx.tree.children_of(o) == old(
                        ctx,
                    ).tree.children_of(o) by {
                        assert(lg.avoids(o));
                    }
                }
            },
            VNode::VComp(c) => {
                c.detach(ctx, parent);
                proof {
                    crate::live::lemma_push_prefix(
                        old(ctx).sched.comp_queue(crate::scheduler::ComponentRunnableType::Destroy),
                        ctx.sched.comp_queue(
                            crate::scheduler::ComponentRunnableType::Destroy,
                        ).last(),
                    );
                }
            },
            VNode::VRef(n) => {
                let r = ctx.tree.remove_child(parent, n);
                proof {
                    if r {
                        crate::live::lemma_push_prefix(
                            old(ctx).tree.spec_log(),
                            crate::live::LiveOp::Removed { parent, node: n },
                        );
                    } else {
                        crate::live::lemma_prefix_refl(old(ctx).tree.spec_log());
                    }
                    crate::live::lemma_prefix_refl(
                        old(ctx).sched.comp_queue(crate::scheduler::ComponentRunnableType::Destroy),
                    );
                    assert forall|o: LiveId|
                        old(ctx).tree.valid(o) implies ctx.tree.node_state_unchanged(
                        &old(ctx).tree,
                        o,
                    ) by {
                        if o != parent {
                            assert(ctx.tree.node_unchanged(&old(ctx).tree, o));
                        }
                    }
                    assert forall|o: LiveId|
                        old(ctx).tree.valid(o) && o != parent implies #[trigger] ctx.tree.children_of(
                        o,
                    ) == old(ctx).tree.children_of(o) by {
                        assert(ctx.tree.node_unchanged(&old(ctx).tree, o));
                    }
                }
            },
        }
    }

    /// Reconcile this node against the ancestor occupying its tree position
    /// and mutate the live tree to match, reusing the ancestor's live nodes
    /// where identity matches. Returns the node with its live results filled
    /// in, and a reference for the resulting live root.
    pub fn apply(
        self,
        ctx: &mut DomContext,
        parent: LiveId,
        next_sibling: NodeRef,
        ancestor: Option<VNode>,
    ) -> (res: (VNode, NodeRef))
        requires
            old(ctx).wf(),
            old(ctx).tree.is_element(parent),
            next_sibling.valid(&old(ctx).refs),
            self.wf_in(&old(ctx).tree, &old(ctx).refs),
            self.pristine(),
            ancestor matches Some(a) ==> a.wf_in(&old(ctx).tree, &old(ctx).refs) && a.rendered(),
        ensures
            final(ctx).wf(),
            crate::dom::ctx_extends(final(ctx), old(ctx)),
            old(ctx).tree.spec_log().is_prefix_of(final(ctx).tree.spec_log()),
            res.0.wf_in(&final(ctx).tree, &final(ctx).refs),
            res.0.rendered(),
            res.1.valid(&final(ctx).refs),
            final(ctx).sched.main_queue() == old(ctx).sched.main_queue(),
            // nothing but the parent's children list and the ancestor's own
            // live nodes is touched; fresh nodes are new
            opt_avoids(ancestor, parent) ==> final(ctx).tree.node_state_unchanged(
                &old(ctx).tree,
                parent,
            ),
            forall|o: LiveId|
                old(ctx).tree.valid(o) && o != parent && opt_avoids(ancestor, o)
                    ==> #[trigger] final(ctx).tree.node_unchanged(&old(ctx).tree, o),
            // no reference cell outside this subtree's own is written
            forall|hr: NodeRef|
                hr.valid(&old(ctx).refs) && self.nr_avoids(hr)
                    ==> #[trigger] final(ctx).refs.node_of(hr) == old(ctx).refs.node_of(hr)
                    && final(ctx).refs.link_of(hr) == old(ctx).refs.link_of(hr),
            // an all-fresh application appends this subtree's live roots
            // under the parent, in sibling order
            (ancestor is None && old(ctx).refs.node_of(next_sibling) is None && old(ctx).refs.link_of(next_sibling) is None && self.nr_avoids(next_sibling) && self.vref_free()) ==> final(ctx).tree.children_of(parent) == old(ctx).tree.children_of(parent)
                + root_ids(res.0),
        decreases vnode_size(self), 0int,
    {
        match self {
            VNode::VTag(t) => {
                let tag = *t;
                let (tag2, r) = tag.apply(ctx, parent, next_sibling, ancestor);
                proof {
                    if ancestor is None && old(ctx).refs.node_of(next_sibling) is None && old(ctx).refs.link_of(next_sibling) is None && self.nr_avoids(next_sibling)
                        && self.vref_free() {
                        old(ctx).refs.lemma_unresolved(next_sibling);
                        assert(ctx.tree.children_of(parent) == crate::live::insert_before_spec(
                            old(ctx).tree.children_of(parent),
                            (tag2.reference)->0,
                            old(ctx).refs.resolved(next_sibling),
                        ));
                        assert(ctx.tree.children_of(parent) =~= old(ctx).tree.children_of(parent)
                            + seq![(tag2.reference)->0]);
                    }
                }
                (VNode::VTag(Box::new(tag2)), r)
            },
            VNode::VText(t) => {
                let (t2, r) = t.apply(ctx, parent, next_sibling, ancestor);
                proof {
                    if ancestor is None && old(ctx).refs.node_of(next_sibling) is None && old(ctx).refs.link_of(next_sibling) is None {
                        assert(ctx.tree.children_of(parent) =~= old(ctx).tree.children_of(parent)
                            + seq![(t2.reference)->0]);
                    }
                }
                (VNode::VText(t2), r)
            },
            VNode::VList(l) => {
                let (l2, r) = l.apply(ctx, parent, next_sibling, ancestor);
                (VNode::VList(l2), r)
            },
            VNode::VComp(c) => {
                let (c2, r) = c.apply(ctx, parent, next_sibling, ancestor);
                proof {
                    if ancestor is None && old(ctx).refs.node_of(next_sibling) is None && old(ctx).refs.link_of(next_sibling) is None {
                        assert(ctx.tree.children_of(parent) =~= old(ctx).tree.children_of(parent)
                            + seq![(c2.placeholder)->0]);
                    }
                }
                (VNode::VComp(c2), r)
            },
            VNode::VRef(n) => {
                // an imported live node: keep it where it stands, or insert
                // it fresh; no framework-managed diffing happens inside it
                match ancestor {
                    Some(anc) => {
                        anc.detach(ctx, parent);
                        let ghost mid = *ctx;
                        let contained = ctx.tree.contains_child(parent, n);
                        if !contained {
                            ctx.tree.insert_node(parent, n, None);
                            proof {
                                crate::live::lemma_push_prefix(
                                    mid.tree.spec_log(),
                                    crate::live::LiveOp::Inserted { parent, node: n, before: None },
                                );
                                crate::live::lemma_prefix_steps(
                                    old(ctx).tree.spec_log(),
                                    mid.tree.spec_log(),
                                    ctx.tree.spec_log(),
                                );
                            }
                        }
                        proof {
                            assert forall|o: LiveId|
                                old(ctx).tree.valid(o) && o != parent && opt_avoids(ancestor, o)
                                    implies #[trigger] ctx.tree.node_unchanged(
                                &old(ctx).tree,
                                o,
                            ) by {
                                assert(mid.tree.node_state_unchanged(&old(ctx).tree, o));
                                assert(mid.tree.children_of(o) == old(ctx).tree.children_of(o));
                                assert(mid.tree.node_unchanged(&old(ctx).tree, o));
                                assert(mid.tree.valid(o));
                                assert(ctx.tree.node_unchanged(&mid.tree, o));
                            }
                            if opt_avoids(ancestor, parent) {
                                assert(mid.tree.node_state_unchanged(&old(ctx).tree, parent));
                                assert(mid.tree.valid(parent));
                                assert(ctx.tree.node_state_unchanged(&mid.tree, parent));
                            }
                        }
                        let nr = ctx.refs.fresh();
                        nr.set(&mut ctx.refs, Some(n));
                        (VNode::VRef(n), nr)
                    },
                    None => {
                        let contained = ctx.tree.contains_child(parent, n);
                        if !contained {
                            ctx.tree.insert_node(parent, n, None);
                            proof {
                                crate::live::lemma_push_prefix(
                                    old(ctx).tree.spec_log(),
                                    crate::live::LiveOp::Inserted { parent, node: n, before: None },
                                );
                            }
                        } else {
                            proof {
                                crate::live::lemma_prefix_refl(old(ctx).tree.spec_log());
                            }
                        }
                        let nr = ctx.refs.fresh();
                        nr.set(&mut ctx.refs, Some(n));
                        (VNode::VRef(n), nr)
                    },
                }
            },
        }
    }
}

/// During a detach, the scheduler only gains destroy actions: the other
/// component queues and the general queue are untouched.
pub open spec fn detach_sched_ok(pre: &DomContext, post: &DomContext) -> bool {
    &&& pre.sched.comp_queue(crate::scheduler::ComponentRunnableType::Destroy).is_prefix_of(
        post.sched.comp_queue(crate::scheduler::ComponentRunnableType::Destroy),
    )
    &&& post.sched.comp_queue(crate::scheduler::ComponentRunnableType::Create) == pre.sched.comp_queue(
        crate::scheduler::ComponentRunnableType::Create,
    )
    &&& post.sched.comp_queue(crate::scheduler::ComponentRunnableType::Update) == pre.sched.comp_queue(
        crate::scheduler::ComponentRunnableType::Update,
    )
    &&& post.sched.comp_queue(crate::scheduler::ComponentRunnableType::Render) == pre.sched.comp_queue(
        crate::scheduler::ComponentRunnableType::Render,
    )
    &&& post.sched.main_queue() == pre.sched.main_queue()
    &&& post.next_instance == pre.next_instance
}

/// Context growth preserves node well-formedness: what existed keeps
/// existing.
pub proof fn lemma_wf_monotone(
    n: &VNode,
    t1: &LiveTree,
    r1: &NodeRefTable,
    t2: &LiveTree,
    r2: &NodeRefTable,
)
    requires
        n.wf_in(t1, r1),
        crate::live::tree_extends(t2, t1),
        r2.spec_len() >= r1.spec_len(),
    ensures
        n.wf_in(t2, r2),
    decreases vnode_size(*n),
{
    match n {
        VNode::VTag(t) => {
            crate::v_tag::lemma_vtag_wf_monotone(t, t1, r1, t2, r2);
        },
        VNode::VList(l) => {
            assert forall|i: int| 0 <= i < l.children@.len() implies (#[trigger] l.children@[i]).wf_in(
                t2,
                r2,
            ) by {
                lemma_elem_size_le(l.children@, i);
                lemma_wf_monotone(&l.children@[i], t1, r1, t2, r2);
            }
        },
        _ => {},
    }
}

} // verus!
