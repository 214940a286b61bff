//! The virtual text node: immutable content, reconciled against a previous
//! text node by rewriting the live content in place.

use crate::dom::DomContext;
use crate::live::{LiveId, LiveOp, LiveTree};
use crate::node_ref::{NodeRef, NodeRefTable};
use crate::v_node::VNode;
use vstd::prelude::*;

verus! {

/// A virtual text node.
pub struct VText {
    /// The text content.
    pub text: String,
    /// The live text node produced for this virtual node, once applied.
    pub reference: Option<LiveId>,
    /// The reference cell resolving to the live text node, once applied.
    pub node_ref: Option<NodeRef>,
}

impl VText {
    /// This node's live pieces exist in the given tree and table.
    pub open spec fn wf_in(&self, tree: &LiveTree, refs: &NodeRefTable) -> bool {
        &&& (self.reference matches Some(t) ==> tree.valid(t) && tree.is_text_node(t))
        &&& (self.node_ref matches Some(r) ==> r.valid(refs))
    }

    /// The node has been applied: it owns a live text node.
    pub open spec fn rendered(&self) -> bool {
        self.reference is Some
    }

    /// A fresh, not yet applied text node.
    pub fn new(text: String) -> (r: VText)
        ensures
            r.text == text,
            r.reference is None,
            r.node_ref is None,
    {
        VText { text, reference: None, node_ref: None }
    }

    /// Remove this node's live text node from `parent`.
    pub fn detach(self, ctx: &mut DomContext, parent: LiveId)
        requires
            old(ctx).wf(),
            old(ctx).tree.is_element(parent),
            self.rendered(),
            self.wf_in(&old(ctx).tree, &old(ctx).refs),
        ensures
            final(ctx).wf(),
            crate::dom::ctx_extends(final(ctx), old(ctx)),
            old(ctx).tree.spec_log().is_prefix_of(final(ctx).tree.spec_log()),
            final(ctx).refs == old(ctx).refs,
            final(ctx).sched == old(ctx).sched,
            final(ctx).next_instance == old(ctx).next_instance,
            final(ctx).tree.spec_num_nodes() == old(ctx).tree.spec_num_nodes(),
            final(ctx).tree.children_of(parent) == old(ctx).tree.children_of(parent).remove_value(
                (self.reference)->0,
            ),
            forall|o: LiveId|
                old(ctx).tree.valid(o) && o != parent ==> final(ctx).tree.node_unchanged(
                    &old(ctx).tree,
                    o,
                ),
            forall|o: LiveId|
                old(ctx).tree.valid(o) ==> #[trigger] final(ctx).tree.node_state_unchanged(&old(ctx).tree, o),
            forall|o: LiveId|
                old(ctx).tree.valid(o) && o != parent ==> #[trigger] final(ctx).tree.children_of(o)
                    == old(ctx).tree.children_of(o),
    {
        let t: LiveId = match self.reference {
            Some(t) => t,
            None => vstd::pervasive::unreached(),  // excluded by this function's requires
        };
        let r = ctx.tree.remove_child(parent, t);
        proof {
            if r {
                crate::live::lemma_push_prefix(
                    old(ctx).tree.spec_log(),
                    LiveOp::Removed { parent, node: t },
                );
            } else {
                crate::live::lemma_prefix_refl(old(ctx).tree.spec_log());
            }
            assert forall|o: LiveId|
                old(ctx).tree.valid(o) implies ctx.tree.node_state_unchanged(
                &old(ctx).tree,
                o,
            ) by {
                if o != parent {
                    assert(ctx.tree.node_unchanged(&old(ctx).tree, o));
                }
            }
            assert forall|o: LiveId|
                old(ctx).tree.valid(o) && o != parent implies #[trigger] ctx.tree.children_of(o)
                    == old(ctx).tree.children_of(o) by {
                assert(ctx.tree.node_unchanged(&old(ctx).tree, o));
            }
        }
    }

    /// Render this text over the live tree: reuse the ancestor text node and
    /// rewrite its content only when it differs, or create a fresh text node
    /// and insert it — before the ancestor's first live node when an ancestor
    /// of another shape is being replaced, else before the sibling hint.
    /// Returns the node with its reference filled, and a node reference
    /// resolving to the live text node.
    pub fn apply(
        self,
        ctx: &mut DomContext,
        parent: LiveId,
        next_sibling: NodeRef,
        ancestor: Option<VNode>,
    ) -> (res: (VText, NodeRef))
        requires
            old(ctx).wf(),
            old(ctx).tree.is_element(parent),
            next_sibling.valid(&old(ctx).refs),
            self.node_ref matches Some(r) ==> r.valid(&old(ctx).refs),
            self.reference is None,
            ancestor matches Some(a) ==> a.wf_in(&old(ctx).tree, &old(ctx).refs) && a.rendered(),
        ensures
            final(ctx).wf(),
            crate::dom::ctx_extends(final(ctx), old(ctx)),
            old(ctx).tree.spec_log().is_prefix_of(final(ctx).tree.spec_log()),
            final(ctx).sched.main_queue() == old(ctx).sched.main_queue(),
            res.0.text == self.text,
            res.0.rendered(),
            res.0.wf_in(&final(ctx).tree, &final(ctx).refs),
            res.0.reference matches Some(t) && final(ctx).tree.is_text_node(t),
            res.1.valid(&final(ctx).refs),
            final(ctx).refs.resolved(res.1) == Some((res.0.reference)->0),
            res.0.node_ref == Some(res.1),
            // a caller-supplied reference cell is the very cell handed back
            self.node_ref matches Some(r0) ==> res.1 == r0,
            crate::v_node::opt_avoids(ancestor, parent) ==> final(ctx).tree.node_state_unchanged(
                &old(ctx).tree,
                parent,
            ),
            forall|o: LiveId|
                old(ctx).tree.valid(o) && o != parent && crate::v_node::opt_avoids(ancestor, o)
                    ==> #[trigger] final(ctx).tree.node_unchanged(&old(ctx).tree, o),
            // no reference cell but this node's own is ever written
            forall|hr: NodeRef|
                hr.valid(&old(ctx).refs) && !(self.node_ref matches Some(r0) && r0 == hr)
                    ==> #[trigger] final(ctx).refs.node_of(hr) == old(ctx).refs.node_of(hr)
                    && final(ctx).refs.link_of(hr) == old(ctx).refs.link_of(hr),
            // with no ancestor and an unresolved hint the node lands at the
            // tail
            (ancestor is None && old(ctx).refs.node_of(next_sibling) is None && old(ctx).refs.link_of(next_sibling) is None) ==> final(ctx).tree.children_of(parent) == old(ctx).tree.children_of(parent).push((res.0.reference)->0),
            // a fresh text node is placed before the sibling hint; a replaced
            // ancestor leaves the parent afterwards
            ancestor is None ==> final(ctx).tree.children_of(parent) == crate::live::insert_before_spec(
                old(ctx).tree.children_of(parent),
                (res.0.reference)->0,
                old(ctx).refs.resolved(next_sibling),
            ),
            (match ancestor {
                Some(a) => !(a matches VNode::VText(_)) && a.avoids(parent),
                None => false,
            }) ==> final(ctx).tree.children_of(parent) == (ancestor->0).detached_from(
                crate::live::insert_before_spec(
                    old(ctx).tree.children_of(parent),
                    (res.0.reference)->0,
                    (ancestor->0).spec_first_node(&old(ctx).refs),
                ),
            ),
            // reuse of a text ancestor: same live node, rewritten only when
            // the content differs
            match ancestor {
                Some(VNode::VText(at)) => {
                    &&& res.0.reference == at.reference
                    &&& final(ctx).tree.spec_num_nodes() == old(ctx).tree.spec_num_nodes()
                    &&& (self.text@ == at.text@ ==> final(ctx).tree == old(ctx).tree)
                    &&& (self.text@ != at.text@ ==> final(ctx).tree.text_of((at.reference)->0)
                        == self.text@)
                },
                _ => true,
            },
            // anything else: a fresh text node carrying exactly this content
            (match ancestor {
                Some(a) => !(a matches VNode::VText(_)),
                None => true,
            }) ==> {
                &&& (res.0.reference)->0 == old(ctx).tree.spec_num_nodes()
                &&& final(ctx).tree.spec_num_nodes() == old(ctx).tree.spec_num_nodes() + 1
                &&& final(ctx).tree.text_of((res.0.reference)->0) == self.text@
            },
    {
        let mut this = self;
        let ghost mut pos_g: Option<LiveId> = None;
        let text_node: LiveId;
        match ancestor {
            Some(anc) => {
                match anc {
                    VNode::VText(anc_text) => {
                        let t: LiveId = match anc_text.reference {
                            Some(t) => t,
                            None => vstd::pervasive::unreached(),  // the ancestor is rendered
                        };
                        if !this.text.eq(&anc_text.text) {
                            ctx.tree.set_text(t, &this.text);
                            proof {
                                crate::live::lemma_push_prefix(
                                    old(ctx).tree.spec_log(),
                                    LiveOp::SetText { node: t, content: this.text },
                                );
                            }
                        } else {
                            proof {
                                crate::live::lemma_prefix_refl(old(ctx).tree.spec_log());
                            }
                        }
                        proof {
                            assert forall|o: LiveId|
                                old(ctx).tree.valid(o) && o != parent && crate::v_node::opt_avoids(
                                    ancestor,
                                    o,
                                ) implies #[trigger] ctx.tree.node_unchanged(
                                &old(ctx).tree,
                                o,
                            ) by {
                                assert(o != t);
                            }
                            if crate::v_node::opt_avoids(ancestor, parent) {
                                assert(parent != t);
                                assert(ctx.tree.node_unchanged(&old(ctx).tree, parent));
                            }
                        }
                        text_node = t;
                    },
                    other => {
                        // no match: place a fresh text node before the
                        // ancestor's first live node, then drop the ancestor
                        let t = ctx.tree.create_text(this.text.clone());
                        let ghost tc = *ctx;
                        let ghost log1 = ctx.tree.spec_log();
                        proof {
                            crate::v_node::lemma_wf_monotone(
                                &other,
                                &old(ctx).tree,
                                &old(ctx).refs,
                                &ctx.tree,
                                &ctx.refs,
                            );
                        }
                        let pos = other.first_node(&ctx.tree, &ctx.refs);
                        proof {
                            old(ctx).tree.lemma_children_bounded(parent);
                            assert(ctx.tree.node_unchanged(&old(ctx).tree, parent));
                            assert(!ctx.tree.children_of(parent).contains(t)) by {
                                if ctx.tree.children_of(parent).contains(t) {
                                    let j = choose|j: int|
                                        0 <= j < ctx.tree.children_of(parent).len()
                                            && ctx.tree.children_of(parent)[j] == t;
                                    assert(old(ctx).tree.children_of(parent)[j] == t);
                                }
                            }
                            crate::live::lemma_push_prefix(
                                old(ctx).tree.spec_log(),
                                LiveOp::CreatedText { node: t },
                            );
                        }
                        ctx.tree.insert_node(parent, t, pos);
                        let ghost mid = *ctx;
                        proof {
                            crate::live::lemma_push_prefix(
                                log1,
                                LiveOp::Inserted { parent, node: t, before: pos },
                            );
                            crate::live::lemma_prefix_steps(
                                old(ctx).tree.spec_log(),
                                log1,
                                ctx.tree.spec_log(),
                            );
                            crate::live::lemma_tree_extends_trans(
                                &old(ctx).tree,
                                &tc.tree,
                                &ctx.tree,
                            );
                            crate::v_node::lemma_wf_monotone(
                                &other,
                                &old(ctx).tree,
                                &old(ctx).refs,
                                &ctx.tree,
                                &ctx.refs,
                            );
                        }
                        other.detach(ctx, parent);
                        proof {
                            crate::live::lemma_prefix_steps(
                                old(ctx).tree.spec_log(),
                                mid.tree.spec_log(),
                                ctx.tree.spec_log(),
                            );
                            crate::live::lemma_tree_extends_trans(
                                &old(ctx).tree,
                                &mid.tree,
                                &ctx.tree,
                            );
                            assert(ctx.tree.node_state_unchanged(&mid.tree, t));
                            assert(t != parent);
                            assert(mid.tree.node_unchanged(&tc.tree, t));
                            assert(mid.tree.text_of(t) == this.text@);
                            assert(ctx.tree.text_of(t) == this.text@);
                            assert(ctx.tree.is_text_node(t));
                            assert forall|o: LiveId|
                                old(ctx).tree.valid(o) && o != parent && crate::v_node::opt_avoids(
                                    ancestor,
                                    o,
                                ) implies #[trigger] ctx.tree.node_unchanged(
                                &old(ctx).tree,
                                o,
                            ) by {
                                assert(tc.tree.node_unchanged(&old(ctx).tree, o));
                                assert(tc.tree.valid(o));
                                assert(mid.tree.node_unchanged(&tc.tree, o));
                                assert(mid.tree.valid(o));
                                assert(ctx.tree.node_state_unchanged(&mid.tree, o));
                                assert(ctx.tree.children_of(o) == mid.tree.children_of(o));
                            }
                            if crate::v_node::opt_avoids(ancestor, parent) {
                                assert(tc.tree.node_unchanged(&old(ctx).tree, parent));
                                assert(mid.tree.node_state_unchanged(&tc.tree, parent));
                                assert(ctx.tree.node_state_unchanged(&mid.tree, parent));
                                assert(mid.tree.children_of(parent)
                                    == crate::live::insert_before_spec(
                                    old(ctx).tree.children_of(parent),
                                    t,
                                    pos,
                                ));
                                assert(ctx.tree.children_of(parent) == (ancestor->0).detached_from(
                                    crate::live::insert_before_spec(
                                        old(ctx).tree.children_of(parent),
                                        t,
                                        pos,
                                    ),
                                ));
                            }
                            pos_g = pos;
                            assert(pos_g == (ancestor->0).spec_first_node(&old(ctx).refs));
                            if (ancestor->0).avoids(parent) {
                                assert(ctx.tree.children_of(parent) == (ancestor->0).detached_from(
                                    crate::live::insert_before_spec(
                                        old(ctx).tree.children_of(parent),
                                        t,
                                        pos_g,
                                    ),
                                ));
                            }
                        }
                        text_node = t;
                    },
                }
            },
            None => {
                let t = ctx.tree.create_text(this.text.clone());
                let ghost tcn = *ctx;
                let ghost log1 = ctx.tree.spec_log();
                let pos = next_sibling.get(&ctx.refs);
                proof {
                    old(ctx).tree.lemma_children_bounded(parent);
                    assert(ctx.tree.node_unchanged(&old(ctx).tree, parent));
                    assert(!ctx.tree.children_of(parent).contains(t)) by {
                        if ctx.tree.children_of(parent).contains(t) {
                            let j = choose|j: int|
                                0 <= j < ctx.tree.children_of(parent).len() && ctx.tree.children_of(
                                    parent,
                                )[j] == t;
                            assert(old(ctx).tree.children_of(parent)[j] == t);
                        }
                    }
                    crate::live::lemma_push_prefix(
                        old(ctx).tree.spec_log(),
                        LiveOp::CreatedText { node: t },
                    );
                }
                ctx.tree.insert_node(parent, t, pos);
                proof {
                    crate::live::lemma_push_prefix(
                        log1,
                        LiveOp::Inserted { parent, node: t, before: pos },
                    );
                    crate::live::lemma_prefix_steps(old(ctx).tree.spec_log(), log1, ctx.tree.spec_log());
                    assert(t != parent);
                    assert(ctx.tree.node_unchanged(&tcn.tree, t));
                    assert(ctx.tree.text_of(t) == this.text@);
                    assert forall|o: LiveId|
                        old(ctx).tree.valid(o) && o != parent implies #[trigger] ctx.tree.node_unchanged(
                        &old(ctx).tree,
                        o,
                    ) by {
                        assert(tcn.tree.node_unchanged(&old(ctx).tree, o));
                        assert(tcn.tree.valid(o));
                        assert(ctx.tree.node_unchanged(&tcn.tree, o));
                    }
                    assert(ctx.tree.node_state_unchanged(&old(ctx).tree, parent));
                }
                text_node = t;
            },
        }
        this.reference = Some(text_node);
        let ghost refs_pre = ctx.refs;
        let ghost nr0 = this.node_ref;
        let nr: NodeRef = match this.node_ref {
            Some(r) => r,
            None => ctx.refs.fresh(),
        };
        let ghost refs_mid = ctx.refs;
        nr.set(&mut ctx.refs, Some(text_node));
        this.node_ref = Some(nr);
        proof {
            assert forall|hr: NodeRef|
                hr.valid(&old(ctx).refs) && !(nr0 matches Some(r0) && r0 == hr)
                    implies #[trigger] ctx.refs.node_of(hr) == old(ctx).refs.node_of(hr)
                    && ctx.refs.link_of(hr) == old(ctx).refs.link_of(hr) by {
                assert(refs_pre == old(ctx).refs);
                assert(hr != nr);
                NodeRef::lemma_id_injective(hr, nr);
                assert(hr.valid(&refs_mid));
                assert(refs_mid.node_of(hr) == refs_pre.node_of(hr) && refs_mid.link_of(hr)
                    == refs_pre.link_of(hr));
                assert(hr.valid(&ctx.refs));
                assert(hr.spec_id() != nr.spec_id());
                assert(ctx.refs.node_of(hr) == refs_mid.node_of(hr) && ctx.refs.link_of(hr)
                    == refs_mid.link_of(hr));
            }
            if ancestor is None && old(ctx).refs.node_of(next_sibling) is None && old(ctx).refs.link_of(next_sibling) is None {
                old(ctx).refs.lemma_unresolved(next_sibling);
                assert(crate::live::insert_before_spec(
                    old(ctx).tree.children_of(parent),
                    text_node,
                    old(ctx).refs.resolved(next_sibling),
                ) =~= old(ctx).tree.children_of(parent).push(text_node));
            }
        }
        (this, nr)
    }
}

} // verus!
