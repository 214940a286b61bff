//! The virtual component node: a placeholder in the tree for an externally
//! supplied component. Mounting, property updates and teardown are pushed
//! onto the scheduler as lifecycle actions; the node itself only keeps the
//! component's type identity, its mount state, and its reference cell.

use crate::djed::Component;
use crate::dom::{DomContext, LifeAction};
use crate::live::{LiveId, LiveOp};
use crate::node_ref::NodeRef;
use crate::scheduler::ComponentRunnableType;
use crate::v_node::VNode;
use vstd::prelude::*;

verus! {

/// A virtual component node. Before its first mount it carries the property
/// payload the instance will be created from; once mounted it carries the
/// instance handle instead — never both, never neither.
pub struct VComp {
    /// Which component kind this node stands for.
    pub type_id: u64,
    /// The mounted instance, present exactly once mounted.
    pub instance: Option<u64>,
    /// The boxed property payload, present exactly until mount or reuse
    /// consumes it.
    pub props: Option<u64>,
    /// The live placeholder text node marking the mount position, present
    /// once mounted.
    pub placeholder: Option<LiveId>,
    /// The reference cell resolving to the component's live root.
    pub node_ref: Option<NodeRef>,
    /// The correlation key, unused by positional reconciliation.
    pub key: Option<String>,
}

impl VComp {
    /// The mounted instance handle.
    pub open spec fn spec_instance(&self) -> Option<u64> {
        self.instance
    }

    /// The pending property payload.
    pub open spec fn spec_props(&self) -> Option<u64> {
        self.props
    }

    /// Exactly one of payload and instance is present.
    pub open spec fn inv(&self) -> bool {
        (self.spec_props() is Some) <==> (self.spec_instance() is None)
    }

    /// The node is mounted: it has an instance and no pending payload.
    pub open spec fn rendered(&self) -> bool {
        self.spec_instance() is Some && self.spec_props() is None
    }

    /// This node's reference cell exists in the given table.
    pub open spec fn wf_in(&self, refs: &crate::node_ref::NodeRefTable) -> bool {
        &&& (self.node_ref matches Some(r) ==> r.valid(refs))
        &&& self.inv()
    }

    /// A fresh, unmounted component node of the given type, carrying the
    /// property payload that its mount will consume.
    pub fn new(type_id: u64, props: u64, node_ref: Option<NodeRef>, key: Option<String>) -> (r:
        VComp)
        ensures
            r.type_id == type_id,
            r.spec_props() == Some(props),
            r.spec_instance() is None,
            r.node_ref == node_ref,
            r.key == key,
            r.placeholder is None,
            r.inv(),
    {
        VComp { type_id, instance: None, props: Some(props), placeholder: None, node_ref, key }
    }

    /// A fresh unmounted copy of this node. Only an unmounted node may be
    /// copied: a mounted instance must not be duplicated.
    pub fn duplicate(&self) -> (r: VComp)
        requires
            self.spec_instance() is None,
        ensures
            r.type_id == self.type_id,
            r.spec_props() == self.spec_props(),
            r.spec_instance() is None,
            r.node_ref == self.node_ref,
            r.key == self.key,
    {
        VComp {
            type_id: self.type_id,
            instance: None,
            props: match self.props {
                Some(p) => Some(p),
                None => None,
            },
            placeholder: None,
            node_ref: self.node_ref,
            key: match &self.key {
                Some(k) => Some(k.clone()),
                None => None,
            },
        }
    }

    /// Tear the mounted instance down: its destroy action is pushed onto the
    /// scheduler. The live teardown is the instance's own lifecycle work.
    pub fn detach(self, ctx: &mut DomContext, parent: LiveId)
        requires
            old(ctx).wf(),
            self.rendered(),
        ensures
            final(ctx).wf(),
            crate::dom::ctx_extends(final(ctx), old(ctx)),
            final(ctx).tree == old(ctx).tree,
            final(ctx).refs == old(ctx).refs,
            old(ctx).tree.spec_log().is_prefix_of(final(ctx).tree.spec_log()),
            final(ctx).sched.comp_queue(ComponentRunnableType::Destroy) == old(ctx).sched.comp_queue(ComponentRunnableType::Destroy).push(
                LifeAction::Destroy { component: (self.spec_instance())->0 },
            ),
            forall|k: ComponentRunnableType|
                k != ComponentRunnableType::Destroy ==> final(ctx).sched.comp_queue(k) == old(ctx).sched.comp_queue(k),
            final(ctx).sched.main_queue() == old(ctx).sched.main_queue(),
            final(ctx).next_instance == old(ctx).next_instance,
            forall|o: crate::live::LiveId|
                old(ctx).tree.valid(o) ==> #[trigger] final(ctx).tree.node_state_unchanged(&old(ctx).tree, o),
    {
        let inst: u64 = match self.instance {
            Some(i) => i,
            None => vstd::pervasive::unreached(),  // excluded by this function's requires
        };
        ctx.sched.push_comp(ComponentRunnableType::Destroy, LifeAction::Destroy { component: inst });
        proof {
            crate::live::lemma_prefix_refl(old(ctx).tree.spec_log());
        }
    }

    /// Reconcile this component node against its ancestor. An ancestor
    /// component of the same declared type keeps its mounted instance: the
    /// new property payload is forwarded to it through an update action, and
    /// this node's reference delegates to the ancestor's — no live nodes are
    /// touched. Any other ancestor is detached; then a fresh placeholder
    /// text node marks the mount position and the create and render actions
    /// for a fresh instance are pushed.
    pub fn apply(
        self,
        ctx: &mut DomContext,
        parent: LiveId,
        next_sibling: NodeRef,
        ancestor: Option<VNode>,
    ) -> (res: (VComp, NodeRef))
        requires
            old(ctx).wf(),
            old(ctx).tree.is_element(parent),
            next_sibling.valid(&old(ctx).refs),
            self.node_ref matches Some(r) ==> r.valid(&old(ctx).refs),
            self.spec_props() is Some,
            self.spec_instance() is None,
            ancestor matches Some(a) ==> a.wf_in(&old(ctx).tree, &old(ctx).refs) && a.rendered(),
        ensures
            final(ctx).wf(),
            crate::dom::ctx_extends(final(ctx), old(ctx)),
            old(ctx).tree.spec_log().is_prefix_of(final(ctx).tree.spec_log()),
            res.0.type_id == self.type_id,
            res.0.key == self.key,
            res.0.rendered(),
            res.0.wf_in(&final(ctx).refs),
            res.1.valid(&final(ctx).refs),
            final(ctx).sched.main_queue() == old(ctx).sched.main_queue(),
            // a caller-supplied reference cell is the one the node keeps
            self.node_ref matches Some(r0) ==> res.0.node_ref == Some(r0),
            // no reference cell but this node's own is ever written
            forall|hr: NodeRef|
                hr.valid(&old(ctx).refs) && !(self.node_ref matches Some(r0) && r0 == hr)
                    ==> #[trigger] final(ctx).refs.node_of(hr) == old(ctx).refs.node_of(hr)
                    && final(ctx).refs.link_of(hr) == old(ctx).refs.link_of(hr),
            // with no ancestor and an unresolved hint the placeholder lands
            // at the tail
            (ancestor is None && old(ctx).refs.node_of(next_sibling) is None && old(ctx).refs.link_of(next_sibling) is None) ==> final(ctx).tree.children_of(parent) == old(ctx).tree.children_of(parent).push(old(ctx).tree.spec_num_nodes() as LiveId),
            crate::v_node::opt_avoids(ancestor, parent) ==> final(ctx).tree.node_state_unchanged(
                &old(ctx).tree,
                parent,
            ),
            forall|o: LiveId|
                old(ctx).tree.valid(o) && o != parent && crate::v_node::opt_avoids(ancestor, o)
                    ==> #[trigger] final(ctx).tree.node_unchanged(&old(ctx).tree, o),
            // every fresh mount places an empty placeholder text node at the
            // mount position, records it, and the returned reference
            // resolves to it
            (match ancestor {
                Some(a) => !(a matches VNode::VComp(ac) && ac.type_id == self.type_id),
                None => true,
            }) ==> res.0.placeholder == Some(old(ctx).tree.spec_num_nodes() as LiveId),
            (match ancestor {
                Some(a) => a matches VNode::VComp(ac) && ac.type_id == self.type_id,
                None => false,
            }) ==> res.0.placeholder == (ancestor->0)->VComp_0.placeholder,
            (match ancestor {
                Some(a) => !(a matches VNode::VComp(ac) && ac.type_id == self.type_id),
                None => true,
            }) ==> {
                &&& final(ctx).tree.spec_num_nodes() == old(ctx).tree.spec_num_nodes() + 1
                &&& final(ctx).refs.resolved(res.1) matches Some(ph) && ph == old(ctx).tree.spec_num_nodes() && final(ctx).tree.is_text_node(ph) && final(ctx).tree.text_of(ph) == Seq::<char>::empty()
                &&& res.0.node_ref == Some(res.1)
            },
            // with no ancestor the placeholder lands right before the hint
            (ancestor is None) ==> final(ctx).tree.children_of(parent)
                == crate::live::insert_before_spec(
                old(ctx).tree.children_of(parent),
                old(ctx).tree.spec_num_nodes() as LiveId,
                old(ctx).refs.resolved(next_sibling),
            ),
            // reuse: same declared type — the mounted instance is kept, the
            // new payload is forwarded as an update action, the reference
            // delegates to the ancestor's, and the live tree is untouched
            match ancestor {
                Some(VNode::VComp(ac)) => {
                    &&& (ac.type_id == self.type_id ==> {
                        &&& res.0.spec_instance() == ac.spec_instance()
                        &&& final(ctx).tree == old(ctx).tree
                        &&& final(ctx).sched.comp_queue(ComponentRunnableType::Update) == old(ctx).sched.comp_queue(ComponentRunnableType::Update).push(
                            LifeAction::Update {
                                component: (ac.spec_instance())->0,
                                props: (self.spec_props())->0,
                            },
                        )
                        &&& forall|k: ComponentRunnableType|
                            k != ComponentRunnableType::Update ==> final(ctx).sched.comp_queue(k)
                                == old(ctx).sched.comp_queue(k)
                        &&& final(ctx).sched.main_queue() == old(ctx).sched.main_queue()
                        &&& (ac.node_ref matches Some(ar) ==> {
                            // the ancestor's very cell is handed back, and a
                            // supplied cell now delegates to it
                            &&& res.1 == ar
                            &&& final(ctx).refs.resolved(res.1) == old(ctx).refs.resolved(ar)
                            &&& (match self.node_ref {
                                Some(r0) => !(old(ctx).refs.chain_reaches(ar, r0) || old(ctx).refs.chain_reaches(r0, ar)) ==> final(ctx).refs.link_of(r0) == Some(ar)
                                    && final(ctx).refs.resolved(r0) == old(ctx).refs.resolved(ar),
                                None => true,
                            })
                        })
                    })
                    // swap: a component ancestor of another type is destroyed
                    // — its destroy action is observably enqueued — and a
                    // fresh instance is created, with no update action
                    // forwarded to the old one
                    &&& (ac.type_id != self.type_id ==> {
                        &&& final(ctx).sched.comp_queue(ComponentRunnableType::Destroy) == old(ctx).sched.comp_queue(ComponentRunnableType::Destroy).push(
                            LifeAction::Destroy { component: (ac.spec_instance())->0 },
                        )
                        &&& res.0.spec_instance() == Some(old(ctx).next_instance)
                        &&& final(ctx).sched.comp_queue(ComponentRunnableType::Create) == old(ctx).sched.comp_queue(ComponentRunnableType::Create).push(
                            LifeAction::Create {
                                component: old(ctx).next_instance,
                                type_id: self.type_id,
                                props: (self.spec_props())->0,
                            },
                        )
                        &&& final(ctx).sched.comp_queue(ComponentRunnableType::Render) == old(ctx).sched.comp_queue(ComponentRunnableType::Render).push(
                            LifeAction::Render { component: old(ctx).next_instance },
                        )
                        &&& final(ctx).sched.comp_queue(ComponentRunnableType::Update) == old(ctx).sched.comp_queue(ComponentRunnableType::Update)
                        &&& final(ctx).sched.main_queue() == old(ctx).sched.main_queue()
                    })
                },
                _ => true,
            },
            // a fresh mount (no ancestor at all): create and render pushed,
            // nothing destroyed, nothing updated
            (ancestor is None) ==> {
                &&& res.0.spec_instance() == Some(old(ctx).next_instance)
                &&& final(ctx).sched.comp_queue(ComponentRunnableType::Create) == old(ctx).sched.comp_queue(ComponentRunnableType::Create).push(
                    LifeAction::Create {
                        component: old(ctx).next_instance,
                        type_id: self.type_id,
                        props: (self.spec_props())->0,
                    },
                )
                &&& final(ctx).sched.comp_queue(ComponentRunnableType::Render) == old(ctx).sched.comp_queue(ComponentRunnableType::Render).push(
                    LifeAction::Render { component: old(ctx).next_instance },
                )
                &&& final(ctx).sched.comp_queue(ComponentRunnableType::Destroy) == old(ctx).sched.comp_queue(ComponentRunnableType::Destroy)
                &&& final(ctx).sched.comp_queue(ComponentRunnableType::Update) == old(ctx).sched.comp_queue(ComponentRunnableType::Update)
                &&& final(ctx).sched.main_queue() == old(ctx).sched.main_queue()
            },
    {
        let mut this = self;
        let payload: u64 = match this.props {
            Some(p) => p,
            None => vstd::pervasive::unreached(),  // excluded by this function's requires
        };
        this.props = None;
        match ancestor {
            Some(anc) => match anc {
                VNode::VComp(ac) => {
                    if ac.type_id == this.type_id {
                        let inst: u64 = match ac.instance {
                            Some(i) => i,
                            None => vstd::pervasive::unreached(),  // the ancestor is mounted
                        };
                        ctx.sched.push_comp(
                            ComponentRunnableType::Update,
                            LifeAction::Update { component: inst, props: payload },
                        );
                        this.instance = Some(inst);
                        this.placeholder = ac.placeholder;
                        // delegate this node's reference to the ancestor's,
                        // which is the older cell, and hand the ancestor's
                        // reference back
                        match ac.node_ref {
                            Some(ar) => {
                                let own: NodeRef = match this.node_ref {
                                    Some(r) => r,
                                    None => ctx.refs.fresh(),
                                };
                                proof {
                                    assert(ctx.refs.node_of(ar) == old(ctx).refs.node_of(ar));
                                    assert(ctx.refs.resolved(ar) == old(ctx).refs.resolved(ar));
                                }
                                let ghost rpre = ctx.refs;
                                own.link(&mut ctx.refs, ar);
                                this.node_ref = Some(own);
                                proof {
                                    crate::live::lemma_prefix_refl(old(ctx).tree.spec_log());
                                    assert(ctx.tree == old(ctx).tree);
                                    assert forall|hr: NodeRef|
                                        hr.valid(&old(ctx).refs) && !(self.node_ref matches Some(
                                            r0,
                                        ) && r0 == hr) implies #[trigger] ctx.refs.node_of(hr)
                                        == old(ctx).refs.node_of(hr) && ctx.refs.link_of(hr)
                                        == old(ctx).refs.link_of(hr) by {
                                        assert(hr != own);
                                        NodeRef::lemma_id_injective(hr, own);
                                        assert(rpre.node_of(hr) == old(ctx).refs.node_of(hr)
                                            && rpre.link_of(hr) == old(ctx).refs.link_of(hr));
                                        assert(hr.valid(&ctx.refs));
                                    }
                                    if rpre.chain_reaches(ar, own) {
                                        assert(ctx.refs.node_of(ar) == rpre.node_of(ar));
                                        assert(ctx.refs.resolved(ar) == rpre.resolved(ar));
                                    } else {
                                        assert(ctx.refs.resolved(ar) == rpre.resolved(ar));
                                    }
                                }
                                return (this, ar);
                            },
                            None => {
                                let own: NodeRef = match this.node_ref {
                                    Some(r) => r,
                                    None => ctx.refs.fresh(),
                                };
                                this.node_ref = Some(own);
                                proof {
                                    crate::live::lemma_prefix_refl(old(ctx).tree.spec_log());
                                    assert forall|hr: NodeRef|
                                        hr.valid(&old(ctx).refs) && !(self.node_ref matches Some(
                                            r0,
                                        ) && r0 == hr) implies #[trigger] ctx.refs.node_of(hr)
                                        == old(ctx).refs.node_of(hr) && ctx.refs.link_of(hr)
                                        == old(ctx).refs.link_of(hr) by {}
                                }
                                return (this, own);
                            },
                        }
                    } else {
                        ac.detach(ctx, parent);
                    }
                },
                other => {
                    other.detach(ctx, parent);
                },
            },
            None => {},
        }
        // mount fresh: a placeholder text node marks the mount position
        let ghost mid = *ctx;
        let placeholder = ctx.tree.create_text(String::new());
        let ghost tcr = *ctx;
        let ghost log1 = ctx.tree.spec_log();
        let pos = next_sibling.get(&ctx.refs);
        proof {
            mid.tree.lemma_children_bounded(parent);
            assert(ctx.tree.node_unchanged(&mid.tree, parent));
            assert(!ctx.tree.children_of(parent).contains(placeholder)) by {
                if ctx.tree.children_of(parent).contains(placeholder) {
                    let j = choose|j: int|
                        0 <= j < ctx.tree.children_of(parent).len() && ctx.tree.children_of(
                            parent,
                        )[j] == placeholder;
                    assert(mid.tree.children_of(parent)[j] == placeholder);
                }
            }
            crate::live::lemma_push_prefix(
                mid.tree.spec_log(),
                LiveOp::CreatedText { node: placeholder },
            );
        }
        ctx.tree.insert_node(parent, placeholder, pos);
        let ghost mid2 = *ctx;
        proof {
            crate::live::lemma_push_prefix(
                log1,
                LiveOp::Inserted { parent, node: placeholder, before: pos },
            );
            crate::live::lemma_prefix_steps(mid.tree.spec_log(), log1, ctx.tree.spec_log());
            crate::live::lemma_prefix_steps(
                old(ctx).tree.spec_log(),
                mid.tree.spec_log(),
                ctx.tree.spec_log(),
            );
        }
        let nr: NodeRef = match this.node_ref {
            Some(r) => r,
            None => ctx.refs.fresh(),
        };
        let ghost rmid = ctx.refs;
        nr.set(&mut ctx.refs, Some(placeholder));
        this.node_ref = Some(nr);
        this.placeholder = Some(placeholder);
        proof {
            // nothing but the parent's children and fresh nodes was touched
            assert forall|o: LiveId|
                old(ctx).tree.valid(o) && o != parent && crate::v_node::opt_avoids(ancestor, o)
                    implies #[trigger] ctx.tree.node_unchanged(&old(ctx).tree, o) by {
                assert(mid.tree.node_state_unchanged(&old(ctx).tree, o));
                assert(mid.tree.children_of(o) == old(ctx).tree.children_of(o));
                assert(mid.tree.node_unchanged(&old(ctx).tree, o));
                assert(mid.tree.valid(o));
                assert(tcr.tree.node_unchanged(&mid.tree, o));
                assert(tcr.tree.valid(o));
                assert(ctx.tree.node_unchanged(&tcr.tree, o));
            }
            if crate::v_node::opt_avoids(ancestor, parent) {
                assert(mid.tree.node_state_unchanged(&old(ctx).tree, parent));
                assert(mid.tree.valid(parent));
                assert(tcr.tree.node_unchanged(&mid.tree, parent));
                assert(ctx.tree.node_state_unchanged(&tcr.tree, parent));
            }
            assert(ctx.tree.node_unchanged(&tcr.tree, placeholder));
            assert(ctx.tree.is_text_node(placeholder));
            assert(ctx.tree.text_of(placeholder) == Seq::<char>::empty());
            assert forall|hr: NodeRef|
                hr.valid(&old(ctx).refs) && !(self.node_ref matches Some(r0) && r0 == hr)
                    implies #[trigger] ctx.refs.node_of(hr) == old(ctx).refs.node_of(hr)
                    && ctx.refs.link_of(hr) == old(ctx).refs.link_of(hr) by {
                assert(hr != nr);
                NodeRef::lemma_id_injective(hr, nr);
                assert(rmid.node_of(hr) == old(ctx).refs.node_of(hr) && rmid.link_of(hr) == old(ctx).refs.link_of(hr));
                assert(hr.valid(&ctx.refs));
            }
            if ancestor is None {
                assert(mid.tree == old(ctx).tree);
                assert(ctx.tree.children_of(parent) == crate::live::insert_before_spec(
                    old(ctx).tree.children_of(parent),
                    placeholder,
                    pos,
                ));
                if old(ctx).refs.node_of(next_sibling) is None && old(ctx).refs.link_of(
                    next_sibling,
                ) is None {
                    old(ctx).refs.lemma_unresolved(next_sibling);
                    assert(crate::live::insert_before_spec(
                        old(ctx).tree.children_of(parent),
                        placeholder,
                        pos,
                    ) =~= old(ctx).tree.children_of(parent).push(placeholder));
                }
            }
        }
        let inst = ctx.fresh_instance();
        this.instance = Some(inst);
        ctx.sched.push_comp(
            ComponentRunnableType::Create,
            LifeAction::Create { component: inst, type_id: this.type_id, props: payload },
        );
        ctx.sched.push_comp(
            ComponentRunnableType::Render,
            LifeAction::Render { component: inst },
        );
        (this, nr)
    }
}

/// A virtual child component, carrying typed properties for its parent to
/// inspect or transform before rendering.
pub struct VChild<C: Component> {
    /// The component properties.
    pub props: C::Props,
    /// The reference cell for the mounted node.
    pub node_ref: Option<NodeRef>,
    /// The correlation key.
    pub key: Option<String>,
}

impl<C: Component> VChild<C> {
    /// Create a child component that its parent can access and modify.
    pub fn new(props: C::Props, node_ref: Option<NodeRef>, key: Option<String>) -> (r: Self)
        ensures
            r.node_ref == node_ref,
            r.key == key,
    {
        Self { props, node_ref, key }
    }
}

/// The property payload a component mounts from, held until the mount or the
/// reuse consumes it.
pub struct PropsWrapper<C: Component> {
    props: C::Props,
}

impl<C: Component> PropsWrapper<C> {
    /// Wrap a property payload.
    pub fn new(props: C::Props) -> Self {
        Self { props }
    }

    /// Hand the wrapped payload out, consuming the wrapper.
    pub fn into_props(self) -> C::Props {
        self.props
    }
}

} // verus!
