//! The mount context the diff engine works in: the live tree being mutated,
//! the table of node references, the lifecycle scheduler fed by the engine,
//! and the supply of fresh component instance identities.

use crate::live::LiveTree;
use crate::node_ref::NodeRefTable;
use crate::scheduler::Scheduler;
use vstd::prelude::*;

verus! {

/// One component lifecycle action, pushed onto the scheduler by the diff
/// engine as it discovers work: mount a fresh instance, forward new
/// properties into a mounted one, re-render one, or tear one down.
#[derive(Clone, Copy, PartialEq, Eq, Structural, Debug)]
pub enum LifeAction {
    /// Create the instance for a component of the given type, consuming the
    /// given property payload.
    Create { component: u64, type_id: u64, props: u64 },
    /// Forward a new property payload into the mounted instance.
    Update { component: u64, props: u64 },
    /// Re-render the mounted instance.
    Render { component: u64 },
    /// Tear the mounted instance down.
    Destroy { component: u64 },
}

/// Everything one mount point works against.
pub struct DomContext {
    /// The live tree the engine mutates.
    pub tree: LiveTree,
    /// The reference cells handed out for live nodes.
    pub refs: NodeRefTable,
    /// The lifecycle scheduler the engine pushes discovered work onto.
    pub sched: Scheduler<LifeAction>,
    /// The next unused component instance identity.
    pub next_instance: u64,
}

impl DomContext {
    /// The tree and the reference table are well formed.
    pub open spec fn wf(&self) -> bool {
        &&& self.tree.wf()
        &&& self.refs.wf()
    }

    /// A fresh context: empty tree, no references, an idle scheduler.
    pub fn new() -> (ctx: DomContext)
        ensures
            ctx.wf(),
            ctx.tree.spec_num_nodes() == 0,
            ctx.refs.spec_len() == 0,
            !ctx.sched.locked(),
            ctx.sched.pending() == Seq::<LifeAction>::empty(),
            ctx.next_instance == 0,
    {
        DomContext {
            tree: LiveTree::new(),
            refs: NodeRefTable::new(),
            sched: Scheduler::new(),
            next_instance: 0,
        }
    }

    /// Hand out the next component instance identity. Identities stop
    /// advancing at the numeric ceiling, which no run ever reaches.
    pub fn fresh_instance(&mut self) -> (id: u64)
        ensures
            id == old(self).next_instance,
            final(self).next_instance == (if old(self).next_instance < u64::MAX {
                old(self).next_instance + 1
            } else {
                old(self).next_instance as int
            }),
            final(self).tree == old(self).tree,
            final(self).refs == old(self).refs,
            final(self).sched == old(self).sched,
    {
        let id = self.next_instance;
        if id < u64::MAX {
            self.next_instance = id + 1;
        }
        id
    }
}

/// The later context keeps every node and every reference cell of the
/// earlier one.
pub open spec fn ctx_extends(post: &DomContext, pre: &DomContext) -> bool {
    &&& crate::live::tree_extends(&post.tree, &pre.tree)
    &&& post.refs.spec_len() >= pre.refs.spec_len()
}

/// Context extension is transitive.
pub proof fn lemma_ctx_extends_trans(a: &DomContext, b: &DomContext, c: &DomContext)
    requires
        ctx_extends(b, a),
        ctx_extends(c, b),
    ensures
        ctx_extends(c, a),
{
    crate::live::lemma_tree_extends_trans(&a.tree, &b.tree, &c.tree);
}

} // verus!
