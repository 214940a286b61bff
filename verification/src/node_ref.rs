//! Shared references to live nodes.
//!
//! A [`NodeRef`] is a handle to a cell in a [`NodeRefTable`]. A cell holds
//! either a live node, a link to another reference (delegation, used when a
//! component's root changes identity while callers keep the outer reference),
//! or nothing (unresolved). Handles are freely copied; all copies name the
//! same cell.
//!
//! Links never form a cycle: `link` silently refuses a target that is
//! already equal to the cell being linked via the link relation — the same
//! cell, or either one's chain of links reaching the other — so resolution
//! always terminates. The table carries a ghost rank that decreases along
//! every link as the witness of acyclicity.

use crate::live::LiveId;
use vstd::prelude::*;

verus! {

/// A handle to one reference cell. Copies are identical handles; equality of
/// handles is cell identity, and [`NodeRef::same_as`] is the wider relation
/// over delegation.
#[derive(Clone, Copy, PartialEq, Eq, Structural, Debug)]
pub struct NodeRef {
    id: usize,
}

/// One reference cell: a resolved live node, a link to another cell, or
/// neither. `set` clears any link and `link` clears any node, so at most one
/// side is present.
struct NodeRefCell {
    node: Option<LiveId>,
    link: Option<NodeRef>,
}

/// The table of reference cells for one execution context, with the ghost
/// rank witnessing that links never cycle.
pub struct NodeRefTable {
    cells: Vec<NodeRefCell>,
    rank: Ghost<Map<int, nat>>,
}

impl NodeRef {
    /// The index of the cell this handle names; cells are numbered in
    /// creation order.
    pub closed spec fn spec_id(self) -> int {
        self.id as int
    }

    /// The handle names a cell of `refs`.
    pub open spec fn valid(self, refs: &NodeRefTable) -> bool {
        0 <= self.spec_id() < refs.spec_len()
    }

    /// Handles are equal exactly when they name the same cell.
    pub proof fn lemma_id_injective(a: NodeRef, b: NodeRef)
        ensures
            (a == b) <==> (a.spec_id() == b.spec_id()),
    {
    }
}

impl NodeRefTable {
    /// How many cells have been created.
    pub closed spec fn spec_len(&self) -> int {
        self.cells@.len() as int
    }

    /// The live node the cell of `r` holds directly, if any.
    pub closed spec fn node_of(&self, r: NodeRef) -> Option<LiveId> {
        self.cells@[r.spec_id()].node
    }

    /// The reference the cell of `r` delegates to, if any.
    pub closed spec fn link_of(&self, r: NodeRef) -> Option<NodeRef> {
        self.cells@[r.spec_id()].link
    }

    /// The ghost rank of a cell: the acyclicity witness that strictly
    /// decreases along every link.
    pub closed spec fn spec_rank(&self, i: int) -> nat {
        self.rank@[i]
    }

    /// Every link points to an existing cell of strictly smaller rank: no
    /// chain of links can cycle, so resolution terminates.
    pub closed spec fn wf(&self) -> bool {
        forall|i: int|
            0 <= i < self.cells@.len() ==> ((#[trigger] self.cells@[i].link) matches Some(l) ==> 0
                <= l.spec_id() < self.cells@.len() && self.rank@[l.spec_id()] < self.rank@[i])
    }

    /// The chain of links starting at `from` reaches the cell of `target`.
    /// This is the resolves-to-same relation that the no-cycle guard of
    /// [`NodeRef::link`] and reference equality are built on.
    pub closed spec fn chain_reaches(&self, from: NodeRef, target: NodeRef) -> bool
        decreases self.spec_rank(from.spec_id()),
    {
        if from.spec_id() == target.spec_id() {
            true
        } else if 0 <= from.spec_id() < self.cells@.len() {
            match self.cells@[from.spec_id()].link {
                Some(l) => 0 <= l.spec_id() < self.cells@.len() && self.rank@[l.spec_id()]
                    < self.rank@[from.spec_id()] && self.chain_reaches(l, target),
                None => false,
            }
        } else {
            false
        }
    }

    /// What `r` resolves to: its own node, or whatever the cell it delegates
    /// to resolves to.
    pub closed spec fn resolved(&self, r: NodeRef) -> Option<LiveId>
        decreases self.spec_rank(r.spec_id()),
    {
        if 0 <= r.spec_id() < self.cells@.len() {
            match self.cells@[r.spec_id()].node {
                Some(n) => Some(n),
                None => match self.cells@[r.spec_id()].link {
                    Some(l) => if 0 <= l.spec_id() < self.cells@.len() && self.rank@[l.spec_id()]
                        < self.rank@[r.spec_id()] {
                        self.resolved(l)
                    } else {
                        None
                    },
                    None => None,
                },
            }
        } else {
            None
        }
    }

    /// Two tables that agree on their cells and ranks resolve and reach the
    /// same way for `r`.
    proof fn lemma_same_cells(t1: &NodeRefTable, t2: &NodeRefTable, r: NodeRef, target: NodeRef)
        requires
            t1.wf(),
            t1.cells@.len() <= t2.cells@.len(),
            forall|o: NodeRef|
                0 <= o.spec_id() < t1.cells@.len() ==> #[trigger] t1.node_of(o) == t2.node_of(o)
                    && t1.link_of(o) == t2.link_of(o) && t1.rank@[o.spec_id()] == t2.rank@[o.spec_id()],
            0 <= r.spec_id() < t1.cells@.len(),
        ensures
            t1.resolved(r) == t2.resolved(r),
            t1.chain_reaches(r, target) ==> t2.chain_reaches(r, target),
        decreases t1.rank@[r.spec_id()],
    {
        assert(t1.node_of(r) == t2.node_of(r));
        assert(t1.link_of(r) == t2.link_of(r));
        assert(t1.rank@[r.spec_id()] == t2.rank@[r.spec_id()]);
        match t1.cells@[r.spec_id()].link {
            Some(l) => {
                assert(0 <= l.spec_id() < t1.cells@.len() && t1.rank@[l.spec_id()]
                    < t1.rank@[r.spec_id()]);
                assert(t1.node_of(l) == t2.node_of(l));
                assert(t1.rank@[l.spec_id()] == t2.rank@[l.spec_id()]);
                Self::lemma_same_cells(t1, t2, l, target);
            },
            None => {},
        }
    }

    /// A cell that only delegates resolves exactly as its target does — now
    /// and after any later change to the target, as long as the table stays
    /// well formed.
    pub proof fn lemma_linked_resolution(&self, r: NodeRef, o: NodeRef)
        requires
            self.wf(),
            r.valid(self),
            self.node_of(r) is None,
            self.link_of(r) == Some(o),
        ensures
            self.resolved(r) == self.resolved(o),
    {
        assert(0 <= o.spec_id() < self.cells@.len() && self.rank@[o.spec_id()]
            < self.rank@[r.spec_id()]);
    }

    /// A cell holding neither a node nor a link resolves to nothing,
    /// whatever the rest of the table holds.
    pub proof fn lemma_unresolved(&self, r: NodeRef)
        requires
            r.valid(self),
            self.node_of(r) is None,
            self.link_of(r) is None,
        ensures
            self.resolved(r) is None,
    {
    }

    /// An empty table.
    pub fn new() -> (t: NodeRefTable)
        ensures
            t.wf(),
            t.spec_len() == 0,
    {
        NodeRefTable { cells: Vec::new(), rank: Ghost(Map::new(|i: int| true, |i: int| 0nat)) }
    }

    /// A fresh, unresolved reference: the cell holds neither a node nor a
    /// link.
    pub fn fresh(&mut self) -> (r: NodeRef)
        requires
            old(self).wf(),
        ensures
            final(self).wf(),
            final(self).spec_len() == old(self).spec_len() + 1,
            r.valid(final(self)),
            r.spec_id() == old(self).spec_len(),
            final(self).node_of(r) is None,
            final(self).link_of(r) is None,
            final(self).resolved(r) is None,
            forall|o: NodeRef|
                o.valid(old(self)) ==> #[trigger] final(self).node_of(o) == old(self).node_of(o)
                    && final(self).link_of(o) == old(self).link_of(o) && final(self).resolved(o)
                    == old(self).resolved(o),
    {
        let id = self.cells.len();
        self.cells.push(NodeRefCell { node: None, link: None });
        proof {
            self.rank@ = self.rank@.insert(id as int, 0nat);
        }
        let r = NodeRef { id };
        proof {
            assert forall|o: NodeRef| o.valid(old(self)) implies #[trigger] self.node_of(o) == old(
                self,
            ).node_of(o) && self.link_of(o) == old(self).link_of(o) && self.resolved(o) == old(
                self,
            ).resolved(o) by {
                Self::lemma_same_cells(old(self), self, o, o);
            }
        }
        r
    }
}

impl NodeRef {
    /// The resolved live node, if any: this cell's own node, or — following
    /// the chain of links — the first node found.
    pub fn get(self, refs: &NodeRefTable) -> (r: Option<LiveId>)
        requires
            refs.wf(),
            self.valid(refs),
        ensures
            r == refs.resolved(self),
        decreases refs.spec_rank(self.spec_id()),
    {
        let cell = &refs.cells[self.id];
        match cell.node {
            Some(n) => Some(n),
            None => match cell.link {
                Some(l) => l.get(refs),
                None => None,
            },
        }
    }

    /// Whether this handle and `other` are equal as references: the same
    /// cell, or either one delegating — directly or through further links —
    /// to the other.
    pub fn same_as(self, other: NodeRef, refs: &NodeRefTable) -> (r: bool)
        requires
            refs.wf(),
            self.valid(refs),
            other.valid(refs),
        ensures
            r == (refs.chain_reaches(other, self) || refs.chain_reaches(self, other)),
    {
        reaches(refs, other, self) || reaches(refs, self, other)
    }

    /// Make this reference resolve directly to `node` (or to nothing),
    /// clearing any link.
    pub fn set(self, refs: &mut NodeRefTable, node: Option<LiveId>)
        requires
            old(refs).wf(),
            self.valid(old(refs)),
        ensures
            final(refs).wf(),
            final(refs).spec_len() == old(refs).spec_len(),
            final(refs).node_of(self) == node,
            final(refs).link_of(self) is None,
            final(refs).resolved(self) == node,
            forall|o: NodeRef|
                o.valid(final(refs)) && o.spec_id() != self.spec_id() ==> #[trigger] final(refs).node_of(o) == old(refs).node_of(o) && final(refs).link_of(o) == old(refs).link_of(o),
            forall|o: NodeRef|
                o.valid(final(refs)) && !old(refs).chain_reaches(o, self)
                    ==> #[trigger] final(refs).resolved(o) == old(refs).resolved(o),
    {
        let cell = &mut refs.cells[self.id];
        cell.node = node;
        cell.link = None;
        proof {
            assert forall|o: NodeRef|
                o.valid(refs) && !old(refs).chain_reaches(o, self) implies #[trigger] refs.resolved(
                o,
            ) == old(refs).resolved(o) by {
                NodeRefTable::lemma_store_frame(old(refs), refs, self, o);
            }
        }
    }

    /// Make this reference delegate to `other`. A target already equal to
    /// this reference via the link relation — the same cell, or either one's
    /// chain reaching the other — is refused as a silent no-op; the guard is
    /// what keeps links acyclic.
    pub fn link(self, refs: &mut NodeRefTable, other: NodeRef)
        requires
            old(refs).wf(),
            self.valid(old(refs)),
            other.valid(old(refs)),
        ensures
            final(refs).wf(),
            final(refs).spec_len() == old(refs).spec_len(),
            // the accepted case: the cell now delegates to `other`
            !(old(refs).chain_reaches(other, self) || old(refs).chain_reaches(self, other)) ==> {
                &&& final(refs).link_of(self) == Some(other)
                &&& final(refs).node_of(self) is None
                &&& final(refs).resolved(self) == old(refs).resolved(other)
            },
            // the refused case — the references already equal, a self-link
            // included: nothing changes
            (old(refs).chain_reaches(other, self) || old(refs).chain_reaches(self, other))
                ==> forall|o: NodeRef|
                o.valid(final(refs)) ==> #[trigger] final(refs).node_of(o) == old(refs).node_of(o)
                    && final(refs).link_of(o) == old(refs).link_of(o) && final(refs).resolved(o)
                    == old(refs).resolved(o),
            forall|o: NodeRef|
                o.valid(final(refs)) && o.spec_id() != self.spec_id() ==> #[trigger] final(refs).node_of(o) == old(refs).node_of(o) && final(refs).link_of(o) == old(refs).link_of(o),
            forall|o: NodeRef|
                o.valid(final(refs)) && !old(refs).chain_reaches(o, self)
                    ==> #[trigger] final(refs).resolved(o) == old(refs).resolved(o),
    {
        if reaches(refs, other, self) || reaches(refs, self, other) {
            return ;
        }
        let ghost pre = *refs;
        let cell = &mut refs.cells[self.id];
        cell.node = None;
        cell.link = Some(other);
        proof {
            // lift every cell that reaches this one above the target's rank,
            // so ranks still decrease along every link
            let k = pre.rank@[other.spec_id()] + 1;
            refs.rank@ = Map::new(
                |i: int| true,
                |i: int|
                    if 0 <= i < pre.cells@.len() && pre.chain_reaches(
                        NodeRef { id: i as usize },
                        self,
                    ) {
                        (pre.rank@[i] + k) as nat
                    } else {
                        pre.rank@[i]
                    },
            );
            assert(pre.chain_reaches(self, self));
            assert(refs.rank@[self.spec_id()] == pre.rank@[self.spec_id()] + k);
            assert(refs.rank@[other.spec_id()] == pre.rank@[other.spec_id()]);
            assert forall|i: int|
                0 <= i < refs.cells@.len() implies ((#[trigger] refs.cells@[i].link) matches Some(
                l,
            ) ==> 0 <= l.spec_id() < refs.cells@.len() && refs.rank@[l.spec_id()]
                < refs.rank@[i]) by {
                match refs.cells@[i].link {
                    Some(l) => {
                        if i == self.spec_id() {
                        } else {
                            assert(pre.cells@[i].link == Some(l));
                            vstd::std_specs::vec::axiom_spec_len(&pre.cells);
                            assert(NodeRef { id: i as usize }.spec_id() == i);
                            if pre.chain_reaches(l, self) {
                                assert(pre.chain_reaches(NodeRef { id: i as usize }, self));
                            } else {
                                if pre.chain_reaches(NodeRef { id: i as usize }, self) {
                                    assert(pre.chain_reaches(l, self));
                                }
                            }
                        }
                    },
                    None => {},
                }
            }
            assert forall|o: NodeRef|
                o.valid(refs) && !pre.chain_reaches(o, self) implies #[trigger] refs.resolved(o)
                    == pre.resolved(o) by {
                NodeRefTable::lemma_link_frame(&pre, refs, self, o);
            }
            assert(!pre.chain_reaches(other, self));
            assert(refs.resolved(self) == refs.resolved(other));
        }
    }
}

impl NodeRefTable {
    /// After the cell of `a` was overwritten with no link, every reference
    /// whose old chain avoided `a` resolves as before.
    proof fn lemma_store_frame(pre: &NodeRefTable, post: &NodeRefTable, a: NodeRef, o: NodeRef)
        requires
            pre.wf(),
            pre.cells@.len() == post.cells@.len(),
            post.rank@ == pre.rank@,
            forall|q: NodeRef|
                0 <= q.spec_id() < pre.cells@.len() && q.spec_id() != a.spec_id()
                    ==> #[trigger] post.node_of(q) == pre.node_of(q) && post.link_of(q)
                    == pre.link_of(q),
            0 <= o.spec_id() < pre.cells@.len(),
            !pre.chain_reaches(o, a),
        ensures
            post.resolved(o) == pre.resolved(o),
        decreases pre.rank@[o.spec_id()],
    {
        assert(o.spec_id() != a.spec_id());
        assert(post.node_of(o) == pre.node_of(o));
        assert(post.link_of(o) == pre.link_of(o));
        match pre.cells@[o.spec_id()].link {
            Some(l) => {
                if 0 <= l.spec_id() < pre.cells@.len() && pre.rank@[l.spec_id()]
                    < pre.rank@[o.spec_id()] {
                    assert(!pre.chain_reaches(l, a));
                    Self::lemma_store_frame(pre, post, a, l);
                }
            },
            None => {},
        }
    }

    /// After the cell of `a` was relinked and the ranks lifted, every
    /// reference whose old chain avoided `a` resolves as before.
    proof fn lemma_link_frame(pre: &NodeRefTable, post: &NodeRefTable, a: NodeRef, o: NodeRef)
        requires
            pre.wf(),
            pre.cells@.len() == post.cells@.len(),
            forall|q: NodeRef|
                0 <= q.spec_id() < pre.cells@.len() && q.spec_id() != a.spec_id()
                    ==> #[trigger] post.node_of(q) == pre.node_of(q) && post.link_of(q)
                    == pre.link_of(q),
            forall|i: int|
                0 <= i < pre.cells@.len() && !pre.chain_reaches(NodeRef { id: i as usize }, a)
                    ==> #[trigger] post.rank@[i] == pre.rank@[i],
            0 <= o.spec_id() < pre.cells@.len(),
            !pre.chain_reaches(o, a),
        ensures
            post.resolved(o) == pre.resolved(o),
        decreases pre.rank@[o.spec_id()],
    {
        assert(o.spec_id() != a.spec_id());
        assert(post.node_of(o) == pre.node_of(o));
        assert(post.link_of(o) == pre.link_of(o));
        assert(post.rank@[o.spec_id()] == pre.rank@[o.spec_id()]) by {
            assert(NodeRef { id: o.spec_id() as usize } == o);
        }
        match pre.cells@[o.spec_id()].link {
            Some(l) => {
                if 0 <= l.spec_id() < pre.cells@.len() && pre.rank@[l.spec_id()]
                    < pre.rank@[o.spec_id()] {
                    assert(!pre.chain_reaches(l, a));
                    assert(post.rank@[l.spec_id()] == pre.rank@[l.spec_id()]) by {
                        assert(NodeRef { id: l.spec_id() as usize } == l);
                    }
                    Self::lemma_link_frame(pre, post, a, l);
                }
            },
            None => {},
        }
    }
}

/// Walk the chain of links from `from`, reporting whether it reaches the
/// cell of `target`.
fn reaches(refs: &NodeRefTable, from: NodeRef, target: NodeRef) -> (r: bool)
    requires
        refs.wf(),
        from.valid(refs),
    ensures
        r == refs.chain_reaches(from, target),
    decreases refs.spec_rank(from.spec_id()),
{
    if from.id == target.id {
        return true;
    }
    let cell = &refs.cells[from.id];
    match cell.link {
        Some(l) => reaches(refs, l, target),
        None => false,
    }
}

} // verus!
