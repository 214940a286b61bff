//! The live node tree: the model of the rendered document that the diff
//! engine mutates, together with the log of every mutation applied to it.
//!
//! The tree offers exactly the primitives the engine needs from its host:
//! create an element or a text node, insert a node before a sibling or at the
//! tail, remove a node, set or remove an attribute, write the `value`, `kind`
//! and `checked` control state, rewrite text content, and attach or release
//! listeners. Every mutation is appended to the log, so a caller can replay
//! the tree's history elsewhere — and contracts can state not only where the
//! tree ended up but also which writes were performed to get there.

use crate::attrs::AttrMap;
use vstd::prelude::*;

verus! {

/// The identity of one live node; nodes are numbered in creation order and
/// keep their identity for the whole life of the tree.
pub type LiveId = usize;

/// One mutation applied to the live tree, in the order applied.
#[derive(Clone, PartialEq, Eq, Debug)]
pub enum LiveOp {
    CreatedElement { node: LiveId },
    CreatedText { node: LiveId },
    Inserted { parent: LiveId, node: LiveId, before: Option<LiveId> },
    Removed { parent: LiveId, node: LiveId },
    SetAttribute { node: LiveId, name: String, value: String },
    RemovedAttribute { node: LiveId, name: String },
    SetValue { node: LiveId, value: String },
    SetKind { node: LiveId, kind: String },
    SetChecked { node: LiveId, checked: bool },
    SetText { node: LiveId, content: String },
    AttachedListener { node: LiveId, listener: u64 },
    ClearedListeners { node: LiveId },
}

/// One live node. A text node uses `content`; an element uses the rest. The
/// unused side stays empty.
struct LiveNode {
    is_text: bool,
    tag: String,
    svg: bool,
    attrs: AttrMap,
    value: String,
    kind: String,
    checked: bool,
    listeners: Vec<u64>,
    content: String,
    children: Vec<LiveId>,
}

/// The live tree: an arena of nodes plus the mutation log.
pub struct LiveTree {
    nodes: Vec<LiveNode>,
    ops: Vec<LiveOp>,
}

/// Where `node` lands in a sibling list: right before the first occurrence of
/// the requested sibling, or at the tail when no sibling was requested or the
/// requested one is not there.
pub open spec fn insert_before_spec(s: Seq<LiveId>, node: LiveId, before: Option<LiveId>) -> Seq<
    LiveId,
> {
    match before {
        Some(b) => match s.index_of_first(b) {
            Some(i) => s.insert(i, node),
            None => s.push(node),
        },
        None => s.push(node),
    }
}

/// The later tree keeps every node of the earlier one, with its text-or-
/// element shape; new nodes may have been created after them.
pub open spec fn tree_extends(post: &LiveTree, pre: &LiveTree) -> bool {
    &&& post.spec_num_nodes() >= pre.spec_num_nodes()
    &&& forall|id: LiveId| pre.valid(id) ==> post.is_text_node(id) == pre.is_text_node(id)
}

/// Tree extension is transitive.
pub proof fn lemma_tree_extends_trans(a: &LiveTree, b: &LiveTree, c: &LiveTree)
    requires
        tree_extends(b, a),
        tree_extends(c, b),
    ensures
        tree_extends(c, a),
{
    assert forall|id: LiveId| a.valid(id) implies c.is_text_node(id) == a.is_text_node(id) by {
        assert(b.is_text_node(id) == a.is_text_node(id));
        assert(b.valid(id));
        assert(c.is_text_node(id) == b.is_text_node(id));
    }
}

impl LiveTree {
    /// How many nodes have been created.
    pub closed spec fn spec_num_nodes(&self) -> int {
        self.nodes@.len() as int
    }

    /// `id` names a node of this tree.
    pub open spec fn valid(&self, id: LiveId) -> bool {
        0 <= id < self.spec_num_nodes()
    }

    /// The node is a text node (otherwise it is an element).
    pub closed spec fn is_text_node(&self, id: LiveId) -> bool {
        self.nodes@[id as int].is_text
    }

    /// The node is an element.
    pub open spec fn is_element(&self, id: LiveId) -> bool {
        self.valid(id) && !self.is_text_node(id)
    }

    /// The element's tag name.
    pub closed spec fn tag_of(&self, id: LiveId) -> Seq<char> {
        self.nodes@[id as int].tag@
    }

    /// Whether the element lives in the vector-graphics namespace.
    pub closed spec fn svg_of(&self, id: LiveId) -> bool {
        self.nodes@[id as int].svg
    }

    /// The element's attributes.
    pub closed spec fn attrs_of(&self, id: LiveId) -> Map<Seq<char>, Seq<char>> {
        self.nodes@[id as int].attrs@
    }

    /// The element's current `value` control state.
    pub closed spec fn value_of(&self, id: LiveId) -> Seq<char> {
        self.nodes@[id as int].value@
    }

    /// The element's current `kind` (input type) control state.
    pub closed spec fn kind_of(&self, id: LiveId) -> Seq<char> {
        self.nodes@[id as int].kind@
    }

    /// The element's current `checked` control state.
    pub closed spec fn checked_of(&self, id: LiveId) -> bool {
        self.nodes@[id as int].checked
    }

    /// The listener handles attached to the element, oldest first.
    pub closed spec fn listeners_of(&self, id: LiveId) -> Seq<u64> {
        self.nodes@[id as int].listeners@
    }

    /// The text node's content.
    pub closed spec fn text_of(&self, id: LiveId) -> Seq<char> {
        self.nodes@[id as int].content@
    }

    /// The node's children, in sibling order.
    pub closed spec fn children_of(&self, id: LiveId) -> Seq<LiveId> {
        self.nodes@[id as int].children@
    }

    /// Every mutation applied so far, oldest first.
    pub closed spec fn spec_log(&self) -> Seq<LiveOp> {
        self.ops@
    }

    /// Attribute maps are well formed, and children lists hold distinct,
    /// existing nodes.
    pub closed spec fn wf(&self) -> bool {
        forall|i: int|
            0 <= i < self.nodes@.len() ==> {
                &&& (#[trigger] self.nodes@[i]).attrs.wf()
                &&& self.nodes@[i].children@.no_duplicates()
                &&& forall|j: int|
                    0 <= j < self.nodes@[i].children@.len() ==> (
                    #[trigger] self.nodes@[i].children@[j]) < self.nodes@.len()
            }
    }

    /// A node's children are distinct and all exist.
    pub proof fn lemma_children_bounded(&self, id: LiveId)
        requires
            self.wf(),
            self.valid(id),
        ensures
            self.children_of(id).no_duplicates(),
            forall|j: int|
                0 <= j < self.children_of(id).len() ==> (#[trigger] self.children_of(id)[j])
                    < self.spec_num_nodes(),
    {
    }

    /// Nothing about the node `o` differs between `pre` and `self`.
    pub open spec fn node_unchanged(&self, pre: &LiveTree, o: LiveId) -> bool {
        &&& self.is_text_node(o) == pre.is_text_node(o)
        &&& self.tag_of(o) == pre.tag_of(o)
        &&& self.svg_of(o) == pre.svg_of(o)
        &&& self.attrs_of(o) == pre.attrs_of(o)
        &&& self.value_of(o) == pre.value_of(o)
        &&& self.kind_of(o) == pre.kind_of(o)
        &&& self.checked_of(o) == pre.checked_of(o)
        &&& self.listeners_of(o) == pre.listeners_of(o)
        &&& self.text_of(o) == pre.text_of(o)
        &&& self.children_of(o) == pre.children_of(o)
    }

    /// Everything about the node `o` except its children list is the same.
    pub open spec fn node_state_unchanged(&self, pre: &LiveTree, o: LiveId) -> bool {
        &&& self.is_text_node(o) == pre.is_text_node(o)
        &&& self.tag_of(o) == pre.tag_of(o)
        &&& self.svg_of(o) == pre.svg_of(o)
        &&& self.attrs_of(o) == pre.attrs_of(o)
        &&& self.value_of(o) == pre.value_of(o)
        &&& self.kind_of(o) == pre.kind_of(o)
        &&& self.checked_of(o) == pre.checked_of(o)
        &&& self.listeners_of(o) == pre.listeners_of(o)
        &&& self.text_of(o) == pre.text_of(o)
    }

    /// An empty tree with an empty log.
    pub fn new() -> (t: LiveTree)
        ensures
            t.wf(),
            t.spec_num_nodes() == 0,
            t.spec_log() == Seq::<LiveOp>::empty(),
    {
        LiveTree { nodes: Vec::new(), ops: Vec::new() }
    }

    /// The number of nodes created so far.
    pub fn num_nodes(&self) -> (n: usize)
        ensures
            n == self.spec_num_nodes(),
    {
        self.nodes.len()
    }

    /// Create a detached element with the given tag, empty attributes, empty
    /// control state and no children.
    pub fn create_element(&mut self, tag: String, svg: bool) -> (id: LiveId)
        requires
            old(self).wf(),
        ensures
            final(self).wf(),
            tree_extends(final(self), old(self)),
            id == old(self).spec_num_nodes(),
            final(self).spec_num_nodes() == old(self).spec_num_nodes() + 1,
            final(self).is_element(id),
            !final(self).is_text_node(id),
            final(self).tag_of(id) == tag@,
            final(self).svg_of(id) == svg,
            final(self).attrs_of(id) == Map::<Seq<char>, Seq<char>>::empty(),
            final(self).value_of(id) == Seq::<char>::empty(),
            final(self).kind_of(id) == Seq::<char>::empty(),
            final(self).checked_of(id) == false,
            final(self).listeners_of(id) == Seq::<u64>::empty(),
            final(self).children_of(id) == Seq::<LiveId>::empty(),
            forall|o: LiveId| old(self).valid(o) ==> #[trigger] final(self).node_unchanged(old(self), o),
            final(self).spec_log() == old(self).spec_log().push(LiveOp::CreatedElement { node: id }),
    {
        let id = self.nodes.len();
        self.nodes.push(
            LiveNode {
                is_text: false,
                tag,
                svg,
                attrs: AttrMap::new(),
                value: String::new(),
                kind: String::new(),
                checked: false,
                listeners: Vec::new(),
                content: String::new(),
                children: Vec::new(),
            },
        );
        self.ops.push(LiveOp::CreatedElement { node: id });
        id
    }

    /// Create a detached text node with the given content.
    pub fn create_text(&mut self, content: String) -> (id: LiveId)
        requires
            old(self).wf(),
        ensures
            final(self).wf(),
            tree_extends(final(self), old(self)),
            id == old(self).spec_num_nodes(),
            final(self).spec_num_nodes() == old(self).spec_num_nodes() + 1,
            final(self).is_text_node(id),
            final(self).text_of(id) == content@,
            final(self).children_of(id) == Seq::<LiveId>::empty(),
            forall|o: LiveId| old(self).valid(o) ==> #[trigger] final(self).node_unchanged(old(self), o),
            final(self).spec_log() == old(self).spec_log().push(LiveOp::CreatedText { node: id }),
    {
        let id = self.nodes.len();
        self.nodes.push(
            LiveNode {
                is_text: true,
                tag: String::new(),
                svg: false,
                attrs: AttrMap::new(),
                value: String::new(),
                kind: String::new(),
                checked: false,
                listeners: Vec::new(),
                content,
                children: Vec::new(),
            },
        );
        self.ops.push(LiveOp::CreatedText { node: id });
        id
    }

    /// Insert `node` among the children of `parent`: right before `before`
    /// when that sibling is present, at the tail otherwise.
    pub fn insert_node(&mut self, parent: LiveId, node: LiveId, before: Option<LiveId>)
        requires
            old(self).wf(),
            old(self).is_element(parent),
            old(self).valid(node),
            !old(self).children_of(parent).contains(node),
        ensures
            final(self).wf(),
            tree_extends(final(self), old(self)),
            final(self).spec_num_nodes() == old(self).spec_num_nodes(),
            final(self).children_of(parent) == insert_before_spec(
                old(self).children_of(parent),
                node,
                before,
            ),
            final(self).node_state_unchanged(old(self), parent),
            forall|o: LiveId|
                old(self).valid(o) && o != parent ==> #[trigger] final(self).node_unchanged(old(self), o),
            final(self).spec_log() == old(self).spec_log().push(
                LiveOp::Inserted { parent, node, before },
            ),
    {
        let ghost pre = *self;
        let done: bool = match before {
            Some(b) => {
                let n = self.nodes[parent].children.len();
                let mut i: usize = 0;
                let mut found: bool = false;
                while i < n && !found
                    invariant
                        *self == pre,
                        pre == *old(self),
                        pre.wf(),
                        pre.is_element(parent),
                        i <= n,
                        n == self.nodes@[parent as int].children@.len(),
                        !found ==> forall|j: int|
                            0 <= j < i ==> (#[trigger] self.nodes@[parent as int].children@[j]) != b,
                        found ==> i < n && self.nodes@[parent as int].children@[i as int] == b,
                    decreases n - i + (if found { 0int } else { 1int }),
                {
                    if self.nodes[parent].children[i] == b {
                        found = true;
                    } else {
                        i = i + 1;
                    }
                }
                if found {
                    self.nodes[parent].children.insert(i, node);
                    proof {
                        let s = pre.children_of(parent);
                        s.index_of_first_ensures(b);
                        assert(s.contains(b)) by {
                            assert(s[i as int] == b);
                        }
                        let ci = s.index_of_first(b)->0;
                        assert(s[ci] == b);
                        assert(ci == i) by {
                            if ci < i {
                                assert(s[ci] != b);
                            }
                        }
                        assert(self.children_of(parent) == insert_before_spec(s, node, before));
                    }
                    true
                } else {
                    proof {
                        let s = pre.children_of(parent);
                        assert(!s.contains(b)) by {
                            if s.contains(b) {
                                let w = choose|w: int| 0 <= w < s.len() && s[w] == b;
                                assert(s[w] == b);
                            }
                        }
                        s.index_of_first_ensures(b);
                    }
                    false
                }
            },
            None => false,
        };
        if !done {
            self.nodes[parent].children.push(node);
        }
        self.ops.push(LiveOp::Inserted { parent, node, before });
        proof {
            let s = pre.children_of(parent);
            let post = self.children_of(parent);
            assert(post == insert_before_spec(s, node, before));
            if post == s.push(node) {
                assert(post =~= s.insert(s.len() as int, node));
                lemma_insert_keeps_children(s, node, s.len() as int, self.nodes@.len() as int);
            } else {
                match before {
                    Some(b) => {
                        s.index_of_first_ensures(b);
                        let ci = s.index_of_first(b)->0;
                        lemma_insert_keeps_children(s, node, ci, self.nodes@.len() as int);
                    },
                    None => {},
                }
            }
            assert(self.wf()) by {
                assert forall|q: int| 0 <= q < self.nodes@.len() implies {
                    &&& (#[trigger] self.nodes@[q]).attrs.wf()
                    &&& self.nodes@[q].children@.no_duplicates()
                    &&& forall|j: int|
                        0 <= j < self.nodes@[q].children@.len() ==> (
                        #[trigger] self.nodes@[q].children@[j]) < self.nodes@.len()
                } by {
                    if q == parent as int {
                    } else {
                        assert(self.nodes@[q] == pre.nodes@[q]);
                    }
                }
            }
        }
    }

    /// Remove `node` from the children of `parent`. Returns whether the node
    /// was found; asking to remove an absent node is skipped, not fatal.
    pub fn remove_child(&mut self, parent: LiveId, node: LiveId) -> (r: bool)
        requires
            old(self).wf(),
            old(self).is_element(parent),
        ensures
            final(self).wf(),
            tree_extends(final(self), old(self)),
            final(self).spec_num_nodes() == old(self).spec_num_nodes(),
            r == old(self).children_of(parent).contains(node),
            final(self).children_of(parent) == old(self).children_of(parent).remove_value(node),
            final(self).node_state_unchanged(old(self), parent),
            forall|o: LiveId|
                old(self).valid(o) && o != parent ==> #[trigger] final(self).node_unchanged(old(self), o),
            r ==> final(self).spec_log() == old(self).spec_log().push(
                LiveOp::Removed { parent, node },
            ),
            !r ==> final(self).spec_log() == old(self).spec_log(),
    {
        let ghost pre = *self;
        let n = self.nodes[parent].children.len();
        let mut i: usize = 0;
        while i < n
            invariant
                *self == pre,
                pre == *old(self),
                pre.wf(),
                pre.is_element(parent),
                i <= n,
                n == self.nodes@[parent as int].children@.len(),
                forall|j: int|
                    0 <= j < i ==> (#[trigger] self.nodes@[parent as int].children@[j]) != node,
            decreases n - i,
        {
            if self.nodes[parent].children[i] == node {
                self.nodes[parent].children.remove(i);
                self.ops.push(LiveOp::Removed { parent, node });
                proof {
                    let s = pre.children_of(parent);
                    assert(s.contains(node)) by {
                        assert(s[i as int] == node);
                    }
                    s.index_of_first_ensures(node);
                    let ci = s.index_of_first(node)->0;
                    assert(ci == i) by {
                        if ci < i {
                            assert(s[ci] != node);
                        }
                    }
                    assert(self.children_of(parent) == s.remove_value(node));
                    lemma_remove_keeps_children(s, i as int, self.nodes@.len() as int);
                    assert(self.wf()) by {
                        assert forall|q: int| 0 <= q < self.nodes@.len() implies {
                            &&& (#[trigger] self.nodes@[q]).attrs.wf()
                            &&& self.nodes@[q].children@.no_duplicates()
                            &&& forall|j: int|
                                0 <= j < self.nodes@[q].children@.len() ==> (
                                #[trigger] self.nodes@[q].children@[j]) < self.nodes@.len()
                        } by {
                            if q != parent as int {
                                assert(self.nodes@[q] == pre.nodes@[q]);
                            }
                        }
                    }
                }
                return true;
            }
            i = i + 1;
        }
        proof {
            let s = pre.children_of(parent);
            assert(!s.contains(node)) by {
                if s.contains(node) {
                    let w = choose|w: int| 0 <= w < s.len() && s[w] == node;
                    assert(s[w] == node);
                }
            }
            s.index_of_first_ensures(node);
            assert(s.remove_value(node) == s);
        }
        false
    }

    /// Set an attribute on an element, replacing any earlier value.
    pub fn set_attribute(&mut self, node: LiveId, name: &String, value: &String)
        requires
            old(self).wf(),
            old(self).is_element(node),
        ensures
            final(self).wf(),
            tree_extends(final(self), old(self)),
            final(self).spec_num_nodes() == old(self).spec_num_nodes(),
            final(self).attrs_of(node) == old(self).attrs_of(node).insert(name@, value@),
            final(self).is_text_node(node) == old(self).is_text_node(node),
            final(self).tag_of(node) == old(self).tag_of(node),
            final(self).svg_of(node) == old(self).svg_of(node),
            final(self).value_of(node) == old(self).value_of(node),
            final(self).kind_of(node) == old(self).kind_of(node),
            final(self).checked_of(node) == old(self).checked_of(node),
            final(self).listeners_of(node) == old(self).listeners_of(node),
            final(self).children_of(node) == old(self).children_of(node),
            final(self).text_of(node) == old(self).text_of(node),
            forall|o: LiveId|
                old(self).valid(o) && o != node ==> #[trigger] final(self).node_unchanged(old(self), o),
            final(self).spec_log() == old(self).spec_log().push(
                LiveOp::SetAttribute { node, name: *name, value: *value },
            ),
    {
        self.nodes[node].attrs.insert(name.clone(), value.clone());
        self.ops.push(LiveOp::SetAttribute { node, name: name.clone(), value: value.clone() });
    }

    /// Remove an attribute from an element; removing an absent attribute
    /// leaves the map as it was.
    pub fn remove_attribute(&mut self, node: LiveId, name: &String)
        requires
            old(self).wf(),
            old(self).is_element(node),
        ensures
            final(self).wf(),
            tree_extends(final(self), old(self)),
            final(self).spec_num_nodes() == old(self).spec_num_nodes(),
            final(self).attrs_of(node) == old(self).attrs_of(node).remove(name@),
            final(self).is_text_node(node) == old(self).is_text_node(node),
            final(self).tag_of(node) == old(self).tag_of(node),
            final(self).svg_of(node) == old(self).svg_of(node),
            final(self).value_of(node) == old(self).value_of(node),
            final(self).kind_of(node) == old(self).kind_of(node),
            final(self).checked_of(node) == old(self).checked_of(node),
            final(self).listeners_of(node) == old(self).listeners_of(node),
            final(self).children_of(node) == old(self).children_of(node),
            final(self).text_of(node) == old(self).text_of(node),
            forall|o: LiveId|
                old(self).valid(o) && o != node ==> #[trigger] final(self).node_unchanged(old(self), o),
            final(self).spec_log() == old(self).spec_log().push(
                LiveOp::RemovedAttribute { node, name: *name },
            ),
    {
        self.nodes[node].attrs.remove(name);
        self.ops.push(LiveOp::RemovedAttribute { node, name: name.clone() });
    }

    /// Write the element's `value` control state.
    pub fn set_value(&mut self, node: LiveId, value: &String)
        requires
            old(self).wf(),
            old(self).is_element(node),
        ensures
            final(self).wf(),
            tree_extends(final(self), old(self)),
            final(self).spec_num_nodes() == old(self).spec_num_nodes(),
            final(self).value_of(node) == value@,
            final(self).is_text_node(node) == old(self).is_text_node(node),
            final(self).tag_of(node) == old(self).tag_of(node),
            final(self).svg_of(node) == old(self).svg_of(node),
            final(self).attrs_of(node) == old(self).attrs_of(node),
            final(self).kind_of(node) == old(self).kind_of(node),
            final(self).checked_of(node) == old(self).checked_of(node),
            final(self).listeners_of(node) == old(self).listeners_of(node),
            final(self).children_of(node) == old(self).children_of(node),
            final(self).text_of(node) == old(self).text_of(node),
            forall|o: LiveId|
                old(self).valid(o) && o != node ==> #[trigger] final(self).node_unchanged(old(self), o),
            final(self).spec_log() == old(self).spec_log().push(
                LiveOp::SetValue { node, value: *value },
            ),
    {
        self.nodes[node].value = value.clone();
        self.ops.push(LiveOp::SetValue { node, value: value.clone() });
    }

    /// Read back the element's current `value` control state; host-side
    /// interaction may have changed it since the engine last wrote it.
    pub fn read_value(&self, node: LiveId) -> (v: String)
        requires
            self.valid(node),
        ensures
            v@ == self.value_of(node),
    {
        self.nodes[node].value.clone()
    }

    /// Write the element's `kind` (input type) control state.
    pub fn set_kind(&mut self, node: LiveId, kind: &String)
        requires
            old(self).wf(),
            old(self).is_element(node),
        ensures
            final(self).wf(),
            tree_extends(final(self), old(self)),
            final(self).spec_num_nodes() == old(self).spec_num_nodes(),
            final(self).kind_of(node) == kind@,
            final(self).is_text_node(node) == old(self).is_text_node(node),
            final(self).tag_of(node) == old(self).tag_of(node),
            final(self).svg_of(node) == old(self).svg_of(node),
            final(self).attrs_of(node) == old(self).attrs_of(node),
            final(self).value_of(node) == old(self).value_of(node),
            final(self).checked_of(node) == old(self).checked_of(node),
            final(self).listeners_of(node) == old(self).listeners_of(node),
            final(self).children_of(node) == old(self).children_of(node),
            final(self).text_of(node) == old(self).text_of(node),
            forall|o: LiveId|
                old(self).valid(o) && o != node ==> #[trigger] final(self).node_unchanged(old(self), o),
            final(self).spec_log() == old(self).spec_log().push(
                LiveOp::SetKind { node, kind: *kind },
            ),
    {
        self.nodes[node].kind = kind.clone();
        self.ops.push(LiveOp::SetKind { node, kind: kind.clone() });
    }

    /// Write the element's `checked` control state.
    pub fn set_checked(&mut self, node: LiveId, checked: bool)
        requires
            old(self).wf(),
            old(self).is_element(node),
        ensures
            final(self).wf(),
            tree_extends(final(self), old(self)),
            final(self).spec_num_nodes() == old(self).spec_num_nodes(),
            final(self).checked_of(node) == checked,
            final(self).is_text_node(node) == old(self).is_text_node(node),
            final(self).tag_of(node) == old(self).tag_of(node),
            final(self).svg_of(node) == old(self).svg_of(node),
            final(self).attrs_of(node) == old(self).attrs_of(node),
            final(self).value_of(node) == old(self).value_of(node),
            final(self).kind_of(node) == old(self).kind_of(node),
            final(self).listeners_of(node) == old(self).listeners_of(node),
            final(self).children_of(node) == old(self).children_of(node),
            final(self).text_of(node) == old(self).text_of(node),
            forall|o: LiveId|
                old(self).valid(o) && o != node ==> #[trigger] final(self).node_unchanged(old(self), o),
            final(self).spec_log() == old(self).spec_log().push(LiveOp::SetChecked { node, checked }),
    {
        self.nodes[node].checked = checked;
        self.ops.push(LiveOp::SetChecked { node, checked });
    }

    /// Rewrite a text node's content.
    pub fn set_text(&mut self, node: LiveId, content: &String)
        requires
            old(self).wf(),
            old(self).valid(node),
            old(self).is_text_node(node),
        ensures
            final(self).wf(),
            tree_extends(final(self), old(self)),
            final(self).spec_num_nodes() == old(self).spec_num_nodes(),
            final(self).text_of(node) == content@,
            final(self).is_text_node(node) == old(self).is_text_node(node),
            final(self).children_of(node) == old(self).children_of(node),
            forall|o: LiveId|
                old(self).valid(o) && o != node ==> #[trigger] final(self).node_unchanged(old(self), o),
            final(self).spec_log() == old(self).spec_log().push(
                LiveOp::SetText { node, content: *content },
            ),
    {
        self.nodes[node].content = content.clone();
        self.ops.push(LiveOp::SetText { node, content: content.clone() });
    }

    /// Attach a listener handle to an element.
    pub fn attach_listener(&mut self, node: LiveId, listener: u64)
        requires
            old(self).wf(),
            old(self).is_element(node),
        ensures
            final(self).wf(),
            tree_extends(final(self), old(self)),
            final(self).spec_num_nodes() == old(self).spec_num_nodes(),
            final(self).listeners_of(node) == old(self).listeners_of(node).push(listener),
            final(self).is_text_node(node) == old(self).is_text_node(node),
            final(self).tag_of(node) == old(self).tag_of(node),
            final(self).svg_of(node) == old(self).svg_of(node),
            final(self).attrs_of(node) == old(self).attrs_of(node),
            final(self).value_of(node) == old(self).value_of(node),
            final(self).kind_of(node) == old(self).kind_of(node),
            final(self).checked_of(node) == old(self).checked_of(node),
            final(self).children_of(node) == old(self).children_of(node),
            final(self).text_of(node) == old(self).text_of(node),
            forall|o: LiveId|
                old(self).valid(o) && o != node ==> #[trigger] final(self).node_unchanged(old(self), o),
            final(self).spec_log() == old(self).spec_log().push(
                LiveOp::AttachedListener { node, listener },
            ),
    {
        self.nodes[node].listeners.push(listener);
        self.ops.push(LiveOp::AttachedListener { node, listener });
    }

    /// Release every listener handle attached to an element.
    pub fn clear_listeners(&mut self, node: LiveId)
        requires
            old(self).wf(),
            old(self).is_element(node),
        ensures
            final(self).wf(),
            tree_extends(final(self), old(self)),
            final(self).spec_num_nodes() == old(self).spec_num_nodes(),
            final(self).listeners_of(node) == Seq::<u64>::empty(),
            final(self).is_text_node(node) == old(self).is_text_node(node),
            final(self).tag_of(node) == old(self).tag_of(node),
            final(self).svg_of(node) == old(self).svg_of(node),
            final(self).attrs_of(node) == old(self).attrs_of(node),
            final(self).value_of(node) == old(self).value_of(node),
            final(self).kind_of(node) == old(self).kind_of(node),
            final(self).checked_of(node) == old(self).checked_of(node),
            final(self).children_of(node) == old(self).children_of(node),
            final(self).text_of(node) == old(self).text_of(node),
            forall|o: LiveId|
                old(self).valid(o) && o != node ==> #[trigger] final(self).node_unchanged(old(self), o),
            final(self).spec_log() == old(self).spec_log().push(LiveOp::ClearedListeners { node }),
    {
        self.nodes[node].listeners = Vec::new();
        self.ops.push(LiveOp::ClearedListeners { node });
    }

    /// The mutation log, for replaying the tree's history elsewhere.
    pub fn log(&self) -> (l: &Vec<LiveOp>)
        ensures
            l@ == self.spec_log(),
    {
        &self.ops
    }

    /// Read back the element's `checked` control state.
    pub fn read_checked(&self, node: LiveId) -> (c: bool)
        requires
            self.valid(node),
        ensures
            c == self.checked_of(node),
    {
        self.nodes[node].checked
    }

    /// Read back the element's `kind` control state.
    pub fn read_kind(&self, node: LiveId) -> (k: String)
        requires
            self.valid(node),
        ensures
            k@ == self.kind_of(node),
    {
        self.nodes[node].kind.clone()
    }

    /// Look up an attribute of an element.
    pub fn read_attribute(&self, node: LiveId, name: &String) -> (r: Option<&String>)
        requires
            self.wf(),
            self.is_element(node),
        ensures
            match r {
                Some(v) => self.attrs_of(node).contains_key(name@) && v@ == self.attrs_of(
                    node,
                ).index(name@),
                None => !self.attrs_of(node).contains_key(name@),
            },
    {
        self.nodes[node].attrs.get(name)
    }

    /// Read back an element's tag name.
    pub fn read_tag(&self, node: LiveId) -> (t: String)
        requires
            self.valid(node),
        ensures
            t@ == self.tag_of(node),
    {
        self.nodes[node].tag.clone()
    }

    /// Read back a text node's content.
    pub fn read_text(&self, node: LiveId) -> (t: String)
        requires
            self.valid(node),
        ensures
            t@ == self.text_of(node),
    {
        self.nodes[node].content.clone()
    }

    /// Whether the element lives in the vector-graphics namespace.
    pub fn read_svg(&self, node: LiveId) -> (r: bool)
        requires
            self.valid(node),
        ensures
            r == self.svg_of(node),
    {
        self.nodes[node].svg
    }

    /// Whether `node` currently stands among the children of `parent`.
    pub fn contains_child(&self, parent: LiveId, node: LiveId) -> (r: bool)
        requires
            self.valid(parent),
        ensures
            r == self.children_of(parent).contains(node),
    {
        let n = self.nodes[parent].children.len();
        let mut i: usize = 0;
        while i < n
            invariant
                self.valid(parent),
                i <= n,
                n == self.children_of(parent).len(),
                forall|j: int| 0 <= j < i ==> (#[trigger] self.children_of(parent)[j]) != node,
            decreases n - i,
        {
            if self.nodes[parent].children[i] == node {
                return true;
            }
            i = i + 1;
        }
        proof {
            assert(!self.children_of(parent).contains(node)) by {
                if self.children_of(parent).contains(node) {
                    let w = choose|w: int|
                        0 <= w < self.children_of(parent).len() && self.children_of(parent)[w]
                            == node;
                    assert(self.children_of(parent)[w] == node);
                }
            }
        }
        false
    }

    /// How many children a node has.
    pub fn child_count(&self, node: LiveId) -> (n: usize)
        requires
            self.valid(node),
        ensures
            n == self.children_of(node).len(),
    {
        self.nodes[node].children.len()
    }

    /// The child at one sibling position.
    pub fn child_at(&self, node: LiveId, i: usize) -> (c: LiveId)
        requires
            self.valid(node),
            i < self.children_of(node).len(),
        ensures
            c == self.children_of(node)[i as int],
    {
        self.nodes[node].children[i]
    }
}

/// Inserting a fresh node into a bounded, duplicate-free sibling list keeps
/// it bounded and duplicate-free.
proof fn lemma_insert_keeps_children(s: Seq<LiveId>, node: LiveId, i: int, bound: int)
    requires
        s.no_duplicates(),
        !s.contains(node),
        (node as int) < bound,
        0 <= i <= s.len(),
        forall|j: int| 0 <= j < s.len() ==> (#[trigger] s[j]) < bound,
    ensures
        s.insert(i, node).no_duplicates(),
        forall|j: int| 0 <= j < s.insert(i, node).len() ==> (#[trigger] s.insert(i, node)[j]) < bound,
{
    let post = s.insert(i, node);
    s.insert_ensures(i, node);
    assert forall|j: int| 0 <= j < post.len() implies (#[trigger] post[j]) < bound by {
        if j < i {
            assert(post[j] == s[j]);
        } else if j == i {
            assert(post[j] == node);
        } else {
            assert(post[j] == s[j - 1]);
        }
    }
    assert forall|a: int, c: int| 0 <= a < c < post.len() implies post[a] != post[c] by {
        if a == i {
            assert(post[a] == node);
            assert(post[c] == s[c - 1]);
            assert(s.contains(s[c - 1]));
        } else if c == i {
            assert(post[c] == node);
            assert(post[a] == s[a]);
            assert(s.contains(s[a]));
        } else {
            let pa = if a < i { a } else { a - 1 };
            let pc = if c < i { c } else { c - 1 };
            assert(post[a] == s[pa]);
            assert(post[c] == s[pc]);
        }
    }
}

/// Removing one position from a bounded, duplicate-free sibling list keeps it
/// bounded and duplicate-free.
proof fn lemma_remove_keeps_children(s: Seq<LiveId>, i: int, bound: int)
    requires
        s.no_duplicates(),
        0 <= i < s.len(),
        forall|q: int| 0 <= q < s.len() ==> (#[trigger] s[q]) < bound,
    ensures
        s.remove(i).no_duplicates(),
        forall|j: int| 0 <= j < s.remove(i).len() ==> (#[trigger] s.remove(i)[j]) < bound,
{
    let post = s.remove(i);
    s.remove_ensures(i);
    assert forall|j: int| 0 <= j < post.len() implies (#[trigger] post[j]) < bound by {
        if j < i {
            assert(post[j] == s[j]);
        } else {
            assert(post[j] == s[j + 1]);
        }
    }
    assert forall|a: int, c: int| 0 <= a < c < post.len() implies post[a] != post[c] by {
        let pa = if a < i { a } else { a + 1 };
        let pc = if c < i { c } else { c + 1 };
        assert(post[a] == s[pa]);
        assert(post[c] == s[pc]);
    }
}

/// Chaining two mutations that each leave every node but `el` untouched
/// leaves every node but `el` untouched overall.
pub proof fn lemma_frame_trans(a: &LiveTree, b: &LiveTree, c: &LiveTree, el: LiveId)
    requires
        b.spec_num_nodes() >= a.spec_num_nodes(),
        forall|o: LiveId| a.valid(o) && o != el ==> #[trigger] b.node_unchanged(a, o),
        forall|o: LiveId| b.valid(o) && o != el ==> #[trigger] c.node_unchanged(b, o),
    ensures
        forall|o: LiveId| a.valid(o) && o != el ==> #[trigger] c.node_unchanged(a, o),
{
    assert forall|o: LiveId| a.valid(o) && o != el implies #[trigger] c.node_unchanged(a, o) by {
        assert(b.node_unchanged(a, o));
        assert(b.valid(o));
        assert(c.node_unchanged(b, o));
    }
}

/// Prefixes chain: what extends an extension also extends the start.
pub proof fn lemma_prefix_steps<T>(a: Seq<T>, b: Seq<T>, c: Seq<T>)
    requires
        a.is_prefix_of(b),
        b.is_prefix_of(c),
    ensures
        a.is_prefix_of(c),
{
    assert(c.subrange(0, a.len() as int) =~= b.subrange(0, b.len() as int).subrange(
        0,
        a.len() as int,
    ));
    assert(c.subrange(0, a.len() as int) =~= a);
}

/// A sequence is a prefix of itself.
pub proof fn lemma_prefix_refl<T>(a: Seq<T>)
    ensures
        a.is_prefix_of(a),
{
    assert(a.subrange(0, a.len() as int) =~= a);
}

/// A sequence is a prefix of itself extended by one element.
pub proof fn lemma_push_prefix<T>(a: Seq<T>, x: T)
    ensures
        a.is_prefix_of(a.push(x)),
{
    assert(a.push(x).subrange(0, a.len() as int) =~= a);
}

} // verus!
