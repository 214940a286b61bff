//! The virtual element: tag name, attributes, listeners, form-control state
//! and children, together with the diff computation and the patch pass that
//! reconcile it against the element rendered for the previous view.

use crate::attrs::AttrMap;
use crate::dom::DomContext;
use crate::live::{LiveId, LiveOp, LiveTree};
use crate::node_ref::{NodeRef, NodeRefTable};
use crate::v_dom::Patch;
use crate::v_list::VList;
use crate::v_node::{detach_sched_ok, vnodes_size, VNode};
use vstd::prelude::*;
use vstd::string::StrSliceExecFns;

verus! {

/// The cached element category, derived once from the tag name to dispatch
/// the form-control special cases quickly.
#[derive(Clone, Copy, PartialEq, Eq, Structural, Debug)]
pub enum ElementType {
    Input,
    Textarea,
    Button,
    Other,
}

/// The characters match one letter, in either case.
pub open spec fn ci_is(c: char, lower: char, upper: char) -> bool {
    c == lower || c == upper
}

/// The tag names an input control, compared without regard to letter case.
pub open spec fn is_input_tag(s: Seq<char>) -> bool {
    &&& s.len() == 5
    &&& ci_is(s[0], 'i', 'I')
    &&& ci_is(s[1], 'n', 'N')
    &&& ci_is(s[2], 'p', 'P')
    &&& ci_is(s[3], 'u', 'U')
    &&& ci_is(s[4], 't', 'T')
}

/// The tag names a text area, compared without regard to letter case.
pub open spec fn is_textarea_tag(s: Seq<char>) -> bool {
    &&& s.len() == 8
    &&& ci_is(s[0], 't', 'T')
    &&& ci_is(s[1], 'e', 'E')
    &&& ci_is(s[2], 'x', 'X')
    &&& ci_is(s[3], 't', 'T')
    &&& ci_is(s[4], 'a', 'A')
    &&& ci_is(s[5], 'r', 'R')
    &&& ci_is(s[6], 'e', 'E')
    &&& ci_is(s[7], 'a', 'A')
}

/// The tag names a button, compared without regard to letter case.
pub open spec fn is_button_tag(s: Seq<char>) -> bool {
    &&& s.len() == 6
    &&& ci_is(s[0], 'b', 'B')
    &&& ci_is(s[1], 'u', 'U')
    &&& ci_is(s[2], 't', 'T')
    &&& ci_is(s[3], 't', 'T')
    &&& ci_is(s[4], 'o', 'O')
    &&& ci_is(s[5], 'n', 'N')
}

/// The tag names a vector-graphics root, compared exactly.
pub open spec fn is_svg_tag(s: Seq<char>) -> bool {
    s.len() == 3 && s[0] == 's' && s[1] == 'v' && s[2] == 'g'
}

/// The element category a tag name falls under.
pub open spec fn element_type_of(s: Seq<char>) -> ElementType {
    if is_input_tag(s) {
        ElementType::Input
    } else if is_textarea_tag(s) {
        ElementType::Textarea
    } else if is_button_tag(s) {
        ElementType::Button
    } else {
        ElementType::Other
    }
}

impl ElementType {
    /// Derive the element category from a tag name, without regard to
    /// letter case.
    pub fn from_tag(tag: &str) -> (r: ElementType)
        ensures
            r == element_type_of(tag@),
    {
        let n = tag.unicode_len();
        if n == 5 {
            let c0 = tag.get_char(0);
            let c1 = tag.get_char(1);
            let c2 = tag.get_char(2);
            let c3 = tag.get_char(3);
            let c4 = tag.get_char(4);
            if (c0 == 'i' || c0 == 'I') && (c1 == 'n' || c1 == 'N') && (c2 == 'p' || c2 == 'P') && (
            c3 == 'u' || c3 == 'U') && (c4 == 't' || c4 == 'T') {
                ElementType::Input
            } else {
                ElementType::Other
            }
        } else if n == 8 {
            let c0 = tag.get_char(0);
            let c1 = tag.get_char(1);
            let c2 = tag.get_char(2);
            let c3 = tag.get_char(3);
            let c4 = tag.get_char(4);
            let c5 = tag.get_char(5);
            let c6 = tag.get_char(6);
            let c7 = tag.get_char(7);
            if (c0 == 't' || c0 == 'T') && (c1 == 'e' || c1 == 'E') && (c2 == 'x' || c2 == 'X') && (
            c3 == 't' || c3 == 'T') && (c4 == 'a' || c4 == 'A') && (c5 == 'r' || c5 == 'R') && (c6
                == 'e' || c6 == 'E') && (c7 == 'a' || c7 == 'A') {
                ElementType::Textarea
            } else {
                ElementType::Other
            }
        } else if n == 6 {
            let c0 = tag.get_char(0);
            let c1 = tag.get_char(1);
            let c2 = tag.get_char(2);
            let c3 = tag.get_char(3);
            let c4 = tag.get_char(4);
            let c5 = tag.get_char(5);
            if (c0 == 'b' || c0 == 'B') && (c1 == 'u' || c1 == 'U') && (c2 == 't' || c2 == 'T') && (
            c3 == 't' || c3 == 'T') && (c4 == 'o' || c4 == 'O') && (c5 == 'n' || c5 == 'N') {
                ElementType::Button
            } else {
                ElementType::Other
            }
        } else {
            ElementType::Other
        }
    }
}

/// Whether the tag names a vector-graphics root, compared exactly.
pub fn is_svg_tag_exec(tag: &str) -> (r: bool)
    ensures
        r == is_svg_tag(tag@),
{
    let n = tag.unicode_len();
    if n == 3 {
        let c0 = tag.get_char(0);
        let c1 = tag.get_char(1);
        let c2 = tag.get_char(2);
        c0 == 's' && c1 == 'v' && c2 == 'g'
    } else {
        false
    }
}

/// A virtual element.
pub struct VTag {
    /// The tag of the element, set at creation and not changed thereafter.
    pub tag: String,
    /// The cached element category of the tag.
    pub element_type: ElementType,
    /// The live element produced for this node, once applied.
    pub reference: Option<LiveId>,
    /// The listener handles to attach on the next patch pass.
    pub listeners: Vec<u64>,
    /// The attributes the element should carry.
    pub attributes: AttrMap,
    /// The children, in sibling order.
    pub children: VList,
    /// The desired `value` control state, for input-like elements.
    pub value: Option<String>,
    /// The desired `kind` (input type) control state.
    pub kind: Option<String>,
    /// The desired `checked` control state, written on every patch pass.
    pub checked: bool,
    /// The reference cell resolving to the live element, once applied.
    pub node_ref: Option<NodeRef>,
    /// The handles of the listeners attached on the last pass, kept so they
    /// can be released on the next one.
    pub captured: Vec<u64>,
    /// The correlation key, unused by positional reconciliation.
    pub key: Option<String>,
}

/// The node is an element carrying this tag name.
pub open spec fn tag_matched(a: VNode, t: Seq<char>) -> bool {
    a matches VNode::VTag(at) && at.spec_tag() == t
}

/// The ancestor is a same-tag element whose subtree references neither the
/// mount parent nor its own live element: the reuse path patches in place
/// and its effect can be pinned exactly.
pub open spec fn spec_reuse_exact(ancestor: &Option<VNode>, t: Seq<char>, parent: LiveId) -> bool {
    *ancestor matches Some(a) && a matches VNode::VTag(at) && at.spec_tag() == t && at.avoids(
        parent,
    ) && at.children.avoids((at.reference)->0)
}

/// The reconciliation will create a fresh element: there is no ancestor, or
/// the ancestor is not an element of this tag name.
pub open spec fn spec_fresh_case(ancestor: &Option<VNode>, t: Seq<char>) -> bool {
    !(*ancestor matches Some(a) && tag_matched(a, t))
}

/// The view of an optional string, or empty when absent — what a patched
/// control slot ends up holding.
pub open spec fn opt_or_empty(o: Option<String>) -> Seq<char> {
    match o {
        Some(s) => s@,
        None => Seq::<char>::empty(),
    }
}

/// The attribute map an optional ancestor carries; no ancestor means no
/// attributes.
pub open spec fn anc_attrs(ancestor: Option<&VTag>) -> Map<Seq<char>, Seq<char>> {
    match ancestor {
        Some(a) => a.attributes@,
        None => Map::empty(),
    }
}

/// The view of an optional string.
pub open spec fn opt_view(o: Option<String>) -> Option<Seq<char>> {
    match o {
        Some(s) => Some(s@),
        None => None,
    }
}

/// The `kind` slot an optional ancestor carries.
pub open spec fn anc_kind(ancestor: Option<&VTag>) -> Option<Seq<char>> {
    match ancestor {
        Some(a) => opt_view(a.kind),
        None => None,
    }
}

/// The `value` slot an optional ancestor carries.
pub open spec fn anc_value(ancestor: Option<&VTag>) -> Option<Seq<char>> {
    match ancestor {
        Some(a) => opt_view(a.value),
        None => None,
    }
}

/// The key should be added: it is new and was absent.
pub open spec fn add_cond(new: Map<Seq<char>, Seq<char>>, oldm: Map<Seq<char>, Seq<char>>, k: Seq<
    char,
>) -> bool {
    new.contains_key(k) && !oldm.contains_key(k)
}

/// The key should be replaced: present in both with different values.
pub open spec fn rep_cond(new: Map<Seq<char>, Seq<char>>, oldm: Map<Seq<char>, Seq<char>>, k: Seq<
    char,
>) -> bool {
    new.contains_key(k) && oldm.contains_key(k) && new[k] != oldm[k]
}

/// The key should be removed: it is gone from the new attributes.
pub open spec fn rem_cond(new: Map<Seq<char>, Seq<char>>, oldm: Map<Seq<char>, Seq<char>>, k: Seq<
    char,
>) -> bool {
    !new.contains_key(k) && oldm.contains_key(k)
}

/// The view of a patch's key.
pub open spec fn patch_key(p: Patch<String, String>) -> Seq<char> {
    p.key()@
}

/// The patch is justified: its kind and payload follow from comparing the
/// new attributes against the old ones at its key.
pub open spec fn patch_ok(
    p: Patch<String, String>,
    new: Map<Seq<char>, Seq<char>>,
    oldm: Map<Seq<char>, Seq<char>>,
) -> bool {
    match p {
        Patch::Add(k, v) => add_cond(new, oldm, k@) && v@ == new[k@],
        Patch::Replace(k, v) => rep_cond(new, oldm, k@) && v@ == new[k@],
        Patch::Remove(k) => rem_cond(new, oldm, k@),
    }
}

/// The patch adds `k` with the value `v`.
pub open spec fn is_add(p: Patch<String, String>, k: Seq<char>, v: Seq<char>) -> bool {
    p matches Patch::Add(pk, pv) && pk@ == k && pv@ == v
}

/// The patch replaces `k` with the value `v`.
pub open spec fn is_replace(p: Patch<String, String>, k: Seq<char>, v: Seq<char>) -> bool {
    p matches Patch::Replace(pk, pv) && pk@ == k && pv@ == v
}

/// The patch removes `k`.
pub open spec fn is_remove(p: Patch<String, String>, k: Seq<char>) -> bool {
    p matches Patch::Remove(pk) && pk@ == k
}

/// Some patch in the list adds `k` with the value `v`.
pub open spec fn has_add(r: Seq<Patch<String, String>>, k: Seq<char>, v: Seq<char>) -> bool {
    exists|i: int| 0 <= i < r.len() && is_add(#[trigger] r[i], k, v)
}

/// Some patch in the list replaces `k` with the value `v`.
pub open spec fn has_replace(r: Seq<Patch<String, String>>, k: Seq<char>, v: Seq<char>) -> bool {
    exists|i: int| 0 <= i < r.len() && is_replace(#[trigger] r[i], k, v)
}

/// Some patch in the list removes `k`.
pub open spec fn has_remove(r: Seq<Patch<String, String>>, k: Seq<char>) -> bool {
    exists|i: int| 0 <= i < r.len() && is_remove(#[trigger] r[i], k)
}

/// What a single-slot control value comes to after its patch is applied:
/// written when added or changed, cleared when dropped, untouched when
/// unchanged.
pub open spec fn slot_after(
    newv: Option<Seq<char>>,
    oldv: Option<Seq<char>>,
    live: Seq<char>,
) -> Seq<char> {
    match (newv, oldv) {
        (Some(n), Some(o)) => if n != o {
            n
        } else {
            live
        },
        (Some(n), None) => n,
        (None, Some(_)) => Seq::<char>::empty(),
        (None, None) => live,
    }
}

impl VTag {
    /// The tag name.
    pub open spec fn spec_tag(&self) -> Seq<char> {
        self.tag@
    }

    /// The cached element category.
    pub open spec fn spec_element_type(&self) -> ElementType {
        self.element_type
    }

    /// The listener handles attached on the last pass.
    pub open spec fn spec_captured(&self) -> Seq<u64> {
        self.captured@
    }

    /// The element category is the one cached from the tag, and the
    /// attribute map is well formed.
    pub open spec fn local_wf(&self) -> bool {
        &&& self.element_type == element_type_of(self.spec_tag())
        &&& self.attributes.wf()
    }

    /// Every live piece this element names exists in the given tree and
    /// table, recursively through its children.
    pub open spec fn wf_in(&self, tree: &LiveTree, refs: &NodeRefTable) -> bool
        decreases 2 + vnodes_size(self.children.children@),
    {
        &&& self.local_wf()
        &&& (self.reference matches Some(e) ==> tree.is_element(e))
        &&& (self.node_ref matches Some(r) ==> r.valid(refs))
        &&& self.children.wf_in(tree, refs)
    }

    /// The element's subtree contains no imported raw node.
    pub open spec fn vref_free(&self) -> bool
        decreases 2 + vnodes_size(self.children.children@),
    {
        self.children.vref_free()
    }

    /// No reference cell in this element's subtree is the cell `h`.
    pub open spec fn nr_avoids(&self, h: NodeRef) -> bool
        decreases 2 + vnodes_size(self.children.children@),
    {
        &&& !(self.node_ref matches Some(r) && r == h)
        &&& self.children.nr_avoids(h)
    }

    /// No live reference in this element's subtree names `id`.
    pub open spec fn avoids(&self, id: LiveId) -> bool
        decreases 2 + vnodes_size(self.children.children@),
    {
        &&& !(self.reference matches Some(e) && e == id)
        &&& self.children.avoids(id)
    }

    /// The element has been applied: it owns a live element, and so do its
    /// children.
    pub open spec fn rendered(&self) -> bool
        decreases 2 + vnodes_size(self.children.children@),
    {
        &&& self.reference is Some
        &&& self.children.rendered()
    }

    /// The element has not been applied yet.
    pub open spec fn pristine(&self) -> bool
        decreases 2 + vnodes_size(self.children.children@),
    {
        &&& self.reference is None
        &&& self.children.pristine()
    }

    /// A fresh virtual element with the given tag: empty attributes, no
    /// listeners, no children, empty control state.
    pub fn new(tag: String) -> (r: VTag)
        ensures
            r.spec_tag() == tag@,
            r.local_wf(),
            r.spec_element_type() == element_type_of(tag@),
            r.reference is None,
            r.listeners@ == Seq::<u64>::empty(),
            r.attributes@ == Map::<Seq<char>, Seq<char>>::empty(),
            r.children.children@ == Seq::<VNode>::empty(),
            r.children.key is None,
            r.value is None,
            r.kind is None,
            r.checked == false,
            r.node_ref is None,
            r.spec_captured() == Seq::<u64>::empty(),
            r.key is None,
            r.pristine(),
    {
        let element_type = ElementType::from_tag(tag.as_str());
        VTag {
            tag,
            element_type,
            reference: None,
            listeners: Vec::new(),
            attributes: AttrMap::new(),
            children: VList::new(),
            value: None,
            kind: None,
            checked: false,
            node_ref: None,
            captured: Vec::new(),
            key: None,
        }
    }

    /// The tag of the element.
    pub fn tag(&self) -> (r: &str)
        ensures
            r@ == self.spec_tag(),
    {
        self.tag.as_str()
    }

    /// Append one child node.
    pub fn add_child(&mut self, child: VNode)
        ensures
            final(self).children.children@ == old(self).children.children@.push(child),
            vtag_fields_except_children_eq(final(self), old(self)),
    {
        self.children.add_child(child);
    }

    /// Append several child nodes, in order.
    pub fn add_children(&mut self, children: Vec<VNode>)
        ensures
            final(self).children.children@ == old(self).children.children@ + children@,
            vtag_fields_except_children_eq(final(self), old(self)),
    {
        self.children.add_children(children);
    }

    /// Set the desired `value` control state.
    pub fn set_value(&mut self, value: &String)
        ensures
            final(self).value matches Some(v) && v@ == value@,
            vtag_fields_except_value_eq(final(self), old(self)),
    {
        self.value = Some(value.clone());
    }

    /// Set the desired `kind` (input type) control state.
    pub fn set_kind(&mut self, value: &String)
        ensures
            final(self).kind matches Some(v) && v@ == value@,
            vtag_fields_except_kind_eq(final(self), old(self)),
    {
        self.kind = Some(value.clone());
    }

    /// Set the desired `checked` control state.
    pub fn set_checked(&mut self, value: bool)
        ensures
            final(self).checked == value,
            vtag_fields_except_checked_eq(final(self), old(self)),
    {
        self.checked = value;
    }

    /// Set one attribute, replacing any earlier value under the same name.
    pub fn add_attribute(&mut self, name: &String, value: &String)
        requires
            old(self).attributes.wf(),
        ensures
            final(self).attributes.wf(),
            final(self).attributes@ == old(self).attributes@.insert(name@, value@),
            vtag_fields_except_attributes_eq(final(self), old(self)),
    {
        self.attributes.insert(name.clone(), value.clone());
    }

    /// Set several attributes, in order; a later pair wins over an earlier
    /// one under the same name.
    pub fn add_attributes(&mut self, attrs: Vec<(String, String)>)
        requires
            old(self).attributes.wf(),
        ensures
            final(self).attributes.wf(),
            final(self).attributes@ == attrs_insert_all(old(self).attributes@, attrs@),
            vtag_fields_except_attributes_eq(final(self), old(self)),
    {
        let mut rest = attrs;
        let ghost all = rest@;
        let ghost taken: int = 0;
        proof {
            assert(all.subrange(0, 0) =~= Seq::<(String, String)>::empty());
        }
        while rest.len() > 0
            invariant
                self.attributes.wf(),
                rest@.len() <= all.len(),
                rest@ == all.subrange(all.len() - rest@.len(), all.len() as int),
                attrs_insert_all(self.attributes@, rest@) == attrs_insert_all(
                    old(self).attributes@,
                    all,
                ),
                vtag_fields_except_attributes_eq(self, old(self)),
            decreases rest@.len(),
        {
            let ghost rl = rest@;
            let p = rest.remove(0);
            proof {
                assert(rl[0] == p);
                assert(rest@ =~= rl.drop_first());
            }
            self.attributes.insert(p.0, p.1);
        }
        proof {
            assert(attrs_insert_all(self.attributes@, rest@) == self.attributes@);
        }
    }

    /// Register a listener handle to attach on the next patch pass.
    pub fn add_listener(&mut self, listener: u64)
        ensures
            final(self).listeners@ == old(self).listeners@.push(listener),
            vtag_fields_except_listeners_eq(final(self), old(self)),
    {
        self.listeners.push(listener);
    }

    /// Register several listener handles, in order.
    pub fn add_listeners(&mut self, listeners: Vec<u64>)
        ensures
            final(self).listeners@ == old(self).listeners@ + listeners@,
            vtag_fields_except_listeners_eq(final(self), old(self)),
    {
        let mut rest = listeners;
        let ghost all = rest@;
        while rest.len() > 0
            invariant
                rest@.len() <= all.len(),
                rest@ == all.subrange(all.len() - rest@.len(), all.len() as int),
                self.listeners@ == old(self).listeners@ + all.subrange(
                    0,
                    all.len() - rest@.len(),
                ),
                vtag_fields_except_listeners_eq(self, old(self)),
            decreases rest@.len(),
        {
            let ghost rl = rest@;
            let l = rest.remove(0);
            proof {
                assert(rl[0] == l);
                assert(rest@ =~= rl.drop_first());
            }
            self.listeners.push(l);
            proof {
                assert(self.listeners@ =~= old(self).listeners@ + all.subrange(
                    0,
                    all.len() - rest@.len(),
                ));
            }
        }
        proof {
            assert(all.subrange(0, all.len() as int) =~= all);
        }
    }

    /// Fold the live element's current `value` back into this node, for
    /// value-carrying controls: host-side interaction may have changed it
    /// since the framework last wrote it, and the diff must compare against
    /// reality, not stale state.
    pub fn refresh_value(&mut self, tree: &LiveTree)
        requires
            old(self).reference matches Some(e) ==> tree.valid(e),
        ensures
            ({
                let refreshing = old(self).reference is Some && (old(self).spec_element_type()
                    == ElementType::Input || old(self).spec_element_type()
                    == ElementType::Textarea);
                if refreshing {
                    final(self).value matches Some(v) && v@ == tree.value_of(
                        (old(self).reference)->0,
                    ) && vtag_fields_except_value_eq(final(self), old(self))
                } else {
                    *final(self) == *old(self)
                }
            }),
    {
        match self.reference {
            Some(el) => {
                if self.element_type == ElementType::Input || self.element_type
                    == ElementType::Textarea {
                    let current = tree.read_value(el);
                    self.value = Some(current);
                }
            },
            None => {},
        }
    }

    /// Compute the attribute patches against the ancestor: an addition for
    /// each new key, a replacement for each key whose value changed, a
    /// removal for each key that is gone — and nothing at all for a key
    /// whose value is unchanged. Each key is patched at most once; the
    /// order of the patches carries no meaning.
    pub fn diff_attributes(&self, ancestor: Option<&VTag>) -> (r: Vec<Patch<String, String>>)
        requires
            self.attributes.wf(),
            ancestor matches Some(a) ==> a.attributes.wf(),
        ensures
            forall|i: int|
                0 <= i < r@.len() ==> patch_ok(#[trigger] r@[i], self.attributes@, anc_attrs(ancestor)),
            forall|i: int, j: int|
                0 <= i < j < r@.len() ==> patch_key(#[trigger] r@[i]) != patch_key(
                    #[trigger] r@[j],
                ),
            forall|k: Seq<char>|
                add_cond(self.attributes@, anc_attrs(ancestor), k) ==> has_add(
                    r@,
                    k,
                    self.attributes@[k],
                ),
            forall|k: Seq<char>|
                rep_cond(self.attributes@, anc_attrs(ancestor), k) ==> has_replace(
                    r@,
                    k,
                    self.attributes@[k],
                ),
            forall|k: Seq<char>|
                rem_cond(self.attributes@, anc_attrs(ancestor), k) ==> has_remove(r@, k),
            // a structurally identical ancestor yields no patches at all
            self.attributes@ == anc_attrs(ancestor) ==> r@.len() == 0,
    {
        let ghost new = self.attributes@;
        let ghost oldm = anc_attrs(ancestor);
        let mut out: Vec<Patch<String, String>> = Vec::new();
        let n = self.attributes.len();
        let mut i: usize = 0;
        while i < n
            invariant
                self.attributes.wf(),
                ancestor matches Some(a) ==> a.attributes.wf(),
                new == self.attributes@,
                oldm == anc_attrs(ancestor),
                i <= n,
                n == self.attributes.spec_len(),
                forall|t: int| 0 <= t < out@.len() ==> patch_ok(#[trigger] out@[t], new, oldm),
                forall|t1: int, t2: int|
                    0 <= t1 < t2 < out@.len() ==> patch_key(#[trigger] out@[t1]) != patch_key(
                        #[trigger] out@[t2],
                    ),
                forall|t: int|
                    0 <= t < out@.len() ==> exists|q: int|
                        0 <= q < i && patch_key(#[trigger] out@[t])
                            == self.attributes.spec_key_at(q),
                forall|t: int|
                    0 <= t < out@.len() ==> new.contains_key(patch_key(#[trigger] out@[t])),
                forall|q: int|
                    0 <= q < i && add_cond(new, oldm, #[trigger] self.attributes.spec_key_at(q))
                        ==> has_add(
                        out@,
                        self.attributes.spec_key_at(q),
                        new[self.attributes.spec_key_at(q)],
                    ),
                forall|q: int|
                    0 <= q < i && rep_cond(new, oldm, #[trigger] self.attributes.spec_key_at(q))
                        ==> has_replace(
                        out@,
                        self.attributes.spec_key_at(q),
                        new[self.attributes.spec_key_at(q)],
                    ),
            decreases n - i,
        {
            let ghost out_pre = out@;
            let key = self.attributes.key_at(i);
            let val = self.attributes.value_at(i);
            let mut pushed = false;
            match ancestor {
                Some(a) => {
                    match a.attributes.get(key) {
                        Some(av) => {
                            if !val.eq(av) {
                                out.push(Patch::Replace(key.clone(), val.clone()));
                                pushed = true;
                            }
                        },
                        None => {
                            out.push(Patch::Add(key.clone(), val.clone()));
                            pushed = true;
                        },
                    }
                },
                None => {
                    out.push(Patch::Add(key.clone(), val.clone()));
                    pushed = true;
                },
            }
            proof {
                self.attributes.lemma_positions();
                if pushed {
                    assert(out@ == out_pre.push(out@.last()));
                    assert(new.contains_key(patch_key(out@.last())));
                    assert forall|t: int|
                        0 <= t < out@.len() implies new.contains_key(
                        patch_key(#[trigger] out@[t]),
                    ) by {
                        if t < out_pre.len() {
                            assert(out@[t] == out_pre[t]);
                        }
                    }
                    assert forall|t: int|
                        0 <= t < out@.len() implies exists|q: int|
                            0 <= q < i + 1 && patch_key(#[trigger] out@[t])
                                == self.attributes.spec_key_at(q) by {
                        if t < out_pre.len() {
                            assert(out@[t] == out_pre[t]);
                            let q = choose|q: int|
                                0 <= q < i && patch_key(out_pre[t]) == self.attributes.spec_key_at(
                                    q,
                                );
                            assert(0 <= q < i + 1 && patch_key(out@[t])
                                == self.attributes.spec_key_at(q));
                        } else {
                            assert(patch_key(out@[t]) == self.attributes.spec_key_at(i as int));
                        }
                    }
                }
                assert forall|q: int|
                    0 <= q < i + 1 && add_cond(new, oldm, #[trigger] self.attributes.spec_key_at(q))
                        implies has_add(
                    out@,
                    self.attributes.spec_key_at(q),
                    new[self.attributes.spec_key_at(q)],
                ) by {
                    let kq = self.attributes.spec_key_at(q);
                    if q < i {
                        let t = choose|t: int|
                            0 <= t < out_pre.len() && is_add(#[trigger] out_pre[t], kq, new[kq]);
                        assert(out@[t] == out_pre[t]);
                        assert(is_add(out@[t], kq, new[kq]));
                    } else {
                        assert(is_add(out@[out@.len() - 1], kq, new[kq]));
                    }
                }
                assert forall|q: int|
                    0 <= q < i + 1 && rep_cond(new, oldm, #[trigger] self.attributes.spec_key_at(q))
                        implies has_replace(
                    out@,
                    self.attributes.spec_key_at(q),
                    new[self.attributes.spec_key_at(q)],
                ) by {
                    let kq = self.attributes.spec_key_at(q);
                    if q < i {
                        let t = choose|t: int|
                            0 <= t < out_pre.len() && is_replace(#[trigger] out_pre[t], kq, new[kq]);
                        assert(out@[t] == out_pre[t]);
                        assert(is_replace(out@[t], kq, new[kq]));
                    } else {
                        assert(is_replace(out@[out@.len() - 1], kq, new[kq]));
                    }
                }
            }
            i = i + 1;
        }
        proof {
            self.attributes.lemma_positions();
            assert forall|k: Seq<char>| add_cond(new, oldm, k) implies has_add(out@, k, new[k]) by {
                let q = choose|q: int|
                    0 <= q < self.attributes.spec_len() && #[trigger] self.attributes.spec_key_at(q)
                        == k;
            }
            assert forall|k: Seq<char>| rep_cond(new, oldm, k) implies has_replace(
                out@,
                k,
                new[k],
            ) by {
                let q = choose|q: int|
                    0 <= q < self.attributes.spec_len() && #[trigger] self.attributes.spec_key_at(q)
                        == k;
            }
        }
        // removals: ancestor keys that are gone from the new attributes
        let ghost adds_len = out@.len();
        let ghost out_adds = out@;
        match ancestor {
            Some(a) => {
                let m = a.attributes.len();
                let mut j: usize = 0;
                while j < m
                    invariant
                        self.attributes.wf(),
                        a.attributes.wf(),
                        new == self.attributes@,
                        oldm == a.attributes@,
                        j <= m,
                        m == a.attributes.spec_len(),
                        out@.len() >= out_adds.len(),
                        out@.subrange(0, out_adds.len() as int) == out_adds,
                        forall|t: int|
                            0 <= t < out@.len() ==> patch_ok(#[trigger] out@[t], new, oldm),
                        forall|t1: int, t2: int|
                            0 <= t1 < t2 < out@.len() ==> patch_key(#[trigger] out@[t1])
                                != patch_key(#[trigger] out@[t2]),
                        forall|k: Seq<char>| add_cond(new, oldm, k) ==> has_add(out@, k, new[k]),
                        forall|k: Seq<char>|
                            rep_cond(new, oldm, k) ==> has_replace(out@, k, new[k]),
                        forall|t: int|
                            0 <= t < out_adds.len() ==> new.contains_key(
                                patch_key(#[trigger] out@[t]),
                            ),
                        forall|t: int|
                            out_adds.len() <= t < out@.len() ==> exists|q: int|
                                0 <= q < j && patch_key(#[trigger] out@[t])
                                    == a.attributes.spec_key_at(q),
                        forall|q: int|
                            0 <= q < j && rem_cond(new, oldm, #[trigger] a.attributes.spec_key_at(q))
                                ==> has_remove(out@, a.attributes.spec_key_at(q)),
                    decreases m - j,
                {
                    let ghost out_pre = out@;
                    let akey = a.attributes.key_at(j);
                    let present = self.attributes.contains_key(akey);
                    if !present {
                        out.push(Patch::Remove(akey.clone()));
                    }
                    proof {
                        a.attributes.lemma_positions();
                        if !present {
                            assert(out@ == out_pre.push(out@.last()));
                            assert(out@.subrange(0, out_adds.len() as int) =~= out_pre.subrange(
                                0,
                                out_adds.len() as int,
                            ));
                            assert forall|t: int|
                                0 <= t < out_adds.len() implies new.contains_key(
                                patch_key(#[trigger] out@[t]),
                            ) by {
                                assert(out@[t] == out_pre[t]);
                            }
                            assert forall|t: int|
                                out_adds.len() <= t < out@.len() implies exists|q: int|
                                    0 <= q < j + 1 && patch_key(#[trigger] out@[t])
                                        == a.attributes.spec_key_at(q) by {
                                if t < out_pre.len() {
                                    assert(out@[t] == out_pre[t]);
                                    let q = choose|q: int|
                                        0 <= q < j && patch_key(out_pre[t])
                                            == a.attributes.spec_key_at(q);
                                    assert(0 <= q < j + 1 && patch_key(out@[t])
                                        == a.attributes.spec_key_at(q));
                                } else {
                                    assert(patch_key(out@[t]) == a.attributes.spec_key_at(
                                        j as int,
                                    ));
                                }
                            }
                            // the new removal's key is in the old map only,
                            // so it differs from every earlier patch key
                            assert forall|t1: int, t2: int|
                                0 <= t1 < t2 < out@.len() implies patch_key(#[trigger] out@[t1])
                                    != patch_key(#[trigger] out@[t2]) by {
                                if t2 == out@.len() - 1 {
                                    assert(patch_ok(out@[t1], new, oldm));
                                    assert(patch_key(out@[t2]) == a.attributes.spec_key_at(
                                        j as int,
                                    ));
                                    assert(!new.contains_key(patch_key(out@[t2])));
                                    if t1 < out_adds.len() {
                                        assert(out@[t1] == out_pre[t1]);
                                        assert(new.contains_key(patch_key(out_pre[t1])));
                                    }
                                    if t1 >= out_adds.len() {
                                        assert(out@[t1] == out_pre[t1]);
                                        let q = choose|q: int|
                                            0 <= q < j && patch_key(out_pre[t1])
                                                == a.attributes.spec_key_at(q);
                                        assert(a.attributes.spec_key_at(q)
                                            != a.attributes.spec_key_at(j as int));
                                    }
                                } else {
                                    assert(out@[t1] == out_pre[t1]);
                                    assert(out@[t2] == out_pre[t2]);
                                }
                            }
                        }
                        assert forall|k: Seq<char>| add_cond(new, oldm, k) implies has_add(
                            out@,
                            k,
                            new[k],
                        ) by {
                            let t = choose|t: int|
                                0 <= t < out_pre.len() && is_add(#[trigger] out_pre[t], k, new[k]);
                            assert(out@[t] == out_pre[t]);
                            assert(is_add(out@[t], k, new[k]));
                        }
                        assert forall|k: Seq<char>| rep_cond(new, oldm, k) implies has_replace(
                            out@,
                            k,
                            new[k],
                        ) by {
                            let t = choose|t: int|
                                0 <= t < out_pre.len() && is_replace(
                                    #[trigger] out_pre[t],
                                    k,
                                    new[k],
                                );
                            assert(out@[t] == out_pre[t]);
                            assert(is_replace(out@[t], k, new[k]));
                        }
                        assert forall|q: int|
                            0 <= q < j + 1 && rem_cond(
                                new,
                                oldm,
                                #[trigger] a.attributes.spec_key_at(q),
                            ) implies has_remove(out@, a.attributes.spec_key_at(q)) by {
                            let kq = a.attributes.spec_key_at(q);
                            if has_remove(out_pre, kq) {
                                let t = choose|t: int|
                                    0 <= t < out_pre.len() && is_remove(#[trigger] out_pre[t], kq);
                                assert(out@[t] == out_pre[t]);
                                assert(is_remove(out@[t], kq));
                            } else {
                                assert(q == j || has_remove(out_pre, kq));
                                if q == j && !present {
                                    assert(is_remove(out@[out@.len() - 1], kq));
                                }
                            }
                        }
                    }
                    j = j + 1;
                }
                proof {
                    a.attributes.lemma_positions();
                    assert forall|k: Seq<char>| rem_cond(new, oldm, k) implies has_remove(
                        out@,
                        k,
                    ) by {
                        let q = choose|q: int|
                            0 <= q < a.attributes.spec_len()
                                && #[trigger] a.attributes.spec_key_at(q) == k;
                    }
                }
            },
            None => {
                proof {
                    assert forall|k: Seq<char>| rem_cond(new, oldm, k) implies has_remove(
                        out@,
                        k,
                    ) by {
                        assert(!oldm.contains_key(k));
                    }
                }
            },
        }
        proof {
            if new == oldm {
                if out@.len() > 0 {
                    assert(patch_ok(out@[0], new, oldm));
                }
            }
        }
        out
    }

    /// Compute the single-slot patch for the `kind` control state.
    pub fn diff_kind(&self, ancestor: Option<&VTag>) -> (r: Option<Patch<String, ()>>)
        ensures
            slot_patch_ok(r, opt_view(self.kind), anc_kind(ancestor)),
    {
        match (&self.kind, kind_of_anc(ancestor)) {
            (Some(left), Some(right)) => {
                if !left.eq(right) {
                    Some(Patch::Replace(left.clone(), ()))
                } else {
                    None
                }
            },
            (Some(left), None) => Some(Patch::Add(left.clone(), ())),
            (None, Some(right)) => Some(Patch::Remove(right.clone())),
            (None, None) => None,
        }
    }

    /// Compute the single-slot patch for the `value` control state.
    pub fn diff_value(&self, ancestor: Option<&VTag>) -> (r: Option<Patch<String, ()>>)
        ensures
            slot_patch_ok(r, opt_view(self.value), anc_value(ancestor)),
    {
        match (&self.value, value_of_anc(ancestor)) {
            (Some(left), Some(right)) => {
                if !left.eq(right) {
                    Some(Patch::Replace(left.clone(), ()))
                } else {
                    None
                }
            },
            (Some(left), None) => Some(Patch::Add(left.clone(), ())),
            (None, Some(right)) => Some(Patch::Remove(right.clone())),
            (None, None) => None,
        }
    }
}

/// The single-slot diff is exact: an addition when the slot is newly set, a
/// replacement when it changed, a removal when it is gone, nothing when it
/// is unchanged.
pub open spec fn slot_patch_ok(
    r: Option<Patch<String, ()>>,
    newv: Option<Seq<char>>,
    oldv: Option<Seq<char>>,
) -> bool {
    match (newv, oldv) {
        (Some(nv), Some(ov)) => if nv != ov {
            r matches Some(p) && p matches Patch::Replace(k, _) && k@ == nv
        } else {
            r is None
        },
        (Some(nv), None) => r matches Some(p) && p matches Patch::Add(k, _) && k@ == nv,
        (None, Some(ov)) => r matches Some(p) && p matches Patch::Remove(k) && k@ == ov,
        (None, None) => r is None,
    }
}

/// The ancestor's `kind` slot, borrowed.
fn kind_of_anc<'a>(ancestor: Option<&'a VTag>) -> (r: Option<&'a String>)
    ensures
        opt_view_ref(r) == anc_kind(ancestor),
{
    match ancestor {
        Some(a) => match &a.kind {
            Some(k) => Some(k),
            None => None,
        },
        None => None,
    }
}

/// The ancestor's `value` slot, borrowed.
fn value_of_anc<'a>(ancestor: Option<&'a VTag>) -> (r: Option<&'a String>)
    ensures
        opt_view_ref(r) == anc_value(ancestor),
{
    match ancestor {
        Some(a) => match &a.value {
            Some(v) => Some(v),
            None => None,
        },
        None => None,
    }
}

/// The view of an optional borrowed string.
pub open spec fn opt_view_ref(o: Option<&String>) -> Option<Seq<char>> {
    match o {
        Some(s) => Some(s@),
        None => None,
    }
}

/// The attribute map after every pair of the list is inserted, in order.
pub open spec fn attrs_insert_all(
    m: Map<Seq<char>, Seq<char>>,
    s: Seq<(String, String)>,
) -> Map<Seq<char>, Seq<char>>
    decreases s.len(),
{
    if s.len() == 0 {
        m
    } else {
        attrs_insert_all(m.insert(s[0].0@, s[0].1@), s.drop_first())
    }
}

/// All fields but the children are the same.
pub open spec fn vtag_fields_except_children_eq(a: &VTag, b: &VTag) -> bool {
    &&& a.spec_tag() == b.spec_tag()
    &&& a.spec_element_type() == b.spec_element_type()
    &&& a.reference == b.reference
    &&& a.listeners == b.listeners
    &&& a.attributes == b.attributes
    &&& a.value == b.value
    &&& a.kind == b.kind
    &&& a.checked == b.checked
    &&& a.node_ref == b.node_ref
    &&& a.spec_captured() == b.spec_captured()
    &&& a.key == b.key
    &&& a.children.key == b.children.key
}

/// All fields but the `value` slot are the same.
pub open spec fn vtag_fields_except_value_eq(a: &VTag, b: &VTag) -> bool {
    &&& a.spec_tag() == b.spec_tag()
    &&& a.spec_element_type() == b.spec_element_type()
    &&& a.reference == b.reference
    &&& a.listeners == b.listeners
    &&& a.attributes == b.attributes
    &&& a.children == b.children
    &&& a.kind == b.kind
    &&& a.checked == b.checked
    &&& a.node_ref == b.node_ref
    &&& a.spec_captured() == b.spec_captured()
    &&& a.key == b.key
}

/// All fields but the `kind` slot are the same.
pub open spec fn vtag_fields_except_kind_eq(a: &VTag, b: &VTag) -> bool {
    &&& a.spec_tag() == b.spec_tag()
    &&& a.spec_element_type() == b.spec_element_type()
    &&& a.reference == b.reference
    &&& a.listeners == b.listeners
    &&& a.attributes == b.attributes
    &&& a.children == b.children
    &&& a.value == b.value
    &&& a.checked == b.checked
    &&& a.node_ref == b.node_ref
    &&& a.spec_captured() == b.spec_captured()
    &&& a.key == b.key
}

/// All fields but the `checked` slot are the same.
pub open spec fn vtag_fields_except_checked_eq(a: &VTag, b: &VTag) -> bool {
    &&& a.spec_tag() == b.spec_tag()
    &&& a.spec_element_type() == b.spec_element_type()
    &&& a.reference == b.reference
    &&& a.listeners == b.listeners
    &&& a.attributes == b.attributes
    &&& a.children == b.children
    &&& a.value == b.value
    &&& a.kind == b.kind
    &&& a.node_ref == b.node_ref
    &&& a.spec_captured() == b.spec_captured()
    &&& a.key == b.key
}

/// All fields but the attributes are the same.
pub open spec fn vtag_fields_except_attributes_eq(a: &VTag, b: &VTag) -> bool {
    &&& a.spec_tag() == b.spec_tag()
    &&& a.spec_element_type() == b.spec_element_type()
    &&& a.reference == b.reference
    &&& a.listeners == b.listeners
    &&& a.children == b.children
    &&& a.value == b.value
    &&& a.kind == b.kind
    &&& a.checked == b.checked
    &&& a.node_ref == b.node_ref
    &&& a.spec_captured() == b.spec_captured()
    &&& a.key == b.key
}

/// All fields but the listeners are the same.
pub open spec fn vtag_fields_except_listeners_eq(a: &VTag, b: &VTag) -> bool {
    &&& a.spec_tag() == b.spec_tag()
    &&& a.spec_element_type() == b.spec_element_type()
    &&& a.reference == b.reference
    &&& a.attributes == b.attributes
    &&& a.children == b.children
    &&& a.value == b.value
    &&& a.kind == b.kind
    &&& a.checked == b.checked
    &&& a.node_ref == b.node_ref
    &&& a.spec_captured() == b.spec_captured()
    &&& a.key == b.key
}

/// Context growth preserves element well-formedness.
pub proof fn lemma_vtag_wf_monotone(
    t: &VTag,
    t1: &LiveTree,
    r1: &NodeRefTable,
    t2: &LiveTree,
    r2: &NodeRefTable,
)
    requires
        t.wf_in(t1, r1),
        crate::live::tree_extends(t2, t1),
        r2.spec_len() >= r1.spec_len(),
    ensures
        t.wf_in(t2, r2),
    decreases 1 + vnodes_size(t.children.children@),
{
    assert forall|i: int|
        0 <= i < t.children.children@.len() implies (#[trigger] t.children.children@[i]).wf_in(
        t2,
        r2,
    ) by {
        crate::v_node::lemma_elem_size_le(t.children.children@, i);
        crate::v_node::lemma_wf_monotone(&t.children.children@[i], t1, r1, t2, r2);
    }
}

/// The patch has taken effect on the attribute map.
pub open spec fn patch_effect(p: Patch<String, String>, m: Map<Seq<char>, Seq<char>>) -> bool {
    match p {
        Patch::Add(k, v) => m.contains_key(k@) && m[k@] == v@,
        Patch::Replace(k, v) => m.contains_key(k@) && m[k@] == v@,
        Patch::Remove(k) => !m.contains_key(k@),
    }
}

/// The key is bound the same way in both maps.
pub open spec fn key_state_eq(
    m1: Map<Seq<char>, Seq<char>>,
    m0: Map<Seq<char>, Seq<char>>,
    k: Seq<char>,
) -> bool {
    m1.contains_key(k) == m0.contains_key(k) && (m0.contains_key(k) ==> m1[k] == m0[k])
}

impl VTag {
    /// Apply this element's computed patches to its live element: set or
    /// remove each patched attribute — never re-touching an unchanged key —
    /// patch the `kind` and `value` control slots of form controls, and
    /// unconditionally re-write `checked` on an input control.
    pub fn apply_diffs(&self, tree: &mut LiveTree, ancestor: Option<&VTag>)
        requires
            old(tree).wf(),
            self.local_wf(),
            self.reference matches Some(e) && old(tree).is_element(e),
            ancestor matches Some(a) ==> a.attributes.wf(),
        ensures
            final(tree).wf(),
            final(tree).spec_num_nodes() == old(tree).spec_num_nodes(),
            crate::live::tree_extends(final(tree), old(tree)),
            old(tree).spec_log().is_prefix_of(final(tree).spec_log()),
            forall|o: crate::live::LiveId|
                old(tree).valid(o) && o != (self.reference)->0 ==> final(tree).node_unchanged(
                    old(tree),
                    o,
                ),
            el_structure_unchanged(final(tree), old(tree), (self.reference)->0),
            // attributes, key by key
            forall|k: Seq<char>|
                #[trigger] add_cond(self.attributes@, anc_attrs(ancestor), k) ==> final(tree).attrs_of((self.reference)->0).contains_key(k) && final(tree).attrs_of(
                    (self.reference)->0,
                )[k] == self.attributes@[k],
            forall|k: Seq<char>|
                #[trigger] rep_cond(self.attributes@, anc_attrs(ancestor), k) ==> final(tree).attrs_of((self.reference)->0).contains_key(k) && final(tree).attrs_of(
                    (self.reference)->0,
                )[k] == self.attributes@[k],
            forall|k: Seq<char>|
                #[trigger] rem_cond(self.attributes@, anc_attrs(ancestor), k) ==> !final(tree).attrs_of((self.reference)->0).contains_key(k),
            forall|k: Seq<char>|
                !add_cond(self.attributes@, anc_attrs(ancestor), k) && !rep_cond(
                    self.attributes@,
                    anc_attrs(ancestor),
                    k,
                ) && !rem_cond(self.attributes@, anc_attrs(ancestor), k)
                    ==> #[trigger] key_state_eq(
                    final(tree).attrs_of((self.reference)->0),
                    old(tree).attrs_of((self.reference)->0),
                    k,
                ),
            // when the live attributes matched the ancestor, they now match
            // this element exactly
            old(tree).attrs_of((self.reference)->0) == anc_attrs(ancestor) ==> final(tree).attrs_of((self.reference)->0) == self.attributes@,
            // the kind slot, patched on inputs and buttons
            (self.spec_element_type() == ElementType::Input || self.spec_element_type()
                == ElementType::Button) ==> final(tree).kind_of((self.reference)->0) == slot_after(
                opt_view(self.kind),
                anc_kind(ancestor),
                old(tree).kind_of((self.reference)->0),
            ),
            !(self.spec_element_type() == ElementType::Input || self.spec_element_type()
                == ElementType::Button) ==> final(tree).kind_of((self.reference)->0) == old(tree).kind_of((self.reference)->0),
            // the value slot, patched on inputs and text areas
            (self.spec_element_type() == ElementType::Input || self.spec_element_type()
                == ElementType::Textarea) ==> final(tree).value_of((self.reference)->0)
                == slot_after(
                opt_view(self.value),
                anc_value(ancestor),
                old(tree).value_of((self.reference)->0),
            ),
            !(self.spec_element_type() == ElementType::Input || self.spec_element_type()
                == ElementType::Textarea) ==> final(tree).value_of((self.reference)->0) == old(tree).value_of((self.reference)->0),
            // checked is written on every pass over an input, unconditionally
            self.spec_element_type() == ElementType::Input ==> final(tree).checked_of(
                (self.reference)->0,
            ) == self.checked && exists|i: int|
                old(tree).spec_log().len() <= i < final(tree).spec_log().len() && final(tree).spec_log()[i] == (LiveOp::SetChecked {
                    node: (self.reference)->0,
                    checked: self.checked,
                }),
            self.spec_element_type() != ElementType::Input ==> final(tree).checked_of(
                (self.reference)->0,
            ) == old(tree).checked_of((self.reference)->0),
            // a structurally identical ancestor yields no write at all — the
            // log grows by exactly the one checked write on an input, and
            // not at all otherwise
            (self.attributes@ == anc_attrs(ancestor) && opt_view(self.kind) == anc_kind(ancestor)
                && opt_view(self.value) == anc_value(ancestor) && self.spec_element_type()
                != ElementType::Input) ==> *final(tree) == *old(tree),
            (self.attributes@ == anc_attrs(ancestor) && opt_view(self.kind) == anc_kind(ancestor)
                && opt_view(self.value) == anc_value(ancestor) && self.spec_element_type()
                == ElementType::Input) ==> final(tree).spec_log() == old(tree).spec_log().push(
                LiveOp::SetChecked { node: (self.reference)->0, checked: self.checked },
            ),
            // checked is written exactly once per pass: the extension's last
            // entry, and no other entry of the extension, writes it
            self.spec_element_type() == ElementType::Input ==> final(tree).spec_log().len() > old(tree).spec_log().len() && final(tree).spec_log().last() == (LiveOp::SetChecked {
                node: (self.reference)->0,
                checked: self.checked,
            }) && forall|i: int|
                old(tree).spec_log().len() <= i < final(tree).spec_log().len() - 1
                    ==> !((#[trigger] final(tree).spec_log()[i]) matches LiveOp::SetChecked { .. }),
            self.spec_element_type() != ElementType::Input ==> forall|i: int|
                old(tree).spec_log().len() <= i < final(tree).spec_log().len()
                    ==> !((#[trigger] final(tree).spec_log()[i]) matches LiveOp::SetChecked { .. }),
    {
        let el: LiveId = match self.reference {
            Some(e) => e,
            None => vstd::pervasive::unreached(),  // excluded by this function's requires
        };
        let patches = self.diff_attributes(ancestor);
        let ghost new = self.attributes@;
        let ghost oldm = anc_attrs(ancestor);
        let ghost attrs0 = tree.attrs_of(el);
        let ghost ps = patches@;
        let np = patches.len();
        let mut i: usize = 0;
        proof {
            crate::live::lemma_prefix_refl(old(tree).spec_log());
        }
        while i < np
            invariant
                tree.wf(),
                tree.is_element(el),
                tree.spec_num_nodes() == old(tree).spec_num_nodes(),
                crate::live::tree_extends(&tree, old(tree)),
                old(tree).spec_log().is_prefix_of(tree.spec_log()),
                forall|o: crate::live::LiveId|
                    old(tree).valid(o) && o != el ==> tree.node_unchanged(old(tree), o),
                el_structure_unchanged(tree, old(tree), el),
                tree.value_of(el) == old(tree).value_of(el),
                tree.kind_of(el) == old(tree).kind_of(el),
                tree.checked_of(el) == old(tree).checked_of(el),
                i <= np,
                np == ps.len(),
                ps == patches@,
                ps.len() == 0 ==> *tree == *old(tree),
                forall|q: int|
                    old(tree).spec_log().len() <= q < tree.spec_log().len()
                        ==> !((#[trigger] tree.spec_log()[q]) matches LiveOp::SetChecked { .. }),
                attrs0 == old(tree).attrs_of(el),
                forall|t: int| 0 <= t < ps.len() ==> patch_ok(#[trigger] ps[t], new, oldm),
                forall|t1: int, t2: int|
                    0 <= t1 < t2 < ps.len() ==> patch_key(#[trigger] ps[t1]) != patch_key(
                        #[trigger] ps[t2],
                    ),
                forall|j: int| 0 <= j < i ==> patch_effect(#[trigger] ps[j], tree.attrs_of(el)),
                forall|k: Seq<char>|
                    (forall|j: int| 0 <= j < i ==> patch_key(#[trigger] ps[j]) != k)
                        ==> #[trigger] key_state_eq(tree.attrs_of(el), attrs0, k),
            decreases np - i,
        {
            let ghost tree_pre = *tree;
            let p = &patches[i];
            match p {
                Patch::Add(k, v) => {
                    tree.set_attribute(el, k, v);
                },
                Patch::Replace(k, v) => {
                    tree.set_attribute(el, k, v);
                },
                Patch::Remove(k) => {
                    tree.remove_attribute(el, k);
                },
            }
            proof {
                crate::live::lemma_push_prefix(tree_pre.spec_log(), tree.spec_log().last());
                assert(tree.spec_log() == tree_pre.spec_log().push(tree.spec_log().last()));
                crate::live::lemma_prefix_steps(
                    old(tree).spec_log(),
                    tree_pre.spec_log(),
                    tree.spec_log(),
                );
                crate::live::lemma_tree_extends_trans(old(tree), &tree_pre, &tree);
                crate::live::lemma_frame_trans(old(tree), &tree_pre, &tree, el);
                assert forall|j: int|
                    0 <= j < i + 1 implies patch_effect(#[trigger] ps[j], tree.attrs_of(el)) by {
                    if j < i {
                        assert(patch_key(ps[j]) != patch_key(ps[i as int]));
                        assert(patch_effect(ps[j], tree_pre.attrs_of(el)));
                    }
                }
                assert forall|k: Seq<char>|
                    (forall|j: int| 0 <= j < i + 1 ==> patch_key(#[trigger] ps[j]) != k)
                        implies #[trigger] key_state_eq(tree.attrs_of(el), attrs0, k) by {
                    assert(patch_key(ps[i as int]) != k);
                    assert(key_state_eq(tree_pre.attrs_of(el), attrs0, k));
                }
            }
            i = i + 1;
        }
        proof {
            assert forall|k: Seq<char>| add_cond(new, oldm, k) implies tree.attrs_of(
                el,
            ).contains_key(k) && tree.attrs_of(el)[k] == new[k] by {
                assert(has_add(ps, k, new[k]));
                let t = choose|t: int| 0 <= t < ps.len() && is_add(#[trigger] ps[t], k, new[k]);
                assert(patch_effect(ps[t], tree.attrs_of(el)));
            }
            assert forall|k: Seq<char>| rep_cond(new, oldm, k) implies tree.attrs_of(
                el,
            ).contains_key(k) && tree.attrs_of(el)[k] == new[k] by {
                assert(has_replace(ps, k, new[k]));
                let t = choose|t: int|
                    0 <= t < ps.len() && is_replace(#[trigger] ps[t], k, new[k]);
                assert(patch_effect(ps[t], tree.attrs_of(el)));
            }
            assert forall|k: Seq<char>| rem_cond(new, oldm, k) implies !tree.attrs_of(
                el,
            ).contains_key(k) by {
                assert(has_remove(ps, k));
                let t = choose|t: int| 0 <= t < ps.len() && is_remove(#[trigger] ps[t], k);
                assert(patch_effect(ps[t], tree.attrs_of(el)));
            }
            assert forall|k: Seq<char>|
                !add_cond(new, oldm, k) && !rep_cond(new, oldm, k) && !rem_cond(new, oldm, k)
                    implies #[trigger] key_state_eq(tree.attrs_of(el), attrs0, k) by {
                assert forall|j: int| 0 <= j < np implies patch_key(#[trigger] ps[j]) != k by {
                    assert(patch_ok(ps[j], new, oldm));
                }
            }
            if attrs0 == oldm {
                assert forall|k: Seq<char>| #[trigger]
                    tree.attrs_of(el).contains_key(k) == new.contains_key(k) && (new.contains_key(
                        k,
                    ) ==> tree.attrs_of(el)[k] == new[k]) by {
                    if add_cond(new, oldm, k) || rep_cond(new, oldm, k) {
                    } else if rem_cond(new, oldm, k) {
                    } else {
                        assert(key_state_eq(tree.attrs_of(el), attrs0, k));
                    }
                }
                assert(tree.attrs_of(el) =~= new);
            }
        }
        let ghost tree_attrs_done = *tree;
        // the kind slot: inputs and buttons
        if self.element_type == ElementType::Input || self.element_type == ElementType::Button {
            let change = self.diff_kind(ancestor);
            match change {
                Some(p) => {
                    let ghost tree_pre = *tree;
                    match p {
                        Patch::Add(k, _) => {
                            tree.set_kind(el, &k);
                        },
                        Patch::Replace(k, _) => {
                            tree.set_kind(el, &k);
                        },
                        Patch::Remove(_) => {
                            let empty = String::new();
                            tree.set_kind(el, &empty);
                        },
                    }
                    proof {
                        crate::live::lemma_push_prefix(tree_pre.spec_log(), tree.spec_log().last());
                        assert(tree.spec_log() == tree_pre.spec_log().push(tree.spec_log().last()));
                        crate::live::lemma_prefix_steps(
                            old(tree).spec_log(),
                            tree_pre.spec_log(),
                            tree.spec_log(),
                        );
                        crate::live::lemma_tree_extends_trans(old(tree), &tree_pre, &tree);
                        crate::live::lemma_frame_trans(old(tree), &tree_pre, &tree, el);
                    }
                },
                None => {},
            }
        }
        // the value slot: inputs and text areas
        if self.element_type == ElementType::Input || self.element_type == ElementType::Textarea {
            let change = self.diff_value(ancestor);
            match change {
                Some(p) => {
                    let ghost tree_pre = *tree;
                    match p {
                        Patch::Add(v, _) => {
                            tree.set_value(el, &v);
                        },
                        Patch::Replace(v, _) => {
                            tree.set_value(el, &v);
                        },
                        Patch::Remove(_) => {
                            let empty = String::new();
                            tree.set_value(el, &empty);
                        },
                    }
                    proof {
                        crate::live::lemma_push_prefix(tree_pre.spec_log(), tree.spec_log().last());
                        assert(tree.spec_log() == tree_pre.spec_log().push(tree.spec_log().last()));
                        crate::live::lemma_prefix_steps(
                            old(tree).spec_log(),
                            tree_pre.spec_log(),
                            tree.spec_log(),
                        );
                        crate::live::lemma_tree_extends_trans(old(tree), &tree_pre, &tree);
                        crate::live::lemma_frame_trans(old(tree), &tree_pre, &tree, el);
                    }
                },
                None => {},
            }
        }
        // checked: written on every pass over an input, to keep the live
        // control authoritative whatever the host did meanwhile
        if self.element_type == ElementType::Input {
            let ghost tree_pre = *tree;
            tree.set_checked(el, self.checked);
            proof {
                crate::live::lemma_push_prefix(
                    tree_pre.spec_log(),
                    LiveOp::SetChecked { node: el, checked: self.checked },
                );
                crate::live::lemma_prefix_steps(
                    old(tree).spec_log(),
                    tree_pre.spec_log(),
                    tree.spec_log(),
                );
                crate::live::lemma_tree_extends_trans(old(tree), &tree_pre, &tree);
                crate::live::lemma_frame_trans(old(tree), &tree_pre, &tree, el);
                assert(tree.spec_log()[tree.spec_log().len() - 1] == (LiveOp::SetChecked {
                    node: el,
                    checked: self.checked,
                }));
            }
        }
    }

    /// Create the live element for this node under `parent`: in the
    /// vector-graphics namespace when the tag or the parent calls for it.
    pub fn create_element_in(&self, tree: &mut LiveTree, parent: LiveId) -> (el: LiveId)
        requires
            old(tree).wf(),
            old(tree).is_element(parent),
        ensures
            final(tree).wf(),
            el == old(tree).spec_num_nodes(),
            final(tree).spec_num_nodes() == old(tree).spec_num_nodes() + 1,
            final(tree).is_element(el),
            final(tree).tag_of(el) == self.spec_tag(),
            final(tree).svg_of(el) == (is_svg_tag(self.spec_tag()) || old(tree).svg_of(parent)),
            final(tree).attrs_of(el) == Map::<Seq<char>, Seq<char>>::empty(),
            final(tree).value_of(el) == Seq::<char>::empty(),
            final(tree).kind_of(el) == Seq::<char>::empty(),
            final(tree).checked_of(el) == false,
            final(tree).listeners_of(el) == Seq::<u64>::empty(),
            final(tree).children_of(el) == Seq::<LiveId>::empty(),
            forall|o: LiveId| old(tree).valid(o) ==> final(tree).node_unchanged(old(tree), o),
            final(tree).spec_log() == old(tree).spec_log().push(
                LiveOp::CreatedElement { node: el },
            ),
    {
        let svg = is_svg_tag_exec(self.tag.as_str()) || tree.read_svg(parent);
        tree.create_element(self.tag.clone(), svg)
    }

    /// Release every listener attached on the previous pass and freshly
    /// attach every listener of this node, keeping the new handles so the
    /// next pass can release them in turn. Listeners are not diffed.
    pub fn recreate_listeners(&mut self, tree: &mut LiveTree)
        requires
            old(tree).wf(),
            old(self).reference matches Some(e) && old(tree).is_element(e),
        ensures
            final(tree).wf(),
            final(tree).spec_num_nodes() == old(tree).spec_num_nodes(),
            crate::live::tree_extends(final(tree), old(tree)),
            old(tree).spec_log().is_prefix_of(final(tree).spec_log()),
            final(tree).listeners_of((old(self).reference)->0) == old(self).listeners@,
            final(self).listeners@ == Seq::<u64>::empty(),
            final(self).spec_captured() == old(self).listeners@,
            final(self).spec_tag() == old(self).spec_tag(),
            final(self).spec_element_type() == old(self).spec_element_type(),
            final(self).reference == old(self).reference,
            final(self).attributes == old(self).attributes,
            final(self).children == old(self).children,
            final(self).value == old(self).value,
            final(self).kind == old(self).kind,
            final(self).checked == old(self).checked,
            final(self).node_ref == old(self).node_ref,
            final(self).key == old(self).key,
            forall|o: LiveId|
                old(tree).valid(o) && o != (old(self).reference)->0 ==> final(tree).node_unchanged(
                    old(tree),
                    o,
                ),
            el_structure_listeners_unchanged(final(tree), old(tree), (old(self).reference)->0),
    {
        let el: LiveId = match self.reference {
            Some(e) => e,
            None => vstd::pervasive::unreached(),  // excluded by this function's requires
        };
        tree.clear_listeners(el);
        proof {
            crate::live::lemma_push_prefix(
                old(tree).spec_log(),
                LiveOp::ClearedListeners { node: el },
            );
        }
        let n = self.listeners.len();
        let mut i: usize = 0;
        while i < n
            invariant
                tree.wf(),
                tree.is_element(el),
                tree.spec_num_nodes() == old(tree).spec_num_nodes(),
                crate::live::tree_extends(&tree, old(tree)),
                old(tree).spec_log().is_prefix_of(tree.spec_log()),
                i <= n,
                n == self.listeners@.len(),
                *self == *old(self),
                tree.listeners_of(el) == old(self).listeners@.subrange(0, i as int),
                forall|o: LiveId|
                    old(tree).valid(o) && o != el ==> tree.node_unchanged(old(tree), o),
                el_structure_listeners_unchanged(tree, old(tree), el),
            decreases n - i,
        {
            let ghost tree_pre = *tree;
            tree.attach_listener(el, self.listeners[i]);
            proof {
                crate::live::lemma_push_prefix(
                    tree_pre.spec_log(),
                    LiveOp::AttachedListener { node: el, listener: self.listeners@[i as int] },
                );
                crate::live::lemma_prefix_steps(
                    old(tree).spec_log(),
                    tree_pre.spec_log(),
                    tree.spec_log(),
                );
                crate::live::lemma_tree_extends_trans(old(tree), &tree_pre, &tree);
                crate::live::lemma_frame_trans(old(tree), &tree_pre, &tree, el);
                assert(tree.listeners_of(el) =~= old(self).listeners@.subrange(0, i + 1));
            }
            i = i + 1;
        }
        proof {
            assert(old(self).listeners@.subrange(0, n as int) =~= old(self).listeners@);
        }
        let mut cap: Vec<u64> = Vec::new();
        let mut j: usize = 0;
        while j < n
            invariant
                j <= n,
                n == self.listeners@.len(),
                *self == *old(self),
                cap@ == self.listeners@.subrange(0, j as int),
            decreases n - j,
        {
            cap.push(self.listeners[j]);
            proof {
                assert(cap@ =~= self.listeners@.subrange(0, j + 1));
            }
            j = j + 1;
        }
        proof {
            assert(self.listeners@.subrange(0, n as int) =~= self.listeners@);
        }
        self.captured = cap;
        self.listeners = Vec::new();
    }

    /// Remove this element's live subtree from `parent`: the children are
    /// detached first, recursively, then the element itself is removed.
    pub fn detach(self, ctx: &mut DomContext, parent: LiveId)
        requires
            old(ctx).wf(),
            old(ctx).tree.is_element(parent),
            self.wf_in(&old(ctx).tree, &old(ctx).refs),
            self.rendered(),
        ensures
            final(ctx).wf(),
            crate::dom::ctx_extends(final(ctx), old(ctx)),
            final(ctx).tree.spec_num_nodes() == old(ctx).tree.spec_num_nodes(),
            final(ctx).refs == old(ctx).refs,
            old(ctx).tree.spec_log().is_prefix_of(final(ctx).tree.spec_log()),
            detach_sched_ok(old(ctx), final(ctx)),
            forall|o: crate::live::LiveId|
                old(ctx).tree.valid(o) ==> #[trigger] final(ctx).tree.node_state_unchanged(&old(ctx).tree, o),
            // the element's live root leaves the parent's children
            self.avoids(parent) ==> final(ctx).tree.children_of(parent) == old(
                ctx,
            ).tree.children_of(parent).remove_value((self.reference)->0),
            forall|o: crate::live::LiveId|
                old(ctx).tree.valid(o) && o != parent && self.avoids(o)
                    ==> #[trigger] final(ctx).tree.children_of(o) == old(ctx).tree.children_of(o),
        decreases 2 + vnodes_size(self.children.children@), 0int,
    {
        let el: LiveId = match self.reference {
            Some(e) => e,
            None => vstd::pervasive::unreached(),  // excluded by this function's requires
        };
        let VTag { children, .. } = self;
        children.detach(ctx, el);
        let ghost mid = *ctx;
        let r = ctx.tree.remove_child(parent, el);
        proof {
            if r {
                crate::live::lemma_push_prefix(
                    mid.tree.spec_log(),
                    LiveOp::Removed { parent, node: el },
                );
            } else {
                crate::live::lemma_prefix_refl(mid.tree.spec_log());
            }
            crate::live::lemma_prefix_steps(
                old(ctx).tree.spec_log(),
                mid.tree.spec_log(),
                ctx.tree.spec_log(),
            );
            assert forall|o: LiveId|
                old(ctx).tree.valid(o) implies ctx.tree.node_state_unchanged(
                &old(ctx).tree,
                o,
            ) by {
                assert(mid.tree.node_state_unchanged(&old(ctx).tree, o));
                assert(mid.tree.valid(o));
                if o != parent {
                    assert(ctx.tree.node_unchanged(&mid.tree, o));
                }
            }
            assert forall|o: LiveId|
                old(ctx).tree.valid(o) && o != parent && self.avoids(o)
                    implies #[trigger] ctx.tree.children_of(o) == old(ctx).tree.children_of(o) by {
                assert(mid.tree.children_of(o) == old(ctx).tree.children_of(o));
                assert(mid.tree.valid(o));
                assert(ctx.tree.node_unchanged(&mid.tree, o));
            }
        }
    }

    /// Reconcile this element against the ancestor at its position. An
    /// ancestor element with the same tag name keeps its live element — the
    /// central reuse rule — and only patches are applied to it; any other
    /// ancestor is replaced: a fresh element is created and inserted before
    /// the ancestor's first live node, and the ancestor is detached. Then
    /// the attribute and control patches are applied, the listeners are
    /// re-attached, and the children are reconciled positionally.
    pub fn apply(
        self,
        ctx: &mut DomContext,
        parent: LiveId,
        next_sibling: NodeRef,
        ancestor: Option<VNode>,
    ) -> (res: (VTag, NodeRef))
        requires
            old(ctx).wf(),
            old(ctx).tree.is_element(parent),
            next_sibling.valid(&old(ctx).refs),
            self.wf_in(&old(ctx).tree, &old(ctx).refs),
            self.pristine(),
            ancestor matches Some(a) ==> a.wf_in(&old(ctx).tree, &old(ctx).refs) && a.rendered(),
        ensures
            final(ctx).wf(),
            crate::dom::ctx_extends(final(ctx), old(ctx)),
            old(ctx).tree.spec_log().is_prefix_of(final(ctx).tree.spec_log()),
            res.0.wf_in(&final(ctx).tree, &final(ctx).refs),
            res.0.rendered(),
            res.0.reference matches Some(e) && final(ctx).tree.is_element(e),
            res.1.valid(&final(ctx).refs),
            final(ctx).refs.resolved(res.1) == Some((res.0.reference)->0),
            final(ctx).sched.main_queue() == old(ctx).sched.main_queue(),
            res.0.spec_tag() == self.spec_tag(),
            res.0.spec_element_type() == self.spec_element_type(),
            res.0.attributes == self.attributes,
            res.0.value == self.value,
            res.0.kind == self.kind,
            res.0.checked == self.checked,
            res.0.key == self.key,
            res.0.spec_captured() == self.listeners@,
            res.0.children.children@.len() == self.children.children@.len(),
            // identity-preserving reuse: an ancestor element with the same
            // tag name keeps its very live element
            match ancestor {
                Some(VNode::VTag(at)) => at.spec_tag() == self.spec_tag() ==> res.0.reference
                    == at.reference,
                _ => true,
            },
            // checked-always-write: an input control's checked state is
            // written on every pass
            self.spec_element_type() == ElementType::Input ==> exists|i: int|
                old(ctx).tree.spec_log().len() <= i < final(ctx).tree.spec_log().len() && final(ctx).tree.spec_log()[i] == (LiveOp::SetChecked {
                    node: (res.0.reference)->0,
                    checked: self.checked,
                }),
            res.0.node_ref == Some(res.1),
            // a caller-supplied reference cell is the very cell handed back
            self.node_ref matches Some(r0) ==> res.1 == r0,
            // nothing but the parent's children list, the ancestor's own
            // live nodes and fresh nodes is touched
            crate::v_node::opt_avoids(ancestor, parent) ==> final(ctx).tree.node_state_unchanged(
                &old(ctx).tree,
                parent,
            ),
            forall|o: LiveId|
                old(ctx).tree.valid(o) && o != parent && crate::v_node::opt_avoids(ancestor, o)
                    ==> #[trigger] final(ctx).tree.node_unchanged(&old(ctx).tree, o),
            // a fresh element — no ancestor, or a replaced one of another
            // shape — carries exactly this node's tag, attributes, control
            // state and listeners
            (match ancestor {
                Some(a) => !tag_matched(a, self.spec_tag()),
                None => true,
            }) ==> {
                &&& (res.0.reference)->0 == old(ctx).tree.spec_num_nodes()
                &&& final(ctx).tree.tag_of((res.0.reference)->0) == self.spec_tag()
                &&& final(ctx).tree.svg_of((res.0.reference)->0) == (is_svg_tag(self.spec_tag())
                    || old(ctx).tree.svg_of(parent))
                &&& final(ctx).tree.attrs_of((res.0.reference)->0) == self.attributes@
                &&& final(ctx).tree.listeners_of((res.0.reference)->0) == self.listeners@
                &&& ((self.spec_element_type() == ElementType::Input || self.spec_element_type()
                    == ElementType::Textarea) ==> final(ctx).tree.value_of((res.0.reference)->0)
                    == opt_or_empty(self.value))
                &&& ((self.spec_element_type() == ElementType::Input || self.spec_element_type()
                    == ElementType::Button) ==> final(ctx).tree.kind_of((res.0.reference)->0)
                    == opt_or_empty(self.kind))
                &&& (self.spec_element_type() == ElementType::Input ==> final(ctx).tree.checked_of(
                    (res.0.reference)->0,
                ) == self.checked)
            },
            // with no ancestor the fresh element lands right before the hint
            (ancestor is None) ==> final(ctx).tree.children_of(parent)
                == crate::live::insert_before_spec(
                old(ctx).tree.children_of(parent),
                (res.0.reference)->0,
                old(ctx).refs.resolved(next_sibling),
            ),
            // no reference cell outside this subtree's own is written
            forall|hr: NodeRef|
                hr.valid(&old(ctx).refs) && self.nr_avoids(hr)
                    ==> #[trigger] final(ctx).refs.node_of(hr) == old(ctx).refs.node_of(hr)
                    && final(ctx).refs.link_of(hr) == old(ctx).refs.link_of(hr),
            // a fresh element built from an import-free subtree carries its
            // applied children's live roots in sibling order
            ((match ancestor {
                Some(a) => !tag_matched(a, self.spec_tag()),
                None => true,
            }) && self.vref_free()) ==> final(ctx).tree.children_of((res.0.reference)->0)
                == crate::v_node::root_ids_list(res.0.children.children@),
            // the replacement is inserted before the ancestor's first live
            // node, then the ancestor is detached
            (match ancestor {
                Some(a) => !tag_matched(a, self.spec_tag()) && a.avoids(parent),
                None => false,
            }) ==> final(ctx).tree.children_of(parent) == (ancestor->0).detached_from(
                crate::live::insert_before_spec(
                    old(ctx).tree.children_of(parent),
                    (res.0.reference)->0,
                    (ancestor->0).spec_first_node(&old(ctx).refs),
                ),
            ),
            // reuse: the kept element is patched in place — exactly, when
            // the ancestor's subtree is free of self-reference
            (match ancestor {
                Some(a) => match a {
                    VNode::VTag(at) => (at.spec_tag() == self.spec_tag() && at.avoids(parent)
                        && at.children.avoids((at.reference)->0)) ==> {
                        &&& final(ctx).tree.children_of(parent) == old(ctx).tree.children_of(parent)
                        &&& final(ctx).tree.listeners_of((res.0.reference)->0) == self.listeners@
                        &&& (old(ctx).tree.attrs_of((at.reference)->0) == at.attributes@ ==> final(ctx).tree.attrs_of((res.0.reference)->0) == self.attributes@)
                        &&& ((self.spec_element_type() == ElementType::Input
                            || self.spec_element_type() == ElementType::Textarea) ==> final(ctx).tree.value_of((res.0.reference)->0) == opt_or_empty(self.value))
                        &&& ((self.spec_element_type() == ElementType::Input
                            || self.spec_element_type() == ElementType::Button) ==> final(ctx).tree.kind_of((res.0.reference)->0) == slot_after(
                            opt_view(self.kind),
                            opt_view(at.kind),
                            old(ctx).tree.kind_of((at.reference)->0),
                        ))
                        &&& (self.spec_element_type() == ElementType::Input ==> final(ctx).tree.checked_of((res.0.reference)->0) == self.checked)
                    },
                    _ => true,
                },
                None => true,
            }),
        decreases 2 + vnodes_size(self.children.children@), 0int,
    {
        let mut this = self;
        let ghost fresh_case = spec_fresh_case(&ancestor, self.spec_tag());
        let ghost mut pos_g: Option<LiveId> = None;
        let mut anc_owned: Option<VTag> = None;
        match ancestor {
            None => {
                proof {
                    crate::live::lemma_prefix_refl(ctx.tree.spec_log());
                }
            },
            Some(anc) => {
                let tag_match: bool = match &anc {
                    VNode::VTag(at) => this.tag.eq(&at.tag),
                    _ => false,
                };
                if tag_match {
                    match anc {
                        VNode::VTag(at) => {
                            anc_owned = Some(*at);
                        },
                        _ => {},
                    }
                    proof {
                        crate::live::lemma_prefix_refl(ctx.tree.spec_log());
                    }
                } else {
                    // replace: create fresh, insert before the ancestor's
                    // first live node, then drop the ancestor's subtree
                    let el = this.create_element_in(&mut ctx.tree, parent);
                    proof {
                        crate::v_node::lemma_avoids_fresh(&anc, &old(ctx).tree, &old(ctx).refs, el);
                    }
                    let ghost tcre = *ctx;
                    let ghost log1 = ctx.tree.spec_log();
                    proof {
                        crate::v_node::lemma_wf_monotone(
                            &anc,
                            &old(ctx).tree,
                            &old(ctx).refs,
                            &ctx.tree,
                            &ctx.refs,
                        );
                    }
                    let pos = anc.first_node(&ctx.tree, &ctx.refs);
                    proof {
                        old(ctx).tree.lemma_children_bounded(parent);
                        assert(ctx.tree.node_unchanged(&old(ctx).tree, parent));
                        assert(!ctx.tree.children_of(parent).contains(el)) by {
                            if ctx.tree.children_of(parent).contains(el) {
                                let q = choose|q: int|
                                    0 <= q < ctx.tree.children_of(parent).len()
                                        && ctx.tree.children_of(parent)[q] == el;
                                assert(old(ctx).tree.children_of(parent)[q] == el);
                            }
                        }
                        crate::live::lemma_push_prefix(
                            old(ctx).tree.spec_log(),
                            LiveOp::CreatedElement { node: el },
                        );
                    }
                    ctx.tree.insert_node(parent, el, pos);
                    let ghost mid = *ctx;
                    proof {
                        crate::live::lemma_push_prefix(
                            log1,
                            LiveOp::Inserted { parent, node: el, before: pos },
                        );
                        crate::live::lemma_prefix_steps(
                            old(ctx).tree.spec_log(),
                            log1,
                            ctx.tree.spec_log(),
                        );
                        crate::live::lemma_tree_extends_trans(
                            &old(ctx).tree,
                            &tcre.tree,
                            &ctx.tree,
                        );
                        crate::v_node::lemma_wf_monotone(
                            &anc,
                            &old(ctx).tree,
                            &old(ctx).refs,
                            &ctx.tree,
                            &ctx.refs,
                        );
                    }
                    proof {
                        assert(ctx.tree.node_unchanged(&tcre.tree, el));
                        assert(ctx.tree.is_element(el));
                    }
                    this.reference = Some(el);
                    anc.detach(ctx, parent);
                    proof {
                        crate::live::lemma_prefix_steps(
                            old(ctx).tree.spec_log(),
                            mid.tree.spec_log(),
                            ctx.tree.spec_log(),
                        );
                        crate::live::lemma_tree_extends_trans(
                            &old(ctx).tree,
                            &mid.tree,
                            &ctx.tree,
                        );
                        assert(ctx.tree.node_state_unchanged(&mid.tree, el));
                        assert(ctx.tree.is_element(el));
                        // the fresh element still carries its creation state
                        assert(mid.tree.node_unchanged(&tcre.tree, el));
                        assert(ctx.tree.children_of(el) == mid.tree.children_of(el));
                        assert(ctx.tree.attrs_of(el) == Map::<Seq<char>, Seq<char>>::empty());
                        assert(ctx.tree.value_of(el) == Seq::<char>::empty());
                        assert(ctx.tree.kind_of(el) == Seq::<char>::empty());
                        assert(ctx.tree.checked_of(el) == false);
                        assert(ctx.tree.listeners_of(el) == Seq::<u64>::empty());
                        assert(ctx.tree.children_of(el) == Seq::<LiveId>::empty());
                        assert(ctx.tree.tag_of(el) == self.spec_tag());
                        assert(ctx.tree.svg_of(el) == (is_svg_tag(self.spec_tag())
                            || old(ctx).tree.svg_of(parent)));
                        // nothing else was touched beyond the parent and the
                        // ancestor's own nodes
                        assert forall|o: LiveId|
                            old(ctx).tree.valid(o) && o != parent && crate::v_node::opt_avoids(
                                ancestor,
                                o,
                            ) implies #[trigger] ctx.tree.node_unchanged(&old(ctx).tree, o) by {
                            assert(tcre.tree.node_unchanged(&old(ctx).tree, o));
                            assert(tcre.tree.valid(o));
                            assert(mid.tree.node_unchanged(&tcre.tree, o));
                            assert(mid.tree.valid(o));
                            assert(ctx.tree.node_state_unchanged(&mid.tree, o));
                            assert(ctx.tree.children_of(o) == mid.tree.children_of(o));
                        }
                        if crate::v_node::opt_avoids(ancestor, parent) {
                            assert(tcre.tree.node_unchanged(&old(ctx).tree, parent));
                            assert(tcre.tree.valid(parent));
                            assert(mid.tree.node_state_unchanged(&tcre.tree, parent));
                            assert(ctx.tree.node_state_unchanged(&mid.tree, parent));
                            // placement: inserted before the ancestor's first
                            // node, then the ancestor left
                            assert(mid.tree.children_of(parent)
                                == crate::live::insert_before_spec(
                                old(ctx).tree.children_of(parent),
                                el,
                                pos,
                            ));
                            assert(ctx.tree.children_of(parent) == (ancestor->0).detached_from(
                                crate::live::insert_before_spec(
                                    old(ctx).tree.children_of(parent),
                                    el,
                                    pos,
                                ),
                            ));
                        }
                        pos_g = pos;
                        assert(pos_g == (ancestor->0).spec_first_node(&old(ctx).refs));
                    }
                }
            },
        }
        let ghost ctx_a = *ctx;
        proof {
            assert(crate::live::tree_extends(&ctx_a.tree, &old(ctx).tree));
            assert(ctx_a.refs.spec_len() >= old(ctx).refs.spec_len());
        }
        // refresh the matched ancestor's value from the live control and
        // keep its live element
        let anc_ready: Option<VTag> = match anc_owned {
            Some(at) => {
                let mut at2 = at;
                let ghost at_pre = at2;
                at2.refresh_value(&ctx.tree);
                this.reference = at2.reference;
                proof {
                    assert(at2.spec_element_type() == element_type_of(at_pre.spec_tag()));
                    assert(at2.spec_element_type() == self.spec_element_type());
                    assert(at2.attributes == at_pre.attributes);
                    assert(at2.kind == at_pre.kind);
                    assert(at2.reference == at_pre.reference);
                    assert(at2.children == at_pre.children);
                    if at_pre.spec_element_type() == ElementType::Input
                        || at_pre.spec_element_type() == ElementType::Textarea {
                        assert(at2.value matches Some(v) && v@ == ctx.tree.value_of(
                            (at_pre.reference)->0,
                        ));
                    }
                }
                Some(at2)
            },
            None => {
                if this.reference.is_none() {
                    let el = this.create_element_in(&mut ctx.tree, parent);
                    let ghost tcre2 = *ctx;
                    let ghost log1 = ctx.tree.spec_log();
                    let pos = next_sibling.get(&ctx.refs);
                    proof {
                        ctx_a.tree.lemma_children_bounded(parent);
                        assert(ctx.tree.node_unchanged(&ctx_a.tree, parent));
                        assert(!ctx.tree.children_of(parent).contains(el)) by {
                            if ctx.tree.children_of(parent).contains(el) {
                                let q = choose|q: int|
                                    0 <= q < ctx.tree.children_of(parent).len()
                                        && ctx.tree.children_of(parent)[q] == el;
                                assert(ctx_a.tree.children_of(parent)[q] == el);
                            }
                        }
                        crate::live::lemma_push_prefix(
                            ctx_a.tree.spec_log(),
                            LiveOp::CreatedElement { node: el },
                        );
                    }
                    ctx.tree.insert_node(parent, el, pos);
                    proof {
                        crate::live::lemma_push_prefix(
                            log1,
                            LiveOp::Inserted { parent, node: el, before: pos },
                        );
                        crate::live::lemma_prefix_steps(
                            ctx_a.tree.spec_log(),
                            log1,
                            ctx.tree.spec_log(),
                        );
                        crate::live::lemma_prefix_steps(
                            old(ctx).tree.spec_log(),
                            ctx_a.tree.spec_log(),
                            ctx.tree.spec_log(),
                        );
                        crate::live::lemma_tree_extends_trans(
                            &ctx_a.tree,
                            &tcre2.tree,
                            &ctx.tree,
                        );
                        crate::live::lemma_tree_extends_trans(
                            &old(ctx).tree,
                            &ctx_a.tree,
                            &ctx.tree,
                        );
                        assert(ctx.tree.node_unchanged(&tcre2.tree, el));
                        assert(ctx.tree.is_element(el));
                        assert(ctx.tree.attrs_of(el) == Map::<Seq<char>, Seq<char>>::empty());
                        assert(ctx.tree.value_of(el) == Seq::<char>::empty());
                        assert(ctx.tree.kind_of(el) == Seq::<char>::empty());
                        assert(ctx.tree.checked_of(el) == false);
                        assert(ctx.tree.listeners_of(el) == Seq::<u64>::empty());
                        assert(ctx.tree.tag_of(el) == self.spec_tag());
                        assert(ctx.tree.svg_of(el) == (is_svg_tag(self.spec_tag())
                            || ctx_a.tree.svg_of(parent)));
                        assert(ctx.tree.children_of(parent) == crate::live::insert_before_spec(
                            ctx_a.tree.children_of(parent),
                            el,
                            pos,
                        ));
                        assert forall|o: LiveId|
                            ctx_a.tree.valid(o) && o != parent implies #[trigger] ctx.tree.node_unchanged(
                            &ctx_a.tree,
                            o,
                        ) by {
                            assert(tcre2.tree.node_unchanged(&ctx_a.tree, o));
                            assert(tcre2.tree.valid(o));
                            assert(ctx.tree.node_unchanged(&tcre2.tree, o));
                        }
                        assert(ctx.tree.node_state_unchanged(&ctx_a.tree, parent));
                    }
                    this.reference = Some(el);
                }
                None
            },
        };
        let el: LiveId = match this.reference {
            Some(e) => e,
            None => vstd::pervasive::unreached(),  // both branches set the reference
        };
        let ghost ctx_b = *ctx;
        proof {
            assert(crate::live::tree_extends(&ctx_b.tree, &old(ctx).tree));
            assert(ctx_b.refs.spec_len() >= old(ctx).refs.spec_len());
            assert(ctx.tree.is_element(el));
        }
        // apply the attribute and control patches
        let anc_ref: Option<&VTag> = match &anc_ready {
            Some(a) => Some(a),
            None => None,
        };
        this.apply_diffs(&mut ctx.tree, anc_ref);
        proof {
            crate::live::lemma_prefix_steps(
                old(ctx).tree.spec_log(),
                ctx_b.tree.spec_log(),
                ctx.tree.spec_log(),
            );
            crate::live::lemma_tree_extends_trans(&old(ctx).tree, &ctx_b.tree, &ctx.tree);
            assert(ctx.tree.is_element(el));
            if fresh_case {
                assert(anc_ref is None);
                assert(ctx_b.tree.attrs_of(el) =~= anc_attrs(anc_ref));
                assert(ctx.tree.attrs_of(el) == this.attributes@);
                if self.spec_element_type() == ElementType::Input || self.spec_element_type()
                    == ElementType::Textarea {
                    assert(ctx.tree.value_of(el) == opt_or_empty(this.value));
                }
                if self.spec_element_type() == ElementType::Input || self.spec_element_type()
                    == ElementType::Button {
                    assert(ctx.tree.kind_of(el) == opt_or_empty(this.kind));
                }
            } else {
                assert(anc_ref matches Some(a2) && (old(ctx).tree.attrs_of(el) == a2.attributes@
                    ==> ctx.tree.attrs_of(el) == this.attributes@));
                if self.spec_element_type() == ElementType::Input || self.spec_element_type()
                    == ElementType::Textarea {
                    assert(ctx.tree.value_of(el) == opt_or_empty(this.value));
                }
            }
            if self.spec_element_type() == ElementType::Input {
                assert(ctx.tree.checked_of(el) == this.checked);
            }
        }
        let ghost ctx_c = *ctx;
        // release the previous pass's listeners, attach this pass's
        this.recreate_listeners(&mut ctx.tree);
        proof {
            crate::live::lemma_prefix_steps(
                old(ctx).tree.spec_log(),
                ctx_c.tree.spec_log(),
                ctx.tree.spec_log(),
            );
            crate::live::lemma_tree_extends_trans(&old(ctx).tree, &ctx_c.tree, &ctx.tree);
            assert(ctx.tree.is_element(el));
        }
        let ghost ctx_d = *ctx;
        proof {
            assert(ctx.refs == old(ctx).refs);
            assert(crate::live::tree_extends(&ctx_d.tree, &old(ctx).tree));
            assert(ctx_d.refs.spec_len() >= old(ctx).refs.spec_len());
            assert(ctx.tree.is_element(parent));
            assert(ctx.tree.listeners_of(el) == self.listeners@);
            // consolidate: nothing else was touched so far
            assert forall|o: LiveId|
                old(ctx).tree.valid(o) && o != parent && crate::v_node::opt_avoids(ancestor, o)
                    implies #[trigger] ctx.tree.node_unchanged(&old(ctx).tree, o) by {
                assert(o != el);
                assert(ctx_b.tree.node_unchanged(&old(ctx).tree, o));
                assert(ctx_b.tree.valid(o));
                assert(ctx_c.tree.node_unchanged(&ctx_b.tree, o));
                assert(ctx_c.tree.valid(o));
                assert(ctx.tree.node_unchanged(&ctx_c.tree, o));
                assert(ctx.tree.node_unchanged(&old(ctx).tree, o));
            }
            if crate::v_node::opt_avoids(ancestor, parent) {
                assert(parent != el);
                assert(ctx_b.tree.node_state_unchanged(&old(ctx).tree, parent));
                assert(ctx_b.tree.valid(parent));
                assert(ctx_c.tree.node_unchanged(&ctx_b.tree, parent));
                assert(ctx_c.tree.valid(parent));
                assert(ctx.tree.node_unchanged(&ctx_c.tree, parent));
                assert(ctx.tree.node_state_unchanged(&old(ctx).tree, parent));
                if ancestor is None {
                    assert(ctx.tree.children_of(parent) == crate::live::insert_before_spec(
                        old(ctx).tree.children_of(parent),
                        el,
                        old(ctx).refs.resolved(next_sibling),
                    ));
                }
                if fresh_case && !(ancestor is None) {
                    assert(ctx.tree.children_of(parent) == (ancestor->0).detached_from(
                        crate::live::insert_before_spec(
                            old(ctx).tree.children_of(parent),
                            el,
                            pos_g,
                        ),
                    ));
                }
                assert(ctx.tree.children_of(parent) == ctx_b.tree.children_of(parent));
            }
            // the element's own state after the patch pass
            assert(ctx.tree.node_state_unchanged(&ctx_c.tree, el)
                || ctx.tree.listeners_of(el) == self.listeners@);
            if fresh_case {
                assert(ctx.tree.attrs_of(el) == this.attributes@);
                assert(ctx.tree.tag_of(el) == self.spec_tag());
                assert(ctx.tree.svg_of(el) == (is_svg_tag(self.spec_tag()) || old(ctx).tree.svg_of(
                    parent,
                )));
                if self.spec_element_type() == ElementType::Input || self.spec_element_type()
                    == ElementType::Textarea {
                    assert(ctx.tree.value_of(el) == opt_or_empty(this.value));
                }
                if self.spec_element_type() == ElementType::Input || self.spec_element_type()
                    == ElementType::Button {
                    assert(ctx.tree.kind_of(el) == opt_or_empty(this.kind));
                }
            }
            if self.spec_element_type() == ElementType::Input {
                assert(ctx.tree.checked_of(el) == this.checked);
            }
        }
        // reconcile the children against the matched ancestor's children
        let n_kids = this.children.children.len();
        match anc_ready {
            Some(at) => {
                let at_children = at.children;
                proof {
                    assert(at_children.wf_in(&old(ctx).tree, &old(ctx).refs));
                    assert(at_children.rendered());
                }
                if n_kids > 0 {
                    let kids = take_children(&mut this);
                    let empty_ref = ctx.refs.fresh();
                    let ghost rmid = ctx.refs;
                    let ghost atc_g = at_children;
                    let ghost kids_g = kids;
                    proof {
                        assert forall|q: int|
                            0 <= q < kids.children@.len() implies (
                        #[trigger] kids.children@[q]).wf_in(&ctx.tree, &ctx.refs) by {
                            crate::v_node::lemma_elem_size_le(kids.children@, q);
                            crate::v_node::lemma_wf_monotone(
                                &kids.children@[q],
                                &old(ctx).tree,
                                &old(ctx).refs,
                                &ctx.tree,
                                &ctx.refs,
                            );
                        }
                        assert forall|q: int|
                            0 <= q < at_children.children@.len() implies (
                        #[trigger] at_children.children@[q]).wf_in(&ctx.tree, &ctx.refs) by {
                            crate::v_node::lemma_elem_size_le(at_children.children@, q);
                            crate::v_node::lemma_wf_monotone(
                                &at_children.children@[q],
                                &old(ctx).tree,
                                &old(ctx).refs,
                                &ctx.tree,
                                &ctx.refs,
                            );
                        }
                    }
                    let (kids2, _kref) = kids.apply(
                        ctx,
                        el,
                        empty_ref,
                        Some(VNode::VList(at_children)),
                    );
                    this.children = kids2;
                    proof {
                        crate::live::lemma_prefix_steps(
                            old(ctx).tree.spec_log(),
                            ctx_d.tree.spec_log(),
                            ctx.tree.spec_log(),
                        );
                        crate::live::lemma_tree_extends_trans(
                            &old(ctx).tree,
                            &ctx_d.tree,
                            &ctx.tree,
                        );
                        if spec_reuse_exact(&ancestor, self.spec_tag(), parent) {
                            assert(crate::v_node::opt_avoids(
                                Some(VNode::VList(atc_g)),
                                el,
                            ));
                            assert(ctx.tree.node_state_unchanged(&ctx_d.tree, el));
                        }
                        assert forall|o: LiveId|
                            old(ctx).tree.valid(o) && o != parent && crate::v_node::opt_avoids(
                                ancestor,
                                o,
                            ) implies #[trigger] ctx.tree.node_unchanged(&old(ctx).tree, o) by {
                            assert(ctx_d.tree.node_unchanged(&old(ctx).tree, o));
                            assert(ctx_d.tree.valid(o));
                            assert(o != el);
                            assert(crate::v_node::opt_avoids(Some(VNode::VList(atc_g)), o));
                            assert(ctx.tree.node_unchanged(&ctx_d.tree, o));
                        }
                        if crate::v_node::opt_avoids(ancestor, parent) {
                            assert(parent != el);
                            assert(ctx_d.tree.valid(parent));
                            assert(crate::v_node::opt_avoids(Some(VNode::VList(atc_g)), parent));
                            assert(ctx.tree.node_unchanged(&ctx_d.tree, parent));
                        }
                        assert forall|hr: NodeRef|
                            hr.valid(&old(ctx).refs) && self.nr_avoids(hr)
                                implies #[trigger] ctx.refs.node_of(hr) == old(ctx).refs.node_of(
                            hr,
                        ) && ctx.refs.link_of(hr) == old(ctx).refs.link_of(hr) by {
                            assert(rmid.node_of(hr) == old(ctx).refs.node_of(hr)
                                && rmid.link_of(hr) == old(ctx).refs.link_of(hr));
                            assert(hr.valid(&rmid));
                            assert(kids_g.nr_avoids(hr));
                        }
                    }
                } else {
                    proof {
                        assert forall|q: int|
                            0 <= q < at_children.children@.len() implies (
                        #[trigger] at_children.children@[q]).wf_in(&ctx.tree, &ctx.refs) by {
                            crate::v_node::lemma_elem_size_le(at_children.children@, q);
                            crate::v_node::lemma_wf_monotone(
                                &at_children.children@[q],
                                &old(ctx).tree,
                                &old(ctx).refs,
                                &ctx.tree,
                                &ctx.refs,
                            );
                        }
                    }
                    let ghost atc_g = at_children;
                    at_children.detach(ctx, el);
                    proof {
                        crate::live::lemma_prefix_steps(
                            old(ctx).tree.spec_log(),
                            ctx_d.tree.spec_log(),
                            ctx.tree.spec_log(),
                        );
                        crate::live::lemma_tree_extends_trans(
                            &old(ctx).tree,
                            &ctx_d.tree,
                            &ctx.tree,
                        );
                        assert(ctx.tree.node_state_unchanged(&ctx_d.tree, el));
                        assert forall|o: LiveId|
                            old(ctx).tree.valid(o) && o != parent && crate::v_node::opt_avoids(
                                ancestor,
                                o,
                            ) implies #[trigger] ctx.tree.node_unchanged(&old(ctx).tree, o) by {
                            assert(ctx_d.tree.node_unchanged(&old(ctx).tree, o));
                            assert(ctx_d.tree.valid(o));
                            assert(o != el);
                            assert(atc_g.avoids(o)) by {
                                assert((ancestor->0).avoids(o));
                            }
                            assert(ctx_d.tree.valid(o));
                            assert(ctx.tree.children_of(o) == ctx_d.tree.children_of(o));
                            assert(ctx.tree.node_state_unchanged(&ctx_d.tree, o));
                            assert(ctx.tree.node_unchanged(&ctx_d.tree, o));
                        }
                        if crate::v_node::opt_avoids(ancestor, parent) {
                            assert(parent != el);
                            assert(ctx_d.tree.valid(parent));
                            assert(atc_g.avoids(parent)) by {
                                assert((ancestor->0).avoids(parent));
                            }
                            assert(ctx.tree.children_of(parent) == ctx_d.tree.children_of(parent));
                            assert(ctx.tree.node_state_unchanged(&ctx_d.tree, parent));
                        }
                    }
                }
            },
            None => {
                if n_kids > 0 {
                    let kids = take_children(&mut this);
                    let empty_ref = ctx.refs.fresh();
                    let ghost rmid = ctx.refs;
                    let ghost kids_g = kids;
                    proof {
                        assert forall|q: int|
                            0 <= q < kids.children@.len() implies (
                        #[trigger] kids.children@[q]).wf_in(&ctx.tree, &ctx.refs) by {
                            crate::v_node::lemma_elem_size_le(kids.children@, q);
                            crate::v_node::lemma_wf_monotone(
                                &kids.children@[q],
                                &old(ctx).tree,
                                &old(ctx).refs,
                                &ctx.tree,
                                &ctx.refs,
                            );
                        }
                        if fresh_case && self.vref_free() {
                            assert forall|q: int|
                                0 <= q < kids.children@.len() implies (
                            #[trigger] kids.children@[q]).nr_avoids(empty_ref) by {
                                crate::v_node::lemma_nr_avoids_fresh(
                                    &kids.children@[q],
                                    &old(ctx).tree,
                                    &old(ctx).refs,
                                    empty_ref,
                                );
                            }
                            assert(kids.nr_avoids(empty_ref));
                            assert(kids.vref_free());
                            assert(rmid.node_of(empty_ref) is None && rmid.link_of(empty_ref)
                                is None);
                        }
                    }
                    let (kids2, _kref) = kids.apply(ctx, el, empty_ref, None);
                    this.children = kids2;
                    proof {
                        crate::live::lemma_prefix_steps(
                            old(ctx).tree.spec_log(),
                            ctx_d.tree.spec_log(),
                            ctx.tree.spec_log(),
                        );
                        assert(ctx.tree.node_state_unchanged(&ctx_d.tree, el));
                        assert forall|hr: NodeRef|
                            hr.valid(&old(ctx).refs) && self.nr_avoids(hr)
                                implies #[trigger] ctx.refs.node_of(hr) == old(ctx).refs.node_of(
                            hr,
                        ) && ctx.refs.link_of(hr) == old(ctx).refs.link_of(hr) by {
                            assert(rmid.node_of(hr) == old(ctx).refs.node_of(hr)
                                && rmid.link_of(hr) == old(ctx).refs.link_of(hr));
                            assert(hr.valid(&rmid));
                            assert(kids_g.nr_avoids(hr));
                        }
                        if fresh_case && self.vref_free() {
                            assert(ctx_d.tree.children_of(el) == Seq::<LiveId>::empty());
                            assert(ctx.tree.children_of(el) =~= crate::v_node::root_ids_list(
                                kids2.children@,
                            ));
                        }
                        assert forall|o: LiveId|
                            old(ctx).tree.valid(o) && o != parent && crate::v_node::opt_avoids(
                                ancestor,
                                o,
                            ) implies #[trigger] ctx.tree.node_unchanged(&old(ctx).tree, o) by {
                            assert(ctx_d.tree.node_unchanged(&old(ctx).tree, o));
                            assert(ctx_d.tree.valid(o));
                            assert(o != el);
                            assert(ctx.tree.node_unchanged(&ctx_d.tree, o));
                        }
                        if crate::v_node::opt_avoids(ancestor, parent) {
                            assert(parent != el);
                            assert(ctx_d.tree.valid(parent));
                            assert(ctx.tree.node_unchanged(&ctx_d.tree, parent));
                        }
                        crate::live::lemma_tree_extends_trans(
                            &old(ctx).tree,
                            &ctx_d.tree,
                            &ctx.tree,
                        );
                    }
                }
            },
        }
        // fill and hand out the node reference
        let ghost ctx_e = *ctx;
        let nr: NodeRef = match this.node_ref {
            Some(r) => r,
            None => ctx.refs.fresh(),
        };
        let ghost rmid2 = ctx.refs;
        nr.set(&mut ctx.refs, Some(el));
        this.node_ref = Some(nr);
        proof {
            assert forall|hr: NodeRef|
                hr.valid(&old(ctx).refs) && self.nr_avoids(hr)
                    implies #[trigger] ctx.refs.node_of(hr) == old(ctx).refs.node_of(hr)
                    && ctx.refs.link_of(hr) == old(ctx).refs.link_of(hr) by {
                assert(ctx_e.refs.node_of(hr) == old(ctx).refs.node_of(hr)
                    && ctx_e.refs.link_of(hr) == old(ctx).refs.link_of(hr));
                assert(hr.valid(&ctx_e.refs));
                assert(rmid2.node_of(hr) == ctx_e.refs.node_of(hr) && rmid2.link_of(hr)
                    == ctx_e.refs.link_of(hr));
                assert(hr != nr);
                NodeRef::lemma_id_injective(hr, nr);
                assert(hr.valid(&rmid2));
                assert(ctx.refs.node_of(hr) == rmid2.node_of(hr) && ctx.refs.link_of(hr)
                    == rmid2.link_of(hr));
            }
            assert(crate::live::tree_extends(&ctx.tree, &ctx_e.tree));
            assert forall|q: int|
                0 <= q < this.children.children@.len() implies (
            #[trigger] this.children.children@[q]).wf_in(&ctx.tree, &ctx.refs) by {
                crate::v_node::lemma_wf_monotone(
                    &this.children.children@[q],
                    &ctx_e.tree,
                    &ctx_e.refs,
                    &ctx.tree,
                    &ctx.refs,
                );
            }
            assert(ctx.tree.is_element(el));
            crate::live::lemma_prefix_refl(ctx_d.tree.spec_log());
            assert(ctx_d.tree.spec_log().is_prefix_of(ctx.tree.spec_log()));
            crate::live::lemma_prefix_steps(
                ctx_c.tree.spec_log(),
                ctx_d.tree.spec_log(),
                ctx.tree.spec_log(),
            );
            if fresh_case {
                assert(ctx.tree.node_state_unchanged(&ctx_d.tree, el));
                if crate::v_node::opt_avoids(ancestor, parent) {
                    assert(ctx.tree.children_of(parent) == ctx_d.tree.children_of(parent));
                }
                if !(ancestor is None) && (ancestor->0).avoids(parent) {
                    assert(ctx.tree.children_of(parent) == (ancestor->0).detached_from(
                        crate::live::insert_before_spec(
                            old(ctx).tree.children_of(parent),
                            el,
                            pos_g,
                        ),
                    ));
                }
            }
            if spec_reuse_exact(&ancestor, self.spec_tag(), parent) {
                assert(ctx.tree.node_state_unchanged(&ctx_d.tree, el));
                assert(ctx.tree.children_of(parent) == ctx_d.tree.children_of(parent));
                assert(ctx.tree.children_of(parent) == old(ctx).tree.children_of(parent));
            }
            if self.spec_element_type() == ElementType::Input {
                let i = choose|i: int|
                    ctx_b.tree.spec_log().len() <= i < ctx_c.tree.spec_log().len()
                        && ctx_c.tree.spec_log()[i] == (LiveOp::SetChecked {
                        node: el,
                        checked: self.checked,
                    });
                assert(ctx.tree.spec_log()[i] == ctx_c.tree.spec_log()[i]) by {
                    assert(ctx_c.tree.spec_log().is_prefix_of(ctx.tree.spec_log()));
                    assert(ctx_c.tree.spec_log()[i] == ctx.tree.spec_log().subrange(
                        0,
                        ctx_c.tree.spec_log().len() as int,
                    )[i]);
                }
            }
        }
        (this, nr)
    }

    /// How many children this element has.
    pub fn len_children(&self) -> (n: usize)
        ensures
            n == self.children.children@.len(),
    {
        self.children.children.len()
    }
}

/// Move the children out of an element, leaving an empty list in place.
fn take_children(t: &mut VTag) -> (r: VList)
    ensures
        r == old(t).children,
        final(t).spec_tag() == old(t).spec_tag(),
        final(t).spec_element_type() == old(t).spec_element_type(),
        final(t).reference == old(t).reference,
        final(t).listeners == old(t).listeners,
        final(t).attributes == old(t).attributes,
        final(t).value == old(t).value,
        final(t).kind == old(t).kind,
        final(t).checked == old(t).checked,
        final(t).node_ref == old(t).node_ref,
        final(t).spec_captured() == old(t).spec_captured(),
        final(t).key == old(t).key,
        final(t).children.children@ == Seq::<VNode>::empty(),
{
    let mut out = VList::new();
    core::mem::swap(&mut out, &mut t.children);
    out
}

/// The element keeps its shape: everything but attributes and control state.
pub open spec fn el_structure_unchanged(post: &LiveTree, pre: &LiveTree, el: LiveId) -> bool {
    &&& post.is_text_node(el) == pre.is_text_node(el)
    &&& post.tag_of(el) == pre.tag_of(el)
    &&& post.svg_of(el) == pre.svg_of(el)
    &&& post.listeners_of(el) == pre.listeners_of(el)
    &&& post.text_of(el) == pre.text_of(el)
    &&& post.children_of(el) == pre.children_of(el)
}

/// The element keeps everything but its listener list.
pub open spec fn el_structure_listeners_unchanged(
    post: &LiveTree,
    pre: &LiveTree,
    el: LiveId,
) -> bool {
    &&& post.is_text_node(el) == pre.is_text_node(el)
    &&& post.tag_of(el) == pre.tag_of(el)
    &&& post.svg_of(el) == pre.svg_of(el)
    &&& post.attrs_of(el) == pre.attrs_of(el)
    &&& post.value_of(el) == pre.value_of(el)
    &&& post.kind_of(el) == pre.kind_of(el)
    &&& post.checked_of(el) == pre.checked_of(el)
    &&& post.text_of(el) == pre.text_of(el)
    &&& post.children_of(el) == pre.children_of(el)
}

} // verus!
