//! The diff/patch engine: attribute patch computation, identity-preserving
//! reuse, the form-control special cases, component swap and reuse, and the
//! fragment list.

use djed::dom::{DomContext, LifeAction};
use djed::live::LiveOp;
use djed::node_ref::NodeRef;
use djed::v_comp::VComp;
use djed::v_dom::Patch;
use djed::v_list::VList;
use djed::v_node::VNode;
use djed::v_tag::{ElementType, VTag};
use djed::v_text::VText;

/// A context with a root element to mount into, and a sibling hint.
fn setup() -> (DomContext, usize, NodeRef) {
    let mut ctx = DomContext::new();
    let root = ctx.tree.create_element(String::from("body"), false);
    let hint = ctx.refs.fresh();
    (ctx, root, hint)
}

#[test]
fn attribute_patches_are_exactly_add_and_remove() {
    // old {a: "1", b: "2"}, new {a: "1", c: "3"}: the patch set is exactly
    // {Add(c, 3), Remove(b)} — the unchanged key a gets no patch
    let mut old_tag = VTag::new(String::from("div"));
    old_tag.add_attribute(&String::from("a"), &String::from("1"));
    old_tag.add_attribute(&String::from("b"), &String::from("2"));
    let mut new_tag = VTag::new(String::from("div"));
    new_tag.add_attribute(&String::from("a"), &String::from("1"));
    new_tag.add_attribute(&String::from("c"), &String::from("3"));

    let patches = new_tag.diff_attributes(Some(&old_tag));
    assert_eq!(patches.len(), 2);
    assert!(patches.contains(&Patch::Add(String::from("c"), String::from("3"))));
    assert!(patches.contains(&Patch::Remove(String::from("b"))));
}

#[test]
fn attribute_patch_replace_on_changed_value() {
    let mut old_tag = VTag::new(String::from("div"));
    old_tag.add_attribute(&String::from("a"), &String::from("1"));
    let mut new_tag = VTag::new(String::from("div"));
    new_tag.add_attribute(&String::from("a"), &String::from("2"));
    let patches = new_tag.diff_attributes(Some(&old_tag));
    assert_eq!(patches, vec![Patch::Replace(String::from("a"), String::from("2"))]);
}

#[test]
fn identical_attributes_produce_no_patches() {
    let mut old_tag = VTag::new(String::from("div"));
    old_tag.add_attribute(&String::from("a"), &String::from("1"));
    let mut new_tag = VTag::new(String::from("div"));
    new_tag.add_attribute(&String::from("a"), &String::from("1"));
    assert!(new_tag.diff_attributes(Some(&old_tag)).is_empty());
}

#[test]
fn no_ancestor_means_every_attribute_is_added() {
    let mut new_tag = VTag::new(String::from("div"));
    new_tag.add_attribute(&String::from("a"), &String::from("1"));
    let patches = new_tag.diff_attributes(None);
    assert_eq!(patches, vec![Patch::Add(String::from("a"), String::from("1"))]);
}

#[test]
fn apply_writes_attributes_value_and_kind() {
    let (mut ctx, root, hint) = setup();
    let mut tag = VTag::new(String::from("input"));
    tag.add_attribute(&String::from("id"), &String::from("x"));
    tag.set_value(&String::from("v"));
    tag.set_kind(&String::from("text"));
    tag.set_checked(true);
    let (applied, r) = tag.apply(&mut ctx, root, hint, None);
    let el = applied.reference.unwrap();
    assert_eq!(r.get(&ctx.refs), Some(el));
    assert_eq!(ctx.tree.read_attribute(el, &String::from("id")), Some(&String::from("x")));
    assert_eq!(ctx.tree.read_value(el), String::from("v"));
    assert_eq!(ctx.tree.read_kind(el), String::from("text"));
    assert!(ctx.tree.read_checked(el));
    // the fresh element was inserted under the root
    assert_eq!(ctx.tree.child_count(root), 1);
    assert_eq!(ctx.tree.child_at(root, 0), el);
}

#[test]
fn same_tag_reuses_the_same_live_element() {
    // two successive elements with the same tag name keep the very same
    // live element: no detach/create cycle
    let (mut ctx, root, hint) = setup();
    let mut first = VTag::new(String::from("div"));
    first.add_attribute(&String::from("a"), &String::from("1"));
    let (first_applied, _) = first.apply(&mut ctx, root, hint, None);
    let el = first_applied.reference.unwrap();
    let nodes_before = ctx.tree.num_nodes();

    let mut second = VTag::new(String::from("div"));
    second.add_attribute(&String::from("a"), &String::from("2"));
    let hint2 = ctx.refs.fresh();
    let (second_applied, r) =
        second.apply(&mut ctx, root, hint2, Some(VNode::VTag(Box::new(first_applied))));
    assert_eq!(second_applied.reference.unwrap(), el);
    assert_eq!(r.get(&ctx.refs), Some(el));
    // no new live node was created for the reuse
    assert_eq!(ctx.tree.num_nodes(), nodes_before);
    assert_eq!(ctx.tree.read_attribute(el, &String::from("a")), Some(&String::from("2")));
}

#[test]
fn different_tag_replaces_the_live_element() {
    let (mut ctx, root, hint) = setup();
    let first = VTag::new(String::from("div"));
    let (first_applied, _) = first.apply(&mut ctx, root, hint, None);
    let el = first_applied.reference.unwrap();

    let second = VTag::new(String::from("span"));
    let hint2 = ctx.refs.fresh();
    let (second_applied, _) =
        second.apply(&mut ctx, root, hint2, Some(VNode::VTag(Box::new(first_applied))));
    let el2 = second_applied.reference.unwrap();
    assert_ne!(el, el2);
    // the old element is out of the root's children, the new one is in
    assert_eq!(ctx.tree.child_count(root), 1);
    assert_eq!(ctx.tree.child_at(root, 0), el2);
}

#[test]
fn noop_diff_rewrites_only_checked() {
    // a structurally identical ancestor yields no attribute, value or kind
    // write; for an input only the always-written checked flag and the
    // listener refresh appear in the log
    let (mut ctx, root, hint) = setup();
    let mut first = VTag::new(String::from("input"));
    first.add_attribute(&String::from("a"), &String::from("1"));
    first.set_value(&String::from("v"));
    first.set_kind(&String::from("text"));
    let (first_applied, _) = first.apply(&mut ctx, root, hint, None);
    let el = first_applied.reference.unwrap();
    let log_before = ctx.tree.log().len();

    let mut second = VTag::new(String::from("input"));
    second.add_attribute(&String::from("a"), &String::from("1"));
    second.set_value(&String::from("v"));
    second.set_kind(&String::from("text"));
    let hint2 = ctx.refs.fresh();
    let (_, _) = second.apply(&mut ctx, root, hint2, Some(VNode::VTag(Box::new(first_applied))));
    let tail = &ctx.tree.log()[log_before..];
    assert_eq!(
        tail,
        &[
            LiveOp::SetChecked { node: el, checked: false },
            LiveOp::ClearedListeners { node: el },
        ],
    );
}

#[test]
fn noop_diff_on_plain_element_writes_nothing() {
    let (mut ctx, root, hint) = setup();
    let mut first = VTag::new(String::from("div"));
    first.add_attribute(&String::from("a"), &String::from("1"));
    let (first_applied, _) = first.apply(&mut ctx, root, hint, None);
    let el = first_applied.reference.unwrap();
    let log_before = ctx.tree.log().len();

    let mut second = VTag::new(String::from("div"));
    second.add_attribute(&String::from("a"), &String::from("1"));
    let hint2 = ctx.refs.fresh();
    let (_, _) = second.apply(&mut ctx, root, hint2, Some(VNode::VTag(Box::new(first_applied))));
    let tail = &ctx.tree.log()[log_before..];
    assert_eq!(tail, &[LiveOp::ClearedListeners { node: el }]);
}

#[test]
fn checked_is_written_even_when_unchanged() {
    // the write-every-time policy for the checked control state
    let (mut ctx, root, hint) = setup();
    let mut first = VTag::new(String::from("input"));
    first.set_checked(true);
    let (first_applied, _) = first.apply(&mut ctx, root, hint, None);
    let el = first_applied.reference.unwrap();
    let log_before = ctx.tree.log().len();

    let mut second = VTag::new(String::from("input"));
    second.set_checked(true);
    let hint2 = ctx.refs.fresh();
    let (_, _) = second.apply(&mut ctx, root, hint2, Some(VNode::VTag(Box::new(first_applied))));
    let tail = &ctx.tree.log()[log_before..];
    assert!(tail.contains(&LiveOp::SetChecked { node: el, checked: true }));
}

#[test]
fn host_changed_value_is_written_back() {
    // the diff compares against the live value, not stale state: a value
    // changed host-side since the last render is rewritten
    let (mut ctx, root, hint) = setup();
    let mut first = VTag::new(String::from("input"));
    first.set_value(&String::from("v"));
    let (first_applied, _) = first.apply(&mut ctx, root, hint, None);
    let el = first_applied.reference.unwrap();
    // the host (user interaction) changes the live value
    ctx.tree.set_value(el, &String::from("typed"));

    let mut second = VTag::new(String::from("input"));
    second.set_value(&String::from("v"));
    let hint2 = ctx.refs.fresh();
    let (_, _) = second.apply(&mut ctx, root, hint2, Some(VNode::VTag(Box::new(first_applied))));
    assert_eq!(ctx.tree.read_value(el), String::from("v"));
}

#[test]
fn listeners_are_released_and_reattached() {
    let (mut ctx, root, hint) = setup();
    let mut first = VTag::new(String::from("div"));
    first.add_listener(101);
    first.add_listener(102);
    let (first_applied, _) = first.apply(&mut ctx, root, hint, None);
    let el = first_applied.reference.unwrap();
    assert_eq!(first_applied.captured, vec![101, 102]);

    let mut second = VTag::new(String::from("div"));
    second.add_listeners(vec![103]);
    let hint2 = ctx.refs.fresh();
    let log_before = ctx.tree.log().len();
    let (second_applied, _) =
        second.apply(&mut ctx, root, hint2, Some(VNode::VTag(Box::new(first_applied))));
    assert_eq!(second_applied.captured, vec![103]);
    let tail = &ctx.tree.log()[log_before..];
    assert!(tail.contains(&LiveOp::ClearedListeners { node: el }));
    assert!(tail.contains(&LiveOp::AttachedListener { node: el, listener: 103 }));
}

#[test]
fn text_reuse_rewrites_content_in_place() {
    let (mut ctx, root, hint) = setup();
    let first = VText::new(String::from("before"));
    let (first_applied, _) = first.apply(&mut ctx, root, hint, None);
    let t = first_applied.reference.unwrap();
    assert_eq!(ctx.tree.read_text(t), String::from("before"));

    let second = VText::new(String::from("after"));
    let hint2 = ctx.refs.fresh();
    let (second_applied, _) =
        second.apply(&mut ctx, root, hint2, Some(VNode::VText(first_applied)));
    assert_eq!(second_applied.reference.unwrap(), t);
    assert_eq!(ctx.tree.read_text(t), String::from("after"));
}

#[test]
fn equal_text_touches_nothing() {
    let (mut ctx, root, hint) = setup();
    let first = VText::new(String::from("same"));
    let (first_applied, _) = first.apply(&mut ctx, root, hint, None);
    let log_before = ctx.tree.log().len();
    let second = VText::new(String::from("same"));
    let hint2 = ctx.refs.fresh();
    let (_, _) = second.apply(&mut ctx, root, hint2, Some(VNode::VText(first_applied)));
    assert_eq!(ctx.tree.log().len(), log_before);
}

#[test]
fn list_applies_children_in_sibling_order() {
    let (mut ctx, root, hint) = setup();
    let mut list = VList::new();
    list.add_child(VNode::VText(VText::new(String::from("one"))));
    list.add_child(VNode::VText(VText::new(String::from("two"))));
    let (applied, _) = list.apply(&mut ctx, root, hint, None);
    assert_eq!(applied.children.len(), 2);
    assert_eq!(ctx.tree.child_count(root), 2);
    let c0 = ctx.tree.child_at(root, 0);
    let c1 = ctx.tree.child_at(root, 1);
    assert_eq!(ctx.tree.read_text(c0), String::from("one"));
    assert_eq!(ctx.tree.read_text(c1), String::from("two"));
}

#[test]
fn shrinking_list_detaches_leftover_children() {
    let (mut ctx, root, hint) = setup();
    let mut list = VList::new();
    list.add_child(VNode::VText(VText::new(String::from("one"))));
    list.add_child(VNode::VText(VText::new(String::from("two"))));
    let (applied, _) = list.apply(&mut ctx, root, hint, None);

    let mut shorter = VList::new();
    shorter.add_child(VNode::VText(VText::new(String::from("only"))));
    let hint2 = ctx.refs.fresh();
    let (_, _) = shorter.apply(&mut ctx, root, hint2, Some(VNode::VList(applied)));
    assert_eq!(ctx.tree.child_count(root), 1);
    let c0 = ctx.tree.child_at(root, 0);
    assert_eq!(ctx.tree.read_text(c0), String::from("only"));
}

#[test]
fn nested_children_render_under_their_element() {
    let (mut ctx, root, hint) = setup();
    let mut tag = VTag::new(String::from("div"));
    tag.add_child(VNode::VText(VText::new(String::from("inner"))));
    let (applied, _) = tag.apply(&mut ctx, root, hint, None);
    let el = applied.reference.unwrap();
    assert_eq!(ctx.tree.child_count(el), 1);
    let inner = ctx.tree.child_at(el, 0);
    assert_eq!(ctx.tree.read_text(inner), String::from("inner"));
}

#[test]
fn component_mount_enqueues_create_then_render() {
    let (mut ctx, root, hint) = setup();
    let comp = VComp::new(1, 11, None, None);
    let (mounted, _) = comp.apply(&mut ctx, root, hint, None);
    assert_eq!(mounted.instance, Some(0));
    assert_eq!(mounted.props, None);
    assert_eq!(
        ctx.sched.next_runnable(),
        Some(LifeAction::Create { component: 0, type_id: 1, props: 11 }),
    );
    assert_eq!(ctx.sched.next_runnable(), Some(LifeAction::Render { component: 0 }));
    assert_eq!(ctx.sched.next_runnable(), None);
    // a placeholder text node marks the mount position
    assert_eq!(ctx.tree.child_count(root), 1);
    assert_eq!(mounted.placeholder, Some(ctx.tree.child_at(root, 0)));
    assert_eq!(ctx.tree.read_text(ctx.tree.child_at(root, 0)), String::new());
}

#[test]
fn component_same_type_reuses_the_instance() {
    let (mut ctx, root, hint) = setup();
    let comp = VComp::new(1, 11, None, None);
    let (mounted, _) = comp.apply(&mut ctx, root, hint, None);
    while ctx.sched.next_runnable().is_some() {}
    let log_before = ctx.tree.log().len();

    let again = VComp::new(1, 12, None, None);
    let hint2 = ctx.refs.fresh();
    let (reused, _) = again.apply(&mut ctx, root, hint2, Some(VNode::VComp(mounted)));
    assert_eq!(reused.instance, Some(0));
    // the new properties are forwarded as an update action; nothing is
    // destroyed or created, and no live node is touched
    assert_eq!(
        ctx.sched.next_runnable(),
        Some(LifeAction::Update { component: 0, props: 12 }),
    );
    assert_eq!(ctx.sched.next_runnable(), None);
    assert_eq!(ctx.tree.log().len(), log_before);
}

#[test]
fn component_swap_destroys_and_recreates() {
    // a component of another declared type replaces the instance: the old
    // one's destroy action is observably enqueued, a fresh instance is
    // created, and no property update reaches the old instance
    let (mut ctx, root, hint) = setup();
    let first = VComp::new(1, 11, None, None);
    let (mounted, _) = first.apply(&mut ctx, root, hint, None);
    while ctx.sched.next_runnable().is_some() {}

    let swapped = VComp::new(2, 22, None, None);
    let hint2 = ctx.refs.fresh();
    let (fresh, _) = swapped.apply(&mut ctx, root, hint2, Some(VNode::VComp(mounted)));
    assert_eq!(fresh.instance, Some(1));
    let mut actions: Vec<LifeAction> = Vec::new();
    while let Some(a) = ctx.sched.next_runnable() {
        actions.push(a);
    }
    assert_eq!(
        actions,
        vec![
            LifeAction::Destroy { component: 0 },
            LifeAction::Create { component: 1, type_id: 2, props: 22 },
            LifeAction::Render { component: 1 },
        ],
    );
}

#[test]
fn empty_fragment_yields_an_unresolved_reference() {
    let (mut ctx, root, hint) = setup();
    let list = VList::new();
    let (applied, r) = list.apply(&mut ctx, root, hint, None);
    assert_eq!(applied.children.len(), 0);
    assert_eq!(r.get(&ctx.refs), None);
    assert_eq!(ctx.tree.child_count(root), 0);
}

#[test]
fn tag_against_text_ancestor_replaces_it() {
    let (mut ctx, root, hint) = setup();
    let text = VText::new(String::from("gone"));
    let (text_applied, _) = text.apply(&mut ctx, root, hint, None);

    let tag = VTag::new(String::from("div"));
    let hint2 = ctx.refs.fresh();
    let (tag_applied, _) = tag.apply(&mut ctx, root, hint2, Some(VNode::VText(text_applied)));
    let el = tag_applied.reference.unwrap();
    assert_eq!(ctx.tree.child_count(root), 1);
    assert_eq!(ctx.tree.child_at(root, 0), el);
}

#[test]
fn element_category_is_case_insensitive() {
    assert_eq!(ElementType::from_tag("input"), ElementType::Input);
    assert_eq!(ElementType::from_tag("INPUT"), ElementType::Input);
    assert_eq!(ElementType::from_tag("TextArea"), ElementType::Textarea);
    assert_eq!(ElementType::from_tag("button"), ElementType::Button);
    assert_eq!(ElementType::from_tag("div"), ElementType::Other);
    assert_eq!(ElementType::from_tag("inputs"), ElementType::Other);
}

#[test]
fn svg_root_creates_a_namespaced_element() {
    let (mut ctx, root, hint) = setup();
    let svg = VTag::new(String::from("svg"));
    let (applied, _) = svg.apply(&mut ctx, root, hint, None);
    let el = applied.reference.unwrap();
    assert!(ctx.tree.read_svg(el));
    // children of a namespaced element inherit the namespace
    let circle = VTag::new(String::from("circle"));
    let hint2 = ctx.refs.fresh();
    let (capplied, _) = circle.apply(&mut ctx, el, hint2, None);
    assert!(ctx.tree.read_svg(capplied.reference.unwrap()));
}

#[test]
fn vtag_builder_methods() {
    let mut tag = VTag::new(String::from("textarea"));
    assert_eq!(tag.tag(), "textarea");
    tag.add_attributes(vec![
        (String::from("x"), String::from("1")),
        (String::from("x"), String::from("2")),
    ]);
    // a later pair wins over an earlier one under the same name
    let patches = tag.diff_attributes(None);
    assert_eq!(patches, vec![Patch::Add(String::from("x"), String::from("2"))]);
    tag.add_children(vec![
        VNode::VText(VText::new(String::from("a"))),
        VNode::VText(VText::new(String::from("b"))),
    ]);
    assert_eq!(tag.children.children.len(), 2);
}
