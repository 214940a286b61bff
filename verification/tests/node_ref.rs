//! Node reference cells: resolution, delegation, and the self-link guard.

use djed::node_ref::NodeRefTable;

#[test]
fn fresh_reference_resolves_to_nothing() {
    let mut refs = NodeRefTable::new();
    let r = refs.fresh();
    assert_eq!(r.get(&refs), None);
}

#[test]
fn set_then_get_returns_the_node() {
    let mut refs = NodeRefTable::new();
    let r = refs.fresh();
    r.set(&mut refs, Some(7));
    assert_eq!(r.get(&refs), Some(7));
    r.set(&mut refs, None);
    assert_eq!(r.get(&refs), None);
}

#[test]
fn link_delegates_to_the_older_reference() {
    let mut refs = NodeRefTable::new();
    let inner = refs.fresh();
    inner.set(&mut refs, Some(3));
    let outer = refs.fresh();
    outer.link(&mut refs, inner);
    assert_eq!(outer.get(&refs), Some(3));
    // re-resolving the inner cell is seen through the link
    inner.set(&mut refs, Some(9));
    assert_eq!(outer.get(&refs), Some(9));
}

#[test]
fn link_chain_resolves_through_two_levels() {
    let mut refs = NodeRefTable::new();
    let a = refs.fresh();
    a.set(&mut refs, Some(1));
    let b = refs.fresh();
    b.link(&mut refs, a);
    let c = refs.fresh();
    c.link(&mut refs, b);
    assert_eq!(c.get(&refs), Some(1));
}

#[test]
fn linking_a_reference_to_itself_keeps_its_prior_target() {
    // the no-cycle guard: a self-link is a silent no-op and resolution
    // still terminates on the prior target
    let mut refs = NodeRefTable::new();
    let r = refs.fresh();
    r.set(&mut refs, Some(4));
    r.link(&mut refs, r);
    assert_eq!(r.get(&refs), Some(4));
}

#[test]
fn linking_an_empty_reference_to_itself_stays_empty() {
    let mut refs = NodeRefTable::new();
    let r = refs.fresh();
    r.link(&mut refs, r);
    assert_eq!(r.get(&refs), None);
}

#[test]
fn set_clears_an_existing_link() {
    let mut refs = NodeRefTable::new();
    let inner = refs.fresh();
    inner.set(&mut refs, Some(5));
    let outer = refs.fresh();
    outer.link(&mut refs, inner);
    outer.set(&mut refs, Some(8));
    assert_eq!(outer.get(&refs), Some(8));
    assert_eq!(inner.get(&refs), Some(5));
}

#[test]
fn reference_equality_follows_delegation() {
    let mut refs = NodeRefTable::new();
    let a = refs.fresh();
    let b = refs.fresh();
    let c = refs.fresh();
    let d = refs.fresh();
    b.link(&mut refs, a);
    c.link(&mut refs, b);
    // every handle equals itself
    assert!(a.same_as(a, &refs));
    // a delegating chain makes the references equal, in either order
    assert!(a.same_as(b, &refs));
    assert!(b.same_as(a, &refs));
    assert!(a.same_as(c, &refs));
    assert!(c.same_as(a, &refs));
    assert!(b.same_as(c, &refs));
    // an unrelated reference equals none of them
    assert!(!d.same_as(a, &refs));
    assert!(!a.same_as(d, &refs));
}

#[test]
fn link_accepts_a_younger_target() {
    // delegation is not restricted by creation order: an older reference
    // may delegate to a younger one as long as no cycle would form
    let mut refs = NodeRefTable::new();
    let old_ref = refs.fresh();
    let young = refs.fresh();
    young.set(&mut refs, Some(6));
    old_ref.link(&mut refs, young);
    assert_eq!(old_ref.get(&refs), Some(6));
}

#[test]
fn link_refuses_a_cycle() {
    // once b delegates to a, linking a back to b would form a cycle and is
    // silently refused: both keep resolving as before
    let mut refs = NodeRefTable::new();
    let a = refs.fresh();
    a.set(&mut refs, Some(2));
    let b = refs.fresh();
    b.link(&mut refs, a);
    a.link(&mut refs, b);
    assert_eq!(a.get(&refs), Some(2));
    assert_eq!(b.get(&refs), Some(2));
}
