//! The component-facing surface and the service data types.

use djed::attrs::AttrMap;
use djed::djed::{ChildrenRenderer, EmptyBuilder, Href};
use djed::services::{Referrer, WebSocketStatus, WindowDimensions};

#[test]
fn children_renderer_basics() {
    let children: ChildrenRenderer<u32> = ChildrenRenderer::new(vec![10, 20, 30]);
    assert!(!children.is_empty());
    assert_eq!(children.len(), 3);
    assert_eq!(*children.get(1), 20);
    let cloned = children.iter();
    assert_eq!(cloned.len(), 3);
    let empty: ChildrenRenderer<u32> = ChildrenRenderer::default();
    assert!(empty.is_empty());
    assert_eq!(empty.len(), 0);
}

#[test]
fn empty_builder_builds_unit_properties() {
    let built: () = EmptyBuilder.build();
    assert_eq!(built, ());
}

#[test]
fn href_wraps_a_link() {
    let href = Href::from(String::from("https://example.test/a"));
    assert_eq!(href.as_string(), String::from("https://example.test/a"));
}

#[test]
fn attr_map_insert_get_remove() {
    let mut m = AttrMap::new();
    assert_eq!(m.len(), 0);
    m.insert(String::from("k"), String::from("1"));
    m.insert(String::from("j"), String::from("2"));
    assert_eq!(m.len(), 2);
    assert!(m.contains_key(&String::from("k")));
    assert_eq!(m.get(&String::from("k")), Some(&String::from("1")));
    // inserting under an existing key replaces the value in place
    m.insert(String::from("k"), String::from("9"));
    assert_eq!(m.len(), 2);
    assert_eq!(m.get(&String::from("k")), Some(&String::from("9")));
    m.remove(&String::from("k"));
    assert_eq!(m.len(), 1);
    assert_eq!(m.get(&String::from("k")), None);
    // removing an absent key leaves the map as it was
    m.remove(&String::from("missing"));
    assert_eq!(m.len(), 1);
}

#[test]
fn service_data_types_carry_plain_values() {
    let dims = WindowDimensions { width: 800, height: 600 };
    assert_eq!(dims.width, 800);
    assert_eq!(dims.height, 600);
    assert_ne!(WebSocketStatus::Opened, WebSocketStatus::Closed);
    let referrer = Referrer::SameOriginUrl(String::from("/here"));
    assert_eq!(referrer, Referrer::SameOriginUrl(String::from("/here")));
    assert_ne!(referrer, Referrer::Empty);
}
