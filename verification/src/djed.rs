//! The component-facing surface: the `Component` trait, children containers,
//! property builders, and the `Href` attribute-value wrapper.

use crate::v_node::VNode;
use vstd::prelude::*;

verus! {

/// Indicates that a component should be rendered again.
pub type ShouldRender = bool;

/// What a component's `view` produces.
pub type Html = VNode;

/// The basic building block of the user interface. A component chooses how
/// to display itself from its received properties and self-managed state;
/// the engine drives it through creation, state updates, property changes,
/// rendering and the post-render hook.
pub trait Component: Sized {
    /// State messages make a component dynamic and interactive.
    type State;

    /// Properties are the inputs to a component.
    type Props: Props;

    /// Create the component from its initial properties.
    fn create(props: Self::Props) -> Self;

    /// Handle one state message; the result says whether to re-render.
    fn update(&mut self, state: Self::State) -> ShouldRender;

    /// Receive new properties from a re-rendered parent; the result says
    /// whether to re-render.
    fn change(&mut self, props: Self::Props) -> ShouldRender;

    /// The component's current view.
    fn view(&self) -> Html;

    /// Called after each render, before the host updates the page; the flag
    /// marks the first-ever render.
    fn rendered(&mut self, first_render: bool);
}

/// A list of children handed to a component through its properties.
#[derive(Clone)]
pub struct ChildrenRenderer<T> {
    children: Vec<T>,
}

/// Children as plain view nodes.
pub type Children = ChildrenRenderer<Html>;

impl<T> ChildrenRenderer<T> {
    /// The children held, in order.
    pub closed spec fn spec_children(&self) -> Seq<T> {
        self.children@
    }

    /// Create children.
    pub fn new(children: Vec<T>) -> (r: Self)
        ensures
            r.spec_children() == children@,
    {
        Self { children }
    }

    /// The children list is empty.
    pub fn is_empty(&self) -> (r: bool)
        ensures
            r == (self.spec_children().len() == 0),
    {
        self.children.len() == 0
    }

    /// The number of children.
    pub fn len(&self) -> (n: usize)
        ensures
            n == self.spec_children().len(),
    {
        self.children.len()
    }

    /// The child at one position.
    pub fn get(&self, i: usize) -> (c: &T)
        requires
            i < self.spec_children().len(),
        ensures
            *c == self.spec_children()[i as int],
    {
        &self.children[i]
    }
}

impl<T: Clone> ChildrenRenderer<T> {
    /// The children, cloned one by one for rendering.
    pub fn iter(&self) -> (r: Vec<T>)
        ensures
            r@.len() == self.spec_children().len(),
    {
        let mut out: Vec<T> = Vec::new();
        let n = self.children.len();
        let mut i: usize = 0;
        while i < n
            invariant
                i <= n,
                n == self.children@.len(),
                out@.len() == i,
            decreases n - i,
        {
            out.push(self.children[i].clone());
            i = i + 1;
        }
        out
    }
}

impl<T> Default for ChildrenRenderer<T> {
    /// An empty children list.
    fn default() -> (r: Self)
        ensures
            r.spec_children() == Seq::<T>::empty(),
    {
        Self { children: Vec::new() }
    }
}

/// Rendering, the part of a component the render loop calls.
pub trait Renderable {
    /// Called by the rendering loop.
    fn render(&self) -> Html;
}

impl<C: Component> Renderable for C {
    fn render(&self) -> Html {
        self.view()
    }
}

/// Building properties for a component.
pub trait Props: Sized {
    /// The builder used to construct the properties.
    type Builder;

    /// Entry point for building properties.
    fn builder() -> Self::Builder;
}

/// The builder for a component without properties.
#[derive(Debug)]
pub struct EmptyBuilder;

impl Props for () {
    type Builder = EmptyBuilder;

    fn builder() -> Self::Builder {
        EmptyBuilder
    }
}

impl EmptyBuilder {
    /// Build empty properties.
    pub fn build(self) {
    }
}

/// A bridging type for checking an `href` attribute value.
#[derive(Debug)]
pub struct Href {
    /// The link text.
    pub link: String,
}

impl Href {
    /// The wrapped link.
    pub closed spec fn spec_link(&self) -> Seq<char> {
        self.link@
    }

    /// The wrapped link, as an owned string.
    pub fn as_string(&self) -> (r: String)
        ensures
            r@ == self.spec_link(),
    {
        self.link.clone()
    }
}

impl From<String> for Href {
    fn from(link: String) -> (r: Self) {
        Href { link }
    }
}

impl vstd::std_specs::convert::FromSpecImpl<String> for Href {
    open spec fn obeys_from_spec() -> bool {
        true
    }

    open spec fn from_spec(link: String) -> Self {
        Href { link }
    }
}

} // verus!
