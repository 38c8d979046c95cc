//! The tree that a document is rendered to.

use crate::styling::{Css, CssGroupView};
use vstd::prelude::*;

verus! {

/// An element: a tag name, attributes in the order in which they were set, an
/// optional style descriptor and children in document order.
#[derive(Debug, PartialEq, Eq)]
pub struct Element {
    pub tag_name: String,
    pub attributes: Vec<(String, String)>,
    pub style: Option<Css>,
    pub children: Vec<Node>,
}

/// A node of the tree: an element or a run of text.
#[derive(Debug, PartialEq, Eq)]
pub enum Node {
    Element(Element),
    Text(String),
}

/// What an `Element` holds, as mathematical sequences.
pub struct ElementView {
    pub tag_name: Seq<char>,
    pub attributes: Seq<(Seq<char>, Seq<char>)>,
    pub style: Option<Seq<CssGroupView>>,
    pub children: Seq<NodeView>,
}

/// What a `Node` holds, as mathematical sequences.
pub enum NodeView {
    Element(ElementView),
    Text(Seq<char>),
}

impl ElementView {
    /// The element `name` without attributes, style or children.
    pub open spec fn new(name: Seq<char>) -> ElementView {
        ElementView {
            tag_name: name,
            attributes: Seq::empty(),
            style: None,
            children: Seq::empty(),
        }
    }

    /// This element with one more attribute, set last.
    pub open spec fn attr(self, name: Seq<char>, value: Seq<char>) -> ElementView {
        ElementView { attributes: self.attributes.push((name, value)), ..self }
    }

    /// This element with one more child, placed last.
    pub open spec fn child(self, node: NodeView) -> ElementView {
        ElementView { children: self.children.push(node), ..self }
    }

    /// This element with the children `nodes` behind its own.
    pub open spec fn with_children(self, nodes: Seq<NodeView>) -> ElementView {
        ElementView { children: self.children + nodes, ..self }
    }

    /// This element with a run of text as one more child.
    pub open spec fn child_text(self, value: Seq<char>) -> ElementView {
        self.child(NodeView::Text(value))
    }

    /// This element carrying `css`, unless `css` is empty: an empty descriptor
    /// leaves the element as it is.
    pub open spec fn css(self, css: Seq<CssGroupView>) -> ElementView {
        if css.len() == 0 {
            self
        } else {
            ElementView { style: Some(css), ..self }
        }
    }
}

/// Whether no attribute name occurs twice.
pub open spec fn names_distinct(attributes: Seq<(Seq<char>, Seq<char>)>) -> bool {
    forall|i: int, j: int|
        0 <= i < j < attributes.len() ==> (#[trigger] attributes[i]).0 != (
        #[trigger] attributes[j]).0
}

/// Whether a node is well formed: an element has each of its attributes once,
/// and its children are well formed.
pub open spec fn node_well_formed(node: NodeView) -> bool
    decreases node,
{
    match node {
        NodeView::Text(_) => true,
        NodeView::Element(element) => {
            &&& names_distinct(element.attributes)
            &&& forall|i: int|
                0 <= i < element.children.len() ==> node_well_formed(
                    #[trigger] element.children[i],
                )
        },
    }
}

/// Whether each of `nodes` is well formed.
pub open spec fn nodes_well_formed(nodes: Seq<NodeView>) -> bool {
    forall|i: int| 0 <= i < nodes.len() ==> node_well_formed(#[trigger] nodes[i])
}

impl ElementView {
    /// Whether the element has each of its attributes once, and well-formed
    /// children.
    pub open spec fn well_formed(self) -> bool {
        node_well_formed(NodeView::Element(self))
    }
}

/// The attributes of an element, as pairs of sequences.
pub open spec fn attributes_view(a: Seq<(String, String)>) -> Seq<(Seq<char>, Seq<char>)> {
    Seq::new(a.len(), |i: int| (a[i].0@, a[i].1@))
}

/// The views of a sequence of nodes.
pub open spec fn nodes_view(nodes: Seq<Node>) -> Seq<NodeView> {
    Seq::new(nodes.len(), |i: int| nodes[i]@)
}

/// The view of an optional style descriptor.
pub open spec fn style_view(style: Option<Css>) -> Option<Seq<CssGroupView>> {
    match style {
        Some(css) => Some(css@),
        None => None,
    }
}

/// The views of a sequence of elements.
pub open spec fn elements_view(elements: Seq<Element>) -> Seq<ElementView> {
    Seq::new(elements.len(), |i: int| elements[i]@)
}

/// The view of a node: that of an element holds the views of its children.
pub open spec fn node_view(node: Node) -> NodeView
    decreases node,
{
    match node {
        Node::Element(element) => NodeView::Element(
            ElementView {
                tag_name: element.tag_name@,
                attributes: attributes_view(element.attributes@),
                style: style_view(element.style),
                children: Seq::new(
                    element.children@.len(),
                    |i: int|
                        if 0 <= i < element.children@.len() {
                            node_view(element.children@[i])
                        } else {
                            NodeView::Text(Seq::empty())
                        },
                ),
            },
        ),
        Node::Text(value) => NodeView::Text(value@),
    }
}

impl View for Node {
    type V = NodeView;

    open spec fn view(&self) -> NodeView {
        node_view(*self)
    }
}

impl View for Element {
    type V = ElementView;

    open spec fn view(&self) -> ElementView {
        ElementView {
            tag_name: self.tag_name@,
            attributes: attributes_view(self.attributes@),
            style: style_view(self.style),
            children: nodes_view(self.children@),
        }
    }
}

/// The view of a node that is an element is the view of that element.
pub proof fn lemma_element_node_view(element: Element)
    ensures
        Node::Element(element)@ == NodeView::Element(element@),
{
    let node = Node::Element(element);
    assert(node@ is Element);
    let v = node@->Element_0;
    assert(v.tag_name == element.tag_name@);
    assert(v.children.len() == element.children@.len());
    assert(v.children =~= element@.children);
}

impl Element {
    /// The element `name` without attributes, style or children.
    pub fn new(name: &str) -> (r: Element)
        ensures
            r@ == ElementView::new(name@),
    {
        let r = Element {
            tag_name: String::from_str(name),
            attributes: Vec::new(),
            style: None,
            children: Vec::new(),
        };
        assert(r@.attributes =~= Seq::empty());
        assert(r@.children =~= Seq::empty());
        r
    }

    /// Sets one more attribute.
    pub fn attr(self, name: &str, value: String) -> (r: Element)
        ensures
            r@ == self@.attr(name@, value@),
    {
        let ghost before = self;
        let mut r = self;
        r.attributes.push((String::from_str(name), value));
        assert(r@.attributes =~= before@.attributes.push((name@, value@)));
        r
    }

    /// Places one more child last.
    pub fn child(self, node: Node) -> (r: Element)
        ensures
            r@ == self@.child(node@),
    {
        let ghost before = self;
        let mut r = self;
        r.children.push(node);
        assert(r@.children =~= before@.children.push(node@));
        r
    }

    /// Places `nodes` behind the children, in order.
    pub fn with_children(self, nodes: Vec<Node>) -> (r: Element)
        ensures
            r@ == self@.with_children(nodes_view(nodes@)),
    {
        let ghost before = self;
        let ghost added = nodes_view(nodes@);
        let mut r = self;
        let mut nodes = nodes;
        r.children.append(&mut nodes);
        assert(r@.children =~= before@.children + added);
        r
    }

    /// Places a run of text last among the children.
    pub fn child_text(self, value: String) -> (r: Element)
        ensures
            r@ == self@.child_text(value@),
    {
        self.child(Node::Text(value))
    }

    /// Attaches a copy of `css`, unless it is empty.
    pub fn css(self, css: &Css) -> (r: Element)
        ensures
            r@ == self@.css(css@),
    {
        if css.is_empty() {
            self
        } else {
            let mut r = self;
            r.style = Some(css.clone());
            r
        }
    }
}

} // verus!
