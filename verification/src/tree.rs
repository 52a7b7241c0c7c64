//! The document model: an ordered tree of elements, text, comments and
//! processing instructions, plus its mathematical view.
//!
//! Every element keeps its attributes and children in source order; the
//! merge engine only ever removes or appends entries at one container, so
//! everything else round-trips structurally.

use vstd::prelude::*;

verus! {

broadcast use vstd::std_specs::vec::group_vec_axioms;

/// One attribute: a name and its (unescaped) value.
#[derive(Debug, PartialEq, Eq)]
pub struct Attr {
    pub name: String,
    pub value: String,
}

/// View of an attribute: both sides as character sequences.
#[verifier::ext_equal]
pub struct AttrView {
    pub name: Seq<char>,
    pub value: Seq<char>,
}

impl View for Attr {
    type V = AttrView;

    open spec fn view(&self) -> AttrView {
        AttrView { name: self.name@, value: self.value@ }
    }
}

/// An element: tag name, ordered attributes, ordered children.
#[derive(Debug, PartialEq, Eq)]
pub struct Element {
    pub tag: String,
    pub attrs: Vec<Attr>,
    pub children: Vec<XmlNode>,
}

/// One node of the document tree.  Text holds unescaped character content;
/// a comment holds the characters between its delimiters; a processing
/// instruction holds everything between `<?` and `?>`.
#[derive(Debug, PartialEq, Eq)]
pub enum XmlNode {
    Elem(Element),
    Text(String),
    Comment(String),
    Pi(String),
}

/// View of an element.
#[verifier::ext_equal]
pub struct ElemView {
    pub tag: Seq<char>,
    pub attrs: Seq<AttrView>,
    pub children: Seq<NodeView>,
}

/// View of a node.
#[verifier::ext_equal]
pub enum NodeView {
    Elem(ElemView),
    Text(Seq<char>),
    Comment(Seq<char>),
    Pi(Seq<char>),
}

pub open spec fn view_of_attrs(attrs: Vec<Attr>) -> Seq<AttrView> {
    Seq::new(attrs@.len(), |i: int| attrs@[i]@)
}

pub open spec fn views_of_children(cs: Vec<XmlNode>) -> Seq<NodeView>
    decreases cs,
{
    Seq::new(
        cs@.len(),
        |i: int|
            if 0 <= i < cs@.len() {
                view_of_node(cs@[i])
            } else {
                NodeView::Text(Seq::empty())
            },
    )
}

pub open spec fn view_of_elem(e: Element) -> ElemView
    decreases e,
{
    ElemView { tag: e.tag@, attrs: view_of_attrs(e.attrs), children: views_of_children(e.children) }
}

pub open spec fn view_of_node(n: XmlNode) -> NodeView
    decreases n,
{
    match n {
        XmlNode::Elem(e) => NodeView::Elem(view_of_elem(e)),
        XmlNode::Text(t) => NodeView::Text(t@),
        XmlNode::Comment(t) => NodeView::Comment(t@),
        XmlNode::Pi(t) => NodeView::Pi(t@),
    }
}

impl View for Element {
    type V = ElemView;

    open spec fn view(&self) -> ElemView {
        view_of_elem(*self)
    }
}

impl View for XmlNode {
    type V = NodeView;

    open spec fn view(&self) -> NodeView {
        view_of_node(*self)
    }
}

/// A whole document: exactly one root element.  The serializer always puts
/// the standard declaration in front; the parser accepts a document with or
/// without one.
#[derive(Debug, PartialEq, Eq)]
pub struct XmlDocument {
    pub root: Element,
}

/// View of a document.
#[verifier::ext_equal]
pub struct DocView {
    pub root: ElemView,
}

impl View for XmlDocument {
    type V = DocView;

    open spec fn view(&self) -> DocView {
        DocView { root: self.root@ }
    }
}

} // verus!
