//! Node handles, the child and parent unions, and the node records.

use vstd::prelude::*;
use crate::interned::{InternedQName, InternedString, QName, QNameView, optional_slice, optional_str,
    optional_text};

verus! {

/// Handle of a root node.
#[derive(Clone, Copy, PartialEq, Eq, Debug, Hash, Structural)]
pub struct RootHandle(pub usize);

/// Handle of an element.
#[derive(Clone, Copy, PartialEq, Eq, Debug, Hash, Structural)]
pub struct ElementHandle(pub usize);

/// Handle of an attribute.
#[derive(Clone, Copy, PartialEq, Eq, Debug, Hash, Structural)]
pub struct AttributeHandle(pub usize);

/// Handle of a text node.
#[derive(Clone, Copy, PartialEq, Eq, Debug, Hash, Structural)]
pub struct TextHandle(pub usize);

/// Handle of a comment.
#[derive(Clone, Copy, PartialEq, Eq, Debug, Hash, Structural)]
pub struct CommentHandle(pub usize);

/// Handle of a processing instruction.
#[derive(Clone, Copy, PartialEq, Eq, Debug, Hash, Structural)]
pub struct ProcessingInstructionHandle(pub usize);

/// A node that may be a child of a root.
#[derive(Clone, Copy, PartialEq, Eq, Debug, Hash, Structural)]
pub enum ChildOfRoot {
    Element(ElementHandle),
    Comment(CommentHandle),
    ProcessingInstruction(ProcessingInstructionHandle),
}

/// A node that may be a child of an element.
#[derive(Clone, Copy, PartialEq, Eq, Debug, Hash, Structural)]
pub enum ChildOfElement {
    Element(ElementHandle),
    Text(TextHandle),
    Comment(CommentHandle),
    ProcessingInstruction(ProcessingInstructionHandle),
}

/// A node that may be the parent of a child.
#[derive(Clone, Copy, PartialEq, Eq, Debug, Hash, Structural)]
pub enum ParentOfChild {
    Root(RootHandle),
    Element(ElementHandle),
}

impl ChildOfRoot {
    /// The same node, seen as a possible child of an element.
    pub open spec fn widen(self) -> ChildOfElement {
        match self {
            ChildOfRoot::Element(n) => ChildOfElement::Element(n),
            ChildOfRoot::Comment(n) => ChildOfElement::Comment(n),
            ChildOfRoot::ProcessingInstruction(n) => ChildOfElement::ProcessingInstruction(n),
        }
    }

    /// Whether the node is an element.
    pub fn is_element(&self) -> (r: bool)
        ensures
            r == (*self is Element),
    {
        match self {
            ChildOfRoot::Element(_) => true,
            _ => false,
        }
    }

    /// The same node, seen as a possible child of an element.
    pub fn to_child_of_element(self) -> (r: ChildOfElement)
        ensures
            r == self.widen(),
    {
        match self {
            ChildOfRoot::Element(n) => ChildOfElement::Element(n),
            ChildOfRoot::Comment(n) => ChildOfElement::Comment(n),
            ChildOfRoot::ProcessingInstruction(n) => ChildOfElement::ProcessingInstruction(n),
        }
    }
}

/// Widens every entry of a root's child list.
pub open spec fn widen_all(children: Seq<ChildOfRoot>) -> Seq<ChildOfElement> {
    children.map_values(|c: ChildOfRoot| c.widen())
}

/// The mathematical value of a root.
pub struct RootView {
    pub children: Seq<ChildOfElement>,
}

/// The mathematical value of an element.
pub struct ElementView {
    pub name: QNameView,
    pub preferred_prefix: Option<Seq<char>>,
    pub children: Seq<ChildOfElement>,
    pub parent: Option<ParentOfChild>,
    pub attributes: Seq<AttributeHandle>,
    pub prefixes: Seq<(Seq<char>, Seq<char>)>,
}

/// The mathematical value of an attribute.
pub struct AttributeView {
    pub name: QNameView,
    pub preferred_prefix: Option<Seq<char>>,
    pub value: Seq<char>,
    pub parent: Option<ElementHandle>,
}

/// The mathematical value of a text node.
pub struct TextView {
    pub text: Seq<char>,
    pub parent: Option<ElementHandle>,
}

/// The mathematical value of a comment.
pub struct CommentView {
    pub text: Seq<char>,
    pub parent: Option<ParentOfChild>,
}

/// The mathematical value of a processing instruction.
pub struct ProcessingInstructionView {
    pub target: Seq<char>,
    pub value: Option<Seq<char>>,
    pub parent: Option<ParentOfChild>,
}

/// The texts of a list of prefix bindings.
pub open spec fn bindings_text(
    bindings: Seq<(InternedString, InternedString)>,
) -> Seq<(Seq<char>, Seq<char>)> {
    bindings.map_values(|b: (InternedString, InternedString)| (b.0@, b.1@))
}

/// The container at the top of a document.
pub struct Root {
    pub(crate) children: Vec<ChildOfRoot>,
}

impl View for Root {
    type V = RootView;

    open(crate) spec fn view(&self) -> RootView {
        RootView { children: widen_all(self.children@) }
    }
}

impl Root {
    /// The root's children, in document order.
    pub fn children(&self) -> (children: &[ChildOfRoot])
        ensures
            widen_all(children@) == self@.children,
    {
        self.children.as_slice()
    }
}

/// An element: a name, children, attributes and local prefix bindings.
pub struct Element {
    pub(crate) name: InternedQName,
    pub(crate) preferred_prefix: Option<InternedString>,
    pub(crate) children: Vec<ChildOfElement>,
    pub(crate) parent: Option<ParentOfChild>,
    pub(crate) attributes: Vec<AttributeHandle>,
    pub(crate) prefix_to_namespace: Vec<(InternedString, InternedString)>,
}

impl View for Element {
    type V = ElementView;

    open(crate) spec fn view(&self) -> ElementView {
        ElementView {
            name: self.name@,
            preferred_prefix: optional_text(self.preferred_prefix),
            children: self.children@,
            parent: self.parent,
            attributes: self.attributes@,
            prefixes: bindings_text(self.prefix_to_namespace@),
        }
    }
}

impl Element {
    /// The element's qualified name.
    pub fn name(&self) -> (q: QName<'_>)
        ensures
            q@ == self@.name,
    {
        self.name.as_qname()
    }

    /// The prefix that serializers should prefer for this element, if any.
    pub fn preferred_prefix(&self) -> (p: Option<&str>)
        ensures
            optional_str(p) == self@.preferred_prefix,
    {
        optional_slice(&self.preferred_prefix)
    }
}

/// An attribute: a name and a value.
pub struct Attribute {
    pub(crate) name: InternedQName,
    pub(crate) preferred_prefix: Option<InternedString>,
    pub(crate) value: InternedString,
    pub(crate) parent: Option<ElementHandle>,
}

impl View for Attribute {
    type V = AttributeView;

    open(crate) spec fn view(&self) -> AttributeView {
        AttributeView {
            name: self.name@,
            preferred_prefix: optional_text(self.preferred_prefix),
            value: self.value@,
            parent: self.parent,
        }
    }
}

impl Attribute {
    /// The attribute's qualified name.
    pub fn name(&self) -> (q: QName<'_>)
        ensures
            q@ == self@.name,
    {
        self.name.as_qname()
    }

    /// The attribute's value.
    pub fn value(&self) -> (v: &str)
        ensures
            v@ == self@.value,
    {
        self.value.as_slice()
    }

    /// The prefix that serializers should prefer for this attribute, if any.
    pub fn preferred_prefix(&self) -> (p: Option<&str>)
        ensures
            optional_str(p) == self@.preferred_prefix,
    {
        optional_slice(&self.preferred_prefix)
    }
}

/// A run of character data.
pub struct Text {
    pub(crate) text: InternedString,
    pub(crate) parent: Option<ElementHandle>,
}

impl View for Text {
    type V = TextView;

    open(crate) spec fn view(&self) -> TextView {
        TextView { text: self.text@, parent: self.parent }
    }
}

impl Text {
    /// The character data.
    pub fn text(&self) -> (t: &str)
        ensures
            t@ == self@.text,
    {
        self.text.as_slice()
    }
}

/// A comment.
pub struct Comment {
    pub(crate) text: InternedString,
    pub(crate) parent: Option<ParentOfChild>,
}

impl View for Comment {
    type V = CommentView;

    open(crate) spec fn view(&self) -> CommentView {
        CommentView { text: self.text@, parent: self.parent }
    }
}

impl Comment {
    /// The comment's text.
    pub fn text(&self) -> (t: &str)
        ensures
            t@ == self@.text,
    {
        self.text.as_slice()
    }
}

/// A processing instruction: a target and an optional value.
pub struct ProcessingInstruction {
    pub(crate) target: InternedString,
    pub(crate) value: Option<InternedString>,
    pub(crate) parent: Option<ParentOfChild>,
}

impl View for ProcessingInstruction {
    type V = ProcessingInstructionView;

    open(crate) spec fn view(&self) -> ProcessingInstructionView {
        ProcessingInstructionView {
            target: self.target@,
            value: optional_text(self.value),
            parent: self.parent,
        }
    }
}

impl ProcessingInstruction {
    /// The instruction's target.
    pub fn target(&self) -> (t: &str)
        ensures
            t@ == self@.target,
    {
        self.target.as_slice()
    }

    /// The instruction's value, if any.
    pub fn value(&self) -> (v: Option<&str>)
        ensures
            optional_str(v) == self@.value,
    {
        optional_slice(&self.value)
    }
}

} // verus!
