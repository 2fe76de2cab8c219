//! The mathematical model of a store: every node record as a plain value,
//! the tree invariant, and the structural operations as functions from
//! graph to graph.

use vstd::prelude::*;
use crate::interned::QNameView;
use crate::nodes::{
    AttributeHandle, AttributeView, ChildOfElement, ChildOfRoot, CommentHandle, CommentView,
    ElementHandle, ElementView, ParentOfChild, ProcessingInstructionHandle,
    ProcessingInstructionView, RootHandle, RootView, TextHandle, TextView,
};

verus! {

/// `s` with every occurrence of `x` taken out; the others keep their order.
pub open spec fn without<A>(s: Seq<A>, x: A) -> Seq<A> {
    s.filter(|y: A| y != x)
}

/// The position at which `prefixes` binds `prefix`, if it does.
pub open spec fn binding_index(
    prefixes: Seq<(Seq<char>, Seq<char>)>,
    prefix: Seq<char>,
) -> Option<int> {
    if exists|i: int| 0 <= i < prefixes.len() && (#[trigger] prefixes[i]).0 == prefix {
        Some(choose|i: int| 0 <= i < prefixes.len() && (#[trigger] prefixes[i]).0 == prefix)
    } else {
        None
    }
}

/// The URI to which `prefixes` binds `prefix`, if it binds it.
pub open spec fn local_uri(
    prefixes: Seq<(Seq<char>, Seq<char>)>,
    prefix: Seq<char>,
) -> Option<Seq<char>> {
    match binding_index(prefixes, prefix) {
        Some(i) => Some(prefixes[i].1),
        None => None,
    }
}

/// `prefixes` with `prefix` bound to `uri`: an existing binding of `prefix`
/// is overwritten in place, a new one comes last.
pub open spec fn bind(
    prefixes: Seq<(Seq<char>, Seq<char>)>,
    prefix: Seq<char>,
    uri: Seq<char>,
) -> Seq<(Seq<char>, Seq<char>)> {
    match binding_index(prefixes, prefix) {
        Some(i) => prefixes.update(i, (prefix, uri)),
        None => prefixes.push((prefix, uri)),
    }
}

/// All node records of a store, each kind in allocation order. A handle is
/// the position of its record.
pub struct Graph {
    pub roots: Seq<RootView>,
    pub elements: Seq<ElementView>,
    pub attributes: Seq<AttributeView>,
    pub texts: Seq<TextView>,
    pub comments: Seq<CommentView>,
    pub processing_instructions: Seq<ProcessingInstructionView>,
}

impl Graph {
    /// The store in which nothing has been allocated.
    pub open spec fn empty() -> Graph {
        Graph {
            roots: Seq::empty(),
            elements: Seq::empty(),
            attributes: Seq::empty(),
            texts: Seq::empty(),
            comments: Seq::empty(),
            processing_instructions: Seq::empty(),
        }
    }

    /// Whether `r` names an allocated root.
    pub open spec fn has_root(self, r: RootHandle) -> bool {
        r.0 < self.roots.len()
    }

    /// Whether `e` names an allocated element.
    pub open spec fn has_element(self, e: ElementHandle) -> bool {
        e.0 < self.elements.len()
    }

    /// Whether `a` names an allocated attribute.
    pub open spec fn has_attribute(self, a: AttributeHandle) -> bool {
        a.0 < self.attributes.len()
    }

    /// Whether `t` names an allocated text node.
    pub open spec fn has_text(self, t: TextHandle) -> bool {
        t.0 < self.texts.len()
    }

    /// Whether `c` names an allocated comment.
    pub open spec fn has_comment(self, c: CommentHandle) -> bool {
        c.0 < self.comments.len()
    }

    /// Whether `p` names an allocated processing instruction.
    pub open spec fn has_processing_instruction(self, p: ProcessingInstructionHandle) -> bool {
        p.0 < self.processing_instructions.len()
    }

    /// Whether `c` names an allocated node.
    pub open spec fn has_child(self, c: ChildOfElement) -> bool {
        match c {
            ChildOfElement::Element(n) => self.has_element(n),
            ChildOfElement::Text(n) => self.has_text(n),
            ChildOfElement::Comment(n) => self.has_comment(n),
            ChildOfElement::ProcessingInstruction(n) => self.has_processing_instruction(n),
        }
    }

    /// Whether `p` names an allocated node.
    pub open spec fn has_parent(self, p: ParentOfChild) -> bool {
        match p {
            ParentOfChild::Root(n) => self.has_root(n),
            ParentOfChild::Element(n) => self.has_element(n),
        }
    }

    /// The parent field of `c`.
    pub open spec fn parent_of(self, c: ChildOfElement) -> Option<ParentOfChild> {
        match c {
            ChildOfElement::Element(n) => self.elements[n.0 as int].parent,
            ChildOfElement::Text(n) => match self.texts[n.0 as int].parent {
                Some(e) => Some(ParentOfChild::Element(e)),
                None => None,
            },
            ChildOfElement::Comment(n) => self.comments[n.0 as int].parent,
            ChildOfElement::ProcessingInstruction(n) => self.processing_instructions[n.0 as
                int].parent,
        }
    }

    /// The child list of `p`.
    pub open spec fn children_of(self, p: ParentOfChild) -> Seq<ChildOfElement> {
        match p {
            ParentOfChild::Root(n) => self.roots[n.0 as int].children,
            ParentOfChild::Element(n) => self.elements[n.0 as int].children,
        }
    }

    /// The parent of `e` where that is an element.
    pub open spec fn element_parent(self, e: ElementHandle) -> Option<ElementHandle> {
        match self.elements[e.0 as int].parent {
            Some(ParentOfChild::Element(q)) => Some(q),
            _ => None,
        }
    }

    /// The attribute list of `e`.
    pub open spec fn attributes_of(self, e: ElementHandle) -> Seq<AttributeHandle> {
        self.elements[e.0 as int].attributes
    }

    /// The parent field of `a`.
    pub open spec fn attribute_parent(self, a: AttributeHandle) -> Option<ElementHandle> {
        self.attributes[a.0 as int].parent
    }

    /// The prefix bindings local to `e`, each a prefix and a namespace URI.
    pub open spec fn prefixes_of(self, e: ElementHandle) -> Seq<(Seq<char>, Seq<char>)> {
        self.elements[e.0 as int].prefixes
    }

    /// The name of attribute `a`.
    pub open spec fn attribute_name(self, a: AttributeHandle) -> QNameView {
        self.attributes[a.0 as int].name
    }

    // ----- the invariant -----

    /// Every entry of a child list names an allocated node.
    pub open spec fn children_valid(self) -> bool {
        forall|p: ParentOfChild, i: int|
            self.has_parent(p) && 0 <= i < self.children_of(p).len() ==> self.has_child(
                #[trigger] self.children_of(p)[i],
            )
    }

    /// Every entry of a child list has that list's owner as its parent.
    pub open spec fn children_linked(self) -> bool {
        forall|p: ParentOfChild, i: int|
            self.has_parent(p) && 0 <= i < self.children_of(p).len() ==> self.parent_of(
                #[trigger] self.children_of(p)[i],
            ) == Some(p)
    }

    /// Every node with a parent is allocated under it and stands in its child list.
    pub open spec fn parents_linked(self) -> bool {
        forall|c: ChildOfElement|
            self.has_child(c) ==> match #[trigger] self.parent_of(c) {
                Some(p) => self.has_parent(p) && self.children_of(p).contains(c),
                None => true,
            }
    }

    /// No child list holds a node twice.
    pub open spec fn children_distinct(self) -> bool {
        forall|p: ParentOfChild|
            self.has_parent(p) ==> (#[trigger] self.children_of(p)).no_duplicates()
    }

    /// No root holds a text node.
    pub open spec fn roots_hold_no_text(self) -> bool {
        forall|r: RootHandle, i: int|
            self.has_root(r) && 0 <= i < self.children_of(ParentOfChild::Root(r)).len() ==> !(
            #[trigger] self.children_of(ParentOfChild::Root(r))[i] is Text)
    }

    /// A root holds at most one element.
    pub open spec fn roots_hold_one_element(self) -> bool {
        forall|r: RootHandle, i: int, j: int|
            self.has_root(r) && 0 <= i < self.children_of(ParentOfChild::Root(r)).len() && 0 <= j
                < self.children_of(ParentOfChild::Root(r)).len() && (#[trigger] self.children_of(
                ParentOfChild::Root(r),
            )[i] is Element) && (#[trigger] self.children_of(ParentOfChild::Root(r))[j] is Element)
                ==> i == j
    }

    /// Every entry of an attribute list names an allocated attribute.
    pub open spec fn attributes_valid(self) -> bool {
        forall|e: ElementHandle, i: int|
            self.has_element(e) && 0 <= i < self.attributes_of(e).len() ==> self.has_attribute(
                #[trigger] self.attributes_of(e)[i],
            )
    }

    /// Every entry of an attribute list has that list's owner as its parent.
    pub open spec fn attributes_linked(self) -> bool {
        forall|e: ElementHandle, i: int|
            self.has_element(e) && 0 <= i < self.attributes_of(e).len() ==> self.attribute_parent(
                #[trigger] self.attributes_of(e)[i],
            ) == Some(e)
    }

    /// Every attribute with a parent stands in that element's attribute list.
    pub open spec fn attribute_parents_linked(self) -> bool {
        forall|a: AttributeHandle|
            self.has_attribute(a) ==> match #[trigger] self.attribute_parent(a) {
                Some(e) => self.has_element(e) && self.attributes_of(e).contains(a),
                None => true,
            }
    }

    /// No attribute list holds an attribute twice.
    pub open spec fn attributes_distinct(self) -> bool {
        forall|e: ElementHandle|
            self.has_element(e) ==> (#[trigger] self.attributes_of(e)).no_duplicates()
    }

    /// No attribute list holds two attributes with equal names.
    pub open spec fn attribute_names_distinct(self) -> bool {
        forall|e: ElementHandle, i: int, j: int|
            self.has_element(e) && 0 <= i < self.attributes_of(e).len() && 0 <= j
                < self.attributes_of(e).len() && self.attribute_name(
                #[trigger] self.attributes_of(e)[i],
            ) == self.attribute_name(#[trigger] self.attributes_of(e)[j]) ==> i == j
    }

    /// No element binds a prefix twice.
    pub open spec fn prefixes_distinct(self) -> bool {
        forall|e: ElementHandle, i: int, j: int|
            self.has_element(e) && 0 <= i < self.prefixes_of(e).len() && 0 <= j
                < self.prefixes_of(e).len() && (#[trigger] self.prefixes_of(e)[i]).0 == (
            #[trigger] self.prefixes_of(e)[j]).0 ==> i == j
    }

    /// `ranks` gives every element a number larger than that of its parent element.
    pub open spec fn ranked_by(self, ranks: Seq<nat>) -> bool {
        &&& ranks.len() == self.elements.len()
        &&& forall|e: ElementHandle|
            self.has_element(e) ==> match #[trigger] self.element_parent(e) {
                Some(q) => self.has_element(q) && ranks[q.0 as int] < ranks[e.0 as int],
                None => true,
            }
    }

    /// No element is its own ancestor.
    pub open spec fn acyclic(self) -> bool {
        exists|ranks: Seq<nat>| self.ranked_by(ranks)
    }

    /// The tree invariant.
    pub open spec fn wf(self) -> bool {
        &&& self.children_valid()
        &&& self.children_linked()
        &&& self.parents_linked()
        &&& self.children_distinct()
        &&& self.roots_hold_no_text()
        &&& self.roots_hold_one_element()
        &&& self.attributes_valid()
        &&& self.attributes_linked()
        &&& self.attribute_parents_linked()
        &&& self.attributes_distinct()
        &&& self.attribute_names_distinct()
        &&& self.prefixes_distinct()
        &&& self.acyclic()
    }

    // ----- ancestry -----

    /// Some ranking of the elements, fixed once for each graph.
    pub closed spec fn ranking(self) -> Seq<nat> {
        choose|ranks: Seq<nat>| self.ranked_by(ranks)
    }

    /// The rank of `e`: in an acyclic graph, larger than its parent's.
    pub open spec fn rank(self, e: ElementHandle) -> nat {
        self.ranking()[e.0 as int]
    }

    /// The parent of `e` where that is an element of smaller rank; in an
    /// acyclic graph this is `element_parent`, see `lemma_rank`.
    pub open spec fn ascend(self, e: ElementHandle) -> Option<ElementHandle> {
        match self.element_parent(e) {
            Some(q) => if self.rank(q) < self.rank(e) {
                Some(q)
            } else {
                None
            },
            None => None,
        }
    }

    /// The element reached from `e` by going to the parent element `steps` times.
    pub open spec fn up(self, e: ElementHandle, steps: nat) -> Option<ElementHandle>
        decreases steps,
    {
        if steps == 0 {
            Some(e)
        } else {
            match self.element_parent(e) {
                Some(q) => self.up(q, (steps - 1) as nat),
                None => None,
            }
        }
    }

    /// Whether `a` is `e` or one of its ancestors.
    pub open spec fn is_ancestor_or_self(self, a: ElementHandle, e: ElementHandle) -> bool {
        exists|steps: nat| self.up(e, steps) == Some(a)
    }

    /// In an acyclic graph every element parent is allocated and of smaller rank.
    pub proof fn lemma_rank(self, e: ElementHandle)
        requires
            self.acyclic(),
            self.has_element(e),
        ensures
            match self.element_parent(e) {
                Some(q) => self.has_element(q) && self.rank(q) < self.rank(e) && self.ascend(e) ==
                    Some(q),
                None => self.ascend(e) is None,
            },
    {
    }

    // ----- structural operations -----

    /// The graph with the parent field of `c` set to `p`.
    pub open spec fn with_parent(self, c: ChildOfElement, p: Option<ParentOfChild>) -> Graph {
        match c {
            ChildOfElement::Element(n) => Graph {
                elements: self.elements.update(
                    n.0 as int,
                    ElementView { parent: p, ..self.elements[n.0 as int] },
                ),
                ..self
            },
            ChildOfElement::Text(n) => Graph {
                texts: self.texts.update(
                    n.0 as int,
                    TextView {
                        parent: match p {
                            Some(ParentOfChild::Element(e)) => Some(e),
                            _ => None,
                        },
                        ..self.texts[n.0 as int]
                    },
                ),
                ..self
            },
            ChildOfElement::Comment(n) => Graph {
                comments: self.comments.update(
                    n.0 as int,
                    CommentView { parent: p, ..self.comments[n.0 as int] },
                ),
                ..self
            },
            ChildOfElement::ProcessingInstruction(n) => Graph {
                processing_instructions: self.processing_instructions.update(
                    n.0 as int,
                    ProcessingInstructionView { parent: p, ..self.processing_instructions[n.0 as
                        int] },
                ),
                ..self
            },
        }
    }

    /// The graph with the child list of `p` set to `children`.
    pub open spec fn with_children(self, p: ParentOfChild, children: Seq<ChildOfElement>) -> Graph {
        match p {
            ParentOfChild::Root(n) => Graph {
                roots: self.roots.update(n.0 as int, RootView { children }),
                ..self
            },
            ParentOfChild::Element(n) => Graph {
                elements: self.elements.update(
                    n.0 as int,
                    ElementView { children, ..self.elements[n.0 as int] },
                ),
                ..self
            },
        }
    }

    /// The graph with `c` taken out of its parent's child list and left
    /// without a parent. The parent's other children keep their order.
    pub open spec fn detach(self, c: ChildOfElement) -> Graph {
        match self.parent_of(c) {
            Some(p) => self.with_children(p, without(self.children_of(p), c)).with_parent(c, None),
            None => self,
        }
    }

    /// The graph with `c` put last in the child list of `p` and given `p` as parent.
    pub open spec fn attach(self, p: ParentOfChild, c: ChildOfElement) -> Graph {
        self.with_children(p, self.children_of(p).push(c)).with_parent(c, Some(p))
    }

    /// The element among the children of root `r`, if there is one.
    pub open spec fn root_element(self, r: RootHandle) -> Option<ElementHandle> {
        let children = self.children_of(ParentOfChild::Root(r));
        if exists|i: int| 0 <= i < children.len() && #[trigger] children[i] is Element {
            let i = choose|i: int| 0 <= i < children.len() && #[trigger] children[i] is Element;
            Some(children[i]->Element_0)
        } else {
            None
        }
    }

    /// The graph with the element that root `r` holds, if any, detached.
    pub open spec fn without_root_element(self, r: RootHandle) -> Graph {
        match self.root_element(r) {
            Some(e) => self.detach(ChildOfElement::Element(e)),
            None => self,
        }
    }

    /// Appending `c` to root `r`: where `c` is an element, the element that
    /// `r` holds leaves `r` and is left without a parent; `c` leaves its
    /// parent; then `c` becomes the last child of `r`.
    pub open spec fn append_root_child(self, r: RootHandle, c: ChildOfRoot) -> Graph {
        let cleared = if c is Element {
            self.without_root_element(r)
        } else {
            self
        };
        cleared.detach(c.widen()).attach(ParentOfChild::Root(r), c.widen())
    }

    /// Appending `c` to element `p`: `c` leaves its parent and becomes the
    /// last child of `p`. Where `c` is `p` or one of its ancestors the call
    /// is refused and the graph stays as it is.
    pub open spec fn append_element_child(self, p: ElementHandle, c: ChildOfElement) -> Graph {
        if c is Element && self.is_ancestor_or_self(c->Element_0, p) {
            self
        } else {
            self.detach(c).attach(ParentOfChild::Element(p), c)
        }
    }

    // ----- siblings -----

    /// The children of the parent of `c` that come before `c`, in document
    /// order; none where `c` has no parent.
    pub open spec fn preceding_siblings(self, c: ChildOfElement) -> Seq<ChildOfElement> {
        match self.parent_of(c) {
            Some(p) => self.children_of(p).take(self.children_of(p).index_of(c)),
            None => Seq::empty(),
        }
    }

    /// The children of the parent of `c` that come after `c`, in document
    /// order; none where `c` has no parent.
    pub open spec fn following_siblings(self, c: ChildOfElement) -> Seq<ChildOfElement> {
        match self.parent_of(c) {
            Some(p) => self.children_of(p).skip(self.children_of(p).index_of(c) + 1),
            None => Seq::empty(),
        }
    }

    // ----- attributes -----

    /// The attribute of `e` named `name`, if there is one.
    pub open spec fn attribute_named(
        self,
        e: ElementHandle,
        name: QNameView,
    ) -> Option<AttributeHandle> {
        let attributes = self.attributes_of(e);
        if exists|i: int| 0 <= i < attributes.len() && self.attribute_name(#[trigger] attributes[i])
            == name {
            let i = choose|i: int| 0 <= i < attributes.len() && self.attribute_name(#[trigger]
                attributes[i]) == name;
            Some(attributes[i])
        } else {
            None
        }
    }

    /// The graph with the attribute list of `e` set to `attributes`.
    pub open spec fn with_attributes(
        self,
        e: ElementHandle,
        attributes: Seq<AttributeHandle>,
    ) -> Graph {
        Graph {
            elements: self.elements.update(
                e.0 as int,
                ElementView { attributes, ..self.elements[e.0 as int] },
            ),
            ..self
        }
    }

    /// The graph with the parent field of `a` set to `p`.
    pub open spec fn with_attribute_parent(
        self,
        a: AttributeHandle,
        p: Option<ElementHandle>,
    ) -> Graph {
        Graph {
            attributes: self.attributes.update(
                a.0 as int,
                AttributeView { parent: p, ..self.attributes[a.0 as int] },
            ),
            ..self
        }
    }

    /// The graph with `a` taken out of its element's attribute list and left
    /// without a parent.
    pub open spec fn detach_attribute(self, a: AttributeHandle) -> Graph {
        match self.attribute_parent(a) {
            Some(e) => self.with_attributes(e, without(self.attributes_of(e), a))
                .with_attribute_parent(a, None),
            None => self,
        }
    }

    /// The graph with `a` put last in the attribute list of `e` and given `e` as parent.
    pub open spec fn attach_attribute(self, e: ElementHandle, a: AttributeHandle) -> Graph {
        self.with_attributes(e, self.attributes_of(e).push(a)).with_attribute_parent(
            a,
            Some(e),
        )
    }

    /// The graph with the attribute of `e` named `name`, if any, detached.
    pub open spec fn without_attribute_named(self, e: ElementHandle, name: QNameView) -> Graph {
        match self.attribute_named(e, name) {
            Some(prior) => self.detach_attribute(prior),
            None => self,
        }
    }

    /// Setting attribute `a` on element `e`: the attribute of `e` with the
    /// name of `a` leaves `e` and is left without a parent; `a` leaves the
    /// element it was on; then `a` becomes the last attribute of `e`.
    pub open spec fn set_attribute(self, e: ElementHandle, a: AttributeHandle) -> Graph {
        self.without_attribute_named(e,
            self.attribute_name(a)).detach_attribute(a).attach_attribute(
            e,
            a,
        )
    }

    // ----- allocation -----

    /// The graph with one more root, without children.
    pub open spec fn with_new_root(self) -> Graph {
        Graph { roots: self.roots.push(RootView { children: Seq::empty() }), ..self }
    }

    /// The graph with one more element named `name`: no parent, no children,
    /// no attributes, no preferred prefix, no prefix bindings.
    pub open spec fn with_new_element(self, name: QNameView) -> Graph {
        Graph {
            elements: self.elements.push(
                ElementView {
                    name,
                    preferred_prefix: None,
                    children: Seq::empty(),
                    parent: None,
                    attributes: Seq::empty(),
                    prefixes: Seq::empty(),
                },
            ),
            ..self
        }
    }

    /// The graph with one more attribute: no parent, no preferred prefix.
    pub open spec fn with_new_attribute(self, name: QNameView, value: Seq<char>) -> Graph {
        Graph {
            attributes: self.attributes.push(
                AttributeView { name, preferred_prefix: None, value, parent: None },
            ),
            ..self
        }
    }

    /// The graph with one more text node, without a parent.
    pub open spec fn with_new_text(self, text: Seq<char>) -> Graph {
        Graph { texts: self.texts.push(TextView { text, parent: None }), ..self }
    }

    /// The graph with one more comment, without a parent.
    pub open spec fn with_new_comment(self, text: Seq<char>) -> Graph {
        Graph { comments: self.comments.push(CommentView { text, parent: None }), ..self }
    }

    /// The graph with one more processing instruction, without a parent.
    pub open spec fn with_new_processing_instruction(
        self,
        target: Seq<char>,
        value: Option<Seq<char>>,
    ) -> Graph {
        Graph {
            processing_instructions: self.processing_instructions.push(
                ProcessingInstructionView { target, value, parent: None },
            ),
            ..self
        }
    }

    // ----- scalar fields -----

    /// The graph with element `e` valued `element`.
    pub open spec fn with_element(self, e: ElementHandle, element: ElementView) -> Graph {
        Graph { elements: self.elements.update(e.0 as int, element), ..self }
    }

    /// The graph with element `e` renamed to `name`.
    pub open spec fn with_element_name(self, e: ElementHandle, name: QNameView) -> Graph {
        self.with_element(e, ElementView { name, ..self.elements[e.0 as int] })
    }

    /// The graph with the preferred prefix of element `e` set to `prefix`.
    pub open spec fn with_element_preferred_prefix(
        self,
        e: ElementHandle,
        prefix: Option<Seq<char>>,
    ) -> Graph {
        self.with_element(e, ElementView { preferred_prefix: prefix, ..self.elements[e.0 as int] })
    }

    /// The graph with `prefix` bound to `uri` on element `e`.
    pub open spec fn with_prefix(
        self,
        e: ElementHandle,
        prefix: Seq<char>,
        uri: Seq<char>,
    ) -> Graph {
        self.with_element(
            e,
            ElementView { prefixes: bind(self.prefixes_of(e), prefix, uri), ..self.elements[e.0 as
                int] },
        )
    }

    /// The graph with the preferred prefix of attribute `a` set to `prefix`.
    pub open spec fn with_attribute_preferred_prefix(
        self,
        a: AttributeHandle,
        prefix: Option<Seq<char>>,
    ) -> Graph {
        Graph {
            attributes: self.attributes.update(
                a.0 as int,
                AttributeView { preferred_prefix: prefix, ..self.attributes[a.0 as int] },
            ),
            ..self
        }
    }

    /// The graph with the character data of `t` set to `text`.
    pub open spec fn with_text(self, t: TextHandle, text: Seq<char>) -> Graph {
        Graph {
            texts: self.texts.update(t.0 as int, TextView { text, ..self.texts[t.0 as int] }),
            ..self
        }
    }

    /// The graph with the text of comment `c` set to `text`.
    pub open spec fn with_comment_text(self, c: CommentHandle, text: Seq<char>) -> Graph {
        Graph {
            comments: self.comments.update(
                c.0 as int,
                CommentView { text, ..self.comments[c.0 as int] },
            ),
            ..self
        }
    }

    /// The graph with the target of processing instruction `p` set to `target`.
    pub open spec fn with_processing_instruction_target(
        self,
        p: ProcessingInstructionHandle,
        target: Seq<char>,
    ) -> Graph {
        Graph {
            processing_instructions: self.processing_instructions.update(
                p.0 as int,
                ProcessingInstructionView { target, ..self.processing_instructions[p.0 as int] },
            ),
            ..self
        }
    }

    /// The graph with the value of processing instruction `p` set to `value`.
    pub open spec fn with_processing_instruction_value(
        self,
        p: ProcessingInstructionHandle,
        value: Option<Seq<char>>,
    ) -> Graph {
        Graph {
            processing_instructions: self.processing_instructions.update(
                p.0 as int,
                ProcessingInstructionView { value, ..self.processing_instructions[p.0 as int] },
            ),
            ..self
        }
    }

    /// Whether two graphs have the same number of nodes of every kind.
    pub open spec fn same_nodes(self, other: Graph) -> bool {
        &&& self.roots.len() == other.roots.len()
        &&& self.elements.len() == other.elements.len()
        &&& self.attributes.len() == other.attributes.len()
        &&& self.texts.len() == other.texts.len()
        &&& self.comments.len() == other.comments.len()
        &&& self.processing_instructions.len() == other.processing_instructions.len()
    }
}

} // verus!
