//! The structural operations on a store, anchored at one root.

use vstd::prelude::*;
use crate::graph::without;
use crate::proofs::moves::attachable;
use crate::proofs::operations::{
    lemma_append_element_child, lemma_append_root_child, lemma_set_attribute,
};
use crate::interned::ToQName;
use crate::nodes::{
    AttributeHandle, ChildOfElement, ChildOfRoot, CommentHandle, ElementHandle, ParentOfChild,
    ProcessingInstructionHandle, RootHandle, TextHandle, widen_all,
};
use crate::storage::Storage;

verus! {

/// What can be appended to a root: a child of a root, or an element handle.
pub trait ToChildOfRoot: Sized {
    /// The child that `self` stands for.
    spec fn child_of_root(self) -> ChildOfRoot;

    /// Converts `self` into the child that it stands for.
    fn to_child_of_root(self) -> (c: ChildOfRoot)
        ensures
            c == self.child_of_root(),
    ;
}

impl ToChildOfRoot for ChildOfRoot {
    open spec fn child_of_root(self) -> ChildOfRoot {
        self
    }

    fn to_child_of_root(self) -> (c: ChildOfRoot) {
        self
    }
}

impl ToChildOfRoot for ElementHandle {
    open spec fn child_of_root(self) -> ChildOfRoot {
        ChildOfRoot::Element(self)
    }

    fn to_child_of_root(self) -> (c: ChildOfRoot) {
        ChildOfRoot::Element(self)
    }
}

/// What can be appended to an element: a child of an element, an element
/// handle or a text handle.
pub trait ToChildOfElement: Sized {
    /// The child that `self` stands for.
    spec fn child_of_element(self) -> ChildOfElement;

    /// Converts `self` into the child that it stands for.
    fn to_child_of_element(self) -> (c: ChildOfElement)
        ensures
            c == self.child_of_element(),
    ;
}

impl ToChildOfElement for ChildOfElement {
    open spec fn child_of_element(self) -> ChildOfElement {
        self
    }

    fn to_child_of_element(self) -> (c: ChildOfElement) {
        self
    }
}

impl ToChildOfElement for ElementHandle {
    open spec fn child_of_element(self) -> ChildOfElement {
        ChildOfElement::Element(self)
    }

    fn to_child_of_element(self) -> (c: ChildOfElement) {
        ChildOfElement::Element(self)
    }
}

impl ToChildOfElement for TextHandle {
    open spec fn child_of_element(self) -> ChildOfElement {
        ChildOfElement::Text(self)
    }

    fn to_child_of_element(self) -> (c: ChildOfElement) {
        ChildOfElement::Text(self)
    }
}

/// Moves `child` from wherever it is to the end of the list of `parent`.
pub(crate) fn replace_parent(storage: &mut Storage, child: ChildOfElement, parent: ParentOfChild)
    requires
        old(storage).wf(),
        old(storage)@.has_child(child),
        attachable(old(storage)@.detach(child), parent, child),
    ensures
        final(storage).wf(),
        final(storage)@ == old(storage)@.detach(child).attach(parent, child),
{
    storage.detach(child);
    storage.attach(parent, child);
}

impl ChildOfRoot {
    /// Makes `parent` the parent of `self`: an element pushes out the
    /// element that `parent` holds.
    pub(crate) fn replace_parent(&self, storage: &mut Storage, parent: RootHandle)
        requires
            old(storage).wf(),
            old(storage)@.has_root(parent),
            old(storage)@.has_child(self.widen()),
        ensures
            final(storage).wf(),
            final(storage)@ == old(storage)@.append_root_child(parent, *self),
    {
        proof {
            lemma_append_root_child(storage@, parent, *self);
        }
        if self.is_element() {
            match storage.root_element(parent) {
                Some(e) => storage.detach(ChildOfElement::Element(e)),
                None => {},
            }
        }
        replace_parent(storage, self.to_child_of_element(), ParentOfChild::Root(parent));
    }
}

impl ChildOfElement {
    /// Makes `parent` the parent of `self`, which must not be `parent` or
    /// one of its ancestors.
    pub(crate) fn replace_parent(&self, storage: &mut Storage, parent: ElementHandle)
        requires
            old(storage).wf(),
            old(storage)@.has_element(parent),
            old(storage)@.has_child(*self),
            !(*self is Element && old(storage)@.is_ancestor_or_self(self->Element_0, parent)),
        ensures
            final(storage).wf(),
            final(storage)@ == old(storage)@.append_element_child(parent, *self),
    {
        proof {
            lemma_append_element_child(storage@, parent, *self);
        }
        replace_parent(storage, *self, ParentOfChild::Element(parent));
    }
}

/// The structural view of a store from one of its roots.
pub struct Connections {
    root: RootHandle,
}

impl View for Connections {
    type V = RootHandle;

    closed spec fn view(&self) -> RootHandle {
        self.root
    }
}

impl Connections {
    /// Connections anchored at `root`.
    pub fn new(root: RootHandle) -> (c: Connections)
        ensures
            c@ == root,
    {
        Connections { root }
    }

    /// The anchoring root.
    pub fn root(&self) -> (r: RootHandle)
        ensures
            r == self@,
    {
        self.root
    }

    /// The parent of `child`, if it has one.
    pub fn element_parent(
        &self,
        storage: &Storage,
        child: ElementHandle,
    ) -> (p: Option<ParentOfChild>)
        requires
            storage@.has_element(child),
        ensures
            p == storage@.parent_of(ChildOfElement::Element(child)),
    {
        storage.elements[child.0].parent
    }

    /// The parent of `child`, if it has one.
    pub fn text_parent(&self, storage: &Storage, child: TextHandle) -> (p: Option<ElementHandle>)
        requires
            storage@.has_text(child),
        ensures
            p == storage@.texts[child.0 as int].parent,
    {
        storage.texts[child.0].parent
    }

    /// The parent of `child`, if it has one.
    pub fn comment_parent(
        &self,
        storage: &Storage,
        child: CommentHandle,
    ) -> (p: Option<ParentOfChild>)
        requires
            storage@.has_comment(child),
        ensures
            p == storage@.parent_of(ChildOfElement::Comment(child)),
    {
        storage.comments[child.0].parent
    }

    /// The parent of `child`, if it has one.
    pub fn processing_instruction_parent(
        &self,
        storage: &Storage,
        child: ProcessingInstructionHandle,
    ) -> (p: Option<ParentOfChild>)
        requires
            storage@.has_processing_instruction(child),
        ensures
            p == storage@.parent_of(ChildOfElement::ProcessingInstruction(child)),
    {
        storage.processing_instructions[child.0].parent
    }

    /// Makes `child` the last child of the root.
    ///
    /// The child leaves the parent it had. An element pushes out the element
    /// that the root holds, which is left without a parent; the root's other
    /// children keep their places.
    pub fn append_root_child<C: ToChildOfRoot>(&self, storage: &mut Storage, child: C)
        requires
            old(storage).wf(),
            old(storage)@.has_root(self@),
            old(storage)@.has_child(child.child_of_root().widen()),
        ensures
            final(storage).wf(),
            final(storage)@ == old(storage)@.append_root_child(self@, child.child_of_root()),
            final(storage)@.same_nodes(old(storage)@),
            final(storage)@.parent_of(child.child_of_root().widen()) == Some(
                ParentOfChild::Root(self@),
            ),
            final(storage)@.children_of(ParentOfChild::Root(self@)) == without(
                if child.child_of_root() is Element {
                    old(storage)@.without_root_element(self@)
                } else {
                    old(storage)@
                }.children_of(ParentOfChild::Root(self@)),
                child.child_of_root().widen(),
            ).push(child.child_of_root().widen()),
    {
        let child = child.to_child_of_root();
        proof {
            lemma_append_root_child(storage@, self.root, child);
        }
        child.replace_parent(storage, self.root);
    }

    /// Makes `child` the last child of `parent`.
    ///
    /// The child leaves the parent it had, whose other children keep their
    /// places. An element that is `parent` itself or one of its ancestors is
    /// not moved: the store stays as it is.
    pub fn append_element_child<C: ToChildOfElement>(
        &self,
        storage: &mut Storage,
        parent: ElementHandle,
        child: C,
    )
        requires
            old(storage).wf(),
            old(storage)@.has_element(parent),
            old(storage)@.has_child(child.child_of_element()),
        ensures
            final(storage).wf(),
            final(storage)@ == old(storage)@.append_element_child(parent, child.child_of_element()),
            final(storage)@.same_nodes(old(storage)@),
            !(child.child_of_element() is Element && old(storage)@.is_ancestor_or_self(
                child.child_of_element()->Element_0,
                parent,
            )) ==> {
                &&& final(storage)@.parent_of(child.child_of_element()) == Some(
                    ParentOfChild::Element(parent),
                )
                &&& final(storage)@.children_of(ParentOfChild::Element(parent)) == without(
                    old(storage)@.children_of(ParentOfChild::Element(parent)),
                    child.child_of_element(),
                ).push(child.child_of_element())
            },
    {
        let child = child.to_child_of_element();
        proof {
            lemma_append_element_child(storage@, parent, child);
        }
        match child {
            ChildOfElement::Element(e) => {
                if storage.is_ancestor_or_self(e, parent) {
                    return;
                }
            },
            _ => {},
        }
        child.replace_parent(storage, parent);
    }

    /// The children of the root, in document order.
    pub fn root_children<'a>(&self, storage: &'a Storage) -> (children: &'a [ChildOfRoot])
        requires
            storage@.has_root(self@),
        ensures
            widen_all(children@) == storage@.children_of(ParentOfChild::Root(self@)),
    {
        storage.roots[self.root.0].children.as_slice()
    }

    /// The children of `parent`, in document order.
    pub fn element_children<'a>(
        &self,
        storage: &'a Storage,
        parent: ElementHandle,
    ) -> (children: &'a [ChildOfElement])
        requires
            storage@.has_element(parent),
        ensures
            children@ == storage@.children_of(ParentOfChild::Element(parent)),
    {
        storage.elements[parent.0].children.as_slice()
    }

    /// The element that `attribute` is on, if any.
    pub fn attribute_parent(
        &self,
        storage: &Storage,
        attribute: AttributeHandle,
    ) -> (p: Option<ElementHandle>)
        requires
            storage@.has_attribute(attribute),
        ensures
            p == storage@.attribute_parent(attribute),
    {
        storage.attributes[attribute.0].parent
    }

    /// The attributes of `parent`, in no order that callers may rely on.
    pub fn attributes<'a>(
        &self,
        storage: &'a Storage,
        parent: ElementHandle,
    ) -> (attributes: &'a [AttributeHandle])
        requires
            storage@.has_element(parent),
        ensures
            attributes@ == storage@.attributes_of(parent),
    {
        storage.elements[parent.0].attributes.as_slice()
    }

    /// The attribute of `element` named `name`, if there is one.
    pub fn attribute<'n, N: ToQName<'n>>(
        &self,
        storage: &Storage,
        element: ElementHandle,
        name: N,
    ) -> (found: Option<AttributeHandle>)
        requires
            storage.wf(),
            storage@.has_element(element),
        ensures
            found == storage@.attribute_named(element, name.qname()),
            match found {
                Some(a) => storage@.attributes_of(element).contains(a) && storage@.attribute_name(a)
                    == name.qname(),
                None => forall|i: int|
                    0 <= i < storage@.attributes_of(element).len() ==> storage@.attribute_name(
                        #[trigger] storage@.attributes_of(element)[i],
                    ) != name.qname(),
            },
    {
        let name = name.to_qname();
        storage.attribute_named(element, &name)
    }

    /// Puts `attribute` on `parent`.
    ///
    /// The attribute of `parent` with the same name leaves it and is left
    /// without a parent; `attribute` leaves the element it was on and becomes
    /// the last attribute of `parent`.
    pub fn set_attribute(
        &self,
        storage: &mut Storage,
        parent: ElementHandle,
        attribute: AttributeHandle,
    )
        requires
            old(storage).wf(),
            old(storage)@.has_element(parent),
            old(storage)@.has_attribute(attribute),
        ensures
            final(storage).wf(),
            final(storage)@ == old(storage)@.set_attribute(parent, attribute),
            final(storage)@.same_nodes(old(storage)@),
            final(storage)@.attribute_parent(attribute) == Some(parent),
            final(storage)@.attribute_named(parent, old(storage)@.attribute_name(attribute)) ==
                Some(
                attribute,
            ),
            final(storage)@.attributes_of(parent) == without(
                old(storage)@.without_attribute_named(
                    parent,
                    old(storage)@.attribute_name(attribute),
                ).attributes_of(parent),
                attribute,
            ).push(attribute),
    {
        proof {
            lemma_set_attribute(storage@, parent, attribute);
        }
        let prior = {
            let name = storage.attributes[attribute.0].name.as_qname();
            storage.attribute_named(parent, &name)
        };
        match prior {
            Some(a) => storage.detach_attribute(a),
            None => {},
        }
        storage.detach_attribute(attribute);
        storage.attach_attribute(parent, attribute);
    }
}

} // verus!
