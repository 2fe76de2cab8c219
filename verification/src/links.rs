//! The primitive moves on a store: taking a node out of its parent's list
//! and putting an orphan into one. Each is the executable form of the
//! model's operation of the same name.

use vstd::prelude::*;
use crate::graph::without;
use crate::proofs::ancestry::lemma_ancestry_step;
use crate::proofs::lists::lemma_without_push;
use crate::proofs::moves::{
    attachable, attribute_attachable, lemma_attach, lemma_attach_attribute, lemma_detach,
    lemma_detach_attribute,
};
use crate::interned::QName;
use crate::nodes::{
    AttributeHandle, ChildOfElement, ChildOfRoot, ElementHandle, ParentOfChild, RootHandle,
        widen_all,
};
use crate::storage::Storage;

verus! {

/// Takes every occurrence of `c` out of `list`.
fn remove_child(list: &mut Vec<ChildOfElement>, c: ChildOfElement)
    ensures
        final(list)@ == without(old(list)@, c),
{
    let mut kept: Vec<ChildOfElement> = Vec::new();
    let mut i: usize = 0;
    while i < list.len()
        invariant
            i <= list.len(),
            kept@ == without(list@.take(i as int), c),
        decreases list.len() - i,
    {
        proof {
            list@.lemma_take_succ_push(i as int);
            lemma_without_push(list@.take(i as int), list@[i as int], c);
        }
        if list[i] != c {
            kept.push(list[i]);
        }
        i += 1;
    }
    proof {
        list@.lemma_take_len();
    }
    *list = kept;
}

/// Takes every occurrence of `c` out of a root's list.
fn remove_root_child(list: &mut Vec<ChildOfRoot>, c: ChildOfElement)
    ensures
        widen_all(final(list)@) == without(widen_all(old(list)@), c),
{
    let mut kept: Vec<ChildOfRoot> = Vec::new();
    let mut i: usize = 0;
    while i < list.len()
        invariant
            i <= list.len(),
            widen_all(kept@) == without(widen_all(list@.take(i as int)), c),
        decreases list.len() - i,
    {
        proof {
            assert(widen_all(list@.take(i as int + 1)) =~= widen_all(list@.take(i as int)).push(
                list@[i as int].widen(),
            ));
            lemma_without_push(widen_all(list@.take(i as int)), list@[i as int].widen(), c);
        }
        if list[i].to_child_of_element() != c {
            kept.push(list[i]);
        }
        i += 1;
    }
    proof {
        list@.lemma_take_len();
    }
    *list = kept;
}

/// Takes every occurrence of `a` out of an attribute list.
fn remove_attribute(list: &mut Vec<AttributeHandle>, a: AttributeHandle)
    ensures
        final(list)@ == without(old(list)@, a),
{
    let mut kept: Vec<AttributeHandle> = Vec::new();
    let mut i: usize = 0;
    while i < list.len()
        invariant
            i <= list.len(),
            kept@ == without(list@.take(i as int), a),
        decreases list.len() - i,
    {
        proof {
            list@.lemma_take_succ_push(i as int);
            lemma_without_push(list@.take(i as int), list@[i as int], a);
        }
        if list[i] != a {
            kept.push(list[i]);
        }
        i += 1;
    }
    proof {
        list@.lemma_take_len();
    }
    *list = kept;
}

impl ChildOfElement {
    /// The same node as a possible child of a root; `None` for text.
    pub fn as_child_of_root(self) -> (r: Option<ChildOfRoot>)
        ensures
            match r {
                Some(c) => c.widen() == self,
                None => self is Text,
            },
    {
        match self {
            ChildOfElement::Element(n) => Some(ChildOfRoot::Element(n)),
            ChildOfElement::Comment(n) => Some(ChildOfRoot::Comment(n)),
            ChildOfElement::ProcessingInstruction(n) => Some(ChildOfRoot::ProcessingInstruction(n)),
            ChildOfElement::Text(_) => None,
        }
    }
}

impl Storage {
    /// The parent field of `c`.
    pub(crate) fn parent_of(&self, c: ChildOfElement) -> (r: Option<ParentOfChild>)
        requires
            self@.has_child(c),
        ensures
            r == self@.parent_of(c),
    {
        match c {
            ChildOfElement::Element(n) => self.elements[n.0].parent,
            ChildOfElement::Text(n) => match self.texts[n.0].parent {
                Some(e) => Some(ParentOfChild::Element(e)),
                None => None,
            },
            ChildOfElement::Comment(n) => self.comments[n.0].parent,
            ChildOfElement::ProcessingInstruction(n) => self.processing_instructions[n.0].parent,
        }
    }

    /// Sets the parent field of `c`.
    fn set_parent(&mut self, c: ChildOfElement, parent: Option<ParentOfChild>)
        requires
            old(self)@.has_child(c),
            c is Text ==> !(parent matches Some(ParentOfChild::Root(_))),
        ensures
            final(self)@ == old(self)@.with_parent(c, parent),
    {
        match c {
            ChildOfElement::Element(n) => {
                self.elements[n.0].parent = parent;
                assert(self@.elements =~= old(self)@.with_parent(c, parent).elements);
            },
            ChildOfElement::Text(n) => {
                self.texts[n.0].parent = match parent {
                    Some(ParentOfChild::Element(e)) => Some(e),
                    _ => None,
                };
                assert(self@.texts =~= old(self)@.with_parent(c, parent).texts);
            },
            ChildOfElement::Comment(n) => {
                self.comments[n.0].parent = parent;
                assert(self@.comments =~= old(self)@.with_parent(c, parent).comments);
            },
            ChildOfElement::ProcessingInstruction(n) => {
                self.processing_instructions[n.0].parent = parent;
                assert(self@.processing_instructions =~= old(self)@.with_parent(
                    c,
                    parent,
                ).processing_instructions);
            },
        }
    }

    /// Takes `c` out of its parent's list and leaves it without a parent.
    pub(crate) fn detach(&mut self, c: ChildOfElement)
        requires
            old(self).wf(),
            old(self)@.has_child(c),
        ensures
            final(self).wf(),
            final(self)@ == old(self)@.detach(c),
    {
        proof {
            lemma_detach(self@, c);
        }
        match self.parent_of(c) {
            None => {},
            Some(ParentOfChild::Root(r)) => {
                remove_root_child(&mut self.roots[r.0].children, c);
                assert(self@.roots =~= old(self)@.with_children(
                    ParentOfChild::Root(r),
                    without(old(self)@.children_of(ParentOfChild::Root(r)), c),
                ).roots);
                self.set_parent(c, None);
            },
            Some(ParentOfChild::Element(e)) => {
                remove_child(&mut self.elements[e.0].children, c);
                assert(self@.elements =~= old(self)@.with_children(
                    ParentOfChild::Element(e),
                    without(old(self)@.children_of(ParentOfChild::Element(e)), c),
                ).elements);
                self.set_parent(c, None);
            },
        }
    }

    /// Puts the orphan `c` last in the list of `p` and makes `p` its parent.
    pub(crate) fn attach(&mut self, p: ParentOfChild, c: ChildOfElement)
        requires
            old(self).wf(),
            attachable(old(self)@, p, c),
        ensures
            final(self).wf(),
            final(self)@ == old(self)@.attach(p, c),
    {
        proof {
            lemma_attach(self@, p, c);
        }
        match p {
            ParentOfChild::Root(r) => {
                match c.as_child_of_root() {
                    Some(narrow) => {
                        self.roots[r.0].children.push(narrow);
                        assert(self@.children_of(p) =~= old(self)@.children_of(p).push(c));
                    },
                    None => {},
                }
                assert(self@.roots =~= old(self)@.with_children(
                    p,
                    old(self)@.children_of(p).push(c),
                ).roots);
            },
            ParentOfChild::Element(e) => {
                self.elements[e.0].children.push(c);
                assert(self@.elements =~= old(self)@.with_children(
                    p,
                    old(self)@.children_of(p).push(c),
                ).elements);
            },
        }
        self.set_parent(c, Some(p));
    }

    /// The element among the children of `r`, if there is one.
    pub(crate) fn root_element(&self, r: RootHandle) -> (found: Option<ElementHandle>)
        requires
            self.wf(),
            self@.has_root(r),
        ensures
            found == self@.root_element(r),
    {
        let ghost children = self@.children_of(ParentOfChild::Root(r));
        let mut i: usize = 0;
        while i < self.roots[r.0 as usize].children.len()
            invariant
                self.wf(),
                self@.has_root(r),
                children == self@.children_of(ParentOfChild::Root(r)),
                i <= self.roots[r.0 as int].children.len(),
                forall|j: int| 0 <= j < i ==> !(#[trigger] children[j] is Element),
            decreases self.roots[r.0 as int].children.len() - i,
        {
            match self.roots[r.0].children[i] {
                ChildOfRoot::Element(e) => {
                    proof {
                        assert(children[i as int] == ChildOfElement::Element(e));
                    }
                    return Some(e);
                },
                _ => {},
            }
            i += 1;
        }
        None
    }

    /// Whether `a` is `e` or one of its ancestors.
    pub fn is_ancestor_or_self(&self, a: ElementHandle, e: ElementHandle) -> (r: bool)
        requires
            self.wf(),
            self@.has_element(e),
        ensures
            r == self@.is_ancestor_or_self(a, e),
    {
        let mut current = e;
        loop
            invariant
                self.wf(),
                self@.has_element(current),
                self@.is_ancestor_or_self(a, e) == self@.is_ancestor_or_self(a, current),
            decreases self@.rank(current),
        {
            proof {
                lemma_ancestry_step(self@, a, current);
                self@.lemma_rank(current);
            }
            if current == a {
                return true;
            }
            match self.elements[current.0].parent {
                Some(ParentOfChild::Element(q)) => {
                    current = q;
                },
                _ => {
                    return false;
                },
            }
        }
    }

    /// Takes `a` out of its element's attribute list and leaves it without a parent.
    pub(crate) fn detach_attribute(&mut self, a: AttributeHandle)
        requires
            old(self).wf(),
            old(self)@.has_attribute(a),
        ensures
            final(self).wf(),
            final(self)@ == old(self)@.detach_attribute(a),
    {
        proof {
            lemma_detach_attribute(self@, a);
        }
        match self.attributes[a.0].parent {
            None => {},
            Some(e) => {
                remove_attribute(&mut self.elements[e.0].attributes, a);
                self.attributes[a.0].parent = None;
                assert(self@.elements =~= old(self)@.detach_attribute(a).elements);
                assert(self@.attributes =~= old(self)@.detach_attribute(a).attributes);
            },
        }
    }

    /// Puts the orphan `a` last in the attribute list of `e` and makes `e` its parent.
    pub(crate) fn attach_attribute(&mut self, e: ElementHandle, a: AttributeHandle)
        requires
            old(self).wf(),
            attribute_attachable(old(self)@, e, a),
        ensures
            final(self).wf(),
            final(self)@ == old(self)@.attach_attribute(e, a),
    {
        proof {
            lemma_attach_attribute(self@, e, a);
        }
        self.elements[e.0].attributes.push(a);
        self.attributes[a.0].parent = Some(e);
        assert(self@.elements =~= old(self)@.attach_attribute(e, a).elements);
        assert(self@.attributes =~= old(self)@.attach_attribute(e, a).attributes);
    }

    /// The attribute of `e` named `name`, if there is one.
    pub(crate) fn attribute_named(
        &self,
        e: ElementHandle,
        name: &QName<'_>,
    ) -> (found: Option<AttributeHandle>)
        requires
            self.wf(),
            self@.has_element(e),
        ensures
            found == self@.attribute_named(e, name@),
    {
        let ghost attributes = self@.attributes_of(e);
        let mut i: usize = 0;
        while i < self.elements[e.0 as usize].attributes.len()
            invariant
                self.wf(),
                self@.has_element(e),
                attributes == self@.attributes_of(e),
                i <= self.elements[e.0 as int].attributes.len(),
                forall|j: int| 0 <= j < i ==> self@.attribute_name(#[trigger] attributes[j]) !=
                    name@,
            decreases self.elements[e.0 as int].attributes.len() - i,
        {
            let a = self.elements[e.0].attributes[i];
            if self.attributes[a.0].name.as_qname().same_as(name) {
                return Some(a);
            }
            i += 1;
        }
        None
    }
}

} // verus!
