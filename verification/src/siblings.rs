//! Sibling traversal in document order.

use vstd::prelude::*;
use vstd::slice::slice_subrange;
use crate::connections::Connections;
use crate::nodes::{
    ChildOfElement, ChildOfRoot, CommentHandle, ElementHandle, ParentOfChild,
    ProcessingInstructionHandle, RootHandle, TextHandle, widen_all,
};
use crate::storage::Storage;

verus! {

/// Which side of a node its siblings are taken from.
pub(crate) enum SiblingDirection {
    Preceding,
    Following,
}

/// The list that a sibling iterator walks.
pub(crate) enum SiblingData<'a> {
    FromRoot(&'a [ChildOfRoot]),
    FromElement(&'a [ChildOfElement]),
    Dead,
}

impl<'a> SiblingData<'a> {
    /// The entries, each as a child of an element.
    pub(crate) open spec fn entries(self) -> Seq<ChildOfElement> {
        match self {
            SiblingData::FromRoot(children) => widen_all(children@),
            SiblingData::FromElement(children) => children@,
            SiblingData::Dead => Seq::empty(),
        }
    }
}

/// A single pass over some siblings of a node, in document order.
///
/// Its view is the sequence of siblings not yet handed out.
pub struct SiblingIter<'a> {
    idx: usize,
    data: SiblingData<'a>,
}

impl<'a> View for SiblingIter<'a> {
    type V = Seq<ChildOfElement>;

    closed spec fn view(&self) -> Seq<ChildOfElement> {
        self.data.entries().skip(self.idx as int)
    }
}

/// The position of `child` in `children`.
fn position_in_root(children: &[ChildOfRoot], child: ChildOfRoot) -> (pos: usize)
    requires
        widen_all(children@).contains(child.widen()),
        widen_all(children@).no_duplicates(),
    ensures
        pos < children.len(),
        pos == widen_all(children@).index_of(child.widen()),
{
    let ghost target = widen_all(children@).index_of(child.widen());
    let mut i: usize = 0;
    while children[i] != child
        invariant
            target == widen_all(children@).index_of(child.widen()),
            0 <= target < children.len(),
            widen_all(children@)[target] == child.widen(),
            i <= target,
            widen_all(children@)[i as int] == children[i as int].widen(),
        decreases target - i,
    {
        i += 1;
    }
    i
}

/// The position of `child` in `children`.
fn position_in_element(children: &[ChildOfElement], child: ChildOfElement) -> (pos: usize)
    requires
        children@.contains(child),
        children@.no_duplicates(),
    ensures
        pos < children.len(),
        pos == children@.index_of(child),
{
    let ghost target = children@.index_of(child);
    let mut i: usize = 0;
    while children[i] != child
        invariant
            target == children@.index_of(child),
            0 <= target < children.len(),
            children@[target] == child,
            i <= target,
        decreases target - i,
    {
        i += 1;
    }
    i
}

impl<'a> SiblingIter<'a> {
    /// The position is within the list.
    #[verifier::type_invariant]
    spec fn in_range(self) -> bool {
        self.idx <= self.data.entries().len()
    }

    /// The siblings of `child` among the children of `root_parent`.
    pub(crate) fn of_root(
        direction: SiblingDirection,
        storage: &'a Storage,
        root_parent: RootHandle,
        child: ChildOfRoot,
    ) -> (iter: SiblingIter<'a>)
        requires
            storage.wf(),
            storage@.has_root(root_parent),
            storage@.has_child(child.widen()),
            storage@.parent_of(child.widen()) == Some(ParentOfChild::Root(root_parent)),
        ensures
            iter@ == match direction {
                SiblingDirection::Preceding => storage@.preceding_siblings(child.widen()),
                SiblingDirection::Following => storage@.following_siblings(child.widen()),
            },
    {
        let data = storage.roots[root_parent.0].children.as_slice();
        let pos = position_in_root(data, child);
        let data = match direction {
            SiblingDirection::Preceding => slice_subrange(data, 0, pos),
            SiblingDirection::Following => slice_subrange(data, pos + 1, data.len()),
        };
        SiblingIter { idx: 0, data: SiblingData::FromRoot(data) }
    }

    /// The siblings of `child` among the children of `element_parent`.
    pub(crate) fn of_element(
        direction: SiblingDirection,
        storage: &'a Storage,
        element_parent: ElementHandle,
        child: ChildOfElement,
    ) -> (iter: SiblingIter<'a>)
        requires
            storage.wf(),
            storage@.has_element(element_parent),
            storage@.has_child(child),
            storage@.parent_of(child) == Some(ParentOfChild::Element(element_parent)),
        ensures
            iter@ == match direction {
                SiblingDirection::Preceding => storage@.preceding_siblings(child),
                SiblingDirection::Following => storage@.following_siblings(child),
            },
    {
        let data = storage.elements[element_parent.0].children.as_slice();
        let pos = position_in_element(data, child);
        let data = match direction {
            SiblingDirection::Preceding => slice_subrange(data, 0, pos),
            SiblingDirection::Following => slice_subrange(data, pos + 1, data.len()),
        };
        SiblingIter { idx: 0, data: SiblingData::FromElement(data) }
    }

    /// The iterator of a node without a parent: it has no siblings.
    pub(crate) fn dead() -> (iter: SiblingIter<'a>)
        ensures
            iter@ == Seq::<ChildOfElement>::empty(),
    {
        SiblingIter { idx: 0, data: SiblingData::Dead }
    }

    /// Hands out the next sibling, or `None` when all have been handed out.
    pub fn next(&mut self) -> (sibling: Option<ChildOfElement>)
        ensures
            match sibling {
                Some(c) => old(self)@.len() > 0 && c == old(self)@[0] && final(self)@ ==
                    old(self)@.skip(1),
                None => old(self)@.len() == 0 && final(self)@ == old(self)@,
            },
    {
        proof {
            use_type_invariant(&*self);
        }
        match self.data {
            SiblingData::FromRoot(children) => {
                if self.idx >= children.len() {
                    None
                } else {
                    let sib = children[self.idx];
                    self.idx += 1;
                    Some(sib.to_child_of_element())
                }
            },
            SiblingData::FromElement(children) => {
                if self.idx >= children.len() {
                    None
                } else {
                    let sib = children[self.idx];
                    self.idx += 1;
                    Some(sib)
                }
            },
            SiblingData::Dead => None,
        }
    }
}

impl Connections {
    /// The siblings that come before `element`, in document order.
    pub fn element_preceding_siblings<'a>(
        &self,
        storage: &'a Storage,
        element: ElementHandle,
    ) -> (iter: SiblingIter<'a>)
        requires
            storage.wf(),
            storage@.has_element(element),
        ensures
            iter@ == storage@.preceding_siblings(ChildOfElement::Element(element)),
    {
        match storage.elements[element.0].parent {
            Some(ParentOfChild::Root(root_parent)) => SiblingIter::of_root(
                SiblingDirection::Preceding,
                storage,
                root_parent,
                ChildOfRoot::Element(element),
            ),
            Some(ParentOfChild::Element(element_parent)) => SiblingIter::of_element(
                SiblingDirection::Preceding,
                storage,
                element_parent,
                ChildOfElement::Element(element),
            ),
            None => SiblingIter::dead(),
        }
    }

    /// The siblings that come after `element`, in document order.
    pub fn element_following_siblings<'a>(
        &self,
        storage: &'a Storage,
        element: ElementHandle,
    ) -> (iter: SiblingIter<'a>)
        requires
            storage.wf(),
            storage@.has_element(element),
        ensures
            iter@ == storage@.following_siblings(ChildOfElement::Element(element)),
    {
        match storage.elements[element.0].parent {
            Some(ParentOfChild::Root(root_parent)) => SiblingIter::of_root(
                SiblingDirection::Following,
                storage,
                root_parent,
                ChildOfRoot::Element(element),
            ),
            Some(ParentOfChild::Element(element_parent)) => SiblingIter::of_element(
                SiblingDirection::Following,
                storage,
                element_parent,
                ChildOfElement::Element(element),
            ),
            None => SiblingIter::dead(),
        }
    }

    /// The siblings that come before `text`, in document order.
    pub fn text_preceding_siblings<'a>(
        &self,
        storage: &'a Storage,
        text: TextHandle,
    ) -> (iter: SiblingIter<'a>)
        requires
            storage.wf(),
            storage@.has_text(text),
        ensures
            iter@ == storage@.preceding_siblings(ChildOfElement::Text(text)),
    {
        match storage.texts[text.0].parent {
            Some(element_parent) => SiblingIter::of_element(
                SiblingDirection::Preceding,
                storage,
                element_parent,
                ChildOfElement::Text(text),
            ),
            None => SiblingIter::dead(),
        }
    }

    /// The siblings that come after `text`, in document order.
    pub fn text_following_siblings<'a>(
        &self,
        storage: &'a Storage,
        text: TextHandle,
    ) -> (iter: SiblingIter<'a>)
        requires
            storage.wf(),
            storage@.has_text(text),
        ensures
            iter@ == storage@.following_siblings(ChildOfElement::Text(text)),
    {
        match storage.texts[text.0].parent {
            Some(element_parent) => SiblingIter::of_element(
                SiblingDirection::Following,
                storage,
                element_parent,
                ChildOfElement::Text(text),
            ),
            None => SiblingIter::dead(),
        }
    }

    /// The siblings that come before `comment`, in document order.
    pub fn comment_preceding_siblings<'a>(
        &self,
        storage: &'a Storage,
        comment: CommentHandle,
    ) -> (iter: SiblingIter<'a>)
        requires
            storage.wf(),
            storage@.has_comment(comment),
        ensures
            iter@ == storage@.preceding_siblings(ChildOfElement::Comment(comment)),
    {
        match storage.comments[comment.0].parent {
            Some(ParentOfChild::Root(root_parent)) => SiblingIter::of_root(
                SiblingDirection::Preceding,
                storage,
                root_parent,
                ChildOfRoot::Comment(comment),
            ),
            Some(ParentOfChild::Element(element_parent)) => SiblingIter::of_element(
                SiblingDirection::Preceding,
                storage,
                element_parent,
                ChildOfElement::Comment(comment),
            ),
            None => SiblingIter::dead(),
        }
    }

    /// The siblings that come after `comment`, in document order.
    pub fn comment_following_siblings<'a>(
        &self,
        storage: &'a Storage,
        comment: CommentHandle,
    ) -> (iter: SiblingIter<'a>)
        requires
            storage.wf(),
            storage@.has_comment(comment),
        ensures
            iter@ == storage@.following_siblings(ChildOfElement::Comment(comment)),
    {
        match storage.comments[comment.0].parent {
            Some(ParentOfChild::Root(root_parent)) => SiblingIter::of_root(
                SiblingDirection::Following,
                storage,
                root_parent,
                ChildOfRoot::Comment(comment),
            ),
            Some(ParentOfChild::Element(element_parent)) => SiblingIter::of_element(
                SiblingDirection::Following,
                storage,
                element_parent,
                ChildOfElement::Comment(comment),
            ),
            None => SiblingIter::dead(),
        }
    }

    /// The siblings that come before `pi`, in document order.
    pub fn processing_instruction_preceding_siblings<'a>(
        &self,
        storage: &'a Storage,
        pi: ProcessingInstructionHandle,
    ) -> (iter: SiblingIter<'a>)
        requires
            storage.wf(),
            storage@.has_processing_instruction(pi),
        ensures
            iter@ == storage@.preceding_siblings(ChildOfElement::ProcessingInstruction(pi)),
    {
        match storage.processing_instructions[pi.0].parent {
            Some(ParentOfChild::Root(root_parent)) => SiblingIter::of_root(
                SiblingDirection::Preceding,
                storage,
                root_parent,
                ChildOfRoot::ProcessingInstruction(pi),
            ),
            Some(ParentOfChild::Element(element_parent)) => SiblingIter::of_element(
                SiblingDirection::Preceding,
                storage,
                element_parent,
                ChildOfElement::ProcessingInstruction(pi),
            ),
            None => SiblingIter::dead(),
        }
    }

    /// The siblings that come after `pi`, in document order.
    pub fn processing_instruction_following_siblings<'a>(
        &self,
        storage: &'a Storage,
        pi: ProcessingInstructionHandle,
    ) -> (iter: SiblingIter<'a>)
        requires
            storage.wf(),
            storage@.has_processing_instruction(pi),
        ensures
            iter@ == storage@.following_siblings(ChildOfElement::ProcessingInstruction(pi)),
    {
        match storage.processing_instructions[pi.0].parent {
            Some(ParentOfChild::Root(root_parent)) => SiblingIter::of_root(
                SiblingDirection::Following,
                storage,
                root_parent,
                ChildOfRoot::ProcessingInstruction(pi),
            ),
            Some(ParentOfChild::Element(element_parent)) => SiblingIter::of_element(
                SiblingDirection::Following,
                storage,
                element_parent,
                ChildOfElement::ProcessingInstruction(pi),
            ),
            None => SiblingIter::dead(),
        }
    }
}

} // verus!
