//! When the invariant carries over from one graph to another that differs
//! from it only in what a clause does not speak of.

use vstd::prelude::*;
use crate::graph::Graph;
use crate::nodes::{AttributeHandle, ChildOfElement, ElementHandle, ParentOfChild};

verus! {

/// Whether `h` has the attribute lists, attribute parents and attribute names of `g`.
pub open spec fn same_attributes(g: Graph, h: Graph) -> bool {
    &&& forall|e: ElementHandle| g.has_element(e) ==> #[trigger] h.attributes_of(e) ==
        g.attributes_of(e)
    &&& forall|a: AttributeHandle| g.has_attribute(a) ==> #[trigger] h.attribute_parent(a) ==
        g.attribute_parent(a)
    &&& forall|a: AttributeHandle| g.has_attribute(a) ==> #[trigger] h.attribute_name(a) ==
        g.attribute_name(a)
}

/// Whether `h` has the prefix bindings of `g`.
pub open spec fn same_prefixes(g: Graph, h: Graph) -> bool {
    forall|e: ElementHandle| g.has_element(e) ==> #[trigger] h.prefixes_of(e) == g.prefixes_of(e)
}

/// Whether `h` has the child lists and parent fields of `g`.
pub open spec fn same_tree(g: Graph, h: Graph) -> bool {
    &&& h.same_nodes(g)
    &&& forall|p: ParentOfChild| g.has_parent(p) ==> #[trigger] h.children_of(p) == g.children_of(p)
    &&& forall|x: ChildOfElement| g.has_child(x) ==> #[trigger] h.parent_of(x) == g.parent_of(x)
    &&& forall|e: ElementHandle| g.has_element(e) ==> #[trigger] h.element_parent(e) ==
        g.element_parent(e)
}

/// The invariant's clauses on children, roots and ancestry carry over to a
/// graph with the same tree.
pub proof fn lemma_tree_kept(g: Graph, h: Graph)
    requires
        g.wf(),
        same_tree(g, h),
    ensures
        h.children_valid(),
        h.children_linked(),
        h.parents_linked(),
        h.children_distinct(),
        h.roots_hold_no_text(),
        h.roots_hold_one_element(),
        h.acyclic(),
{
    let ranks = choose|ranks: Seq<nat>| g.ranked_by(ranks);
    assert(h.ranked_by(ranks));
}

/// Whether every attribute has the same value in `h` as in `g`.
pub open spec fn same_values(g: Graph, h: Graph) -> bool {
    forall|a: AttributeHandle|
        g.has_attribute(a) ==> (#[trigger] h.attributes[a.0 as int]).value
            == g.attributes[a.0 as int].value
}

/// Whether `h` is `g` with fresh orphan records added: every record of `g`
/// is kept, and every added one has no parent and empty lists.
pub open spec fn grown(g: Graph, h: Graph) -> bool {
    &&& g.roots.len() <= h.roots.len()
    &&& g.elements.len() <= h.elements.len()
    &&& g.attributes.len() <= h.attributes.len()
    &&& g.texts.len() <= h.texts.len()
    &&& g.comments.len() <= h.comments.len()
    &&& g.processing_instructions.len() <= h.processing_instructions.len()
    &&& forall|p: ParentOfChild|
        h.has_parent(p) ==> #[trigger] h.children_of(p) == if g.has_parent(p) {
            g.children_of(p)
        } else {
            Seq::empty()
        }
    &&& forall|x: ChildOfElement|
        h.has_child(x) ==> #[trigger] h.parent_of(x) == if g.has_child(x) {
            g.parent_of(x)
        } else {
            None
        }
    &&& forall|e: ElementHandle|
        h.has_element(e) ==> #[trigger] h.element_parent(e) == if g.has_element(e) {
            g.element_parent(e)
        } else {
            None
        }
    &&& forall|e: ElementHandle|
        h.has_element(e) ==> #[trigger] h.prefixes_of(e) == if g.has_element(e) {
            g.prefixes_of(e)
        } else {
            Seq::empty()
        }
    &&& forall|e: ElementHandle|
        h.has_element(e) ==> #[trigger] h.attributes_of(e) == if g.has_element(e) {
            g.attributes_of(e)
        } else {
            Seq::empty()
        }
    &&& forall|a: AttributeHandle|
        h.has_attribute(a) ==> #[trigger] h.attribute_parent(a) == if g.has_attribute(a) {
            g.attribute_parent(a)
        } else {
            None
        }
    &&& forall|a: AttributeHandle| g.has_attribute(a) ==> #[trigger] h.attribute_name(a) ==
        g.attribute_name(a)
}

/// Adding orphans keeps the invariant.
pub proof fn lemma_grown(g: Graph, h: Graph)
    requires
        g.wf(),
        grown(g, h),
    ensures
        h.wf(),
{
    let ranks = choose|ranks: Seq<nat>| g.ranked_by(ranks);
    let longer = Seq::new(h.elements.len(), |i: int| if i < ranks.len() { ranks[i] } else { 0nat });
    assert(h.ranked_by(longer));
}

/// Changing names, values and preferred prefixes keeps the invariant, as
/// long as attribute names stay.
pub proof fn lemma_relabelled(g: Graph, h: Graph)
    requires
        g.wf(),
        same_tree(g, h),
        same_prefixes(g, h),
        same_attributes(g, h),
    ensures
        h.wf(),
{
    lemma_tree_kept(g, h);
}

/// Rebinding prefixes on one element keeps the invariant, as long as that
/// element's prefixes stay distinct.
pub proof fn lemma_rebound(g: Graph, h: Graph, e0: ElementHandle)
    requires
        g.wf(),
        g.has_element(e0),
        same_tree(g, h),
        same_attributes(g, h),
        forall|e: ElementHandle| g.has_element(e) && e != e0 ==> #[trigger] h.prefixes_of(e) ==
            g.prefixes_of(e),
        forall|i: int, j: int|
            0 <= i < h.prefixes_of(e0).len() && 0 <= j < h.prefixes_of(e0).len() && (
            #[trigger] h.prefixes_of(e0)[i]).0 == (#[trigger] h.prefixes_of(e0)[j]).0 ==> i == j,
    ensures
        h.wf(),
{
    lemma_tree_kept(g, h);
}

} // verus!
