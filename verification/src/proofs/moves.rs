//! The primitive moves, detaching and attaching, keep the invariant.

use vstd::prelude::*;
use crate::graph::{Graph, without};
use crate::nodes::{AttributeHandle, ChildOfElement, ElementHandle, ParentOfChild};
use crate::proofs::ancestry::lemma_ancestry_step;
use crate::proofs::frames::{
    lemma_tree_kept, same_attributes, same_prefixes, same_tree, same_values,
};
use crate::proofs::lists::lemma_without;

verus! {

/// What `with_children` changes and what it leaves alone.
pub proof fn lemma_with_children(g: Graph, p0: ParentOfChild, s: Seq<ChildOfElement>)
    requires
        g.has_parent(p0),
    ensures
        g.with_children(p0, s).same_nodes(g),
        g.with_children(p0, s).children_of(p0) == s,
        forall|p: ParentOfChild|
            g.has_parent(p) && p != p0 ==> #[trigger] g.with_children(p0, s).children_of(p)
                == g.children_of(p),
        forall|x: ChildOfElement|
            g.has_child(x) ==> #[trigger] g.with_children(p0, s).parent_of(x) == g.parent_of(x),
        forall|e: ElementHandle|
            g.has_element(e) ==> #[trigger] g.with_children(p0, s).element_parent(e)
                == g.element_parent(e),
        forall|e: ElementHandle|
            g.has_element(e) ==> #[trigger] g.with_children(p0, s).attributes_of(e)
                == g.attributes_of(e),
        forall|e: ElementHandle|
            g.has_element(e) ==> #[trigger] g.with_children(p0, s).prefixes_of(e) == g.prefixes_of(
                e,
            ),
        same_attributes(g, g.with_children(p0, s)),
{
}

/// What `with_parent` changes and what it leaves alone.
pub proof fn lemma_with_parent(g: Graph, c0: ChildOfElement, parent: Option<ParentOfChild>)
    requires
        g.has_child(c0),
        c0 is Text ==> !(parent matches Some(ParentOfChild::Root(_))),
    ensures
        g.with_parent(c0, parent).same_nodes(g),
        forall|p: ParentOfChild|
            g.has_parent(p) ==> #[trigger] g.with_parent(c0, parent).children_of(p)
                == g.children_of(p),
        forall|x: ChildOfElement|
            g.has_child(x) ==> #[trigger] g.with_parent(c0, parent).parent_of(x) == if x == c0 {
                parent
            } else {
                g.parent_of(x)
            },
        forall|e: ElementHandle|
            g.has_element(e) ==> #[trigger] g.with_parent(c0, parent).element_parent(e) == if c0
                == ChildOfElement::Element(e) {
                match parent {
                    Some(ParentOfChild::Element(q)) => Some(q),
                    _ => None,
                }
            } else {
                g.element_parent(e)
            },
        forall|e: ElementHandle|
            g.has_element(e) ==> #[trigger] g.with_parent(c0, parent).attributes_of(e)
                == g.attributes_of(e),
        forall|e: ElementHandle|
            g.has_element(e) ==> #[trigger] g.with_parent(c0, parent).prefixes_of(e)
                == g.prefixes_of(e),
        same_attributes(g, g.with_parent(c0, parent)),
{
}

/// How `h` differs from `g` when `h` is `g` with `c` detached.
pub open spec fn detached(g: Graph, h: Graph, c: ChildOfElement) -> bool {
    &&& h.same_nodes(g)
    &&& forall|x: ChildOfElement|
        g.has_child(x) ==> #[trigger] h.parent_of(x) == if x == c {
            None
        } else {
            g.parent_of(x)
        }
    &&& forall|p: ParentOfChild|
        g.has_parent(p) ==> #[trigger] h.children_of(p) == if g.parent_of(c) == Some(p) {
            without(g.children_of(p), c)
        } else {
            g.children_of(p)
        }
    &&& forall|e: ElementHandle|
        g.has_element(e) ==> #[trigger] h.element_parent(e) == if c == ChildOfElement::Element(e) {
            None
        } else {
            g.element_parent(e)
        }
    &&& same_prefixes(g, h)
    &&& same_attributes(g, h)
}

/// Detaching a node keeps the invariant and touches only that node and its parent's list.
pub proof fn lemma_detach(g: Graph, c: ChildOfElement)
    requires
        g.wf(),
        g.has_child(c),
    ensures
        g.detach(c).wf(),
        detached(g, g.detach(c), c),
{
    let h = g.detach(c);
    match g.parent_of(c) {
        None => {},
        Some(p0) => {
            let s0 = g.children_of(p0);
            let s1 = without(s0, c);
            let g1 = g.with_children(p0, s1);
            lemma_without(s0, c);
            lemma_with_children(g, p0, s1);
            lemma_with_parent(g1, c, None);
            assert(h.acyclic()) by {
                let ranks = choose|ranks: Seq<nat>| g.ranked_by(ranks);
                assert(h.ranked_by(ranks));
            }
        },
    }
}

/// How `h` differs from `g` when `h` is `g` with the orphan `c` attached to `p0`.
pub open spec fn attached(g: Graph, h: Graph, p0: ParentOfChild, c: ChildOfElement) -> bool {
    &&& h.same_nodes(g)
    &&& forall|x: ChildOfElement|
        g.has_child(x) ==> #[trigger] h.parent_of(x) == if x == c {
            Some(p0)
        } else {
            g.parent_of(x)
        }
    &&& forall|p: ParentOfChild|
        g.has_parent(p) ==> #[trigger] h.children_of(p) == if p == p0 {
            g.children_of(p).push(c)
        } else {
            g.children_of(p)
        }
    &&& forall|e: ElementHandle|
        g.has_element(e) ==> #[trigger] h.element_parent(e) == if c == ChildOfElement::Element(e) {
            match p0 {
                ParentOfChild::Element(q) => Some(q),
                ParentOfChild::Root(_) => None,
            }
        } else {
            g.element_parent(e)
        }
    &&& same_prefixes(g, h)
    &&& same_attributes(g, h)
}

/// Whether `c` may be attached to `p0`: it has no parent, a root takes no
/// text and no second element, and an element takes none of its ancestors.
pub open spec fn attachable(g: Graph, p0: ParentOfChild, c: ChildOfElement) -> bool {
    &&& g.has_parent(p0)
    &&& g.has_child(c)
    &&& g.parent_of(c) is None
    &&& match p0 {
        ParentOfChild::Root(r) => c !is Text && (c is Element ==> g.root_element(r) is None),
        ParentOfChild::Element(q) => c is Element ==> !g.is_ancestor_or_self(c->Element_0, q),
    }
}

/// Attaching an orphan keeps the invariant and touches only that node and
/// its new parent's list.
pub proof fn lemma_attach(g: Graph, p0: ParentOfChild, c: ChildOfElement)
    requires
        g.wf(),
        attachable(g, p0, c),
    ensures
        g.attach(p0, c).wf(),
        attached(g, g.attach(p0, c), p0, c),
{
    let h = g.attach(p0, c);
    let s0 = g.children_of(p0);
    let s1 = s0.push(c);
    let g1 = g.with_children(p0, s1);
    lemma_with_children(g, p0, s1);
    lemma_with_parent(g1, c, Some(p0));
    assert(h.parents_linked()) by {
        assert forall|x: ChildOfElement| h.has_child(x) implies match #[trigger] h.parent_of(x) {
            Some(p) => h.has_parent(p) && h.children_of(p).contains(x),
            None => true,
        } by {
            if x == c {
                assert(s1[s0.len() as int] == c);
            } else {
                match g.parent_of(x) {
                    Some(p) => {
                        let j = choose|j: int| 0 <= j < g.children_of(p).len() &&
                            g.children_of(p)[j] == x;
                        assert(h.children_of(p)[j] == x);
                    },
                    None => {},
                }
            }
        }
    }
    assert(h.acyclic()) by {
        let ranks = choose|ranks: Seq<nat>| g.ranked_by(ranks);
        match (p0, c) {
            (ParentOfChild::Element(q0), ChildOfElement::Element(x)) => {
                let lifted = Seq::new(
                    ranks.len(),
                    |i: int|
                        if g.is_ancestor_or_self(x, ElementHandle(i as usize)) {
                            ranks[i] + ranks[q0.0 as int] + 1
                        } else {
                            ranks[i]
                        },
                );
                assert forall|e: ElementHandle| h.has_element(e) implies match #[trigger]
                    h.element_parent(e) {
                    Some(q) => h.has_element(q) && lifted[q.0 as int] < lifted[e.0 as int],
                    None => true,
                } by {
                    lemma_ancestry_step(g, x, e);
                }
                assert(h.ranked_by(lifted));
            },
            _ => {
                assert(h.ranked_by(ranks));
            },
        }
    }
}

/// How `h` differs from `g` when `h` is `g` with attribute `a` detached.
pub open spec fn attribute_detached(g: Graph, h: Graph, a: AttributeHandle) -> bool {
    &&& same_tree(g, h)
    &&& same_prefixes(g, h)
    &&& same_values(g, h)
    &&& forall|x: AttributeHandle|
        g.has_attribute(x) ==> #[trigger] h.attribute_parent(x) == if x == a {
            None
        } else {
            g.attribute_parent(x)
        }
    &&& forall|x: AttributeHandle| g.has_attribute(x) ==> #[trigger] h.attribute_name(x) ==
        g.attribute_name(x)
    &&& forall|e: ElementHandle|
        g.has_element(e) ==> #[trigger] h.attributes_of(e) == if g.attribute_parent(a) == Some(e) {
            without(g.attributes_of(e), a)
        } else {
            g.attributes_of(e)
        }
}

/// Detaching an attribute keeps the invariant and touches only that
/// attribute and its element's attribute list.
pub proof fn lemma_detach_attribute(g: Graph, a: AttributeHandle)
    requires
        g.wf(),
        g.has_attribute(a),
    ensures
        g.detach_attribute(a).wf(),
        attribute_detached(g, g.detach_attribute(a), a),
{
    let h = g.detach_attribute(a);
    match g.attribute_parent(a) {
        None => {},
        Some(e0) => {
            let s0 = g.attributes_of(e0);
            lemma_without(s0, a);
            assert(attribute_detached(g, h, a));
            lemma_tree_kept(g, h);
        },
    }
}

/// How `h` differs from `g` when `h` is `g` with the orphan `a` attached to `e0`.
pub open spec fn attribute_attached(
    g: Graph,
    h: Graph,
    e0: ElementHandle,
    a: AttributeHandle,
) -> bool {
    &&& same_tree(g, h)
    &&& same_prefixes(g, h)
    &&& same_values(g, h)
    &&& forall|x: AttributeHandle|
        g.has_attribute(x) ==> #[trigger] h.attribute_parent(x) == if x == a {
            Some(e0)
        } else {
            g.attribute_parent(x)
        }
    &&& forall|x: AttributeHandle| g.has_attribute(x) ==> #[trigger] h.attribute_name(x) ==
        g.attribute_name(x)
    &&& forall|e: ElementHandle|
        g.has_element(e) ==> #[trigger] h.attributes_of(e) == if e == e0 {
            g.attributes_of(e).push(a)
        } else {
            g.attributes_of(e)
        }
}

/// Whether `a` may be attached to `e0`: it has no parent and `e0` has no
/// attribute of its name.
pub open spec fn attribute_attachable(g: Graph, e0: ElementHandle, a: AttributeHandle) -> bool {
    &&& g.has_element(e0)
    &&& g.has_attribute(a)
    &&& g.attribute_parent(a) is None
    &&& g.attribute_named(e0, g.attribute_name(a)) is None
}

/// Attaching an orphan attribute keeps the invariant and touches only that
/// attribute and its new element's attribute list.
pub proof fn lemma_attach_attribute(g: Graph, e0: ElementHandle, a: AttributeHandle)
    requires
        g.wf(),
        attribute_attachable(g, e0, a),
    ensures
        g.attach_attribute(e0, a).wf(),
        attribute_attached(g, g.attach_attribute(e0, a), e0, a),
{
    let h = g.attach_attribute(e0, a);
    let s0 = g.attributes_of(e0);
    let s1 = s0.push(a);
    assert(attribute_attached(g, h, e0, a));
    lemma_tree_kept(g, h);
    assert forall|x: AttributeHandle| h.has_attribute(x) implies match #[trigger]
        h.attribute_parent(x) {
        Some(e) => h.has_element(e) && h.attributes_of(e).contains(x),
        None => true,
    } by {
        if x == a {
            assert(s1[s0.len() as int] == a);
        } else {
            match g.attribute_parent(x) {
                Some(e) => {
                    let j = choose|j: int| 0 <= j < g.attributes_of(e).len() &&
                        g.attributes_of(e)[j] == x;
                    assert(h.attributes_of(e)[j] == x);
                },
                None => {},
            }
        }
    }
}

} // verus!
