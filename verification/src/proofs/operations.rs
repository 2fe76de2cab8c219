//! The structural operations are built from moves that are always
//! possible, and keep the invariant.

use vstd::prelude::*;
use crate::graph::{Graph, without};
use crate::interned::QNameView;
use crate::nodes::{
    AttributeHandle, ChildOfElement, ChildOfRoot, ElementHandle, ParentOfChild, RootHandle,
};
use crate::proofs::ancestry::lemma_ancestry_monotone;
use crate::proofs::lists::lemma_without;
use crate::proofs::moves::{
    attachable, attached, attribute_attachable, attribute_attached, attribute_detached, detached,
    lemma_attach, lemma_attach_attribute, lemma_detach, lemma_detach_attribute,
};

verus! {

/// The element found by `root_element` is a child of the root, and the only
/// element among its children.
pub proof fn lemma_root_element(g: Graph, r: RootHandle)
    requires
        g.wf(),
        g.has_root(r),
    ensures
        match g.root_element(r) {
            Some(e) => g.has_element(e) && g.parent_of(ChildOfElement::Element(e)) == Some(
                ParentOfChild::Root(r),
            ) && g.children_of(ParentOfChild::Root(r)).contains(ChildOfElement::Element(e)),
            None => true,
        },
        forall|i: int|
            0 <= i < g.children_of(ParentOfChild::Root(r)).len() && (#[trigger] g.children_of(
                ParentOfChild::Root(r),
            )[i]) is Element ==> g.root_element(r) == Some(
                g.children_of(ParentOfChild::Root(r))[i]->Element_0,
            ),
{
    let children = g.children_of(ParentOfChild::Root(r));
    if g.root_element(r) is Some {
        let k = choose|k: int| 0 <= k < children.len() && #[trigger] children[k] is Element;
        assert(g.has_child(g.children_of(ParentOfChild::Root(r))[k]));
        assert(g.parent_of(g.children_of(ParentOfChild::Root(r))[k]) ==
            Some(ParentOfChild::Root(r)));
        assert forall|i: int| 0 <= i < children.len() && (#[trigger] children[i]) is Element implies
            i == k by {
            assert(g.children_of(ParentOfChild::Root(r))[i] is Element);
            assert(g.children_of(ParentOfChild::Root(r))[k] is Element);
        }
    }
}

/// The attribute found by `attribute_named` is on the element and has the
/// name, and no other attribute of the element has it.
pub proof fn lemma_attribute_named(g: Graph, e: ElementHandle, name: QNameView)
    requires
        g.wf(),
        g.has_element(e),
    ensures
        match g.attribute_named(e, name) {
            Some(a) => g.has_attribute(a) && g.attribute_parent(a) == Some(e) && g.attribute_name(a)
                == name && g.attributes_of(e).contains(a),
            None => true,
        },
        forall|i: int|
            0 <= i < g.attributes_of(e).len() && g.attribute_name(#[trigger] g.attributes_of(e)[i])
                == name ==> g.attribute_named(e, name) == Some(g.attributes_of(e)[i]),
{
    let attributes = g.attributes_of(e);
    if g.attribute_named(e, name) is Some {
        let k = choose|k: int| 0 <= k < attributes.len() && g.attribute_name(#[trigger]
            attributes[k]) == name;
        assert(g.has_attribute(g.attributes_of(e)[k]));
        assert(g.attribute_parent(g.attributes_of(e)[k]) == Some(e));
        assert forall|i: int| 0 <= i < attributes.len() && g.attribute_name(#[trigger]
            attributes[i]) == name implies i == k by {
            assert(g.attribute_name(g.attributes_of(e)[i]) ==
                g.attribute_name(g.attributes_of(e)[k]));
        }
    }
}

/// Once the element of a root is detached, the root holds no element.
pub proof fn lemma_without_root_element(g: Graph, r: RootHandle)
    requires
        g.wf(),
        g.has_root(r),
    ensures
        g.without_root_element(r).wf(),
        g.without_root_element(r).same_nodes(g),
        g.without_root_element(r).root_element(r) is None,
        match g.root_element(r) {
            Some(e) => g.has_element(e) && detached(g, g.without_root_element(r),
                ChildOfElement::Element(e)),
            None => true,
        },
{
    lemma_root_element(g, r);
    match g.root_element(r) {
        Some(e) => {
            let x = ChildOfElement::Element(e);
            let h = g.detach(x);
            let p = ParentOfChild::Root(r);
            lemma_detach(g, x);
            lemma_without(g.children_of(p), x);
            assert(h.children_of(p) == without(g.children_of(p), x));
            if h.root_element(r) is Some {
                let k = choose|k: int| 0 <= k < h.children_of(p).len() && #[trigger]
                    h.children_of(p)[k] is Element;
                let y = h.children_of(p)[k];
                assert(g.children_of(p).contains(without(g.children_of(p), x)[k]));
                let j = choose|j: int| 0 <= j < g.children_of(p).len() && g.children_of(p)[j] == y;
                assert(g.children_of(ParentOfChild::Root(r))[j] is Element);
            }
        },
        None => {},
    }
}

/// Appending to a root keeps the invariant; the steps of the operation are
/// all possible.
pub proof fn lemma_append_root_child(g: Graph, r: RootHandle, c: ChildOfRoot)
    requires
        g.wf(),
        g.has_root(r),
        g.has_child(c.widen()),
    ensures
        g.append_root_child(r, c).wf(),
        g.append_root_child(r, c).same_nodes(g),
        ({
            let cleared = if c is Element {
                g.without_root_element(r)
            } else {
                g
            };
            &&& cleared.wf()
            &&& cleared.same_nodes(g)
            &&& cleared.detach(c.widen()).wf()
            &&& detached(cleared, cleared.detach(c.widen()), c.widen())
            &&& attachable(cleared.detach(c.widen()), ParentOfChild::Root(r), c.widen())
            &&& attached(cleared.detach(c.widen()), g.append_root_child(r, c),
                ParentOfChild::Root(r), c.widen())
            &&& g.append_root_child(r, c).children_of(ParentOfChild::Root(r)) == without(
                cleared.children_of(ParentOfChild::Root(r)),
                c.widen(),
            ).push(c.widen())
        }),
        g.append_root_child(r, c).parent_of(c.widen()) == Some(ParentOfChild::Root(r)),
{
    let x = c.widen();
    let p = ParentOfChild::Root(r);
    let cleared = if c is Element {
        g.without_root_element(r)
    } else {
        g
    };
    if c is Element {
        lemma_without_root_element(g, r);
    }
    let released = cleared.detach(x);
    lemma_detach(cleared, x);
    lemma_attach(released, p, x);
    lemma_without(cleared.children_of(p), x);
}

/// Appending to an element keeps the invariant; the steps of the operation
/// are all possible.
pub proof fn lemma_append_element_child(g: Graph, q: ElementHandle, c: ChildOfElement)
    requires
        g.wf(),
        g.has_element(q),
        g.has_child(c),
    ensures
        g.append_element_child(q, c).wf(),
        g.append_element_child(q, c).same_nodes(g),
        !(c is Element && g.is_ancestor_or_self(c->Element_0, q)) ==> {
            &&& g.detach(c).wf()
            &&& detached(g, g.detach(c), c)
            &&& attachable(g.detach(c), ParentOfChild::Element(q), c)
            &&& attached(g.detach(c), g.append_element_child(q, c), ParentOfChild::Element(q), c)
            &&& g.append_element_child(q, c).parent_of(c) == Some(ParentOfChild::Element(q))
            &&& g.append_element_child(q, c).children_of(ParentOfChild::Element(q)) == without(
                g.children_of(ParentOfChild::Element(q)),
                c,
            ).push(c)
        },
{
    if !(c is Element && g.is_ancestor_or_self(c->Element_0, q)) {
        let released = g.detach(c);
        let p = ParentOfChild::Element(q);
        lemma_detach(g, c);
        lemma_without(g.children_of(p), c);
        if c is Element {
            let x = c->Element_0;
            if released.is_ancestor_or_self(x, q) {
                let n = choose|n: nat| released.up(q, n) == Some(x);
                lemma_ancestry_monotone(g, released, x, q, n);
            }
        }
        lemma_attach(released, ParentOfChild::Element(q), c);
    }
}

/// Once the attribute of a name is detached, the element has no attribute
/// of that name.
pub proof fn lemma_without_attribute_named(g: Graph, e: ElementHandle, name: QNameView)
    requires
        g.wf(),
        g.has_element(e),
    ensures
        g.without_attribute_named(e, name).wf(),
        g.without_attribute_named(e, name).same_nodes(g),
        g.without_attribute_named(e, name).attribute_named(e, name) is None,
        match g.attribute_named(e, name) {
            Some(a) => g.has_attribute(a) && attribute_detached(g, g.without_attribute_named(e,
                name), a),
            None => true,
        },
{
    lemma_attribute_named(g, e, name);
    match g.attribute_named(e, name) {
        Some(a) => {
            let h = g.detach_attribute(a);
            lemma_detach_attribute(g, a);
            lemma_without(g.attributes_of(e), a);
            assert(h.attributes_of(e) == without(g.attributes_of(e), a));
            if h.attribute_named(e, name) is Some {
                let k = choose|k: int| 0 <= k < h.attributes_of(e).len() &&
                    h.attribute_name(#[trigger] h.attributes_of(e)[k]) == name;
                let y = h.attributes_of(e)[k];
                assert(g.attributes_of(e).contains(without(g.attributes_of(e), a)[k]));
                let j = choose|j: int| 0 <= j < g.attributes_of(e).len() && g.attributes_of(e)[j] ==
                    y;
                assert(g.has_attribute(g.attributes_of(e)[j]));
                assert(g.attribute_name(g.attributes_of(e)[j]) == name);
            }
        },
        None => {},
    }
}

/// Setting an attribute keeps the invariant; the steps of the operation are
/// all possible.
pub proof fn lemma_set_attribute(g: Graph, e: ElementHandle, a: AttributeHandle)
    requires
        g.wf(),
        g.has_element(e),
        g.has_attribute(a),
    ensures
        g.set_attribute(e, a).wf(),
        g.set_attribute(e, a).same_nodes(g),
        ({
            let cleared = g.without_attribute_named(e, g.attribute_name(a));
            &&& cleared.wf()
            &&& cleared.same_nodes(g)
            &&& cleared.detach_attribute(a).wf()
            &&& attribute_detached(cleared, cleared.detach_attribute(a), a)
            &&& attribute_attachable(cleared.detach_attribute(a), e, a)
            &&& attribute_attached(cleared.detach_attribute(a), g.set_attribute(e, a), e, a)
            &&& g.set_attribute(e, a).attributes_of(e) == without(cleared.attributes_of(e),
                a).push(a)
        }),
        g.set_attribute(e, a).attribute_parent(a) == Some(e),
        g.set_attribute(e, a).attribute_named(e, g.attribute_name(a)) == Some(a),
{
    let name = g.attribute_name(a);
    let cleared = g.without_attribute_named(e, name);
    lemma_without_attribute_named(g, e, name);
    let released = cleared.detach_attribute(a);
    lemma_detach_attribute(cleared, a);
    lemma_without(cleared.attributes_of(e), a);
    lemma_attach_attribute(released, e, a);
}

} // verus!
