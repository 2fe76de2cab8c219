//! What holds of every well-formed graph, and of the operations on it.
//!
//! A store starts well-formed and every operation keeps it so; the laws
//! below therefore hold after any sequence of operations.

use vstd::prelude::*;
use crate::graph::{Graph, local_uri, without};
use crate::proofs::ancestry::lemma_child_is_no_ancestor;
use crate::proofs::lists::lemma_without_is_remove;
use crate::proofs::operations::{
    lemma_append_element_child, lemma_append_root_child, lemma_set_attribute,
};
use crate::namespaces::{has_prefix, scope_with, xml_binding};
use crate::nodes::{
    AttributeHandle, ChildOfElement, ChildOfRoot, ElementHandle, ParentOfChild, RootHandle,
};

verus! {

/// A node has `p` as its parent exactly when it stands in the child list of
/// `p`, and then it stands there exactly once.
pub proof fn law_parent_matches_child_list(g: Graph, c: ChildOfElement, p: ParentOfChild)
    requires
        g.wf(),
        g.has_child(c),
        g.has_parent(p),
    ensures
        g.parent_of(c) == Some(p) <==> g.children_of(p).contains(c),
        g.parent_of(c) == Some(p) ==> g.children_of(p).to_multiset().count(c) == 1,
{
    let s = g.children_of(p);
    if g.parent_of(c) == Some(p) {
        s.to_multiset_ensures();
        s.lemma_multiset_has_no_duplicates();
    }
}

/// An attribute has `e` as its parent exactly when it stands in the
/// attribute list of `e`, and then it stands there exactly once.
pub proof fn law_parent_matches_attribute_list(g: Graph, a: AttributeHandle, e: ElementHandle)
    requires
        g.wf(),
        g.has_attribute(a),
        g.has_element(e),
    ensures
        g.attribute_parent(a) == Some(e) <==> g.attributes_of(e).contains(a),
        g.attribute_parent(a) == Some(e) ==> g.attributes_of(e).to_multiset().count(a) == 1,
{
    let s = g.attributes_of(e);
    if g.attribute_parent(a) == Some(e) {
        s.to_multiset_ensures();
        s.lemma_multiset_has_no_duplicates();
    }
}

/// A node stands in the child list of at most one parent.
pub proof fn law_one_parent(g: Graph, c: ChildOfElement, p1: ParentOfChild, p2: ParentOfChild)
    requires
        g.wf(),
        g.has_parent(p1),
        g.has_parent(p2),
        g.children_of(p1).contains(c),
        g.children_of(p2).contains(c),
    ensures
        p1 == p2,
{
}

/// An attribute stands in the attribute list of at most one element.
pub proof fn law_one_element(g: Graph, a: AttributeHandle, e1: ElementHandle, e2: ElementHandle)
    requires
        g.wf(),
        g.has_element(e1),
        g.has_element(e2),
        g.attributes_of(e1).contains(a),
        g.attributes_of(e2).contains(a),
    ensures
        e1 == e2,
{
}

/// A root has at most one element among its children.
pub proof fn law_root_holds_one_element(g: Graph, r: RootHandle, i: int, j: int)
    requires
        g.wf(),
        g.has_root(r),
        0 <= i < g.children_of(ParentOfChild::Root(r)).len(),
        0 <= j < g.children_of(ParentOfChild::Root(r)).len(),
        g.children_of(ParentOfChild::Root(r))[i] is Element,
        g.children_of(ParentOfChild::Root(r))[j] is Element,
    ensures
        i == j,
{
}

/// No two attributes of an element have equal names.
pub proof fn law_attribute_names_differ(g: Graph, e: ElementHandle, i: int, j: int)
    requires
        g.wf(),
        g.has_element(e),
        0 <= i < g.attributes_of(e).len(),
        0 <= j < g.attributes_of(e).len(),
        i != j,
    ensures
        g.attribute_name(g.attributes_of(e)[i]) != g.attribute_name(g.attributes_of(e)[j]),
{
}

/// The siblings before a node, the node, and the siblings after it make up
/// the child list of its parent.
pub proof fn law_siblings_make_up_children(g: Graph, c: ChildOfElement)
    requires
        g.wf(),
        g.has_child(c),
        g.parent_of(c) is Some,
    ensures
        g.preceding_siblings(c) + seq![c] + g.following_siblings(c) == g.children_of(
            g.parent_of(c)->Some_0,
        ),
{
}

/// Whether no two of `bindings` have the same prefix.
pub open spec fn prefixes_differ(bindings: Seq<(Seq<char>, Seq<char>)>) -> bool {
    forall|i: int, j: int|
        0 <= i < bindings.len() && 0 <= j < bindings.len() && (#[trigger] bindings[i]).0 == (
        #[trigger] bindings[j]).0 ==> i == j
}

/// Among bindings with distinct prefixes, the URI found for a prefix is the
/// one it is bound to.
pub proof fn law_local_binding(
    bindings: Seq<(Seq<char>, Seq<char>)>,
    prefix: Seq<char>,
    uri: Seq<char>,
)
    requires
        prefixes_differ(bindings),
    ensures
        local_uri(bindings, prefix) == Some(uri) <==> bindings.contains((prefix, uri)),
{
}

/// Whether the element `steps` above `e` binds `prefix` to `uri` and none
/// of the elements below it, from `e` on, binds `prefix`.
pub open spec fn binds_nearest(
    g: Graph,
    e: ElementHandle,
    prefix: Seq<char>,
    steps: nat,
    uri: Seq<char>,
) -> bool {
    &&& g.up(e, steps) is Some
    &&& local_uri(g.prefixes_of(g.up(e, steps)->Some_0), prefix) == Some(uri)
    &&& forall|m: nat|
        m < steps ==> (#[trigger] g.up(e, m)) is Some && local_uri(
            g.prefixes_of(g.up(e, m)->Some_0),
            prefix,
        ) is None
}

/// The URI found for a prefix at an element is the one bound to it by the
/// nearest of the element and its ancestors that binds the prefix; none is
/// found exactly when none of them binds it.
pub proof fn law_nearest_binding_wins(g: Graph, e: ElementHandle, prefix: Seq<char>)
    requires
        g.wf(),
        g.has_element(e),
    ensures
        match g.namespace_uri_for_prefix(e, prefix) {
            Some(uri) => exists|steps: nat| binds_nearest(g, e, prefix, steps, uri),
            None => forall|steps: nat|
                (#[trigger] g.up(e, steps)) is Some ==> local_uri(
                    g.prefixes_of(g.up(e, steps)->Some_0),
                    prefix,
                ) is None,
        },
    decreases g.rank(e),
{
    g.lemma_rank(e);
    match local_uri(g.prefixes_of(e), prefix) {
        Some(uri) => {
            assert(binds_nearest(g, e, prefix, 0, uri));
        },
        None => {
            match g.element_parent(e) {
                Some(q) => {
                    law_nearest_binding_wins(g, q, prefix);
                    assert forall|n: nat| n > 0 implies #[trigger] g.up(e, n) == g.up(
                        q,
                        (n - 1) as nat,
                    ) by {}
                    match g.namespace_uri_for_prefix(q, prefix) {
                        Some(uri) => {
                            let below = choose|steps: nat| binds_nearest(g, q, prefix, steps, uri);
                            assert(binds_nearest(g, e, prefix, below + 1, uri));
                        },
                        None => {},
                    }
                },
                None => {},
            }
        },
    }
}

/// Adding bindings to a scope keeps what the scope held, in place, and
/// keeps its prefixes distinct.
pub proof fn lemma_scope_with(
    scope: Seq<(Seq<char>, Seq<char>)>,
    bindings: Seq<(Seq<char>, Seq<char>)>,
)
    requires
        prefixes_differ(scope),
    ensures
        prefixes_differ(scope_with(scope, bindings)),
        scope.len() <= scope_with(scope, bindings).len(),
        forall|i: int| 0 <= i < scope.len() ==> #[trigger] scope_with(scope, bindings)[i] ==
            scope[i],
    decreases bindings.len(),
{
    if bindings.len() > 0 {
        lemma_scope_with(scope, bindings.drop_last());
    }
}

/// Walking upwards from an element keeps what the scope held, in place, and
/// keeps its prefixes distinct.
pub proof fn lemma_scope_from(g: Graph, e: ElementHandle, scope: Seq<(Seq<char>, Seq<char>)>)
    requires
        prefixes_differ(scope),
    ensures
        prefixes_differ(g.scope_from(e, scope)),
        scope.len() <= g.scope_from(e, scope).len(),
        forall|i: int| 0 <= i < scope.len() ==> #[trigger] g.scope_from(e, scope)[i] == scope[i],
    decreases g.rank(e),
{
    let here = scope_with(scope, g.prefixes_of(e));
    lemma_scope_with(scope, g.prefixes_of(e));
    match g.ascend(e) {
        Some(q) => {
            lemma_scope_from(g, q, here);
        },
        None => {},
    }
}

/// The bindings in scope at an element start with the fixed binding of
/// `xml`, and no two of them have the same prefix.
pub proof fn law_scope_prefixes_differ(g: Graph, e: ElementHandle)
    ensures
        prefixes_differ(g.namespaces_in_scope(e)),
        g.namespaces_in_scope(e).len() > 0,
        g.namespaces_in_scope(e)[0] == xml_binding(),
{
    lemma_scope_from(g, e, seq![xml_binding()]);
}

/// Appending a node to the element that is its parent already is taking it
/// out and putting it last: its siblings, in their order, all come before
/// it and none comes after.
pub proof fn law_reappend_moves_to_end(g: Graph, p: ElementHandle, c: ChildOfElement)
    requires
        g.wf(),
        g.has_element(p),
        g.has_child(c),
        g.parent_of(c) == Some(ParentOfChild::Element(p)),
    ensures
        ({
            let h = g.append_element_child(p, c);
            let others = g.preceding_siblings(c) + g.following_siblings(c);
            &&& h.wf()
            &&& h == g.detach(c).attach(ParentOfChild::Element(p), c)
            &&& h.children_of(ParentOfChild::Element(p)) == others.push(c)
            &&& h.preceding_siblings(c) == others
            &&& h.following_siblings(c) == Seq::<ChildOfElement>::empty()
        }),
{
    let parent = ParentOfChild::Element(p);
    let s = g.children_of(parent);
    if c is Element {
        lemma_child_is_no_ancestor(g, c->Element_0, p);
    }
    lemma_append_element_child(g, p, c);
    let i = s.index_of(c);
    lemma_without_is_remove(s, i);
}

/// Appending a node to the root that is its parent already is taking it
/// out and putting it last: its siblings, in their order, all come before
/// it and none comes after.
pub proof fn law_reappend_to_root_moves_to_end(g: Graph, r: RootHandle, c: ChildOfRoot)
    requires
        g.wf(),
        g.has_root(r),
        g.has_child(c.widen()),
        g.parent_of(c.widen()) == Some(ParentOfChild::Root(r)),
    ensures
        ({
            let h = g.append_root_child(r, c);
            let others = g.preceding_siblings(c.widen()) + g.following_siblings(c.widen());
            &&& h.wf()
            &&& h == g.detach(c.widen()).attach(ParentOfChild::Root(r), c.widen())
            &&& h.children_of(ParentOfChild::Root(r)) == others.push(c.widen())
            &&& h.preceding_siblings(c.widen()) == others
            &&& h.following_siblings(c.widen()) == Seq::<ChildOfElement>::empty()
        }),
{
    let parent = ParentOfChild::Root(r);
    let x = c.widen();
    let s = g.children_of(parent);
    let i = s.index_of(x);
    lemma_append_root_child(g, r, c);
    lemma_without_is_remove(s, i);
}

/// Appending an element to a root and then a second one leaves the second
/// as the only element of the root, and the first without a parent.
pub proof fn law_second_element_displaces_first(
    g: Graph,
    r: RootHandle,
    e1: ElementHandle,
    e2: ElementHandle,
)
    requires
        g.wf(),
        g.has_root(r),
        g.has_element(e1),
        g.has_element(e2),
        e1 != e2,
    ensures
        ({
            let h = g.append_root_child(r, ChildOfRoot::Element(e1)).append_root_child(
                r,
                ChildOfRoot::Element(e2),
            );
            &&& h.wf()
            &&& h.root_element(r) == Some(e2)
            &&& h.children_of(ParentOfChild::Root(r)).last() == ChildOfElement::Element(e2)
            &&& h.parent_of(ChildOfElement::Element(e2)) == Some(ParentOfChild::Root(r))
            &&& h.parent_of(ChildOfElement::Element(e1)) is None
            &&& forall|i: int|
                0 <= i < h.children_of(ParentOfChild::Root(r)).len() && #[trigger] h.children_of(
                    ParentOfChild::Root(r),
                )[i] is Element ==> h.children_of(ParentOfChild::Root(r))[i]
                    == ChildOfElement::Element(e2)
        }),
{
    let g1 = g.append_root_child(r, ChildOfRoot::Element(e1));
    lemma_append_root_child(g, r, ChildOfRoot::Element(e1));
    lemma_append_root_child(g1, r, ChildOfRoot::Element(e2));
}

/// Setting two attributes of one name on an element, one after the other,
/// leaves the second as the element's only attribute of that name, with its
/// value, and the first without a parent.
pub proof fn law_second_attribute_replaces_first(
    g: Graph,
    e: ElementHandle,
    a1: AttributeHandle,
    a2: AttributeHandle,
)
    requires
        g.wf(),
        g.has_element(e),
        g.has_attribute(a1),
        g.has_attribute(a2),
        a1 != a2,
        g.attribute_name(a1) == g.attribute_name(a2),
    ensures
        ({
            let h = g.set_attribute(e, a1).set_attribute(e, a2);
            let name = g.attribute_name(a2);
            &&& h.wf()
            &&& h.attribute_named(e, name) == Some(a2)
            &&& h.attribute_name(a2) == name
            &&& h.attributes[a2.0 as int].value == g.attributes[a2.0 as int].value
            &&& h.attribute_parent(a2) == Some(e)
            &&& h.attribute_parent(a1) is None
            &&& !h.attributes_of(e).contains(a1)
            &&& forall|i: int|
                0 <= i < h.attributes_of(e).len() && h.attribute_name(#[trigger]
                    h.attributes_of(e)[i])
                    == name ==> h.attributes_of(e)[i] == a2
        }),
{
    let g1 = g.set_attribute(e, a1);
    lemma_set_attribute(g, e, a1);
    lemma_set_attribute(g1, e, a2);
}

/// A scope extended by bindings has a prefix exactly when the scope or the
/// bindings had it.
pub proof fn lemma_scope_with_prefix(
    scope: Seq<(Seq<char>, Seq<char>)>,
    bindings: Seq<(Seq<char>, Seq<char>)>,
    prefix: Seq<char>,
)
    ensures
        has_prefix(scope_with(scope, bindings), prefix) <==> has_prefix(scope, prefix) ||
            has_prefix(
            bindings,
            prefix,
        ),
    decreases bindings.len(),
{
    if bindings.len() > 0 {
        let init = bindings.drop_last();
        let last = bindings.last();
        let before = scope_with(scope, init);
        let after = scope_with(scope, bindings);
        lemma_scope_with_prefix(scope, init, prefix);
        if has_prefix(bindings, prefix) {
            let i = choose|i: int| 0 <= i < bindings.len() && (#[trigger] bindings[i]).0 == prefix;
            if i < init.len() {
                assert(init[i].0 == prefix);
            }
        }
        if !has_prefix(before, last.0) {
            if has_prefix(before, prefix) {
                let i = choose|i: int| 0 <= i < before.len() && (#[trigger] before[i]).0 == prefix;
                assert(after[i].0 == prefix);
            }
            if last.0 == prefix {
                assert(after[after.len() - 1].0 == prefix);
            }
        }
    }
}

/// A scope extended by bindings holds a binding exactly when the scope held
/// it, or the scope had no binding of its prefix and the bindings hold it.
pub proof fn lemma_scope_with_binding(
    scope: Seq<(Seq<char>, Seq<char>)>,
    bindings: Seq<(Seq<char>, Seq<char>)>,
    prefix: Seq<char>,
    uri: Seq<char>,
)
    requires
        prefixes_differ(bindings),
    ensures
        scope_with(scope, bindings).contains((prefix, uri)) <==> scope.contains((prefix, uri)) || (
        !has_prefix(scope, prefix) && bindings.contains((prefix, uri))),
    decreases bindings.len(),
{
    let b = (prefix, uri);
    if bindings.len() > 0 {
        let init = bindings.drop_last();
        let last = bindings.last();
        let before = scope_with(scope, init);
        let after = scope_with(scope, bindings);
        lemma_scope_with_binding(scope, init, prefix, uri);
        lemma_scope_with_prefix(scope, init, last.0);
        if bindings.contains(b) {
            let i = choose|i: int| 0 <= i < bindings.len() && bindings[i] == b;
            if i < init.len() {
                assert(init[i] == b);
            }
        }
        if !has_prefix(before, last.0) {
            if before.contains(b) {
                let i = choose|i: int| 0 <= i < before.len() && before[i] == b;
                assert(after[i] == b);
            }
            if last == b {
                assert(after[after.len() - 1] == b);
            }
        }
    }
}

/// Walking upwards from an element, a scope comes to hold a binding exactly
/// when it held it at the start, or it had no binding of its prefix and the
/// prefix stands for the URI at the element.
pub proof fn lemma_scope_from_binding(
    g: Graph,
    e: ElementHandle,
    scope: Seq<(Seq<char>, Seq<char>)>,
    prefix: Seq<char>,
    uri: Seq<char>,
)
    requires
        g.wf(),
        g.has_element(e),
    ensures
        g.scope_from(e, scope).contains((prefix, uri)) <==> scope.contains((prefix, uri)) || (
        !has_prefix(scope, prefix) && g.namespace_uri_for_prefix(e, prefix) == Some(uri)),
    decreases g.rank(e),
{
    let bindings = g.prefixes_of(e);
    let here = scope_with(scope, bindings);
    g.lemma_rank(e);
    lemma_scope_with_binding(scope, bindings, prefix, uri);
    lemma_scope_with_prefix(scope, bindings, prefix);
    match g.element_parent(e) {
        Some(q) => {
            lemma_scope_from_binding(g, q, here, prefix, uri);
        },
        None => {},
    }
}

/// A prefix other than `xml` is in scope at an element with a URI exactly
/// when it stands for that URI there; `xml` is in scope with its fixed URI
/// only.
pub proof fn law_scope_matches_lookup(g: Graph, e: ElementHandle, prefix: Seq<char>, uri: Seq<char>)
    requires
        g.wf(),
        g.has_element(e),
    ensures
        g.namespaces_in_scope(e).contains((prefix, uri)) <==> if prefix == xml_binding().0 {
            uri == xml_binding().1
        } else {
            g.namespace_uri_for_prefix(e, prefix) == Some(uri)
        },
{
    let start = seq![xml_binding()];
    lemma_scope_from_binding(g, e, start, prefix, uri);
    assert(start[0] == xml_binding());
}

} // verus!
