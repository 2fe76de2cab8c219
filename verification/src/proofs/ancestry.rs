//! Facts about ancestry and ranks.

use vstd::prelude::*;
use crate::graph::Graph;
use crate::nodes::ElementHandle;

verus! {

/// Ancestry, one step at a time.
pub proof fn lemma_ancestry_step(g: Graph, a: ElementHandle, e: ElementHandle)
    ensures
        g.is_ancestor_or_self(a, e) <==> (e == a || match g.element_parent(e) {
            Some(q) => g.is_ancestor_or_self(a, q),
            None => false,
        }),
{
    if g.is_ancestor_or_self(a, e) {
        let n = choose|n: nat| g.up(e, n) == Some(a);
        if n != 0 {
            let q = g.element_parent(e)->Some_0;
            assert(g.up(q, (n - 1) as nat) == Some(a));
        }
    }
    if e == a {
        assert(g.up(e, 0) == Some(a));
    }
    match g.element_parent(e) {
        Some(q) => {
            if g.is_ancestor_or_self(a, q) {
                let m = choose|m: nat| g.up(q, m) == Some(a);
                assert(g.up(e, m + 1) == Some(a));
            }
        },
        None => {},
    }
}

/// Ancestry in a graph whose element parents are among those of `g` is
/// ancestry in `g`.
pub proof fn lemma_ancestry_monotone(
    g: Graph,
    h: Graph,
    a: ElementHandle,
    e: ElementHandle,
    steps: nat,
)
    requires
        h.wf(),
        h.same_nodes(g),
        h.has_element(e),
        forall|d: ElementHandle|
            h.has_element(d) && h.element_parent(d) is Some ==> #[trigger] h.element_parent(d)
                == g.element_parent(d),
        h.up(e, steps) == Some(a),
    ensures
        g.up(e, steps) == Some(a),
    decreases steps,
{
    if steps > 0 {
        let q = h.element_parent(e)->Some_0;
        lemma_ancestry_monotone(g, h, a, q, (steps - 1) as nat);
    }
}

/// Going up from an element never reaches an element of larger rank.
pub proof fn lemma_up_rank(g: Graph, e: ElementHandle, steps: nat)
    requires
        g.acyclic(),
        g.has_element(e),
        g.up(e, steps) is Some,
    ensures
        g.has_element(g.up(e, steps)->Some_0),
        g.rank(g.up(e, steps)->Some_0) + steps <= g.rank(e),
    decreases steps,
{
    if steps > 0 {
        g.lemma_rank(e);
        lemma_up_rank(g, g.element_parent(e)->Some_0, (steps - 1) as nat);
    }
}

/// An element is not an ancestor of its parent.
pub proof fn lemma_child_is_no_ancestor(g: Graph, x: ElementHandle, q: ElementHandle)
    requires
        g.acyclic(),
        g.has_element(x),
        g.element_parent(x) == Some(q),
    ensures
        !g.is_ancestor_or_self(x, q),
{
    g.lemma_rank(x);
    if g.is_ancestor_or_self(x, q) {
        let n = choose|n: nat| g.up(q, n) == Some(x);
        lemma_up_rank(g, q, n);
    }
}

} // verus!
