//! Namespace resolution: prefixes are bound on elements and inherited by
//! their descendants, a nearer binding shadowing a farther one.

use vstd::prelude::*;
use crate::connections::Connections;
use crate::graph::{Graph, local_uri};
use crate::interned::{InternedString, optional_str, str_eq};
use crate::nodes::{ElementHandle, ParentOfChild, bindings_text};
use crate::storage::{Storage, find_binding};

verus! {

/// The prefix that is bound in every scope.
pub const XML_NS_PREFIX: &'static str = "xml";

/// The namespace that `xml` is bound to in every scope.
pub const XML_NS_URI: &'static str = "http://www.w3.org/XML/1998/namespace";

/// The binding that every scope starts with.
pub open spec fn xml_binding() -> (Seq<char>, Seq<char>) {
    (XML_NS_PREFIX@, XML_NS_URI@)
}

/// Whether `bindings` holds a binding of `prefix`.
pub open spec fn has_prefix(bindings: Seq<(Seq<char>, Seq<char>)>, prefix: Seq<char>) -> bool {
    exists|i: int| 0 <= i < bindings.len() && (#[trigger] bindings[i]).0 == prefix
}

/// The position of the first binding to `uri` in `bindings`, if there is one.
pub open spec fn first_binding_to(
    bindings: Seq<(Seq<char>, Seq<char>)>,
    uri: Seq<char>,
) -> Option<int> {
    if exists|i: int| 0 <= i < bindings.len() && (#[trigger] bindings[i]).1 == uri {
        Some(
            choose|i: int|
                0 <= i < bindings.len() && (#[trigger] bindings[i]).1 == uri && forall|j: int|
                    0 <= j < i ==> (#[trigger] bindings[j]).1 != uri,
        )
    } else {
        None
    }
}

/// The prefix that one element offers for `uri`: the preferred one where the
/// element binds it to `uri`, else the first that it binds to `uri`, else none.
pub open spec fn local_prefix(
    bindings: Seq<(Seq<char>, Seq<char>)>,
    uri: Seq<char>,
    preferred: Option<Seq<char>>,
) -> Option<Seq<char>> {
    match preferred {
        Some(prefix) if bindings.contains((prefix, uri)) => Some(prefix),
        _ => match first_binding_to(bindings, uri) {
            Some(i) => Some(bindings[i].0),
            None => None,
        },
    }
}

/// `scope` followed by those of `bindings`, in order, whose prefix nothing
/// before them has.
pub open spec fn scope_with(
    scope: Seq<(Seq<char>, Seq<char>)>,
    bindings: Seq<(Seq<char>, Seq<char>)>,
) -> Seq<(Seq<char>, Seq<char>)>
    decreases bindings.len(),
{
    if bindings.len() == 0 {
        scope
    } else {
        let before = scope_with(scope, bindings.drop_last());
        if has_prefix(before, bindings.last().0) {
            before
        } else {
            before.push(bindings.last())
        }
    }
}

impl Graph {
    /// The URI that `prefix` stands for at `e`: that of the nearest binding
    /// of `prefix` on `e` or an ancestor element.
    pub open spec fn namespace_uri_for_prefix(
        self,
        e: ElementHandle,
        prefix: Seq<char>,
    ) -> Option<Seq<char>>
        decreases self.rank(e),
    {
        match local_uri(self.prefixes_of(e), prefix) {
            Some(uri) => Some(uri),
            None => match self.ascend(e) {
                Some(q) => self.namespace_uri_for_prefix(q, prefix),
                None => None,
            },
        }
    }

    /// A prefix for `uri` at `e`: what the nearest of `e` and its ancestor
    /// elements that binds any prefix to `uri` offers for it.
    pub open spec fn prefix_for_namespace_uri(
        self,
        e: ElementHandle,
        uri: Seq<char>,
        preferred: Option<Seq<char>>,
    ) -> Option<Seq<char>>
        decreases self.rank(e),
    {
        match local_prefix(self.prefixes_of(e), uri, preferred) {
            Some(prefix) => Some(prefix),
            None => match self.ascend(e) {
                Some(q) => self.prefix_for_namespace_uri(q, uri, preferred),
                None => None,
            },
        }
    }

    /// `scope` extended by the bindings of `e`, then of its parent element,
    /// and so on upwards.
    pub open spec fn scope_from(
        self,
        e: ElementHandle,
        scope: Seq<(Seq<char>, Seq<char>)>,
    ) -> Seq<(Seq<char>, Seq<char>)>
        decreases self.rank(e),
    {
        let here = scope_with(scope, self.prefixes_of(e));
        match self.ascend(e) {
            Some(q) => self.scope_from(q, here),
            None => here,
        }
    }

    /// The bindings in scope at `e`: `xml` first, then the bindings of `e`
    /// and of its ancestor elements, nearest first, each prefix once.
    pub open spec fn namespaces_in_scope(self, e: ElementHandle) -> Seq<(Seq<char>, Seq<char>)> {
        self.scope_from(e, seq![xml_binding()])
    }
}

/// The texts of a list of borrowed bindings.
pub open spec fn pairs_text(pairs: Seq<(&str, &str)>) -> Seq<(Seq<char>, Seq<char>)> {
    pairs.map_values(|p: (&str, &str)| (p.0@, p.1@))
}

/// A single pass over the bindings in scope at an element.
///
/// Its view is the sequence of bindings not yet handed out, each a prefix
/// and a namespace URI.
pub struct NamespacesInScope<'a> {
    idx: usize,
    namespaces: Vec<(&'a str, &'a str)>,
}

impl<'a> View for NamespacesInScope<'a> {
    type V = Seq<(Seq<char>, Seq<char>)>;

    closed spec fn view(&self) -> Seq<(Seq<char>, Seq<char>)> {
        pairs_text(self.namespaces@).skip(self.idx as int)
    }
}

impl<'a> NamespacesInScope<'a> {
    /// The position is within the list.
    #[verifier::type_invariant]
    spec fn in_range(self) -> bool {
        self.idx <= self.namespaces.len()
    }

    /// Hands out the next binding, or `None` when all have been handed out.
    pub fn next(&mut self) -> (binding: Option<(&'a str, &'a str)>)
        ensures
            match binding {
                Some(b) => old(self)@.len() > 0 && (b.0@, b.1@) == old(self)@[0] && final(self)@
                    == old(self)@.skip(1),
                None => old(self)@.len() == 0 && final(self)@ == old(self)@,
            },
    {
        proof {
            use_type_invariant(&*self);
        }
        if self.idx >= self.namespaces.len() {
            None
        } else {
            let binding = self.namespaces[self.idx];
            self.idx += 1;
            Some(binding)
        }
    }
}

/// Whether one of `namespaces` has the prefix `prefix`.
fn scope_has_prefix(namespaces: &Vec<(&str, &str)>, prefix: &str) -> (r: bool)
    ensures
        r == has_prefix(pairs_text(namespaces@), prefix@),
{
    let mut i: usize = 0;
    while i < namespaces.len()
        invariant
            i <= namespaces.len(),
            forall|j: int| 0 <= j < i ==> (#[trigger] pairs_text(namespaces@)[j]).0 != prefix@,
        decreases namespaces.len() - i,
    {
        if str_eq(namespaces[i].0, prefix) {
            assert(pairs_text(namespaces@)[i as int].0 == prefix@);
            return true;
        }
        i += 1;
    }
    false
}

/// The prefix that `bindings` offers for `uri`.
fn offered_prefix<'a>(
    bindings: &'a Vec<(InternedString, InternedString)>,
    uri: &str,
    preferred: Option<&str>,
) -> (r: Option<&'a str>)
    ensures
        optional_str(r) == local_prefix(bindings_text(bindings@), uri@, optional_str(preferred)),
{
    let ghost texts = bindings_text(bindings@);
    let mut first: Option<usize> = None;
    let mut i: usize = 0;
    while i < bindings.len()
        invariant
            i <= bindings.len(),
            texts == bindings_text(bindings@),
            match first {
                Some(k) => k < i && texts[k as int].1 == uri@ && forall|j: int|
                    0 <= j < k ==> (#[trigger] texts[j]).1 != uri@,
                None => forall|j: int| 0 <= j < i ==> (#[trigger] texts[j]).1 != uri@,
            },
            match preferred {
                Some(p) => forall|j: int| 0 <= j < i ==> #[trigger] texts[j] != (p@, uri@),
                None => true,
            },
        decreases bindings.len() - i,
    {
        if str_eq(bindings[i].1.as_slice(), uri) {
            match preferred {
                Some(p) => {
                    if str_eq(bindings[i].0.as_slice(), p) {
                        proof {
                            assert(texts[i as int] == (p@, uri@));
                        }
                        return Some(bindings[i].0.as_slice());
                    }
                },
                None => {},
            }
            if first.is_none() {
                first = Some(i);
            }
        }
        i += 1;
    }
    match first {
        Some(k) => Some(bindings[k].0.as_slice()),
        None => None,
    }
}

impl Connections {
    /// The namespace URI that `prefix` stands for at `element`.
    ///
    /// The nearest binding wins: that of `element` itself, else that of its
    /// parent element, and so on; `None` where none of them binds `prefix`.
    pub fn element_namespace_uri_for_prefix<'a>(
        &self,
        storage: &'a Storage,
        element: ElementHandle,
        prefix: &str,
    ) -> (uri: Option<&'a str>)
        requires
            storage.wf(),
            storage@.has_element(element),
        ensures
            optional_str(uri) == storage@.namespace_uri_for_prefix(element, prefix@),
    {
        let mut current = element;
        loop
            invariant
                storage.wf(),
                storage@.has_element(current),
                storage@.namespace_uri_for_prefix(element, prefix@)
                    == storage@.namespace_uri_for_prefix(current, prefix@),
            decreases storage@.rank(current),
        {
            proof {
                storage@.lemma_rank(current);
            }
            let bindings = &storage.elements[current.0].prefix_to_namespace;
            match find_binding(bindings, prefix) {
                Some(i) => {
                    proof {
                        let texts = storage@.prefixes_of(current);
                        assert(texts[i as int].0 == prefix@);
                    }
                    return Some(bindings[i].1.as_slice());
                },
                None => {
                },
            }
            match storage.elements[current.0].parent {
                Some(ParentOfChild::Element(parent)) => {
                    current = parent;
                },
                _ => {
                    return None;
                },
            }
        }
    }

    /// A prefix that stands for `namespace_uri` at `element`.
    ///
    /// The nearest of `element` and its ancestor elements that binds any
    /// prefix to `namespace_uri` decides: it gives `preferred_prefix` where it
    /// binds that to `namespace_uri`, else the first prefix that it binds to
    /// it. `None` where none of them binds a prefix to `namespace_uri`.
    pub fn element_prefix_for_namespace_uri<'a>(
        &self,
        storage: &'a Storage,
        element: ElementHandle,
        namespace_uri: &str,
        preferred_prefix: Option<&str>,
    ) -> (prefix: Option<&'a str>)
        requires
            storage.wf(),
            storage@.has_element(element),
        ensures
            optional_str(prefix) == storage@.prefix_for_namespace_uri(
                element,
                namespace_uri@,
                optional_str(preferred_prefix),
            ),
    {
        let mut current = element;
        loop
            invariant
                storage.wf(),
                storage@.has_element(current),
                storage@.prefix_for_namespace_uri(element, namespace_uri@,
                    optional_str(preferred_prefix))
                    == storage@.prefix_for_namespace_uri(
                    current,
                    namespace_uri@,
                    optional_str(preferred_prefix),
                ),
            decreases storage@.rank(current),
        {
            proof {
                storage@.lemma_rank(current);
            }
            let offered = offered_prefix(
                &storage.elements[current.0].prefix_to_namespace,
                namespace_uri,
                preferred_prefix,
            );
            match offered {
                Some(prefix) => {
                    return Some(prefix);
                },
                None => {},
            }
            match storage.elements[current.0].parent {
                Some(ParentOfChild::Element(parent)) => {
                    current = parent;
                },
                _ => {
                    return None;
                },
            }
        }
    }

    /// The bindings in scope at `element`.
    ///
    /// The fixed binding of `xml` comes first, then the bindings of
    /// `element`, of its parent element, and so on. A binding whose prefix an
    /// earlier one has is left out, so a nearer binding shadows a farther one
    /// and `xml` cannot be rebound.
    pub fn element_namespaces_in_scope<'a>(
        &self,
        storage: &'a Storage,
        element: ElementHandle,
    ) -> (scope: NamespacesInScope<'a>)
        requires
            storage.wf(),
            storage@.has_element(element),
        ensures
            scope@ == storage@.namespaces_in_scope(element),
    {
        let mut namespaces: Vec<(&'a str, &'a str)> = Vec::new();
        namespaces.push((XML_NS_PREFIX, XML_NS_URI));
        assert(pairs_text(namespaces@) =~= seq![xml_binding()]);
        let mut current = element;
        loop
            invariant_except_break
                storage@.namespaces_in_scope(element) == storage@.scope_from(
                    current,
                    pairs_text(namespaces@),
                ),
            invariant
                storage.wf(),
                storage@.has_element(current),
            ensures
                pairs_text(namespaces@) == storage@.namespaces_in_scope(element),
            decreases storage@.rank(current),
        {
            proof {
                storage@.lemma_rank(current);
            }
            let bindings = &storage.elements[current.0].prefix_to_namespace;
            let ghost start = pairs_text(namespaces@);
            let ghost texts = storage@.prefixes_of(current);
            let mut i: usize = 0;
            while i < bindings.len()
                invariant
                    i <= bindings.len(),
                    texts == bindings_text(bindings@),
                    pairs_text(namespaces@) == scope_with(start, texts.take(i as int)),
                decreases bindings.len() - i,
            {
                let prefix = bindings[i].0.as_slice();
                let uri = bindings[i].1.as_slice();
                proof {
                    assert(texts.take(i as int + 1).drop_last() =~= texts.take(i as int));
                }
                if !scope_has_prefix(&namespaces, prefix) {
                    namespaces.push((prefix, uri));
                }
                i += 1;
            }
            proof {
                assert(texts.take(bindings.len() as int) =~= texts);
            }
            match storage.elements[current.0].parent {
                Some(ParentOfChild::Element(parent)) => {
                    current = parent;
                },
                _ => {
                    break;
                },
            }
        }
        NamespacesInScope { idx: 0, namespaces }
    }
}

} // verus!
