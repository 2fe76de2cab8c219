use xml_node_graph::{Connections, ElementHandle, Storage, XML_NS_PREFIX, XML_NS_URI};

fn scope_of(
    connections: &Connections,
    storage: &Storage,
    element: ElementHandle,
) -> Vec<(String, String)> {
    let mut scope = connections.element_namespaces_in_scope(storage, element);
    let mut out = Vec::new();
    while let Some((prefix, uri)) = scope.next() {
        out.push((prefix.to_string(), uri.to_string()));
    }
    assert_eq!(scope.next(), None);
    out
}

fn pair(prefix: &str, uri: &str) -> (String, String) {
    (prefix.to_string(), uri.to_string())
}

#[test]
fn a_nearer_binding_shadows_a_farther_one() {
    let mut storage = Storage::new();
    let root = storage.create_root();
    let connections = Connections::new(root);
    let outer = storage.create_element("outer");
    let inner = storage.create_element("inner");
    connections.append_element_child(&mut storage, outer, inner);
    storage.element_register_prefix(outer, "p", "U1");
    storage.element_register_prefix(inner, "p", "U2");

    assert_eq!(connections.element_namespace_uri_for_prefix(&storage, inner, "p"), Some("U2"));
    assert_eq!(connections.element_namespace_uri_for_prefix(&storage, outer, "p"), Some("U1"));
}

#[test]
fn bindings_in_scope_come_nearest_first_after_xml() {
    let mut storage = Storage::new();
    let root = storage.create_root();
    let connections = Connections::new(root);
    let outer = storage.create_element("outer");
    let inner = storage.create_element("inner");
    connections.append_root_child(&mut storage, outer);
    connections.append_element_child(&mut storage, outer, inner);
    storage.element_register_prefix(outer, "a", "A");
    storage.element_register_prefix(inner, "b", "B");

    assert_eq!(
        scope_of(&connections, &storage, inner),
        vec![pair("xml", "http://www.w3.org/XML/1998/namespace"), pair("b", "B"), pair("a", "A")]
    );
    assert_eq!(
        scope_of(&connections, &storage, outer),
        vec![pair("xml", "http://www.w3.org/XML/1998/namespace"), pair("a", "A")]
    );
}

#[test]
fn the_scope_of_a_bare_element_is_the_xml_binding() {
    let mut storage = Storage::new();
    let root = storage.create_root();
    let connections = Connections::new(root);
    let e = storage.create_element("e");

    assert_eq!(scope_of(&connections, &storage, e), vec![pair(XML_NS_PREFIX, XML_NS_URI)]);
    assert_eq!(XML_NS_PREFIX, "xml");
    assert_eq!(XML_NS_URI, "http://www.w3.org/XML/1998/namespace");
}

#[test]
fn an_inherited_binding_is_found_through_the_ancestors() {
    let mut storage = Storage::new();
    let root = storage.create_root();
    let connections = Connections::new(root);
    let top = storage.create_element("top");
    let middle = storage.create_element("middle");
    let bottom = storage.create_element("bottom");
    connections.append_root_child(&mut storage, top);
    connections.append_element_child(&mut storage, top, middle);
    connections.append_element_child(&mut storage, middle, bottom);
    storage.element_register_prefix(top, "t", "urn:top");
    storage.element_register_prefix(middle, "m", "urn:middle");

    assert_eq!(connections.element_namespace_uri_for_prefix(&storage, bottom, "t"),
        Some("urn:top"));
    assert_eq!(connections.element_namespace_uri_for_prefix(&storage, bottom, "m"),
        Some("urn:middle"));
    assert_eq!(connections.element_namespace_uri_for_prefix(&storage, top, "m"), None);
    assert_eq!(connections.element_namespace_uri_for_prefix(&storage, bottom, "none"), None);
    assert_eq!(connections.element_namespace_uri_for_prefix(&storage, bottom, ""), None);
}

#[test]
fn registering_a_prefix_again_overwrites_its_uri() {
    let mut storage = Storage::new();
    let root = storage.create_root();
    let connections = Connections::new(root);
    let e = storage.create_element("e");
    storage.element_register_prefix(e, "p", "first");
    storage.element_register_prefix(e, "q", "other");

    storage.element_register_prefix(e, "p", "second");

    assert_eq!(connections.element_namespace_uri_for_prefix(&storage, e, "p"), Some("second"));
    assert_eq!(connections.element_namespace_uri_for_prefix(&storage, e, "q"), Some("other"));
    assert_eq!(
        scope_of(&connections, &storage, e),
        vec![pair(XML_NS_PREFIX, XML_NS_URI), pair("p", "second"), pair("q", "other")]
    );
}

#[test]
fn rebinding_xml_is_honoured_by_lookup_and_ignored_in_scope() {
    let mut storage = Storage::new();
    let root = storage.create_root();
    let connections = Connections::new(root);
    let e = storage.create_element("e");
    storage.element_register_prefix(e, "xml", "urn:mine");

    assert_eq!(connections.element_namespace_uri_for_prefix(&storage, e, "xml"), Some("urn:mine"));
    assert_eq!(scope_of(&connections, &storage, e), vec![pair(XML_NS_PREFIX, XML_NS_URI)]);
}

#[test]
fn xml_is_not_found_by_lookup_unless_bound() {
    let mut storage = Storage::new();
    let root = storage.create_root();
    let connections = Connections::new(root);
    let e = storage.create_element("e");

    assert_eq!(connections.element_namespace_uri_for_prefix(&storage, e, "xml"), None);
}

#[test]
fn prefixes_in_scope_are_pairwise_distinct() {
    let mut storage = Storage::new();
    let root = storage.create_root();
    let connections = Connections::new(root);
    let top = storage.create_element("top");
    let middle = storage.create_element("middle");
    let bottom = storage.create_element("bottom");
    connections.append_element_child(&mut storage, top, middle);
    connections.append_element_child(&mut storage, middle, bottom);
    storage.element_register_prefix(top, "a", "top-a");
    storage.element_register_prefix(top, "b", "top-b");
    storage.element_register_prefix(top, "xml", "top-xml");
    storage.element_register_prefix(middle, "a", "middle-a");
    storage.element_register_prefix(middle, "c", "middle-c");
    storage.element_register_prefix(bottom, "c", "bottom-c");

    let scope = scope_of(&connections, &storage, bottom);

    assert_eq!(
        scope,
        vec![
            pair(XML_NS_PREFIX, XML_NS_URI),
            pair("c", "bottom-c"),
            pair("a", "middle-a"),
            pair("b", "top-b"),
        ]
    );
    for i in 0..scope.len() {
        for j in 0..scope.len() {
            if i != j {
                assert_ne!(scope[i].0, scope[j].0);
            }
        }
    }
}

#[test]
fn the_walk_for_a_scope_stops_at_the_root() {
    let mut storage = Storage::new();
    let root = storage.create_root();
    let connections = Connections::new(root);
    let e = storage.create_element("e");
    let other = storage.create_element("other");
    storage.element_register_prefix(other, "o", "urn:other");
    storage.element_register_prefix(e, "p", "urn:p");
    connections.append_root_child(&mut storage, e);

    assert_eq!(
        scope_of(&connections, &storage, e),
        vec![pair(XML_NS_PREFIX, XML_NS_URI), pair("p", "urn:p")]
    );
    assert_eq!(connections.element_namespace_uri_for_prefix(&storage, e, "o"), None);
}

#[test]
fn the_preferred_prefix_is_chosen_where_it_is_bound_to_the_uri() {
    let mut storage = Storage::new();
    let root = storage.create_root();
    let connections = Connections::new(root);
    let e = storage.create_element("e");
    storage.element_register_prefix(e, "a", "urn:x");
    storage.element_register_prefix(e, "b", "urn:x");
    storage.element_register_prefix(e, "c", "urn:y");

    assert_eq!(connections.element_prefix_for_namespace_uri(&storage, e, "urn:x", Some("b")),
        Some("b"));
    assert_eq!(connections.element_prefix_for_namespace_uri(&storage, e, "urn:x", Some("a")),
        Some("a"));
    assert_eq!(connections.element_prefix_for_namespace_uri(&storage, e, "urn:y", Some("a")),
        Some("c"));
    assert_eq!(connections.element_prefix_for_namespace_uri(&storage, e, "urn:y", None), Some("c"));
    assert_eq!(connections.element_prefix_for_namespace_uri(&storage, e, "urn:z", Some("a")), None);
    assert_eq!(connections.element_prefix_for_namespace_uri(&storage, e, "urn:z", None), None);
    let any = connections.element_prefix_for_namespace_uri(&storage, e, "urn:x", Some("c"));
    assert!(any == Some("a") || any == Some("b"));
    let any = connections.element_prefix_for_namespace_uri(&storage, e, "urn:x", None);
    assert!(any == Some("a") || any == Some("b"));
}

#[test]
fn a_prefix_at_a_nearer_level_wins_over_the_preferred_one_farther_up() {
    let mut storage = Storage::new();
    let root = storage.create_root();
    let connections = Connections::new(root);
    let outer = storage.create_element("outer");
    let inner = storage.create_element("inner");
    connections.append_element_child(&mut storage, outer, inner);
    storage.element_register_prefix(outer, "wanted", "urn:x");
    storage.element_register_prefix(inner, "near", "urn:x");

    assert_eq!(
        connections.element_prefix_for_namespace_uri(&storage, inner, "urn:x", Some("wanted")),
        Some("near")
    );
    assert_eq!(
        connections.element_prefix_for_namespace_uri(&storage, outer, "urn:x", Some("wanted")),
        Some("wanted")
    );
}

#[test]
fn a_prefix_is_found_on_an_ancestor_where_the_element_binds_none() {
    let mut storage = Storage::new();
    let root = storage.create_root();
    let connections = Connections::new(root);
    let outer = storage.create_element("outer");
    let inner = storage.create_element("inner");
    connections.append_root_child(&mut storage, outer);
    connections.append_element_child(&mut storage, outer, inner);
    storage.element_register_prefix(outer, "o", "urn:x");
    storage.element_register_prefix(inner, "i", "urn:y");

    assert_eq!(connections.element_prefix_for_namespace_uri(&storage, inner, "urn:x", None),
        Some("o"));
    assert_eq!(connections.element_prefix_for_namespace_uri(&storage, inner, "urn:x", Some("i")),
        Some("o"));
    assert_eq!(connections.element_prefix_for_namespace_uri(&storage, outer, "urn:y", None), None);
}
