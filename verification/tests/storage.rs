use xml_node_graph::{
    AttributeHandle, CommentHandle, Connections, ElementHandle, ProcessingInstructionHandle,
    QName, RootHandle, Storage, TextHandle,
};

#[test]
fn new_nodes_are_orphans_with_empty_lists() {
    let mut storage = Storage::new();
    let root = storage.create_root();
    let connections = Connections::new(root);
    let e = storage.create_element(QName::with_namespace_uri(Some("urn:ns"), "name"));
    let a = storage.create_attribute("key", "value");
    let t = storage.create_text("text");
    let c = storage.create_comment("comment");
    let p = storage.create_processing_instruction("target", Some("value"));
    let q = storage.create_processing_instruction("bare", None);

    assert!(connections.root_children(&storage).is_empty());
    assert_eq!(connections.element_parent(&storage, e), None);
    assert!(connections.element_children(&storage, e).is_empty());
    assert!(connections.attributes(&storage, e).is_empty());
    assert_eq!(storage.element(e).name().namespace_uri, Some("urn:ns"));
    assert_eq!(storage.element(e).name().local_part, "name");
    assert_eq!(storage.element(e).preferred_prefix(), None);
    assert_eq!(connections.element_namespace_uri_for_prefix(&storage, e, "any"), None);

    assert_eq!(connections.attribute_parent(&storage, a), None);
    assert_eq!(storage.attribute(a).name().namespace_uri, None);
    assert_eq!(storage.attribute(a).name().local_part, "key");
    assert_eq!(storage.attribute(a).value(), "value");
    assert_eq!(storage.attribute(a).preferred_prefix(), None);

    assert_eq!(connections.text_parent(&storage, t), None);
    assert_eq!(storage.text(t).text(), "text");
    assert_eq!(connections.comment_parent(&storage, c), None);
    assert_eq!(storage.comment(c).text(), "comment");
    assert_eq!(connections.processing_instruction_parent(&storage, p), None);
    assert_eq!(storage.processing_instruction(p).target(), "target");
    assert_eq!(storage.processing_instruction(p).value(), Some("value"));
    assert_eq!(storage.processing_instruction(q).target(), "bare");
    assert_eq!(storage.processing_instruction(q).value(), None);
}

#[test]
fn handles_count_up_from_zero_by_kind() {
    let mut storage = Storage::new();
    assert_eq!(storage.create_root(), RootHandle(0));
    assert_eq!(storage.create_root(), RootHandle(1));
    assert_eq!(storage.create_element("a"), ElementHandle(0));
    assert_eq!(storage.create_element("b"), ElementHandle(1));
    assert_eq!(storage.create_attribute("a", "1"), AttributeHandle(0));
    assert_eq!(storage.create_attribute("b", "2"), AttributeHandle(1));
    assert_eq!(storage.create_text("a"), TextHandle(0));
    assert_eq!(storage.create_text("b"), TextHandle(1));
    assert_eq!(storage.create_comment("a"), CommentHandle(0));
    assert_eq!(storage.create_comment("b"), CommentHandle(1));
    assert_eq!(storage.create_processing_instruction("a", None), ProcessingInstructionHandle(0));
    assert_eq!(storage.create_processing_instruction("b", None), ProcessingInstructionHandle(1));
    assert_eq!(storage.element(ElementHandle(0)).name().local_part, "a");
    assert_eq!(storage.element(ElementHandle(1)).name().local_part, "b");
}

#[test]
fn setters_replace_scalar_fields_only() {
    let mut storage = Storage::new();
    let root = storage.create_root();
    let connections = Connections::new(root);
    let e = storage.create_element("old");
    let child = storage.create_text("before");
    let a = storage.create_attribute("key", "value");
    let c = storage.create_comment("first");
    let p = storage.create_processing_instruction("t1", Some("v1"));
    connections.append_root_child(&mut storage, e);
    connections.append_element_child(&mut storage, e, child);
    connections.set_attribute(&mut storage, e, a);

    storage.element_set_name(e, QName::with_namespace_uri(Some("urn:new"), "new"));
    storage.element_set_preferred_prefix(e, Some("n"));
    storage.attribute_set_preferred_prefix(a, Some("k"));
    storage.text_set_text(child, "after");
    storage.comment_set_text(c, "second");
    storage.processing_instruction_set_target(p, "t2");
    storage.processing_instruction_set_value(p, None);

    assert_eq!(storage.element(e).name().namespace_uri, Some("urn:new"));
    assert_eq!(storage.element(e).name().local_part, "new");
    assert_eq!(storage.element(e).preferred_prefix(), Some("n"));
    assert_eq!(storage.attribute(a).preferred_prefix(), Some("k"));
    assert_eq!(storage.attribute(a).value(), "value");
    assert_eq!(storage.text(child).text(), "after");
    assert_eq!(storage.comment(c).text(), "second");
    assert_eq!(storage.processing_instruction(p).target(), "t2");
    assert_eq!(storage.processing_instruction(p).value(), None);
    assert_eq!(connections.element_children(&storage, e).len(), 1);
    assert_eq!(connections.attributes(&storage, e), &[a][..]);
    assert_eq!(connections.text_parent(&storage, child), Some(e));

    storage.element_set_preferred_prefix(e, None);
    storage.attribute_set_preferred_prefix(a, None);
    storage.processing_instruction_set_value(p, Some("v2"));
    assert_eq!(storage.element(e).preferred_prefix(), None);
    assert_eq!(storage.attribute(a).preferred_prefix(), None);
    assert_eq!(storage.processing_instruction(p).value(), Some("v2"));
}

#[test]
fn equal_text_is_equal_however_it_was_built() {
    let mut storage = Storage::new();
    let root = storage.create_root();
    let connections = Connections::new(root);
    let e = storage.create_element("e");
    let built: String = ["na", "me"].concat();
    let a = storage.create_attribute(built.as_str(), "1");
    connections.set_attribute(&mut storage, e, a);

    assert_eq!(connections.attribute(&storage, e, "name"), Some(a));
    assert_eq!(connections.attribute(&storage, e, "nam"), None);
    assert_eq!(connections.attribute(&storage, e, "names"), None);
    assert_eq!(storage.attribute(a).name().local_part, "name");
}

#[test]
fn names_are_equal_when_both_parts_are() {
    let plain = QName::new("a");
    let spaced = QName::with_namespace_uri(Some("urn:x"), "a");
    assert!(plain.same_as(&QName::new("a")));
    assert!(spaced.same_as(&QName::with_namespace_uri(Some("urn:x"), "a")));
    assert!(!plain.same_as(&spaced));
    assert!(!spaced.same_as(&plain));
    assert!(!plain.same_as(&QName::new("b")));
    assert!(!spaced.same_as(&QName::with_namespace_uri(Some("urn:y"), "a")));
    assert!(!spaced.same_as(&QName::with_namespace_uri(Some("urn:x"), "b")));
    assert_eq!(plain.namespace_uri, None);
    assert_eq!(spaced.namespace_uri, Some("urn:x"));
}

#[test]
fn a_renamed_element_keeps_its_attributes() {
    let mut storage = Storage::new();
    let root = storage.create_root();
    let connections = Connections::new(root);
    let e = storage.create_element("x");
    let a = storage.create_attribute("x", "1");
    connections.set_attribute(&mut storage, e, a);

    storage.element_set_name(e, "y");

    assert_eq!(storage.element(e).name().local_part, "y");
    assert_eq!(connections.attribute(&storage, e, "x"), Some(a));
    assert_eq!(storage.root(root).children().len(), 0);
}
