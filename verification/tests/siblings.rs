use xml_node_graph::{ChildOfElement, ChildOfRoot, Connections, SiblingIter, Storage};

fn collect(mut iter: SiblingIter<'_>) -> Vec<ChildOfElement> {
    let mut out = Vec::new();
    while let Some(sibling) = iter.next() {
        out.push(sibling);
    }
    assert_eq!(iter.next(), None);
    out
}

#[test]
fn siblings_come_in_document_order() {
    let mut storage = Storage::new();
    let root = storage.create_root();
    let connections = Connections::new(root);
    let e = storage.create_element("e");
    let c1 = storage.create_element("c1");
    let c2 = storage.create_element("c2");
    let c3 = storage.create_element("c3");
    let c4 = storage.create_element("c4");
    connections.append_element_child(&mut storage, e, c1);
    connections.append_element_child(&mut storage, e, c2);
    connections.append_element_child(&mut storage, e, c3);
    connections.append_element_child(&mut storage, e, c4);

    assert_eq!(
        collect(connections.element_preceding_siblings(&storage, c3)),
        vec![ChildOfElement::Element(c1), ChildOfElement::Element(c2)]
    );
    assert_eq!(
        collect(connections.element_following_siblings(&storage, c3)),
        vec![ChildOfElement::Element(c4)]
    );
}

#[test]
fn a_node_without_a_parent_has_no_siblings() {
    let mut storage = Storage::new();
    let root = storage.create_root();
    let connections = Connections::new(root);
    let e = storage.create_element("e");
    let t = storage.create_text("t");
    let c = storage.create_comment("c");
    let p = storage.create_processing_instruction("p", None);

    assert!(collect(connections.element_preceding_siblings(&storage, e)).is_empty());
    assert!(collect(connections.element_following_siblings(&storage, e)).is_empty());
    assert!(collect(connections.text_preceding_siblings(&storage, t)).is_empty());
    assert!(collect(connections.text_following_siblings(&storage, t)).is_empty());
    assert!(collect(connections.comment_preceding_siblings(&storage, c)).is_empty());
    assert!(collect(connections.comment_following_siblings(&storage, c)).is_empty());
    assert!(collect(connections.processing_instruction_preceding_siblings(&storage, p)).is_empty());
    assert!(collect(connections.processing_instruction_following_siblings(&storage, p)).is_empty());
}

#[test]
fn an_only_child_has_no_siblings() {
    let mut storage = Storage::new();
    let root = storage.create_root();
    let connections = Connections::new(root);
    let e = storage.create_element("e");
    let t = storage.create_text("t");
    connections.append_element_child(&mut storage, e, t);

    assert!(collect(connections.text_preceding_siblings(&storage, t)).is_empty());
    assert!(collect(connections.text_following_siblings(&storage, t)).is_empty());
}

#[test]
fn siblings_of_every_kind_under_an_element() {
    let mut storage = Storage::new();
    let root = storage.create_root();
    let connections = Connections::new(root);
    let parent = storage.create_element("parent");
    let e = storage.create_element("e");
    let t = storage.create_text("t");
    let c = storage.create_comment("c");
    let p = storage.create_processing_instruction("p", None);
    connections.append_element_child(&mut storage, parent, e);
    connections.append_element_child(&mut storage, parent, t);
    connections.append_element_child(&mut storage, parent, ChildOfElement::Comment(c));
    connections.append_element_child(&mut storage, parent,
        ChildOfElement::ProcessingInstruction(p));
    let all = vec![
        ChildOfElement::Element(e),
        ChildOfElement::Text(t),
        ChildOfElement::Comment(c),
        ChildOfElement::ProcessingInstruction(p),
    ];

    assert_eq!(collect(connections.element_preceding_siblings(&storage, e)), all[..0].to_vec());
    assert_eq!(collect(connections.element_following_siblings(&storage, e)), all[1..].to_vec());
    assert_eq!(collect(connections.text_preceding_siblings(&storage, t)), all[..1].to_vec());
    assert_eq!(collect(connections.text_following_siblings(&storage, t)), all[2..].to_vec());
    assert_eq!(collect(connections.comment_preceding_siblings(&storage, c)), all[..2].to_vec());
    assert_eq!(collect(connections.comment_following_siblings(&storage, c)), all[3..].to_vec());
    assert_eq!(
        collect(connections.processing_instruction_preceding_siblings(&storage, p)),
        all[..3].to_vec()
    );
    assert_eq!(
        collect(connections.processing_instruction_following_siblings(&storage, p)),
        all[4..].to_vec()
    );
}

#[test]
fn siblings_under_a_root_are_widened() {
    let mut storage = Storage::new();
    let root = storage.create_root();
    let connections = Connections::new(root);
    let c = storage.create_comment("c");
    let e = storage.create_element("e");
    let p = storage.create_processing_instruction("p", None);
    connections.append_root_child(&mut storage, ChildOfRoot::Comment(c));
    connections.append_root_child(&mut storage, e);
    connections.append_root_child(&mut storage, ChildOfRoot::ProcessingInstruction(p));

    assert_eq!(
        collect(connections.element_preceding_siblings(&storage, e)),
        vec![ChildOfElement::Comment(c)]
    );
    assert_eq!(
        collect(connections.element_following_siblings(&storage, e)),
        vec![ChildOfElement::ProcessingInstruction(p)]
    );
    assert!(collect(connections.comment_preceding_siblings(&storage, c)).is_empty());
    assert_eq!(
        collect(connections.comment_following_siblings(&storage, c)),
        vec![ChildOfElement::Element(e), ChildOfElement::ProcessingInstruction(p)]
    );
    assert_eq!(
        collect(connections.processing_instruction_preceding_siblings(&storage, p)),
        vec![ChildOfElement::Comment(c), ChildOfElement::Element(e)]
    );
    assert!(collect(connections.processing_instruction_following_siblings(&storage, p)).is_empty());
}

#[test]
fn siblings_and_the_node_make_up_the_children() {
    let mut storage = Storage::new();
    let root = storage.create_root();
    let connections = Connections::new(root);
    let parent = storage.create_element("parent");
    let mut texts = Vec::new();
    for content in ["a", "b", "c", "d", "e"] {
        let t = storage.create_text(content);
        connections.append_element_child(&mut storage, parent, t);
        texts.push(t);
    }

    for t in texts {
        let mut joined = collect(connections.text_preceding_siblings(&storage, t));
        joined.push(ChildOfElement::Text(t));
        joined.extend(collect(connections.text_following_siblings(&storage, t)));
        assert_eq!(joined.as_slice(), connections.element_children(&storage, parent));
    }
}

#[test]
fn appending_again_puts_all_siblings_before_the_node() {
    let mut storage = Storage::new();
    let root = storage.create_root();
    let connections = Connections::new(root);
    let parent = storage.create_element("parent");
    let a = storage.create_text("a");
    let b = storage.create_text("b");
    let c = storage.create_text("c");
    connections.append_element_child(&mut storage, parent, a);
    connections.append_element_child(&mut storage, parent, b);
    connections.append_element_child(&mut storage, parent, c);
    assert_eq!(collect(connections.text_preceding_siblings(&storage, b)),
        vec![ChildOfElement::Text(a)]);
    assert_eq!(collect(connections.text_following_siblings(&storage, b)),
        vec![ChildOfElement::Text(c)]);

    connections.append_element_child(&mut storage, parent, b);

    assert_eq!(
        collect(connections.text_preceding_siblings(&storage, b)),
        vec![ChildOfElement::Text(a), ChildOfElement::Text(c)]
    );
    assert!(collect(connections.text_following_siblings(&storage, b)).is_empty());
    assert!(collect(connections.text_preceding_siblings(&storage, a)).is_empty());
}
