use xml_node_graph::{
    ChildOfElement, ChildOfRoot, Connections, ParentOfChild, QName, Storage,
};

#[test]
fn setting_an_attribute_replaces_the_one_of_the_same_name() {
    let mut storage = Storage::new();
    let root = storage.create_root();
    let connections = Connections::new(root);
    let e = storage.create_element(QName::new("a"));
    let a1 = storage.create_attribute(QName::new("x"), "1");
    let a2 = storage.create_attribute(QName::new("x"), "2");

    connections.set_attribute(&mut storage, e, a1);
    connections.set_attribute(&mut storage, e, a2);

    let attributes = connections.attributes(&storage, e);
    assert_eq!(attributes.len(), 1);
    assert_eq!(attributes[0], a2);
    assert_eq!(storage.attribute(attributes[0]).value(), "2");
    assert_eq!(connections.attribute_parent(&storage, a1), None);
    assert_eq!(connections.attribute_parent(&storage, a2), Some(e));
}

#[test]
fn a_second_element_displaces_the_first_from_the_root() {
    let mut storage = Storage::new();
    let root = storage.create_root();
    let connections = Connections::new(root);
    let e1 = storage.create_element("one");
    let e2 = storage.create_element("two");

    connections.append_root_child(&mut storage, e1);
    connections.append_root_child(&mut storage, e2);

    assert_eq!(connections.root_children(&storage), &[ChildOfRoot::Element(e2)][..]);
    assert_eq!(connections.element_parent(&storage, e1), None);
    assert_eq!(connections.element_parent(&storage, e2), Some(ParentOfChild::Root(root)));
}

#[test]
fn the_root_keeps_its_other_children_when_an_element_is_displaced() {
    let mut storage = Storage::new();
    let root = storage.create_root();
    let connections = Connections::new(root);
    let c = storage.create_comment("note");
    let e1 = storage.create_element("one");
    let e2 = storage.create_element("two");

    connections.append_root_child(&mut storage, ChildOfRoot::Comment(c));
    connections.append_root_child(&mut storage, e1);
    connections.append_root_child(&mut storage, e2);

    assert_eq!(
        connections.root_children(&storage),
        &[ChildOfRoot::Comment(c), ChildOfRoot::Element(e2)][..]
    );
    assert_eq!(connections.element_parent(&storage, e1), None);
    assert_eq!(connections.comment_parent(&storage, c), Some(ParentOfChild::Root(root)));
}

#[test]
fn comments_and_processing_instructions_do_not_displace() {
    let mut storage = Storage::new();
    let root = storage.create_root();
    let connections = Connections::new(root);
    let e = storage.create_element("doc");
    let c1 = storage.create_comment("one");
    let c2 = storage.create_comment("two");
    let p1 = storage.create_processing_instruction("style", Some("a"));
    let p2 = storage.create_processing_instruction("style", None);

    connections.append_root_child(&mut storage, ChildOfRoot::Comment(c1));
    connections.append_root_child(&mut storage, e);
    connections.append_root_child(&mut storage, ChildOfRoot::ProcessingInstruction(p1));
    connections.append_root_child(&mut storage, ChildOfRoot::Comment(c2));
    connections.append_root_child(&mut storage, ChildOfRoot::ProcessingInstruction(p2));

    assert_eq!(
        connections.root_children(&storage),
        &[
            ChildOfRoot::Comment(c1),
            ChildOfRoot::Element(e),
            ChildOfRoot::ProcessingInstruction(p1),
            ChildOfRoot::Comment(c2),
            ChildOfRoot::ProcessingInstruction(p2),
        ][..]
    );
    assert_eq!(
        connections.processing_instruction_parent(&storage, p2),
        Some(ParentOfChild::Root(root))
    );
}

#[test]
fn appending_to_an_element_keeps_the_order_of_appends() {
    let mut storage = Storage::new();
    let root = storage.create_root();
    let connections = Connections::new(root);
    let parent = storage.create_element("parent");
    let e = storage.create_element("child");
    let t = storage.create_text("text");
    let c = storage.create_comment("comment");
    let p = storage.create_processing_instruction("target", Some("value"));

    connections.append_element_child(&mut storage, parent, e);
    connections.append_element_child(&mut storage, parent, t);
    connections.append_element_child(&mut storage, parent, ChildOfElement::Comment(c));
    connections.append_element_child(&mut storage, parent,
        ChildOfElement::ProcessingInstruction(p));

    assert_eq!(
        connections.element_children(&storage, parent),
        &[
            ChildOfElement::Element(e),
            ChildOfElement::Text(t),
            ChildOfElement::Comment(c),
            ChildOfElement::ProcessingInstruction(p),
        ][..]
    );
    assert_eq!(connections.element_parent(&storage, e), Some(ParentOfChild::Element(parent)));
    assert_eq!(connections.text_parent(&storage, t), Some(parent));
    assert_eq!(connections.comment_parent(&storage, c), Some(ParentOfChild::Element(parent)));
    assert_eq!(
        connections.processing_instruction_parent(&storage, p),
        Some(ParentOfChild::Element(parent))
    );
}

#[test]
fn a_child_moved_to_another_element_leaves_the_first() {
    let mut storage = Storage::new();
    let root = storage.create_root();
    let connections = Connections::new(root);
    let first = storage.create_element("first");
    let second = storage.create_element("second");
    let a = storage.create_text("a");
    let b = storage.create_text("b");
    let c = storage.create_text("c");
    connections.append_element_child(&mut storage, first, a);
    connections.append_element_child(&mut storage, first, b);
    connections.append_element_child(&mut storage, first, c);

    connections.append_element_child(&mut storage, second, b);

    assert_eq!(
        connections.element_children(&storage, first),
        &[ChildOfElement::Text(a), ChildOfElement::Text(c)][..]
    );
    assert_eq!(connections.element_children(&storage, second), &[ChildOfElement::Text(b)][..]);
    assert_eq!(connections.text_parent(&storage, b), Some(second));
}

#[test]
fn a_child_moves_between_a_root_and_an_element() {
    let mut storage = Storage::new();
    let root = storage.create_root();
    let connections = Connections::new(root);
    let e = storage.create_element("e");
    let c = storage.create_comment("c");
    connections.append_root_child(&mut storage, e);
    connections.append_root_child(&mut storage, ChildOfRoot::Comment(c));

    connections.append_element_child(&mut storage, e, ChildOfElement::Comment(c));
    assert_eq!(connections.root_children(&storage), &[ChildOfRoot::Element(e)][..]);
    assert_eq!(connections.element_children(&storage, e), &[ChildOfElement::Comment(c)][..]);
    assert_eq!(connections.comment_parent(&storage, c), Some(ParentOfChild::Element(e)));

    connections.append_root_child(&mut storage, ChildOfRoot::Comment(c));
    assert_eq!(
        connections.root_children(&storage),
        &[ChildOfRoot::Element(e), ChildOfRoot::Comment(c)][..]
    );
    assert!(connections.element_children(&storage, e).is_empty());
    assert_eq!(connections.comment_parent(&storage, c), Some(ParentOfChild::Root(root)));
}

#[test]
fn a_child_moves_from_one_root_to_another() {
    let mut storage = Storage::new();
    let first = storage.create_root();
    let second = storage.create_root();
    let e = storage.create_element("e");
    Connections::new(first).append_root_child(&mut storage, e);

    Connections::new(second).append_root_child(&mut storage, e);

    assert!(Connections::new(first).root_children(&storage).is_empty());
    assert_eq!(Connections::new(second).root_children(&storage), &[ChildOfRoot::Element(e)][..]);
    assert_eq!(
        Connections::new(second).element_parent(&storage, e),
        Some(ParentOfChild::Root(second))
    );
    assert_eq!(Connections::new(second).root(), second);
}

#[test]
fn appending_a_child_again_moves_it_to_the_end() {
    let mut storage = Storage::new();
    let root = storage.create_root();
    let connections = Connections::new(root);
    let parent = storage.create_element("parent");
    let a = storage.create_text("a");
    let b = storage.create_text("b");
    let c = storage.create_text("c");
    connections.append_element_child(&mut storage, parent, a);
    connections.append_element_child(&mut storage, parent, b);
    connections.append_element_child(&mut storage, parent, c);

    connections.append_element_child(&mut storage, parent, a);

    assert_eq!(
        connections.element_children(&storage, parent),
        &[ChildOfElement::Text(b), ChildOfElement::Text(c), ChildOfElement::Text(a)][..]
    );
    assert_eq!(connections.text_parent(&storage, a), Some(parent));
}

#[test]
fn appending_the_root_element_again_keeps_it_and_moves_it_to_the_end() {
    let mut storage = Storage::new();
    let root = storage.create_root();
    let connections = Connections::new(root);
    let e = storage.create_element("e");
    let c = storage.create_comment("c");
    connections.append_root_child(&mut storage, e);
    connections.append_root_child(&mut storage, ChildOfRoot::Comment(c));

    connections.append_root_child(&mut storage, e);

    assert_eq!(
        connections.root_children(&storage),
        &[ChildOfRoot::Comment(c), ChildOfRoot::Element(e)][..]
    );
    assert_eq!(connections.element_parent(&storage, e), Some(ParentOfChild::Root(root)));
}

#[test]
fn an_element_is_not_appended_to_its_own_descendant() {
    let mut storage = Storage::new();
    let root = storage.create_root();
    let connections = Connections::new(root);
    let outer = storage.create_element("outer");
    let middle = storage.create_element("middle");
    let inner = storage.create_element("inner");
    connections.append_element_child(&mut storage, outer, middle);
    connections.append_element_child(&mut storage, middle, inner);

    connections.append_element_child(&mut storage, inner, outer);
    connections.append_element_child(&mut storage, inner, inner);

    assert_eq!(connections.element_parent(&storage, outer), None);
    assert_eq!(connections.element_parent(&storage, inner), Some(ParentOfChild::Element(middle)));
    assert_eq!(connections.element_children(&storage, outer),
        &[ChildOfElement::Element(middle)][..]);
    assert!(connections.element_children(&storage, inner).is_empty());
    assert!(storage.is_ancestor_or_self(outer, inner));
    assert!(storage.is_ancestor_or_self(inner, inner));
    assert!(!storage.is_ancestor_or_self(inner, outer));
}

#[test]
fn every_list_entry_has_the_owner_of_the_list_as_parent() {
    let mut storage = Storage::new();
    let root = storage.create_root();
    let connections = Connections::new(root);
    let top = storage.create_element("top");
    let left = storage.create_element("left");
    let right = storage.create_element("right");
    let t = storage.create_text("t");
    let a = storage.create_attribute("k", "v");
    connections.append_root_child(&mut storage, top);
    connections.append_element_child(&mut storage, top, left);
    connections.append_element_child(&mut storage, top, right);
    connections.append_element_child(&mut storage, left, t);
    connections.append_element_child(&mut storage, right, t);
    connections.set_attribute(&mut storage, left, a);
    connections.set_attribute(&mut storage, right, a);

    let in_left = connections.element_children(&storage, left).iter().filter(|c| **c ==
        ChildOfElement::Text(t)).count();
    let in_right = connections.element_children(&storage, right).iter().filter(|c| **c ==
        ChildOfElement::Text(t)).count();
    assert_eq!(in_left, 0);
    assert_eq!(in_right, 1);
    assert_eq!(connections.text_parent(&storage, t), Some(right));
    for child in connections.element_children(&storage, top) {
        match child {
            ChildOfElement::Element(e) => assert_eq!(
                connections.element_parent(&storage, *e),
                Some(ParentOfChild::Element(top))
            ),
            _ => unreachable!(),
        }
    }
    assert!(connections.attributes(&storage, left).is_empty());
    assert_eq!(connections.attributes(&storage, right), &[a][..]);
    assert_eq!(connections.attribute_parent(&storage, a), Some(right));
}

#[test]
fn the_root_never_holds_two_elements() {
    let mut storage = Storage::new();
    let root = storage.create_root();
    let connections = Connections::new(root);
    let mut last = None;
    for name in ["a", "b", "c", "d"] {
        let e = storage.create_element(name);
        connections.append_root_child(&mut storage, e);
        last = Some(e);
        let elements = connections.root_children(&storage).iter().filter(|c| matches!(c,
            ChildOfRoot::Element(_))).count();
        assert_eq!(elements, 1);
    }
    assert_eq!(connections.root_children(&storage), &[ChildOfRoot::Element(last.unwrap())][..]);
}

#[test]
fn attributes_of_an_element_have_distinct_names() {
    let mut storage = Storage::new();
    let root = storage.create_root();
    let connections = Connections::new(root);
    let e = storage.create_element("e");
    let plain = storage.create_attribute("id", "1");
    let spaced = storage.create_attribute(QName::with_namespace_uri(Some("urn:x"), "id"), "2");
    let other = storage.create_attribute("class", "3");
    let again = storage.create_attribute("id", "4");

    connections.set_attribute(&mut storage, e, plain);
    connections.set_attribute(&mut storage, e, spaced);
    connections.set_attribute(&mut storage, e, other);
    connections.set_attribute(&mut storage, e, again);

    assert_eq!(connections.attributes(&storage, e), &[spaced, other, again][..]);
    assert_eq!(connections.attribute_parent(&storage, plain), None);
    assert_eq!(connections.attribute(&storage, e, "id"), Some(again));
    assert_eq!(
        connections.attribute(&storage, e, QName::with_namespace_uri(Some("urn:x"), "id")),
        Some(spaced)
    );
    assert_eq!(connections.attribute(&storage, e, "class"), Some(other));
    assert_eq!(connections.attribute(&storage, e, "missing"), None);
    assert_eq!(
        connections.attribute(&storage, e, QName::with_namespace_uri(Some("urn:y"), "id")),
        None
    );
}

#[test]
fn setting_an_attribute_again_keeps_one_entry() {
    let mut storage = Storage::new();
    let root = storage.create_root();
    let connections = Connections::new(root);
    let e = storage.create_element("e");
    let a = storage.create_attribute("a", "1");
    let b = storage.create_attribute("b", "2");
    connections.set_attribute(&mut storage, e, a);
    connections.set_attribute(&mut storage, e, b);

    connections.set_attribute(&mut storage, e, a);

    assert_eq!(connections.attributes(&storage, e), &[b, a][..]);
    assert_eq!(connections.attribute_parent(&storage, a), Some(e));
}

#[test]
fn an_attribute_set_on_another_element_leaves_the_first() {
    let mut storage = Storage::new();
    let root = storage.create_root();
    let connections = Connections::new(root);
    let first = storage.create_element("first");
    let second = storage.create_element("second");
    let a = storage.create_attribute("a", "1");
    connections.set_attribute(&mut storage, first, a);

    connections.set_attribute(&mut storage, second, a);

    assert!(connections.attributes(&storage, first).is_empty());
    assert_eq!(connections.attributes(&storage, second), &[a][..]);
    assert_eq!(connections.attribute_parent(&storage, a), Some(second));
    assert_eq!(connections.attribute(&storage, first, "a"), None);
}
