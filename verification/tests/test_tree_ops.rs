use xml_doc::{Document, Element, Error, Node};

fn element_count(nodes: &Vec<Node>, element: Element) -> usize {
    nodes
        .iter()
        .filter(|node| node.as_element() == Some(element))
        .count()
}

// Every element has no parent and is nobody's child, or stands exactly once among the
// children of its parent and nowhere else.
fn check_shape(doc: &Document, all: &[Element]) {
    for &element in all {
        let places: usize = all
            .iter()
            .map(|&other| element_count(other.children(doc), element))
            .sum();
        match element.parent(doc) {
            None => assert_eq!(places, 0),
            Some(parent) => {
                assert_eq!(places, 1);
                assert_eq!(element_count(parent.children(doc), element), 1);
            }
        }
    }
}

#[test]
fn forbidden_reattachment() {
    let mut doc = Document::new();
    let left = Element::new(&mut doc, "left");
    let right = Element::new(&mut doc, "right");
    let a = Element::new(&mut doc, "a");
    a.push_to(&mut doc, left).unwrap();
    let second = a.push_to(&mut doc, right);
    assert!(matches!(second, Err(Error::HasAParent)));
    assert_eq!(a.parent(&doc), Some(left));
    assert_eq!(right.children(&doc).len(), 0);
    a.detatch(&mut doc).unwrap();
    a.push_to(&mut doc, right).unwrap();
    assert_eq!(a.parent(&doc), Some(right));
    assert_eq!(element_count(left.children(&doc), a), 0);
    assert_eq!(element_count(right.children(&doc), a), 1);
}

#[test]
fn detach_twice_is_detach_once() {
    let mut doc = Document::new();
    let container = doc.container();
    let root = Element::build(&mut doc, "root").push_to(container);
    let free = Element::new(&mut doc, "free");
    assert!(free.detatch(&mut doc).is_ok());
    assert_eq!(free.parent(&doc), None);
    assert_eq!(doc.root_nodes().len(), 1);
    assert!(root.detatch(&mut doc).is_ok());
    assert_eq!(root.parent(&doc), None);
    assert_eq!(doc.root_nodes().len(), 0);
    assert!(root.detatch(&mut doc).is_ok());
    assert_eq!(root.parent(&doc), None);
    assert_eq!(doc.root_nodes().len(), 0);
}

#[test]
fn container_cannot_move() {
    let mut doc = Document::new();
    let container = doc.container();
    let a = Element::new(&mut doc, "a");
    assert!(container.is_container());
    assert!(!a.is_container());
    assert!(matches!(
        a.push_child(&mut doc, Node::Element(container)),
        Err(Error::ContainerCannotMove)
    ));
    assert!(matches!(
        a.insert_child(&mut doc, 0, container.as_node()),
        Err(Error::ContainerCannotMove)
    ));
    assert!(matches!(
        container.push_to(&mut doc, a),
        Err(Error::ContainerCannotMove)
    ));
    assert!(matches!(
        container.detatch(&mut doc),
        Err(Error::ContainerCannotMove)
    ));
    assert!(matches!(
        doc.push_root_node(Node::Element(container)),
        Err(Error::ContainerCannotMove)
    ));
    assert_eq!(a.children(&doc).len(), 0);
    assert_eq!(container.parent(&doc), None);
}

#[test]
fn remove_child_elem_not_found() {
    let mut doc = Document::new();
    let a = Element::new(&mut doc, "a");
    let b = Element::new(&mut doc, "b");
    let c = Element::new(&mut doc, "c");
    b.push_to(&mut doc, a).unwrap();
    assert!(matches!(
        a.remove_child_elem(&mut doc, c),
        Err(Error::NotFound)
    ));
    assert!(matches!(
        b.remove_child_elem(&mut doc, a),
        Err(Error::NotFound)
    ));
    assert_eq!(a.children(&doc).len(), 1);
    assert_eq!(b.parent(&doc), Some(a));
}

#[test]
fn remove_child_elem_behind_text() {
    let mut doc = Document::new();
    let a = Element::new(&mut doc, "a");
    let b = Element::new(&mut doc, "b");
    a.push_child(&mut doc, Node::Text("one".to_string())).unwrap();
    a.push_child(&mut doc, Node::Comment("two".to_string())).unwrap();
    b.push_to(&mut doc, a).unwrap();
    a.push_child(&mut doc, Node::Text("three".to_string())).unwrap();
    a.remove_child_elem(&mut doc, b).unwrap();
    assert_eq!(b.parent(&doc), None);
    assert_eq!(a.children(&doc).len(), 3);
    assert!(matches!(&a.children(&doc)[0], Node::Text(text) if text == "one"));
    assert!(matches!(&a.children(&doc)[1], Node::Comment(text) if text == "two"));
    assert!(matches!(&a.children(&doc)[2], Node::Text(text) if text == "three"));
}

#[test]
fn insert_child_at_each_position() {
    let mut doc = Document::new();
    let a = Element::new(&mut doc, "a");
    let first = Element::new(&mut doc, "first");
    let middle = Element::new(&mut doc, "middle");
    let last = Element::new(&mut doc, "last");
    a.insert_child(&mut doc, 0, Node::Element(last)).unwrap();
    a.insert_child(&mut doc, 0, Node::Element(first)).unwrap();
    a.insert_child(&mut doc, 1, Node::Element(middle)).unwrap();
    a.insert_child(&mut doc, 3, Node::Text("end".to_string())).unwrap();
    assert_eq!(a.child_elements(&doc), vec![first, middle, last]);
    assert_eq!(a.children(&doc).len(), 4);
    assert!(matches!(&a.children(&doc)[3], Node::Text(text) if text == "end"));
    assert_eq!(middle.parent(&doc), Some(a));
    assert!(matches!(
        a.insert_child(&mut doc, 0, Node::Element(middle)),
        Err(Error::HasAParent)
    ));
    assert_eq!(a.children(&doc).len(), 4);
}

#[test]
fn remove_child_returns_the_node() {
    let mut doc = Document::new();
    let a = Element::new(&mut doc, "a");
    let b = Element::new(&mut doc, "b");
    a.push_child(&mut doc, Node::Text("t".to_string())).unwrap();
    b.push_to(&mut doc, a).unwrap();
    let node = a.remove_child(&mut doc, 1);
    assert_eq!(node.as_element(), Some(b));
    assert_eq!(b.parent(&doc), None);
    let node = a.remove_child(&mut doc, 0);
    assert!(matches!(node, Node::Text(text) if text == "t"));
    assert!(!a.has_children(&doc));
    assert!(a.pop_child(&mut doc).is_none());
}

#[test]
fn clear_children_detaches_all() {
    let mut doc = Document::new();
    let a = Element::new(&mut doc, "a");
    let b = Element::new(&mut doc, "b");
    let c = Element::new(&mut doc, "c");
    let d = Element::new(&mut doc, "d");
    b.push_to(&mut doc, a).unwrap();
    a.push_child(&mut doc, Node::Text("t".to_string())).unwrap();
    c.push_to(&mut doc, a).unwrap();
    d.push_to(&mut doc, c).unwrap();
    a.clear_children(&mut doc);
    assert_eq!(a.children(&doc).len(), 0);
    assert_eq!(b.parent(&doc), None);
    assert_eq!(c.parent(&doc), None);
    assert_eq!(d.parent(&doc), Some(c));
    a.clear_children(&mut doc);
    assert_eq!(a.children(&doc).len(), 0);
}

#[test]
fn set_text_content_replaces_children() {
    let mut doc = Document::new();
    let a = Element::new(&mut doc, "a");
    let b = Element::new(&mut doc, "b");
    b.push_to(&mut doc, a).unwrap();
    a.push_child(&mut doc, Node::Comment("c".to_string())).unwrap();
    a.set_text_content(&mut doc, "new");
    assert_eq!(a.children(&doc).len(), 1);
    assert!(matches!(&a.children(&doc)[0], Node::Text(text) if text == "new"));
    assert_eq!(b.parent(&doc), None);
    assert_eq!(a.text_content(&doc), "new");
}

#[test]
fn parent_invariant_under_churn() {
    let mut doc = Document::new();
    let container = doc.container();
    let mut all = vec![container];
    for name in ["a", "b", "c", "d", "e", "f"] {
        all.push(Element::new(&mut doc, name));
        check_shape(&doc, &all);
    }
    let (a, b, c, d, e, f) = (all[1], all[2], all[3], all[4], all[5], all[6]);
    a.push_to(&mut doc, container).unwrap();
    check_shape(&doc, &all);
    b.push_to(&mut doc, a).unwrap();
    check_shape(&doc, &all);
    a.insert_child(&mut doc, 0, Node::Element(c)).unwrap();
    check_shape(&doc, &all);
    a.insert_child(&mut doc, 1, Node::Text("text".to_string())).unwrap();
    check_shape(&doc, &all);
    assert!(b.push_to(&mut doc, c).is_err());
    check_shape(&doc, &all);
    d.push_to(&mut doc, b).unwrap();
    e.push_to(&mut doc, b).unwrap();
    f.push_to(&mut doc, e).unwrap();
    check_shape(&doc, &all);
    b.detatch(&mut doc).unwrap();
    check_shape(&doc, &all);
    b.push_to(&mut doc, c).unwrap();
    check_shape(&doc, &all);
    b.remove_child_elem(&mut doc, d).unwrap();
    check_shape(&doc, &all);
    a.remove_child(&mut doc, 1);
    check_shape(&doc, &all);
    a.pop_child(&mut doc);
    check_shape(&doc, &all);
    assert!(container.detatch(&mut doc).is_err());
    check_shape(&doc, &all);
    b.clear_children(&mut doc);
    check_shape(&doc, &all);
    e.set_text_content(&mut doc, "e");
    check_shape(&doc, &all);
    a.clear_children(&mut doc);
    check_shape(&doc, &all);
    assert_eq!(a.parent(&doc), Some(container));
    assert_eq!(b.parent(&doc), Some(c));
    for other in [c, d, e, f] {
        assert_eq!(other.parent(&doc), None);
    }
}

#[test]
fn element_in_its_own_children() {
    let mut doc = Document::new();
    let a = Element::new(&mut doc, "a");
    let b = Element::new(&mut doc, "b");
    b.push_to(&mut doc, a).unwrap();
    a.push_to(&mut doc, b).unwrap();
    a.push_child(&mut doc, Node::Text("t".to_string())).unwrap();
    assert_eq!(a.parent(&doc), Some(b));
    assert_eq!(b.parent(&doc), Some(a));
    check_shape(&doc, &[doc.container(), a, b]);
    // The walks end although the elements lie in a ring.
    assert_eq!(a.namespace_for_prefix(&doc, "p"), None);
    assert!(a.text_content(&doc).starts_with('t'));
    assert!(a.children_recursive(&doc).len() >= 3);
    b.set_namespace_decl(&mut doc, "p", "ns");
    assert_eq!(a.namespace_for_prefix(&doc, "p"), Some("ns"));
}

#[test]
fn new_document_is_empty() {
    let mut doc = Document::new();
    assert!(doc.is_empty());
    assert_eq!(doc.root_element(), None);
    assert_eq!(doc.root_nodes().len(), 0);
    assert_eq!(doc.version(), "1.0");
    assert!(!doc.standalone());
    doc.push_root_node(Node::Text("t".to_string())).unwrap();
    assert!(doc.is_empty());
    assert_eq!(doc.root_element(), None);
    let a = Element::new(&mut doc, "a");
    assert!(!doc.is_empty());
    assert_eq!(doc.root_element(), None);
    doc.push_root_node(a.as_node()).unwrap();
    assert_eq!(doc.root_element(), Some(a));
    assert!(a.is_root(&doc));
    assert!(a.has_parent(&doc));
    let b = Element::build(&mut doc, "b").push_to(a);
    assert!(!b.is_root(&doc));
    assert!(!doc.container().is_root(&doc));
    assert!(!doc.container().has_parent(&doc));
    assert_eq!(doc.len(), 3);
}

#[test]
fn names_and_prefixes() {
    assert_eq!(Element::separate_prefix_name("p:name"), ("p", "name"));
    assert_eq!(Element::separate_prefix_name("name"), ("", "name"));
    assert_eq!(Element::separate_prefix_name("a:b:c"), ("a", "b:c"));
    assert_eq!(Element::separate_prefix_name(":x"), ("", "x"));
    assert_eq!(Element::separate_prefix_name("x:"), ("x", ""));
    assert_eq!(Element::separate_prefix_name(""), ("", ""));
    assert_eq!(Element::separate_prefix_name("é:ü"), ("é", "ü"));

    let mut doc = Document::new();
    let a = Element::new(&mut doc, "p:a");
    assert_eq!(a.full_name(&doc), "p:a");
    assert_eq!(a.prefix_name(&doc), ("p", "a"));
    a.set_name(&mut doc, "b");
    assert_eq!(a.full_name(&doc), "p:b");
    a.set_prefix(&mut doc, "q");
    assert_eq!(a.full_name(&doc), "q:b");
    a.set_full_name(&mut doc, "plain");
    assert_eq!(a.prefix(&doc), "");
    assert_eq!(a.name(&doc), "plain");
    a.set_name(&mut doc, "other");
    assert_eq!(a.full_name(&doc), "other");
    a.set_prefix(&mut doc, "r");
    assert_eq!(a.full_name(&doc), "r:other");
    a.set_prefix(&mut doc, "");
    assert_eq!(a.full_name(&doc), ":other");
}

#[test]
fn attributes_are_a_map() {
    let mut doc = Document::new();
    let a = Element::build(&mut doc, "a")
        .attribute("id", "1")
        .attribute("class", "c")
        .attribute("id", "2")
        .finish();
    assert_eq!(a.parent(&doc), None);
    assert_eq!(a.attribute(&doc, "id"), Some("2"));
    assert_eq!(a.attribute(&doc, "class"), Some("c"));
    assert_eq!(a.attribute(&doc, "none"), None);
    let attributes = a.attributes(&doc);
    assert_eq!(attributes.len(), 2);
    assert_eq!(attributes.key_at(0), "id");
    assert_eq!(attributes.value_at(0), "2");
    assert_eq!(attributes.key_at(1), "class");
    assert!(attributes.contains_key("class"));
    assert!(!attributes.contains_key("Class"));
    assert_eq!(attributes.position("class"), Some(1));

    let map = a.mut_attributes(&mut doc);
    assert_eq!(map.insert("x".to_string(), "y".to_string()), None);
    assert_eq!(map.insert("x".to_string(), "z".to_string()), Some("y".to_string()));
    assert_eq!(map.remove("id"), Some("2".to_string()));
    assert_eq!(map.remove("id"), None);
    assert_eq!(a.attribute(&doc, "x"), Some("z"));
    assert_eq!(a.attribute(&doc, "id"), None);
    assert_eq!(a.attributes(&doc).len(), 2);
    assert!(!a.attributes(&doc).is_empty());

    a.set_namespace_decl(&mut doc, "p", "ns");
    a.mut_namespace_decls(&mut doc).insert(String::new(), "default".to_string());
    assert_eq!(a.namespace_decls(&doc).get("p"), Some("ns"));
    assert_eq!(a.namespace_decls(&doc).get(""), Some("default"));
    assert_eq!(a.namespace_decls(&doc).len(), 2);
}

#[test]
fn nearest_namespace_declaration_wins() {
    let mut doc = Document::new();
    let container = doc.container();
    let outer = Element::build(&mut doc, "outer")
        .namespace_decl("p", "far")
        .namespace_decl("", "default")
        .namespace_decl("q", "only outer")
        .push_to(container);
    let inner = Element::build(&mut doc, "p:inner")
        .namespace_decl("p", "near")
        .push_to(outer);
    let leaf = Element::build(&mut doc, "leaf").push_to(inner);
    assert_eq!(outer.namespace_for_prefix(&doc, "p"), Some("far"));
    assert_eq!(inner.namespace_for_prefix(&doc, "p"), Some("near"));
    assert_eq!(leaf.namespace_for_prefix(&doc, "p"), Some("near"));
    assert_eq!(leaf.namespace_for_prefix(&doc, "q"), Some("only outer"));
    assert_eq!(leaf.namespace_for_prefix(&doc, "r"), None);
    assert_eq!(container.namespace_for_prefix(&doc, "p"), None);
    assert_eq!(inner.namespace(&doc), Some("near"));
    assert_eq!(leaf.namespace(&doc), Some("default"));
    assert_eq!(container.namespace(&doc), None);
    for element in [container, outer, inner, leaf] {
        assert_eq!(
            element.namespace_for_prefix(&doc, "xml"),
            Some("http://www.w3.org/XML/1998/namespace")
        );
        assert_eq!(
            element.namespace_for_prefix(&doc, "xmlns"),
            Some("http://www.w3.org/2000/xmlns/")
        );
    }
    // What the tree declares for the fixed prefixes is not asked.
    leaf.set_namespace_decl(&mut doc, "xml", "mine");
    assert_eq!(
        leaf.namespace_for_prefix(&doc, "xml"),
        Some("http://www.w3.org/XML/1998/namespace")
    );
}

#[test]
fn text_content_skips_comments_and_doctypes() {
    let mut doc = Document::new();
    let a = Element::new(&mut doc, "a");
    let b = Element::new(&mut doc, "b");
    a.push_child(&mut doc, Node::Text("1".to_string())).unwrap();
    a.push_child(&mut doc, Node::Comment("no".to_string())).unwrap();
    b.push_to(&mut doc, a).unwrap();
    b.push_child(&mut doc, Node::CData("2".to_string())).unwrap();
    b.push_child(&mut doc, Node::DocType("no".to_string())).unwrap();
    b.push_child(&mut doc, Node::PI("3".to_string())).unwrap();
    a.push_child(&mut doc, Node::Text("4".to_string())).unwrap();
    assert_eq!(a.text_content(&doc), "1234");
    assert_eq!(b.text_content(&doc), "23");
    assert_eq!(Node::Element(b).text_content(&doc), "23");
    assert_eq!(Node::Text("t".to_string()).text_content(&doc), "t");
    assert_eq!(Node::CData("t".to_string()).text_content(&doc), "t");
    assert_eq!(Node::PI("t".to_string()).text_content(&doc), "t");
    assert_eq!(Node::Comment("t".to_string()).text_content(&doc), "");
    assert_eq!(Node::DocType("t".to_string()).text_content(&doc), "");
    assert_eq!(Node::Text("t".to_string()).as_element(), None);
    let below = a.children_recursive(&doc);
    assert_eq!(below.len(), 7);
    assert!(matches!(below[2], Node::Element(e) if *e == b));
    assert!(matches!(below[3], Node::CData(_)));
    assert!(matches!(below[6], Node::Text(text) if text == "4"));
}

#[test]
fn find_by_local_name() {
    let mut doc = Document::new();
    let a = Element::new(&mut doc, "a");
    let x1 = Element::build(&mut doc, "x").push_to(a);
    let y = Element::build(&mut doc, "y").push_to(a);
    a.push_child(&mut doc, Node::Text("x".to_string())).unwrap();
    let x2 = Element::build(&mut doc, "p:x").push_to(a);
    let deep = Element::build(&mut doc, "z").push_to(y);
    assert_eq!(a.find(&doc, "x"), Some(x1));
    assert_eq!(a.find(&doc, "y"), Some(y));
    assert_eq!(a.find(&doc, "z"), None);
    assert_eq!(a.find(&doc, "p:x"), None);
    assert_eq!(a.find_all(&doc, "x"), vec![x1, x2]);
    assert_eq!(a.find_all(&doc, "z"), vec![]);
    assert_eq!(y.find_all(&doc, "z"), vec![deep]);
    assert_eq!(a.child_elements_recursive(&doc), vec![x1, y, deep, x2]);
}
