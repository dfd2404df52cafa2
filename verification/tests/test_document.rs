use std::str::FromStr;
use xml_doc::{Document, Element, Node};

#[test]
fn test_add_element() {
    let xml = r#"<?xml version="1.0" encoding="UTF-8"?>
        <basic>
            Text
            <c />
        </basic>
        "#;
    let mut doc = Document::from_str(xml).unwrap();
    let basic = doc.container().children(&doc)[0].as_element().unwrap();
    let p = Element::new(&mut doc, "p");
    basic.push_child(&mut doc, Node::Element(p)).unwrap();
    assert_eq!(p.parent(&doc).unwrap(), basic);
    assert_eq!(
        p,
        basic.children(&doc).last().unwrap().as_element().unwrap()
    )
}
