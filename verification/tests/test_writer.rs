use xml_doc::{Document, Element, Error, Node, ReadOptions, WriteOptions};

fn no_decl() -> WriteOptions {
    WriteOptions { write_decl: false, ..WriteOptions::default() }
}

fn shape(doc: &Document, element: Element, out: &mut String) {
    out.push_str(&format!("<{}", element.full_name(doc)));
    let mut attributes: Vec<(String, String)> = (0..element.attributes(doc).len())
        .map(|i| {
            (
                element.attributes(doc).key_at(i).to_string(),
                element.attributes(doc).value_at(i).to_string(),
            )
        })
        .collect();
    attributes.sort();
    let mut namespaces: Vec<(String, String)> = (0..element.namespace_decls(doc).len())
        .map(|i| {
            (
                element.namespace_decls(doc).key_at(i).to_string(),
                element.namespace_decls(doc).value_at(i).to_string(),
            )
        })
        .collect();
    namespaces.sort();
    out.push_str(&format!(" {:?} {:?}>", attributes, namespaces));
    for node in element.children(doc) {
        match node {
            Node::Element(child) => shape(doc, *child, out),
            other => out.push_str(&format!("{:?}", other)),
        }
    }
    out.push_str("</>");
}

fn shape_of(doc: &Document) -> String {
    let mut out = String::new();
    shape(doc, doc.container(), &mut out);
    out
}

#[test]
fn default_write_options() {
    let opts = WriteOptions::default();
    assert_eq!(opts.indent_char, b' ');
    assert_eq!(opts.indent_size, 2);
    assert!(opts.write_decl);
}

#[test]
fn basic_construction() {
    let mut doc = Document::new();
    let container = doc.container();
    Element::build(&mut doc, "root")
        .attribute("id", "main")
        .text_content("hello")
        .push_to(container);
    assert_eq!(
        doc.write_str_with_opts(no_decl()).unwrap(),
        "<root id=\"main\">hello</root>"
    );
    let written = doc.write_str().unwrap();
    assert_eq!(
        written,
        "<?xml version=\"1.0\" encoding=\"UTF-8\"?>\n<root id=\"main\">hello</root>"
    );
    let again = Document::parse_str(&written).unwrap();
    let root = again.root_element().unwrap();
    assert_eq!(again.root_nodes().len(), 1);
    assert_eq!(root.full_name(&again), "root");
    assert_eq!(root.attributes(&again).len(), 1);
    assert_eq!(root.attribute(&again, "id"), Some("main"));
    assert_eq!(root.children(&again).len(), 1);
    assert!(matches!(&root.children(&again)[0], Node::Text(text) if text == "hello"));
    assert_eq!(shape_of(&again), shape_of(&doc));
}

#[test]
fn empty_element_and_empty_tag() {
    let with_text = Document::parse_str("<?xml version=\"1.0\"?><a></a>").unwrap();
    let a = with_text.root_element().unwrap();
    assert_eq!(a.children(&with_text).len(), 1);
    assert!(matches!(&a.children(&with_text)[0], Node::Text(text) if text.is_empty()));
    assert_eq!(with_text.write_str_with_opts(no_decl()).unwrap(), "<a></a>");

    let without = Document::parse_str("<?xml version=\"1.0\"?><a/>").unwrap();
    let a = without.root_element().unwrap();
    assert_eq!(a.children(&without).len(), 0);
    assert_eq!(without.write_str_with_opts(no_decl()).unwrap(), "<a/>");
}

#[test]
fn declaration_is_written() {
    let mut doc = Document::parse_str("<?xml version=\"1.1\" encoding=\"latin1\" standalone=\"yes\"?><a/>").unwrap();
    assert_eq!(
        doc.write_str().unwrap(),
        "<?xml version=\"1.1\" encoding=\"UTF-8\" standalone=\"yes\"?>\n<a/>"
    );
    doc.set_standalone(false);
    doc.set_version("1.0".to_string());
    assert_eq!(
        doc.write_str().unwrap(),
        "<?xml version=\"1.0\" encoding=\"UTF-8\"?>\n<a/>"
    );
    assert_eq!(Document::new().write_str().unwrap(), "<?xml version=\"1.0\" encoding=\"UTF-8\"?>");
    assert_eq!(Document::new().write_str_with_opts(no_decl()).unwrap(), "");
}

#[test]
fn indentation() {
    let xml = "<?xml version=\"1.0\"?><a><b><c/><d>t<e/><f/></d></b><!--c--><g></g></a><h/>";
    let doc = Document::parse_str(xml).unwrap();
    assert_eq!(
        doc.write_str_with_opts(no_decl()).unwrap(),
        "<a>\n  <b>\n    <c/>\n    <d>t<e/>\n      <f/>\n    </d>\n  </b>\n  <!--c-->\n  <g></g>\n</a>\n<h/>"
    );
    let tabs = WriteOptions { indent_char: b'\t', indent_size: 1, write_decl: true };
    assert_eq!(
        doc.write_str_with_opts(tabs).unwrap(),
        "<?xml version=\"1.0\" encoding=\"UTF-8\"?>\n<a>\n\t<b>\n\t\t<c/>\n\t\t<d>t<e/>\n\t\t\t<f/>\n\t\t</d>\n\t</b>\n\t<!--c-->\n\t<g></g>\n</a>\n<h/>"
    );
    let flat = WriteOptions { indent_char: b' ', indent_size: 0, write_decl: false };
    assert_eq!(
        doc.write_str_with_opts(flat).unwrap(),
        "<a>\n<b>\n<c/>\n<d>t<e/>\n<f/>\n</d>\n</b>\n<!--c-->\n<g></g>\n</a>\n<h/>"
    );
}

#[test]
fn deep_indentation() {
    let mut doc = Document::new();
    let mut parent = doc.container();
    for _ in 0..100 {
        parent = Element::build(&mut doc, "e").push_to(parent);
    }
    let opts = WriteOptions { indent_char: b'.', indent_size: 3, write_decl: false };
    let written = doc.write_str_with_opts(opts).unwrap();
    let lines: Vec<&str> = written.lines().collect();
    assert_eq!(lines.len(), 199);
    for depth in 0..99 {
        assert_eq!(lines[depth], format!("{}<e>", ".".repeat(3 * depth)));
        assert_eq!(lines[198 - depth], format!("{}</e>", ".".repeat(3 * depth)));
    }
    assert_eq!(lines[99], format!("{}<e/>", ".".repeat(297)));
}

#[test]
fn namespaces_are_written_as_attributes() {
    let mut doc = Document::new();
    let container = doc.container();
    Element::build(&mut doc, "p:a")
        .attribute("k", "v")
        .namespace_decl("", "d<")
        .namespace_decl("p", "n")
        .attribute("p:k", "'")
        .push_to(container);
    assert_eq!(
        doc.write_str_with_opts(no_decl()).unwrap(),
        "<p:a k=\"v\" p:k=\"&apos;\" xmlns=\"d&lt;\" xmlns:p=\"n\"/>"
    );
}

#[test]
fn nodes_are_written() {
    let mut doc = Document::new();
    let container = doc.container();
    let a = Element::build(&mut doc, "a").push_to(container);
    a.push_child(&mut doc, Node::Text("<t>".to_string())).unwrap();
    a.push_child(&mut doc, Node::CData("<c>".to_string())).unwrap();
    a.push_child(&mut doc, Node::Text("é".to_string())).unwrap();
    a.push_child(&mut doc, Node::PI("p <i>".to_string())).unwrap();
    a.push_child(&mut doc, Node::Comment(" <c> ".to_string())).unwrap();
    a.push_child(&mut doc, Node::DocType("d \"x\"".to_string())).unwrap();
    assert_eq!(
        doc.write_str_with_opts(no_decl()).unwrap(),
        "<a>&lt;t&gt;<![CDATA[<c>]]>é<?p <i>?>\n  <!-- <c> -->\n  <!DOCTYPE d \"x\">\n</a>"
    );
}

#[test]
fn write_appends() {
    let doc = Document::parse_str("<?xml version=\"1.0\"?><a/>").unwrap();
    let mut out = b"before".to_vec();
    doc.write_with_opts(&mut out, no_decl()).unwrap();
    assert_eq!(out, b"before<a/>");
    doc.write(&mut out).unwrap();
    assert_eq!(
        out,
        b"before<a/><?xml version=\"1.0\" encoding=\"UTF-8\"?>\n<a/>"
    );
}

#[test]
fn indentation_that_is_no_text() {
    let doc = Document::parse_str("<?xml version=\"1.0\"?><a><b/></a>").unwrap();
    let opts = WriteOptions { indent_char: 0xff, indent_size: 1, write_decl: false };
    assert!(matches!(doc.write_str_with_opts(opts), Err(Error::CannotDecode)));
    let mut out = Vec::new();
    doc.write_with_opts(&mut out, opts).unwrap();
    assert_eq!(out, b"<a>\n\xff<b/>\n</a>");
}

#[test]
fn indentation_that_is_too_wide() {
    let doc = Document::parse_str("<?xml version=\"1.0\"?><a><b/></a>").unwrap();
    let opts = WriteOptions { indent_char: b' ', indent_size: usize::MAX / 2, write_decl: false };
    assert!(
        matches!(doc.write_str_with_opts(opts), Err(Error::MalformedXML(detail)) if detail == "Indentation is too wide")
    );
    let mut out = b"kept".to_vec();
    assert!(matches!(doc.write_with_opts(&mut out, opts), Err(Error::MalformedXML(_))));
    assert_eq!(out, b"kept");
}

#[test]
fn round_trip() {
    let xml = r#"<?xml version="1.0" encoding="UTF-8" standalone="yes"?>
<!DOCTYPE note>
<?style sheet?>
<n:note xmlns:n="urn:n" xmlns="urn:d" id="1" n:lang="en &amp; &lt;fr&gt;">
    <to>Tove &amp; Jani</to>
    <empty></empty>
    <none/>
    <!-- a comment -->
    <body>Hello <b>bold</b> and <![CDATA[<raw>]]> text</body>
    <deep><er><est attr="&quot;'">é€𝄞</est></er></deep>
</n:note>
"#;
    let doc = Document::parse_str(xml).unwrap();
    let written = doc.write_str().unwrap();
    let again = Document::parse_str(&written).unwrap();
    assert_eq!(shape_of(&again), shape_of(&doc));
    assert_eq!(again.version(), doc.version());
    assert_eq!(again.standalone(), doc.standalone());
    assert_eq!(again.write_str().unwrap(), written);

    let note = again.root_element().unwrap();
    assert_eq!(note.namespace(&again), Some("urn:n"));
    assert_eq!(note.attribute(&again, "n:lang"), Some("en & <fr>"));
    assert_eq!(note.find(&again, "to").unwrap().text_content(&again), "Tove & Jani");
    assert_eq!(note.find(&again, "empty").unwrap().children(&again).len(), 1);
    assert_eq!(note.find(&again, "none").unwrap().children(&again).len(), 0);
}

#[test]
fn round_trip_of_a_built_document() {
    let mut doc = Document::new();
    let container = doc.container();
    let root = Element::build(&mut doc, "root")
        .attribute("a", "1")
        .attribute("b", "<2>")
        .namespace_decl("p", "urn:p")
        .push_to(container);
    let child = Element::build(&mut doc, "p:child").text_content("text & more").push_to(root);
    Element::build(&mut doc, "leaf").push_to(child);
    Element::build(&mut doc, "last").text_content("").push_to(root);
    let written = doc.write_str().unwrap();
    let mut opts = ReadOptions::default();
    opts.trim_text = false;
    opts.ignore_whitespace_only = true;
    let again = Document::parse_str_with_opts(&written, opts).unwrap();
    assert_eq!(shape_of(&again), shape_of(&doc));
}

#[test]
fn doctype_is_written_as_it_is() {
    let mut doc = Document::new();
    doc.push_root_node(Node::DocType("<&amp;".to_string())).unwrap();
    assert_eq!(doc.write_str_with_opts(no_decl()).unwrap(), "<!DOCTYPE <&amp;>");
}
