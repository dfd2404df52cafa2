use xml_doc::{
    read_attribute, read_label, resolve, Action, Attribute, Declaration, Document,
    DocumentParser, Error, Node, ReadOptions, Signature, State, Tag, Token,
};

fn tag(name: &str, attributes: &[(&str, &str)]) -> Tag {
    Tag {
        name: name.as_bytes().to_vec(),
        attributes: attributes
            .iter()
            .map(|(key, value)| {
                Ok(read_attribute(key.as_bytes().to_vec(), value.as_bytes().to_vec()))
            })
            .collect(),
    }
}

fn text(raw: &str) -> Token {
    Token::Text {
        raw: raw.as_bytes().to_vec(),
        content: resolve(raw.as_bytes()),
    }
}

fn declaration(version: &str, encoding: Option<&str>, standalone: Option<&str>) -> Declaration {
    Declaration {
        version: Ok(version.as_bytes().to_vec()),
        encoding: encoding.map(|label| Ok(read_label(label.as_bytes()))),
        standalone: standalone.map(|value| Ok(value.as_bytes().to_vec())),
    }
}

fn with_opts(change: fn(&mut ReadOptions)) -> ReadOptions {
    let mut opts = ReadOptions::default();
    change(&mut opts);
    opts
}

#[test]
fn default_options() {
    let opts = ReadOptions::default();
    assert!(opts.empty_text_node);
    assert!(opts.trim_text);
    assert!(!opts.ignore_whitespace_only);
    assert!(opts.require_decl);
    assert_eq!(opts.encoding, None);
}

#[test]
fn tokens_build_the_tree() {
    let mut parser = DocumentParser::new(ReadOptions::default());
    assert_eq!(parser.state(), State::SniffEncoding);
    assert_eq!(parser.depth(), 1);
    let root = tag("root", &[("id", "main"), ("xmlns", "ns"), ("xmlns:p", "pns"), ("p:a", "1")]);
    assert_eq!(parser.handle_event(Token::Start(root)).unwrap(), false);
    assert_eq!(parser.depth(), 2);
    assert_eq!(parser.handle_event(text("a &amp; b")).unwrap(), false);
    assert_eq!(parser.handle_event(Token::Empty(tag("e", &[]))).unwrap(), false);
    assert_eq!(parser.depth(), 2);
    assert_eq!(parser.handle_event(Token::Start(tag("open", &[]))).unwrap(), false);
    assert_eq!(parser.handle_event(Token::End).unwrap(), false);
    assert_eq!(parser.handle_event(Token::Comment(b" c ".to_vec())).unwrap(), false);
    assert_eq!(parser.handle_event(Token::CData(Ok(b"<d>".to_vec()))).unwrap(), false);
    assert_eq!(parser.handle_event(Token::PI(b"pi x".to_vec())).unwrap(), false);
    assert_eq!(parser.handle_event(Token::DocType(Ok(b" html".to_vec()))).unwrap(), false);
    assert_eq!(parser.handle_event(Token::End).unwrap(), false);
    assert_eq!(parser.depth(), 1);
    assert_eq!(parser.handle_event(Token::Eof).unwrap(), true);

    let doc = parser.into_document();
    let root = doc.root_element().unwrap();
    assert_eq!(root.full_name(&doc), "root");
    assert_eq!(root.attributes(&doc).len(), 2);
    assert_eq!(root.attribute(&doc, "id"), Some("main"));
    assert_eq!(root.attribute(&doc, "p:a"), Some("1"));
    assert_eq!(root.namespace_decls(&doc).len(), 2);
    assert_eq!(root.namespace_decls(&doc).get(""), Some("ns"));
    assert_eq!(root.namespace_decls(&doc).get("p"), Some("pns"));
    let children = root.children(&doc);
    assert_eq!(children.len(), 7);
    assert!(matches!(&children[0], Node::Text(t) if t == "a & b"));
    let e = children[1].as_element().unwrap();
    assert_eq!(e.children(&doc).len(), 0);
    let open = children[2].as_element().unwrap();
    assert_eq!(open.children(&doc).len(), 1);
    assert!(matches!(&open.children(&doc)[0], Node::Text(t) if t.is_empty()));
    assert!(matches!(&children[3], Node::Comment(t) if t == " c "));
    assert!(matches!(&children[4], Node::CData(t) if t == "<d>"));
    assert!(matches!(&children[5], Node::PI(t) if t == "pi x"));
    assert!(matches!(&children[6], Node::DocType(t) if t == "html"));
    assert_eq!(e.parent(&doc), Some(root));
    assert_eq!(root.parent(&doc), Some(doc.container()));
}

#[test]
fn doctype_loses_one_space() {
    for (raw, expected) in [(" a", "a"), ("  a", " a"), ("a ", "a "), (" ", ""), ("", "")] {
        let mut parser = DocumentParser::new(ReadOptions::default());
        parser.handle_event(Token::DocType(Ok(raw.as_bytes().to_vec()))).unwrap();
        let doc = parser.into_document();
        assert!(matches!(&doc.root_nodes()[0], Node::DocType(t) if t == expected));
    }
}

#[test]
fn without_empty_text_node() {
    let mut parser = DocumentParser::new(with_opts(|o| o.empty_text_node = false));
    parser.handle_event(Token::Start(tag("a", &[]))).unwrap();
    parser.handle_event(Token::End).unwrap();
    let doc = parser.into_document();
    assert_eq!(doc.root_element().unwrap().children(&doc).len(), 0);
}

#[test]
fn text_that_is_dropped() {
    let mut parser = DocumentParser::new(ReadOptions::default());
    parser.handle_event(text("")).unwrap();
    parser.handle_event(text(" \n")).unwrap();
    let doc = parser.into_document();
    assert_eq!(doc.root_nodes().len(), 1);
    assert!(matches!(&doc.root_nodes()[0], Node::Text(t) if t == " \n"));

    let mut parser = DocumentParser::new(with_opts(|o| o.ignore_whitespace_only = true));
    parser.handle_event(text("")).unwrap();
    parser.handle_event(text(" \n\t\r")).unwrap();
    parser.handle_event(text(" x ")).unwrap();
    let doc = parser.into_document();
    assert_eq!(doc.root_nodes().len(), 1);
    assert!(matches!(&doc.root_nodes()[0], Node::Text(t) if t == " x "));
}

#[test]
fn events_without_an_open_element() {
    let mut parser = DocumentParser::new(ReadOptions::default());
    parser.handle_event(Token::End).unwrap();
    assert_eq!(parser.depth(), 0);
    for token in [
        Token::End,
        Token::Start(tag("a", &[])),
        Token::Empty(tag("a", &[])),
        text("t"),
        Token::Comment(b"c".to_vec()),
        Token::CData(Ok(b"c".to_vec())),
        Token::PI(b"c".to_vec()),
        Token::DocType(Ok(b"c".to_vec())),
    ] {
        let error = parser.handle_event(token).unwrap_err();
        assert!(matches!(error, Error::MalformedXML(detail) if detail == "Malformed Element Tree"));
    }
    assert_eq!(parser.handle_event(Token::Eof).unwrap(), true);
    let doc = parser.into_document();
    // The container was closed like an element: it got its empty text.
    assert_eq!(doc.root_nodes().len(), 1);
    assert_eq!(doc.len(), 1);
}

#[test]
fn declaration_in_the_middle() {
    let mut parser = DocumentParser::new(ReadOptions::default());
    let error = parser
        .handle_event(Token::Decl(declaration("1.0", None, None)))
        .unwrap_err();
    assert!(
        matches!(error, Error::MalformedXML(detail) if detail == "XML declaration found in the middle of the document")
    );
}

#[test]
fn errors_in_tokens_come_out() {
    let invalid = vec![0x61, 0xff];
    let cases: Vec<(Token, bool)> = vec![
        (Token::Comment(invalid.clone()), true),
        (Token::PI(invalid.clone()), true),
        (Token::CData(Ok(invalid.clone())), true),
        (Token::DocType(Ok(invalid.clone())), true),
        (Token::Text { raw: invalid.clone(), content: Ok(invalid.clone()) }, true),
        (Token::CData(Err(Error::malformed("x"))), false),
        (Token::DocType(Err(Error::malformed("x"))), false),
        (Token::Text { raw: b"&".to_vec(), content: Err(Error::malformed("x")) }, false),
        (text("&unknown;"), false),
        (text("&"), false),
        (Token::Start(Tag { name: invalid.clone(), attributes: vec![] }), true),
        (
            Token::Start(Tag { name: b"a".to_vec(), attributes: vec![Err(Error::malformed("x"))] }),
            false,
        ),
        (
            Token::Empty(Tag {
                name: b"a".to_vec(),
                attributes: vec![Ok(Attribute { key: invalid.clone(), value: Ok(vec![]) })],
            }),
            true,
        ),
        (
            Token::Empty(Tag {
                name: b"a".to_vec(),
                attributes: vec![Ok(Attribute { key: b"k".to_vec(), value: Ok(invalid.clone()) })],
            }),
            true,
        ),
        (
            Token::Empty(Tag {
                name: b"a".to_vec(),
                attributes: vec![
                    Ok(Attribute { key: b"k".to_vec(), value: Err(Error::malformed("x")) }),
                    Ok(Attribute { key: invalid.clone(), value: Ok(vec![]) }),
                ],
            }),
            false,
        ),
        (Token::Empty(tag("a", &[("k", "&nothing;")])), false),
    ];
    for (token, cannot_decode) in cases {
        let mut parser = DocumentParser::new(ReadOptions::default());
        let error = parser.handle_event(token).unwrap_err();
        if cannot_decode {
            assert!(matches!(error, Error::CannotDecode));
        } else {
            assert!(matches!(error, Error::MalformedXML(_)));
        }
        assert_eq!(parser.depth(), 1);
        let doc = parser.into_document();
        assert!(doc.is_empty());
        assert_eq!(doc.root_nodes().len(), 0);
    }
}

#[test]
fn attribute_values_are_normalized_then_resolved() {
    let attribute = read_attribute(b"k".to_vec(), b" \r\t\n\n ab&#xD;   c\n  ".to_vec());
    assert_eq!(attribute.key, b"k");
    assert_eq!(attribute.value.unwrap(), b"ab\r c");
    let attribute = read_attribute(b"k".to_vec(), b"&#x20;a&#32;&#x9;".to_vec());
    assert_eq!(attribute.value.unwrap(), b" a \t");
    let attribute = read_attribute(b"k".to_vec(), b" &lt;&gt;&amp;&apos;&quot; ".to_vec());
    assert_eq!(attribute.value.unwrap(), b"<>&'\"");
    let attribute = read_attribute(b"k".to_vec(), b"a &b c".to_vec());
    assert!(matches!(attribute.value, Err(Error::MalformedXML(_))));
}

#[test]
fn references_are_resolved() {
    assert_eq!(resolve(b"").unwrap(), b"");
    assert_eq!(resolve(b"plain").unwrap(), b"plain");
    assert_eq!(resolve(b"&lt;a&gt;").unwrap(), b"<a>");
    assert_eq!(resolve(b"&#65;&#x42;").unwrap(), b"AB");
    assert_eq!(resolve(b"&#xe9;").unwrap(), "é".as_bytes());
    assert!(matches!(resolve(b"&#0;"), Err(Error::MalformedXML(_))));
    assert!(matches!(resolve(b"&nbsp;"), Err(Error::MalformedXML(_))));
    assert!(matches!(resolve(b"a & b"), Err(Error::MalformedXML(_))));
}

#[test]
fn declarations_are_taken() {
    let mut parser = DocumentParser::new(ReadOptions::default());
    parser.handle_decl(declaration("1.1", Some("UTF-8"), Some("yes"))).unwrap();
    assert!(parser.encoding().is_none());
    let doc = parser.into_document();
    assert_eq!(doc.version(), "1.1");
    assert!(doc.standalone());

    for (value, expected) in [("yes", true), ("YES", true), ("yEs", true), ("no", false), ("No", false)] {
        let mut parser = DocumentParser::new(ReadOptions::default());
        parser.handle_decl(declaration("1.0", None, Some(value))).unwrap();
        assert_eq!(parser.into_document().standalone(), expected);
    }
    for value in ["", "y", "true", "yes ", " no", "non", "ye\u{17f}"] {
        let mut parser = DocumentParser::new(ReadOptions::default());
        let error = parser.handle_decl(declaration("1.0", None, Some(value))).unwrap_err();
        assert!(
            matches!(error, Error::MalformedXML(detail) if detail == "Standalone Document Declaration has non boolean value")
        );
    }

    let mut parser = DocumentParser::new(ReadOptions::default());
    parser.handle_decl(declaration("1.0", Some("latin1"), None)).unwrap();
    assert_eq!(parser.encoding().unwrap().name(), "windows-1252");
    assert!(!parser.into_document().standalone());

    let mut parser = DocumentParser::new(ReadOptions::default());
    let error = parser.handle_decl(declaration("1.0", Some("utf-32"), Some("yes"))).unwrap_err();
    assert!(matches!(error, Error::CannotDecode));

    let mut parser = DocumentParser::new(ReadOptions::default());
    let mut decl = declaration("1.0", Some("latin1"), None);
    decl.version = Ok(vec![0xff]);
    assert!(matches!(parser.handle_decl(decl).unwrap_err(), Error::CannotDecode));
    assert!(parser.encoding().is_none());

    let mut parser = DocumentParser::new(ReadOptions::default());
    let mut decl = declaration("1.0", None, None);
    decl.standalone = Some(Ok(vec![0xff]));
    assert!(matches!(parser.handle_decl(decl).unwrap_err(), Error::CannotDecode));

    let mut parser = DocumentParser::new(ReadOptions::default());
    let mut decl = declaration("2.0", None, Some("yes"));
    decl.encoding = Some(Err(Error::malformed("broken")));
    assert!(
        matches!(parser.handle_decl(decl).unwrap_err(), Error::MalformedXML(detail) if detail == "broken")
    );
    // The version was taken before the error.
    assert_eq!(parser.into_document().version(), "2.0");
}

#[test]
fn create_element_adds_to_the_parent() {
    let mut parser = DocumentParser::new(ReadOptions::default());
    let container = Document::new().container();
    let a = parser.create_element(container, tag("a", &[("k", "v")])).unwrap();
    let b = parser.create_element(a, tag("p:b", &[("xmlns:p", "ns")])).unwrap();
    let error = parser
        .create_element(a, Tag { name: vec![0xff], attributes: vec![] })
        .unwrap_err();
    assert!(matches!(error, Error::CannotDecode));
    assert_eq!(parser.depth(), 1);
    let doc = parser.into_document();
    assert_eq!(doc.len(), 3);
    assert_eq!(doc.root_element(), Some(a));
    assert_eq!(a.child_elements(&doc), vec![b]);
    assert_eq!(a.attribute(&doc, "k"), Some("v"));
    assert_eq!(b.namespace(&doc), Some("ns"));
    assert_eq!(b.attributes(&doc).len(), 0);
}

#[test]
fn parser_states() {
    let mut parser = DocumentParser::new(ReadOptions::default());
    assert_eq!(parser.state(), State::SniffEncoding);
    parser.parse(b"<?xml version=\"1.0\"?><a/>".to_vec()).unwrap();
    assert_eq!(parser.state(), State::Done);
    assert_eq!(parser.depth(), 1);
    let doc = parser.into_document();
    assert_eq!(doc.root_element().unwrap().name(&doc), "a");

    let mut parser = DocumentParser::new(ReadOptions::default());
    assert!(parser.parse(b"<?xml version=\"1.0\"?><a>".to_vec()).is_err());
    assert_eq!(parser.state(), State::Failed);

    let mut parser = DocumentParser::new(ReadOptions::default());
    assert!(parser.parse(b"nothing".to_vec()).is_err());
    assert_eq!(parser.state(), State::Failed);
}

#[test]
fn parse_errors() {
    let cases: Vec<(&str, &str)> = vec![
        ("<a>", "Closing tag not found."),
        ("<a><b></b>", "Closing tag not found."),
        ("<a></b>", "Closing tag mismatch. Expected a, found b"),
        ("</a>", "Closing tag mismatch. Expected , found a"),
        ("<a/><?xml version=\"1.0\"?>", "XML declaration found in the middle of the document"),
    ];
    let opts = with_opts(|o| o.require_decl = false);
    for (xml, expected) in cases {
        let error = Document::parse_str_with_opts(xml, opts.clone()).unwrap_err();
        assert!(
            matches!(&error, Error::MalformedXML(detail) if detail == expected),
            "{:?}",
            error
        );
    }
    let error = Document::parse_str("<?xml version=\"1.0\"?><a/><?xml version=\"1.0\"?>").unwrap_err();
    assert!(
        matches!(error, Error::MalformedXML(detail) if detail == "XML declaration found in the middle of the document")
    );
    let error = Document::parse_str("<?xml version=\"1.0\" standalone=\"maybe\"?><a/>").unwrap_err();
    assert!(
        matches!(error, Error::MalformedXML(detail) if detail == "Standalone Document Declaration has non boolean value")
    );
    let error = Document::parse_str("<?xml version=\"1.0\"?><a b=c/>").unwrap_err();
    assert!(matches!(error, Error::MalformedXML(_)));
    let error = Document::parse_str("<?xml encoding=\"UTF-8\"?><a/>").unwrap_err();
    assert!(matches!(error, Error::MalformedXML(_)));
    let error = Document::parse_str("<?xml version=\"1.0\"?><a>&nothing;</a>").unwrap_err();
    assert!(matches!(error, Error::MalformedXML(_)));
}

#[test]
fn declaration_is_required() {
    // Without a signature in the first bytes nothing can be decoded.
    for xml in ["", "<a/>", " <?xml version=\"1.0\"?><a/>", "text"] {
        assert!(matches!(Document::parse_str(xml), Err(Error::CannotDecode)), "{:?}", xml);
    }
    // With a signature, the declaration must be the first thing.
    let error = Document::parse_str("<?pi?><a/>").unwrap_err();
    assert!(
        matches!(error, Error::MalformedXML(detail) if detail == "Didn't find XML Declaration at the start of file")
    );
    let error = Document::parse_reader(&[0xef, 0xbb, 0xbf, b'<', b'a', b'/', b'>']).unwrap_err();
    assert!(
        matches!(error, Error::MalformedXML(detail) if detail == "Didn't find XML Declaration at the start of file")
    );

    let opts = with_opts(|o| o.require_decl = false);
    for xml in ["<a/>", " <a/>", "<?xml version=\"1.0\"?><a/>", "\n<?xml version=\"1.0\"?>\n<a/>"] {
        let doc = Document::parse_str_with_opts(xml, opts.clone()).unwrap();
        assert_eq!(doc.root_element().unwrap().name(&doc), "a");
    }
    let doc = Document::parse_str_with_opts("", opts.clone()).unwrap();
    assert!(doc.is_empty());
    assert_eq!(doc.root_nodes().len(), 0);
    let doc = Document::parse_str_with_opts("text", opts.clone()).unwrap();
    assert!(matches!(&doc.root_nodes()[0], Node::Text(t) if t == "text"));
}

#[test]
fn declaration_sets_version_and_standalone() {
    let doc = Document::parse_str("<?xml version=\"1.1\" encoding=\"utf-8\" standalone=\"YES\"?><a/>").unwrap();
    assert_eq!(doc.version(), "1.1");
    assert!(doc.standalone());
    let doc = Document::parse_str("<?xml version=\"1.0\" standalone=\"no\"?><a/>").unwrap();
    assert!(!doc.standalone());
    let doc = Document::parse_str("<?xml version='1.0'?><a/>").unwrap();
    assert_eq!(doc.version(), "1.0");
    assert!(!doc.standalone());
}

#[test]
fn empty_tags_and_empty_elements() {
    let xml = "<?xml version=\"1.0\"?><r><a></a><b/><c> </c></r>";
    let doc = Document::parse_str(xml).unwrap();
    let r = doc.root_element().unwrap();
    let a = r.find(&doc, "a").unwrap();
    let b = r.find(&doc, "b").unwrap();
    let c = r.find(&doc, "c").unwrap();
    assert_eq!(a.children(&doc).len(), 1);
    assert!(matches!(&a.children(&doc)[0], Node::Text(t) if t.is_empty()));
    assert_eq!(b.children(&doc).len(), 0);
    assert_eq!(c.children(&doc).len(), 1);
    assert!(matches!(&c.children(&doc)[0], Node::Text(t) if t.is_empty()));

    let opts = with_opts(|o| o.empty_text_node = false);
    let doc = Document::parse_str_with_opts(xml, opts).unwrap();
    let r = doc.root_element().unwrap();
    for name in ["a", "b", "c"] {
        assert_eq!(r.find(&doc, name).unwrap().children(&doc).len(), 0);
    }
}

#[test]
fn whitespace_options() {
    let xml = "<?xml version=\"1.0\"?>\n<r>\n  <a> x </a>\n</r>\n";
    let shape = |opts: ReadOptions| {
        let doc = Document::parse_str_with_opts(xml, opts).unwrap();
        let r = doc.root_element().unwrap();
        let a = r.find(&doc, "a").unwrap();
        (
            doc.root_nodes().len(),
            r.children(&doc).len(),
            a.text_content(&doc),
        )
    };
    assert_eq!(shape(ReadOptions::default()), (1, 1, "x".to_string()));
    assert_eq!(
        shape(with_opts(|o| o.trim_text = false)),
        (3, 3, " x ".to_string())
    );
    assert_eq!(
        shape(with_opts(|o| {
            o.trim_text = false;
            o.ignore_whitespace_only = true
        })),
        (1, 1, " x ".to_string())
    );
    assert_eq!(
        shape(with_opts(|o| o.ignore_whitespace_only = true)),
        (1, 1, "x".to_string())
    );
}

#[test]
fn any_text_is_read_or_refused() {
    // Whatever the text, reading ends with a document or with an error.
    let alphabet: Vec<&str> = vec![
        "<", ">", "!", "?", "/", "-", "[", "]", "a", " ", "\"", "'", "=", "&", ";", "#", "x",
        "<![CDATA[", "]]>", "<!--", "-->", "<!DOCTYPE", "<?xml", ":",
    ];
    let mut opts = ReadOptions::default();
    opts.require_decl = false;
    opts.trim_text = false;
    let mut texts: Vec<String> = vec![String::new()];
    let mut start = 0;
    for _ in 0..3 {
        let end = texts.len();
        for i in start..end {
            for piece in &alphabet {
                texts.push(format!("{}{}", texts[i], piece));
            }
        }
        start = end;
    }
    assert_eq!(texts.len(), 1 + 24 + 24 * 24 + 24 * 24 * 24);
    let mut read = 0;
    for text in &texts {
        for prefix in ["", "<a b='c'>", "<?xml version='1.0'?>"] {
            let whole = format!("{}{}", prefix, text);
            if let Ok(doc) = Document::parse_str_with_opts(&whole, opts.clone()) {
                read += 1;
                let written = doc.write_str().unwrap();
                assert!(!written.is_empty());
            }
        }
    }
    assert!(read > 100);
}

#[test]
fn machine_begins_with_the_first_bytes() {
    let mut parser = DocumentParser::new(ReadOptions::default());
    parser.begin(Some(Signature::PlainText), None).unwrap();
    assert_eq!(parser.state(), State::AwaitDeclaration);
    assert!(parser.initial_encoding().is_none());

    let mut parser = DocumentParser::new(ReadOptions::default());
    parser.begin(Some(Signature::Utf16BeMark), None).unwrap();
    assert_eq!(parser.initial_encoding().unwrap().name(), "UTF-16BE");

    let mut parser = DocumentParser::new(ReadOptions::default());
    parser.begin(Some(Signature::Utf16LeText), Some(read_label(b"gbk"))).unwrap();
    assert_eq!(parser.initial_encoding().unwrap().name(), "GBK");

    let mut parser = DocumentParser::new(ReadOptions::default());
    assert!(matches!(parser.begin(None, None), Err(Error::CannotDecode)));
    assert_eq!(parser.state(), State::Failed);

    let mut parser = DocumentParser::new(ReadOptions::default());
    assert!(matches!(
        parser.begin(Some(Signature::PlainText), Some(read_label(b"none"))),
        Err(Error::CannotDecode)
    ));
    assert_eq!(parser.state(), State::Failed);

    let mut parser = DocumentParser::new(with_opts(|o| o.require_decl = false));
    parser.begin(None, None).unwrap();
    assert_eq!(parser.state(), State::AwaitDeclaration);
    assert!(parser.initial_encoding().is_none());
    assert!(matches!(parser.begin(None, Some(None)), Err(Error::CannotDecode)));
}

#[test]
fn machine_takes_the_declaration_first() {
    let mut parser = DocumentParser::new(ReadOptions::default());
    parser.begin(Some(Signature::PlainText), None).unwrap();
    // One empty text is passed over, no second one.
    assert_eq!(parser.take(text("")).unwrap(), Action::Continue);
    assert_eq!(parser.state(), State::AwaitDeclaration);
    let error = parser.take(text("")).unwrap_err();
    assert!(
        matches!(error, Error::MalformedXML(detail) if detail == "Didn't find XML Declaration at the start of file")
    );
    assert_eq!(parser.state(), State::Failed);

    // White space counts as text unless the options say otherwise.
    let mut parser = DocumentParser::new(ReadOptions::default());
    parser.begin(Some(Signature::PlainText), None).unwrap();
    assert!(parser.take(text(" ")).is_err());
    let mut parser = DocumentParser::new(with_opts(|o| o.ignore_whitespace_only = true));
    parser.begin(Some(Signature::PlainText), None).unwrap();
    assert_eq!(parser.take(text(" \n")).unwrap(), Action::Continue);
    assert_eq!(
        parser.take(Token::Decl(declaration("1.0", None, None))).unwrap(),
        Action::Continue
    );
    assert_eq!(parser.state(), State::StreamingContent);

    for first in [Token::Start(tag("a", &[])), Token::Eof, Token::Comment(vec![])] {
        let mut parser = DocumentParser::new(ReadOptions::default());
        parser.begin(Some(Signature::PlainText), None).unwrap();
        assert!(matches!(parser.take(first), Err(Error::MalformedXML(_))));
        assert_eq!(parser.state(), State::Failed);
        assert!(parser.into_document().is_empty());
    }
}

#[test]
fn machine_asks_for_another_decoder() {
    let cases: Vec<(Signature, Option<&str>, Option<&str>, Action)> = vec![
        (Signature::PlainText, None, None, Action::Continue),
        (Signature::PlainText, None, Some("UTF-8"), Action::Continue),
        (Signature::PlainText, None, Some("latin1"), Action::Switch),
        (Signature::PlainText, None, Some("UTF-16"), Action::Switch),
        (Signature::Utf8Mark, None, Some("utf8"), Action::Continue),
        (Signature::Utf16LeMark, None, Some("UTF-16"), Action::Continue),
        (Signature::Utf16BeMark, None, Some("UTF-16"), Action::Continue),
        (Signature::Utf16BeMark, None, Some("UTF-16BE"), Action::Continue),
        (Signature::Utf16LeMark, None, Some("UTF-16BE"), Action::Switch),
        (Signature::Utf16LeMark, None, Some("UTF-8"), Action::Switch),
        (Signature::Utf16BeText, None, None, Action::Continue),
        (Signature::PlainText, Some("gbk"), Some("gbk"), Action::Continue),
        (Signature::PlainText, Some("gbk"), Some("euc-kr"), Action::Switch),
        (Signature::PlainText, Some("gbk"), None, Action::Continue),
        (Signature::Utf16BeMark, Some("utf-16le"), Some("utf-16be"), Action::Switch),
    ];
    for (found, forced, declared, expected) in cases {
        let mut parser = DocumentParser::new(ReadOptions::default());
        let forced = forced.map(|label| read_label(label.as_bytes()));
        parser.begin(Some(found), forced).unwrap();
        let action = parser.take(Token::Decl(declaration("1.0", declared, None))).unwrap();
        assert_eq!(action, expected, "{:?} {:?}", found, declared);
        assert_eq!(parser.state(), State::StreamingContent);
    }
    let mut parser = DocumentParser::new(ReadOptions::default());
    parser.begin(Some(Signature::PlainText), None).unwrap();
    let error = parser.take(Token::Decl(declaration("1.0", Some("utf-32"), None))).unwrap_err();
    assert!(matches!(error, Error::CannotDecode));
    assert_eq!(parser.state(), State::Failed);
}

#[test]
fn machine_takes_content() {
    let mut parser = DocumentParser::new(with_opts(|o| o.require_decl = false));
    parser.begin(None, None).unwrap();
    assert_eq!(parser.take(Token::Start(tag("a", &[]))).unwrap(), Action::Continue);
    assert_eq!(parser.state(), State::StreamingContent);
    // Empty text is no longer passed over by the machine, but dropped as content.
    assert_eq!(parser.take(text("")).unwrap(), Action::Continue);
    assert_eq!(parser.take(text("t")).unwrap(), Action::Continue);
    let error = parser.take(Token::Eof).unwrap_err();
    assert!(matches!(error, Error::MalformedXML(detail) if detail == "Closing tag not found."));
    assert_eq!(parser.state(), State::Failed);

    let mut parser = DocumentParser::new(with_opts(|o| o.require_decl = false));
    parser.begin(None, None).unwrap();
    assert_eq!(parser.take(Token::Start(tag("a", &[]))).unwrap(), Action::Continue);
    assert_eq!(parser.take(Token::End).unwrap(), Action::Continue);
    assert_eq!(parser.take(Token::Eof).unwrap(), Action::Finish);
    assert_eq!(parser.state(), State::Done);
    assert_eq!(parser.into_document().len(), 2);

    let mut parser = DocumentParser::new(with_opts(|o| o.require_decl = false));
    parser.begin(None, None).unwrap();
    assert_eq!(parser.take(Token::Eof).unwrap(), Action::Finish);
    assert_eq!(parser.state(), State::Done);

    let mut parser = DocumentParser::new(with_opts(|o| o.require_decl = false));
    parser.begin(None, None).unwrap();
    parser.take(Token::Empty(tag("a", &[]))).unwrap();
    let error = parser.take(Token::Decl(declaration("1.0", None, None))).unwrap_err();
    assert!(
        matches!(error, Error::MalformedXML(detail) if detail == "XML declaration found in the middle of the document")
    );
    assert_eq!(parser.state(), State::Failed);

    let mut parser = DocumentParser::new(with_opts(|o| o.require_decl = false));
    parser.begin(None, None).unwrap();
    parser.fail();
    assert_eq!(parser.state(), State::Failed);
}

#[test]
fn tags_are_built_from_what_the_tokenizer_hands_out() {
    let built = Tag::build(
        b"p:a".to_vec(),
        vec![
            Ok((b"k".to_vec(), b"  a \n b&amp;  ".to_vec())),
            Err(xml_doc::Failure::Other("no quote".to_string())),
            Ok((vec![0xff], b"&bad".to_vec())),
            Err(xml_doc::Failure::Utf8),
        ],
    );
    assert_eq!(built.name, b"p:a");
    assert_eq!(built.attributes.len(), 4);
    let first = built.attributes[0].as_ref().unwrap();
    assert_eq!(first.key, b"k");
    assert_eq!(first.value.as_ref().unwrap(), b"a b&");
    assert!(matches!(&built.attributes[1], Err(Error::MalformedXML(detail)) if detail == "no quote"));
    let third = built.attributes[2].as_ref().unwrap();
    assert_eq!(third.key, vec![0xff]);
    assert!(matches!(&third.value, Err(Error::MalformedXML(_))));
    assert!(matches!(&built.attributes[3], Err(Error::CannotDecode)));

    let bare = Tag::build(Vec::new(), Vec::new());
    assert!(bare.name.is_empty());
    assert!(bare.attributes.is_empty());
}

#[test]
fn declarations_are_built_from_what_the_tokenizer_hands_out() {
    let built = Declaration::build(
        Ok(b"1.1".to_vec()),
        Some(Ok(b"latin1".to_vec())),
        Some(Ok(b"yes".to_vec())),
    );
    assert_eq!(built.version.unwrap(), b"1.1");
    assert_eq!(built.encoding.unwrap().unwrap().unwrap().name(), "windows-1252");
    assert_eq!(built.standalone.unwrap().unwrap(), b"yes");

    let built = Declaration::build(
        Err(xml_doc::Failure::Other("no version".to_string())),
        Some(Ok(b"no-such".to_vec())),
        None,
    );
    assert!(matches!(built.version, Err(Error::MalformedXML(detail)) if detail == "no version"));
    assert!(matches!(built.encoding, Some(Ok(None))));
    assert!(built.standalone.is_none());

    let built = Declaration::build(
        Ok(Vec::new()),
        Some(Err(xml_doc::Failure::Utf8)),
        Some(Err(xml_doc::Failure::Mismatch {
            expected: "a".to_string(),
            found: "b".to_string(),
        })),
    );
    assert!(built.version.unwrap().is_empty());
    assert!(matches!(built.encoding, Some(Err(Error::CannotDecode))));
    assert!(
        matches!(built.standalone, Some(Err(Error::MalformedXML(detail))) if detail == "Closing tag mismatch. Expected a, found b")
    );

    let built = Declaration::build(Ok(b"1.0".to_vec()), None, None);
    assert!(built.encoding.is_none());
    assert!(built.standalone.is_none());
}
