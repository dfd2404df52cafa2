use xml_doc::encoding::is_marred;
use xml_doc::{read_label, Document, Error, Node, ReadOptions, StreamDecoder};

fn utf16le(text: &str) -> Vec<u8> {
    text.encode_utf16().flat_map(|unit| unit.to_le_bytes()).collect()
}

fn utf16be(text: &str) -> Vec<u8> {
    text.encode_utf16().flat_map(|unit| unit.to_be_bytes()).collect()
}

fn root_text(doc: &Document) -> String {
    doc.root_element().unwrap().text_content(doc)
}

#[test]
fn utf8_with_byte_order_mark() {
    let mut bytes = vec![0xef, 0xbb, 0xbf];
    bytes.extend("<?xml version=\"1.0\" encoding=\"UTF-8\"?><a>é€</a>".as_bytes());
    let doc = Document::parse_reader(&bytes).unwrap();
    assert_eq!(root_text(&doc), "é€");
}

#[test]
fn utf16_with_byte_order_mark() {
    let xml = "<?xml version=\"1.0\" encoding=\"UTF-16\"?><a b=\"ü\">é€𝄞</a>";
    let mut le = vec![0xff, 0xfe];
    le.extend(utf16le(xml));
    let doc = Document::parse_reader(&le).unwrap();
    assert_eq!(root_text(&doc), "é€𝄞");
    assert_eq!(doc.root_element().unwrap().attribute(&doc, "b"), Some("ü"));

    // The label UTF-16 stands for the little end first, the mark shows the big end
    // first: the mark is right.
    let mut be = vec![0xfe, 0xff];
    be.extend(utf16be(xml));
    let doc = Document::parse_reader(&be).unwrap();
    assert_eq!(root_text(&doc), "é€𝄞");
}

#[test]
fn utf16_without_byte_order_mark() {
    let xml = "<?xml version=\"1.0\" encoding=\"UTF-16LE\"?><a>é</a>";
    let doc = Document::parse_reader(&utf16le(xml)).unwrap();
    assert_eq!(root_text(&doc), "é");
    let xml = "<?xml version=\"1.0\" encoding=\"UTF-16BE\"?><a>é</a>";
    let doc = Document::parse_reader(&utf16be(xml)).unwrap();
    assert_eq!(root_text(&doc), "é");
    let xml = "<?xml version=\"1.0\"?><a>é</a>";
    let doc = Document::parse_reader(&utf16be(xml)).unwrap();
    assert_eq!(root_text(&doc), "é");
}

#[test]
fn declared_encoding_takes_over() {
    let mut bytes = b"<?xml version=\"1.0\" encoding=\"ISO-8859-1\"?><a b=\"".to_vec();
    bytes.push(0xfc);
    bytes.extend(b"\">");
    bytes.extend([0xe9, 0x80]);
    bytes.extend(b"</a>");
    let doc = Document::parse_reader(&bytes).unwrap();
    assert_eq!(root_text(&doc), "é€");
    assert_eq!(doc.root_element().unwrap().attribute(&doc, "b"), Some("ü"));

    let mut bytes = b"<?xml version=\"1.0\" encoding=\"GBK\"?><a>".to_vec();
    bytes.extend([0xc4, 0xe3, 0xba, 0xc3]);
    bytes.extend(b"</a>");
    let doc = Document::parse_reader(&bytes).unwrap();
    assert_eq!(root_text(&doc), "你好");

    let mut bytes = b"<?xml version=\"1.0\" encoding=\"euc-kr\"?><a>".to_vec();
    bytes.extend([0xc7, 0xd1]);
    bytes.extend(b"</a>");
    let doc = Document::parse_reader(&bytes).unwrap();
    assert_eq!(root_text(&doc), "한");
}

#[test]
fn declared_encoding_in_a_long_document() {
    let mut bytes = b"<?xml version=\"1.0\" encoding=\"GBK\"?><a>x".to_vec();
    for _ in 0..6_000 {
        bytes.extend([0xc4, 0xe3]);
    }
    bytes.extend(b"</a>");
    let doc = Document::parse_reader(&bytes).unwrap();
    let expected: String = std::iter::once('x').chain(std::iter::repeat('你').take(6_000)).collect();
    assert_eq!(root_text(&doc), expected);

    let text: String = "é€".chars().cycle().take(7_001).collect();
    let xml = format!("<?xml version=\"1.0\" encoding=\"UTF-16\"?><a>{}</a>", text);
    let mut bytes = vec![0xff, 0xfe];
    bytes.extend(utf16le(&xml));
    let doc = Document::parse_reader(&bytes).unwrap();
    assert_eq!(root_text(&doc), text);

    let xml = format!("<?xml version=\"1.0\"?><a>{}</a>", text);
    let doc = Document::parse_str(&xml).unwrap();
    assert_eq!(root_text(&doc), text);
}

#[test]
fn unknown_encoding_cannot_be_decoded() {
    let error = Document::parse_str("<?xml version=\"1.0\" encoding=\"no-such\"?><a/>").unwrap_err();
    assert!(matches!(error, Error::CannotDecode));
    let error = Document::parse_str("<?xml version=\"1.0\" encoding=\"UTF-32\"?><a/>").unwrap_err();
    assert!(matches!(error, Error::CannotDecode));

    let mut opts = ReadOptions::default();
    opts.encoding = Some("no-such".to_string());
    let error = Document::parse_str_with_opts("<?xml version=\"1.0\"?><a/>", opts.clone()).unwrap_err();
    assert!(matches!(error, Error::CannotDecode));
    opts.require_decl = false;
    let error = Document::parse_str_with_opts("<a/>", opts).unwrap_err();
    assert!(matches!(error, Error::CannotDecode));

    // UTF-32 shows no signature.
    let utf32: Vec<u8> = "<?xml version=\"1.0\"?><a/>"
        .chars()
        .flat_map(|c| (c as u32).to_be_bytes())
        .collect();
    assert!(matches!(Document::parse_reader(&utf32), Err(Error::CannotDecode)));
}

#[test]
fn text_that_is_not_utf8_cannot_be_decoded() {
    let mut bytes = b"<?xml version=\"1.0\"?><a>".to_vec();
    bytes.push(0xff);
    bytes.extend(b"</a>");
    assert!(matches!(Document::parse_reader(&bytes), Err(Error::CannotDecode)));

    let mut bytes = b"<?xml version=\"1.0\"?><a b=\"".to_vec();
    bytes.push(0xc3);
    bytes.extend(b"\"/>");
    assert!(matches!(Document::parse_reader(&bytes), Err(Error::CannotDecode)));

    let mut bytes = b"<?xml version=\"1.0\"?><".to_vec();
    bytes.push(0xe9);
    bytes.extend(b"/>");
    assert!(matches!(Document::parse_reader(&bytes), Err(Error::CannotDecode)));
}

#[test]
fn forced_encoding() {
    let mut opts = ReadOptions::default();
    opts.require_decl = false;
    opts.encoding = Some("latin1".to_string());
    let doc = Document::parse_reader_with_opts(&[b'<', b'a', b'>', 0xe9, b'<', b'/', b'a', b'>'], opts.clone()).unwrap();
    assert_eq!(root_text(&doc), "é");

    // The declaration names another encoding: it takes over right behind the
    // declaration, however short the document is.
    let mut bytes = b"<?xml version=\"1.0\" encoding=\"GBK\"?><a>".to_vec();
    bytes.extend([0xc4, 0xe3]);
    bytes.extend(b"</a>");
    let doc = Document::parse_reader_with_opts(&bytes, opts.clone()).unwrap();
    assert_eq!(root_text(&doc), "你");

    // In a long document it is the same.
    let mut bytes = b"<?xml version=\"1.0\" encoding=\"GBK\"?><a>".to_vec();
    bytes.extend(std::iter::repeat(b'x').take(4096));
    for _ in 0..100 {
        bytes.extend([0xc4, 0xe3]);
    }
    bytes.extend(b"</a>");
    let doc = Document::parse_reader_with_opts(&bytes, opts.clone()).unwrap();
    assert_eq!(root_text(&doc), format!("{}{}", "x".repeat(4096), "你".repeat(100)));

    // A declaration without an encoding leaves the decoder as it is.
    let mut bytes = b"<?xml version=\"1.0\"?><a>".to_vec();
    bytes.extend("é".as_bytes());
    bytes.extend(b"</a>");
    let doc = Document::parse_reader_with_opts(&bytes, opts).unwrap();
    assert_eq!(root_text(&doc), "Ã©");
}

#[test]
fn mark_and_declaration_disagree() {
    // The mark shows UTF-16 with the little end first, the declaration says UTF-8. The
    // declaration wins: what follows it is read as UTF-8, and the bytes of UTF-16 make
    // no element `a` there. The text of the element is no UTF-8.
    let xml = "<?xml version=\"1.0\" encoding=\"UTF-8\"?><a>é</a>";
    let mut bytes = vec![0xff, 0xfe];
    bytes.extend(utf16le(xml));
    assert!(matches!(Document::parse_reader(&bytes), Err(Error::CannotDecode)));

    // With plain letters the tags hold zero bytes, and none of them closes.
    let xml = "<?xml version=\"1.0\" encoding=\"UTF-8\"?><a>e</a>";
    let mut bytes = vec![0xff, 0xfe];
    bytes.extend(utf16le(xml));
    assert!(matches!(
        Document::parse_reader(&bytes),
        Err(Error::MalformedXML(detail)) if detail == "Closing tag not found."
    ));
    let xml = "<?xml version=\"1.0\" encoding=\"UTF-8\"?><a/>";
    let mut bytes = vec![0xff, 0xfe];
    bytes.extend(utf16le(xml));
    for _ in 0..3 {
        assert!(matches!(
            Document::parse_reader(&bytes),
            Err(Error::MalformedXML(detail)) if detail == "Closing tag not found."
        ));
    }

    // With the declaration in UTF-16 and the content in UTF-8, as the declaration says,
    // the document is read.
    let mut bytes = vec![0xff, 0xfe];
    bytes.extend(utf16le("<?xml version=\"1.0\" encoding=\"UTF-8\"?>"));
    bytes.extend("<a>é</a>".as_bytes());
    let doc = Document::parse_reader(&bytes).unwrap();
    assert_eq!(doc.root_nodes().len(), 1);
    let a = doc.root_element().unwrap();
    assert_eq!(a.full_name(&doc), "a");
    assert_eq!(a.children(&doc).len(), 1);
    assert!(matches!(&a.children(&doc)[0], Node::Text(text) if text == "é"));

    // A declaration that names no encoding leaves the decoder as it is.
    let xml = "<?xml version=\"1.0\"?><a>é</a>";
    let mut bytes = vec![0xfe, 0xff];
    bytes.extend(utf16be(xml));
    let doc = Document::parse_reader(&bytes).unwrap();
    assert_eq!(root_text(&doc), "é");

    // A label that names no encoding fails.
    let xml = "<?xml version=\"1.0\" encoding=\"UTF-9\"?><a>é</a>";
    let mut bytes = vec![0xff, 0xfe];
    bytes.extend(utf16le(xml));
    assert!(matches!(Document::parse_reader(&bytes), Err(Error::CannotDecode)));
}

#[test]
fn text_that_grows_threefold() {
    // Every byte of Thai text becomes three bytes of UTF-8: the decoded text of a piece
    // does not always fit the buffer at once, and nothing of it may get lost.
    for count in [1, 4_000, 4_048, 4_096, 8_100, 8_140, 8_144, 8_192, 12_288, 20_000] {
        let mut bytes = b"<?xml version=\"1.0\" encoding=\"windows-874\"?><a>".to_vec();
        bytes.extend(std::iter::repeat(0xa1).take(count));
        bytes.extend(b"</a>");
        let doc = Document::parse_reader(&bytes).unwrap();
        assert_eq!(root_text(&doc), "ก".repeat(count), "{}", count);
    }
    let label = xml_doc::read_label(b"windows-874").unwrap();
    for count in 4_000..4_200 {
        let mut reader = xml_doc::DecodeReader::new(vec![0xa1; count], None);
        reader.set_encoding(Some(&label));
        let mut all = Vec::new();
        loop {
            let bytes = reader.fill().to_vec();
            if bytes.is_empty() {
                break;
            }
            reader.advance(bytes.len());
            all.extend(bytes);
        }
        assert_eq!(all.len(), 3 * count, "{}", count);
    }
}

#[test]
fn declared_encoding_starts_behind_the_declaration() {
    // The declaration is in UTF-16, as the mark says, and names GBK: the content is
    // read as GBK from its first byte, with white space around text kept or dropped.
    for trim in [false, true] {
        let mut opts = ReadOptions::default();
        opts.trim_text = trim;
        let mut bytes = vec![0xfe, 0xff];
        bytes.extend(utf16be("<?xml version=\"1.0\" encoding=\"GBK\"?>"));
        bytes.extend(b"\n<a> ");
        bytes.extend([0xc4, 0xe3]);
        bytes.extend(b" </a>\n");
        let doc = Document::parse_reader_with_opts(&bytes, opts).unwrap();
        assert_eq!(doc.root_element().unwrap().full_name(&doc), "a");
        assert_eq!(root_text(&doc), if trim { "你" } else { " 你 " });
    }

    // White space before the declaration is passed over, and counts for the place
    // where the declaration ends.
    let mut opts = ReadOptions::default();
    opts.require_decl = false;
    opts.ignore_whitespace_only = true;
    opts.encoding = Some("latin1".to_string());
    let mut bytes = b"  \n<?xml version=\"1.0\" encoding=\"GBK\"?><a>".to_vec();
    bytes.extend([0xc4, 0xe3, 0xc4, 0xe3]);
    bytes.extend(b"</a>");
    let doc = Document::parse_reader_with_opts(&bytes, opts).unwrap();
    assert_eq!(root_text(&doc), "你你");
}

#[test]
fn malformed_bytes_cannot_be_decoded() {
    // A lone surrogate in the text of a document in UTF-16.
    let mut bytes = vec![0xff, 0xfe];
    bytes.extend(utf16le("<?xml version=\"1.0\" encoding=\"UTF-16\"?><a>"));
    bytes.extend([0x00, 0xd8]);
    bytes.extend(utf16le("b</a>"));
    assert!(matches!(Document::parse_reader(&bytes), Err(Error::CannotDecode)));

    // Without it the document is read.
    let mut bytes = vec![0xff, 0xfe];
    bytes.extend(utf16le("<?xml version=\"1.0\" encoding=\"UTF-16\"?><a>b</a>"));
    let doc = Document::parse_reader(&bytes).unwrap();
    assert_eq!(root_text(&doc), "b");

    // A byte too many at the end.
    bytes.push(0x0a);
    assert!(matches!(Document::parse_reader(&bytes), Err(Error::CannotDecode)));

    // Malformed bytes behind markup that is not well formed: they decide.
    let mut bytes = vec![0xfe, 0xff];
    bytes.extend(utf16be("<?xml version=\"1.0\"?><a></b>"));
    assert!(matches!(Document::parse_reader(&bytes), Err(Error::MalformedXML(_))));
    bytes.extend([0xdc, 0x00]);
    assert!(matches!(Document::parse_reader(&bytes), Err(Error::CannotDecode)));

    // In the declared encoding: a lead byte of GBK with nothing that can follow it.
    let mut bytes = b"<?xml version=\"1.0\" encoding=\"GBK\"?><a>".to_vec();
    bytes.extend([0xc4, 0xe3, 0x81, 0x20]);
    bytes.extend(b"</a>");
    assert!(matches!(Document::parse_reader(&bytes), Err(Error::CannotDecode)));

    // In the encoding that the options ask for.
    let mut opts = ReadOptions::default();
    opts.require_decl = false;
    opts.encoding = Some("utf-16le".to_string());
    let mut bytes = utf16le("<a>b</a>");
    let doc = Document::parse_reader_with_opts(&bytes, opts.clone()).unwrap();
    assert_eq!(root_text(&doc), "b");
    bytes.push(0x00);
    assert!(matches!(Document::parse_reader_with_opts(&bytes, opts), Err(Error::CannotDecode)));

    // What follows the declaration is judged in the declared encoding alone: the bytes
    // of the content are no UTF-16, and the document is read.
    let mut bytes = vec![0xff, 0xfe];
    bytes.extend(utf16le("<?xml version=\"1.0\" encoding=\"latin1\"?>"));
    bytes.extend([b'<', b'a', b'>', 0xe9, b'<', b'/', b'a', b'>', b'\n']);
    let doc = Document::parse_reader(&bytes).unwrap();
    assert_eq!(root_text(&doc), "é");
}

#[test]
fn malformed_bytes_are_found() {
    let utf16 = read_label(b"utf-16le").unwrap();
    let gbk = read_label(b"gbk").unwrap();
    let latin = read_label(b"latin1").unwrap();
    assert!(!is_marred(None, &[0xff, 0xfe, 0xfd], true));
    assert!(!is_marred(Some(&latin), &[0xff, 0xfe, 0xfd], true));
    assert!(!is_marred(Some(&utf16), &[0x61, 0x00, 0x3d, 0xd8, 0x00, 0xde], true));
    assert!(is_marred(Some(&utf16), &[0x61, 0x00, 0x00, 0xdc], true));
    assert!(is_marred(Some(&utf16), &[0x61, 0x00, 0x00, 0xdc], false));
    // What breaks off at the end is malformed only when the end is told.
    assert!(!is_marred(Some(&utf16), &[0x61, 0x00, 0x62], false));
    assert!(is_marred(Some(&utf16), &[0x61, 0x00, 0x62], true));
    assert!(!is_marred(Some(&utf16), &[0x61, 0x00, 0x3d, 0xd8], false));
    assert!(is_marred(Some(&utf16), &[0x61, 0x00, 0x3d, 0xd8], true));
    assert!(!is_marred(Some(&gbk), &[0x61, 0xc4], false));
    assert!(is_marred(Some(&gbk), &[0x61, 0xc4], true));
    assert!(!is_marred(Some(&gbk), &[], true));
    // In a long text, whatever the pieces are that the decoder takes.
    let mut long: Vec<u8> = std::iter::repeat([0xc4u8, 0xe3]).take(3000).flatten().collect();
    assert!(!is_marred(Some(&gbk), &long, true));
    long[1023] = 0x20;
    assert!(is_marred(Some(&gbk), &long, true));
    long[1023] = 0xe3;
    long.push(0xc4);
    assert!(!is_marred(Some(&gbk), &long, false));
    assert!(is_marred(Some(&gbk), &long, true));
}

#[test]
fn decoder_takes_all_it_is_given() {
    let utf16 = read_label(b"utf-16le").unwrap();
    let mut decoder = StreamDecoder::start(&utf16);
    let mut room = vec![0u8; 64];
    // A lone surrogate is held until the next unit shows that it stays alone.
    assert_eq!(decoder.decode(&[0x00, 0xd8], &mut room, false), (0, false));
    assert!(!decoder.is_finished());
    let (written, replaced) = decoder.decode(&[0x41, 0x00], &mut room, false);
    assert_eq!(&room[..written], "\u{fffd}A".as_bytes());
    assert!(replaced);
    assert_eq!(decoder.decode(&[0x42], &mut room, false), (0, false));
    let (written, replaced) = decoder.decode(&[], &mut room, true);
    assert_eq!(&room[..written], "\u{fffd}".as_bytes());
    assert!(replaced);
    assert!(decoder.is_finished());

    let gbk = read_label(b"gbk").unwrap();
    let mut decoder = StreamDecoder::start(&gbk);
    let mut room = vec![0u8; 32 + 3 * 5];
    let (written, replaced) = decoder.decode(&[0x61, 0xc4, 0xe3, 0xc4, 0xe3], &mut room, true);
    assert_eq!(&room[..written], "a你你".as_bytes());
    assert!(!replaced);
    assert!(decoder.is_finished());
}
