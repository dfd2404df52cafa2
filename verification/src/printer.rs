use vstd::prelude::*;
use crate::text::bytes_of;

verus! {

/// How the writer lays out what it writes.
pub struct Layout {
    /// Whether the next markup starts on a new line.
    pub line_break: bool,
    /// How many bytes of indentation a new line starts with.
    pub width: nat,
    /// How many bytes one level of nesting adds to the indentation.
    pub size: nat,
    /// The byte that the indentation is made of.
    pub fill: u8,
}

/// The writer of `quick_xml` over a vector of bytes, with indentation.
#[verifier::external_body]
pub struct XmlWriter {
    inner: quick_xml::Writer<Vec<u8>>,
}

/// The bytes that the writer has written.
pub uninterp spec fn written(writer: XmlWriter) -> Seq<u8>;

/// The layout that the writer is in.
pub uninterp spec fn layout(writer: XmlWriter) -> Layout;

/// The bytes that a start tag holds between `<` and `>`.
pub uninterp spec fn tag_bytes(tag: quick_xml::events::BytesStart<'static>) -> Seq<u8>;

/// The largest indentation that the writer is asked for: its buffer of indentation can
/// hold no more.
pub open spec fn max_width() -> nat {
    isize::MAX as nat
}

/// The entity that stands for `byte` in escaped text; the byte itself where it needs
/// none.
pub open spec fn escaped_byte(byte: u8) -> Seq<u8> {
    if byte == '<' as u8 {
        bytes_of("&lt;")
    } else if byte == '>' as u8 {
        bytes_of("&gt;")
    } else if byte == '\'' as u8 {
        bytes_of("&apos;")
    } else if byte == '&' as u8 {
        bytes_of("&amp;")
    } else if byte == '"' as u8 {
        bytes_of("&quot;")
    } else {
        seq![byte]
    }
}

/// `bytes` with `<`, `>`, `'`, `&` and `"` replaced by `&lt;`, `&gt;`, `&apos;`, `&amp;`
/// and `&quot;`.
pub open spec fn escaped(bytes: Seq<u8>) -> Seq<u8>
    decreases bytes.len(),
{
    if bytes.len() == 0 {
        Seq::empty()
    } else {
        escaped(bytes.drop_last()) + escaped_byte(bytes.last())
    }
}

/// `escape::escape` of `quick_xml`: `raw` with the five special characters of XML
/// replaced by their entities.
#[verifier::external_body]
pub(crate) fn escape(raw: &[u8]) -> (r: Vec<u8>)
    ensures
        r@ == escaped(raw@),
{
    quick_xml::escape::escape(raw).into_owned()
}

/// The start of a new line: a line feed and the indentation, where the layout asks for
/// a new line.
pub open spec fn lead(layout: Layout) -> Seq<u8> {
    if layout.line_break {
        bytes_of("\n") + Seq::new(layout.width, |i: int| layout.fill)
    } else {
        Seq::empty()
    }
}

/// `bytes` after markup was written that starts on a line of its own if the layout asks
/// for it, and consists of `before`, `value` and `after`.
pub open spec fn wrapped(bytes: Seq<u8>, layout: Layout, before: Seq<u8>, value: Seq<u8>, after: Seq<u8>) -> Seq<u8> {
    bytes + lead(layout) + before + value + after
}

/// The layout after markup: the next markup starts on a new line.
pub open spec fn broken(layout: Layout) -> Layout {
    Layout { line_break: true, ..layout }
}

/// The layout one level deeper.
pub open spec fn grown(layout: Layout) -> Layout {
    Layout { width: layout.width + layout.size, ..layout }
}

/// The layout one level higher.
pub open spec fn shrunk(layout: Layout) -> Layout {
    Layout {
        width: if layout.width >= layout.size {
            (layout.width - layout.size) as nat
        } else {
            0
        },
        ..layout
    }
}

/// The content of an XML declaration with the given version, encoding and `standalone`.
pub open spec fn declaration(version: Seq<u8>, encoding: Option<Seq<u8>>, standalone: Option<Seq<u8>>) -> Seq<u8> {
    bytes_of("xml version=\"") + version + (match encoding {
        Some(name) => bytes_of("\" encoding=\"") + name,
        None => Seq::empty(),
    }) + (match standalone {
        Some(value) => bytes_of("\" standalone=\"") + value,
        None => Seq::empty(),
    }) + bytes_of("\"")
}

/// `BytesStart::owned_name` of `quick_xml`: a start tag that holds the name and nothing
/// else.
#[verifier::external_body]
pub(crate) fn new_tag(name: &[u8]) -> (r: quick_xml::events::BytesStart<'static>)
    ensures
        tag_bytes(r) == name@,
{
    quick_xml::events::BytesStart::owned_name(name.to_vec())
}

/// `BytesStart::push_attribute` of `quick_xml` on a pair of byte slices: the tag grows by
/// a space, the key, `="`, the value as it is, and `"`.
#[verifier::external_body]
pub(crate) fn push_attribute(tag: &mut quick_xml::events::BytesStart<'static>, key: &[u8], value: &[u8])
    ensures
        tag_bytes(*final(tag)) == tag_bytes(*old(tag)) + bytes_of(" ") + key@ + bytes_of("=\"")
            + value@ + bytes_of("\""),
{
    tag.push_attribute((key, value));
}

impl XmlWriter {
    /// `Writer::new_with_indent` of `quick_xml` over an empty vector: nothing is
    /// written, and the first markup starts where the text starts.
    #[verifier::external_body]
    pub(crate) fn new(fill: u8, size: usize) -> (r: XmlWriter)
        ensures
            written(r) == Seq::<u8>::empty(),
            layout(r) == (Layout { line_break: false, width: 0, size: size as nat, fill }),
    {
        XmlWriter { inner: quick_xml::Writer::new_with_indent(Vec::new(), fill, size) }
    }

    /// `Writer::into_inner` of `quick_xml`: the bytes that were written.
    #[verifier::external_body]
    pub(crate) fn into_bytes(self) -> (r: Vec<u8>)
        ensures
            r@ == written(self),
    {
        self.inner.into_inner()
    }

    /// `Writer::write_event` of `quick_xml` with an XML declaration made by
    /// `BytesDecl::new`: `<?`, the declaration and `?>`, on a line of its own.
    #[verifier::external_body]
    pub(crate) fn write_decl(&mut self, version: &[u8], encoding: Option<&[u8]>, standalone: Option<&[u8]>)
        ensures
            written(*final(self)) == wrapped(
                written(*old(self)),
                layout(*old(self)),
                bytes_of("<?"),
                declaration(
                    version@,
                    match encoding {
                        Some(name) => Some(name@),
                        None => None,
                    },
                    match standalone {
                        Some(value) => Some(value@),
                        None => None,
                    },
                ),
                bytes_of("?>"),
            ),
            layout(*final(self)) == broken(layout(*old(self))),
    {
        let decl = quick_xml::events::BytesDecl::new(version, encoding, standalone);
        let _ = self.inner.write_event(quick_xml::events::Event::Decl(decl));
    }

    /// `Writer::write_event` of `quick_xml` with a start tag: `<`, the tag and `>`, on a
    /// line of its own; what follows is one level deeper. The buffer of indentation must
    /// have room for that level.
    #[verifier::external_body]
    pub(crate) fn write_start(&mut self, tag: &quick_xml::events::BytesStart<'static>)
        requires
            layout(*old(self)).width + layout(*old(self)).size <= max_width(),
        ensures
            written(*final(self)) == wrapped(
                written(*old(self)),
                layout(*old(self)),
                bytes_of("<"),
                tag_bytes(*tag),
                bytes_of(">"),
            ),
            layout(*final(self)) == grown(broken(layout(*old(self)))),
    {
        let _ = self.inner.write_event(quick_xml::events::Event::Start(tag.to_borrowed()));
    }

    /// `Writer::write_event` of `quick_xml` with an empty tag: `<`, the tag and `/>`, on
    /// a line of its own.
    #[verifier::external_body]
    pub(crate) fn write_empty(&mut self, tag: &quick_xml::events::BytesStart<'static>)
        ensures
            written(*final(self)) == wrapped(
                written(*old(self)),
                layout(*old(self)),
                bytes_of("<"),
                tag_bytes(*tag),
                bytes_of("/>"),
            ),
            layout(*final(self)) == broken(layout(*old(self))),
    {
        let _ = self.inner.write_event(quick_xml::events::Event::Empty(tag.to_borrowed()));
    }

    /// `Writer::write_event` of `quick_xml` with an end tag: one level higher than
    /// before, `</`, the name and `>`, on a line of its own.
    #[verifier::external_body]
    pub(crate) fn write_end(&mut self, name: &[u8])
        ensures
            written(*final(self)) == wrapped(
                written(*old(self)),
                shrunk(layout(*old(self))),
                bytes_of("</"),
                name@,
                bytes_of(">"),
            ),
            layout(*final(self)) == broken(shrunk(layout(*old(self)))),
    {
        let end = quick_xml::events::BytesEnd::borrowed(name);
        let _ = self.inner.write_event(quick_xml::events::Event::End(end));
    }

    /// `Writer::write_event` of `quick_xml` with text that is escaped already: the text
    /// as it is; what follows stays on the line.
    #[verifier::external_body]
    pub(crate) fn write_text(&mut self, text: &[u8])
        ensures
            written(*final(self)) == written(*old(self)) + text@,
            layout(*final(self)) == (Layout { line_break: false, ..layout(*old(self)) }),
    {
        let text = quick_xml::events::BytesText::from_escaped(text);
        let _ = self.inner.write_event(quick_xml::events::Event::Text(text));
    }

    /// `Writer::write_event` of `quick_xml` with a comment: `<!--`, the content as it is
    /// and `-->`, on a line of its own.
    #[verifier::external_body]
    pub(crate) fn write_comment(&mut self, text: &[u8])
        ensures
            written(*final(self)) == wrapped(
                written(*old(self)),
                layout(*old(self)),
                bytes_of("<!--"),
                text@,
                bytes_of("-->"),
            ),
            layout(*final(self)) == broken(layout(*old(self))),
    {
        let text = quick_xml::events::BytesText::from_escaped(text);
        let _ = self.inner.write_event(quick_xml::events::Event::Comment(text));
    }

    /// `Writer::write_event` of `quick_xml` with a CDATA section: `<![CDATA[`, the
    /// content as it is and `]]>`, where the text stands; what follows stays on the line.
    #[verifier::external_body]
    pub(crate) fn write_cdata(&mut self, text: &[u8])
        ensures
            written(*final(self)) == written(*old(self)) + bytes_of("<![CDATA[") + text@ + bytes_of("]]>"),
            layout(*final(self)) == (Layout { line_break: false, ..layout(*old(self)) }),
    {
        let text = quick_xml::events::BytesText::from_escaped(text);
        let _ = self.inner.write_event(quick_xml::events::Event::CData(text));
    }

    /// `Writer::write_event` of `quick_xml` with a processing instruction: `<?`, the
    /// content as it is and `?>`, on a line of its own.
    #[verifier::external_body]
    pub(crate) fn write_pi(&mut self, text: &[u8])
        ensures
            written(*final(self)) == wrapped(
                written(*old(self)),
                layout(*old(self)),
                bytes_of("<?"),
                text@,
                bytes_of("?>"),
            ),
            layout(*final(self)) == broken(layout(*old(self))),
    {
        let text = quick_xml::events::BytesText::from_escaped(text);
        let _ = self.inner.write_event(quick_xml::events::Event::PI(text));
    }

    /// `Writer::write_event` of `quick_xml` with a document type declaration:
    /// `<!DOCTYPE`, the content as it is and `>`, on a line of its own.
    #[verifier::external_body]
    pub(crate) fn write_doctype(&mut self, text: &[u8])
        ensures
            written(*final(self)) == wrapped(
                written(*old(self)),
                layout(*old(self)),
                bytes_of("<!DOCTYPE"),
                text@,
                bytes_of(">"),
            ),
            layout(*final(self)) == broken(layout(*old(self))),
    {
        let text = quick_xml::events::BytesText::from_escaped(text);
        let _ = self.inner.write_event(quick_xml::events::Event::DocType(text));
    }

    /// `Writer::write_event` of `quick_xml` with the end of the text: nothing is
    /// written.
    #[verifier::external_body]
    pub(crate) fn write_eof(&mut self)
        ensures
            written(*final(self)) == written(*old(self)),
            layout(*final(self)) == broken(layout(*old(self))),
    {
        let _ = self.inner.write_event(quick_xml::events::Event::Eof);
    }
}

} // verus!
