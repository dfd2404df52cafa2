use vstd::prelude::*;
use vstd::utf8::encode_utf8;
use crate::error::{Error, ErrorView, Result};
use crate::names::{Entries, NameMap};
use crate::printer::{
    broken, declaration, escape, escaped, grown, layout, lead, max_width, new_tag,
    push_attribute, shrunk, tag_bytes, wrapped, written, Layout, XmlWriter,
};
use crate::text::{bytes_of, string_from_utf8, utf8_text};
use crate::tree::{nodes_view, Document, DocumentView, Element, Node, NodeView};

verus! {

/// How a document is written.
#[derive(Debug, Clone, Copy, PartialEq, Eq, Structural)]
pub struct WriteOptions {
    /// The byte to indent with. Default: a space.
    pub indent_char: u8,
    /// How many of them one level of nesting takes. Default: 2.
    pub indent_size: usize,
    /// Whether the XML declaration is written at the top. Default: `true`.
    pub write_decl: bool,
}

impl WriteOptions {
    /// The default options.
    pub open spec fn spec_default() -> WriteOptions {
        WriteOptions { indent_char: 0x20, indent_size: 2, write_decl: true }
    }

    /// The default options.
    #[verifier::when_used_as_spec(spec_default)]
    pub fn default() -> (r: WriteOptions)
        ensures
            r == WriteOptions::default(),
    {
        WriteOptions { indent_char: 0x20, indent_size: 2, write_decl: true }
    }
}

/// What is written so far, and how the next markup is laid out.
pub struct Page {
    pub bytes: Seq<u8>,
    pub layout: Layout,
}

/// What a writer holds.
pub open spec fn page(writer: XmlWriter) -> Page {
    Page { bytes: written(writer), layout: layout(writer) }
}

impl Page {
    /// The page before anything is written.
    pub open spec fn blank(fill: u8, size: nat) -> Page {
        Page { bytes: Seq::empty(), layout: Layout { line_break: false, width: 0, size, fill } }
    }

    /// The page after markup on a line of its own.
    pub open spec fn markup(self, before: Seq<u8>, value: Seq<u8>, after: Seq<u8>) -> Page {
        Page {
            bytes: wrapped(self.bytes, self.layout, before, value, after),
            layout: broken(self.layout),
        }
    }

    /// The page after `<tag>`; what follows is one level deeper.
    pub open spec fn start(self, tag: Seq<u8>) -> Page {
        let next = self.markup(bytes_of("<"), tag, bytes_of(">"));
        Page { layout: grown(next.layout), ..next }
    }

    /// The page after `<tag/>`.
    pub open spec fn empty(self, tag: Seq<u8>) -> Page {
        self.markup(bytes_of("<"), tag, bytes_of("/>"))
    }

    /// The page after `</name>`, which stands one level higher than what came before.
    pub open spec fn end(self, name: Seq<u8>) -> Page {
        (Page { layout: shrunk(self.layout), ..self }).markup(
            bytes_of("</"),
            name,
            bytes_of(">"),
        )
    }

    /// The page after text; what follows stays on the line.
    pub open spec fn text(self, text: Seq<u8>) -> Page {
        Page { bytes: self.bytes + text, layout: Layout { line_break: false, ..self.layout } }
    }

    /// The page after `<!--text-->`.
    pub open spec fn comment(self, text: Seq<u8>) -> Page {
        self.markup(bytes_of("<!--"), text, bytes_of("-->"))
    }

    /// The page after `<![CDATA[text]]>`; what follows stays on the line.
    pub open spec fn cdata(self, text: Seq<u8>) -> Page {
        Page {
            bytes: self.bytes + bytes_of("<![CDATA[") + text + bytes_of("]]>"),
            layout: Layout { line_break: false, ..self.layout },
        }
    }

    /// The page after `<?text?>`.
    pub open spec fn pi(self, text: Seq<u8>) -> Page {
        self.markup(bytes_of("<?"), text, bytes_of("?>"))
    }

    /// The page after `<!DOCTYPEtext>`.
    pub open spec fn doctype(self, text: Seq<u8>) -> Page {
        self.markup(
            bytes_of("<!DOCTYPE"),
            text,
            bytes_of(">"),
        )
    }

    /// The page after the end of the text.
    pub open spec fn eof(self) -> Page {
        Page { layout: broken(self.layout), ..self }
    }
}

/// `tag` with one more attribute: a space, the key, `="`, the escaped value and `"`.
pub open spec fn with_attribute(tag: Seq<u8>, key: Seq<u8>, value: Seq<u8>) -> Seq<u8> {
    tag + bytes_of(" ") + key + bytes_of("=\"") + escaped(value) + bytes_of("\"")
}

/// `tag` with the attributes `entries`, in their order.
pub open spec fn with_attributes(tag: Seq<u8>, entries: Entries) -> Seq<u8>
    decreases entries.len(),
{
    if entries.len() == 0 {
        tag
    } else {
        with_attribute(
            with_attributes(tag, entries.drop_last()),
            encode_utf8(entries.last().0),
            encode_utf8(entries.last().1),
        )
    }
}

/// The name of the attribute that declares a namespace for `prefix`: `xmlns` for the
/// default namespace, else `xmlns:` and the prefix.
pub open spec fn declaration_name(prefix: Seq<char>) -> Seq<char> {
    if prefix.len() == 0 {
        "xmlns"@
    } else {
        "xmlns:"@ + prefix
    }
}

/// `tag` with the namespace declarations `entries` as attributes, in their order.
pub open spec fn with_declarations(tag: Seq<u8>, entries: Entries) -> Seq<u8>
    decreases entries.len(),
{
    if entries.len() == 0 {
        tag
    } else {
        with_attribute(
            with_declarations(tag, entries.drop_last()),
            encode_utf8(declaration_name(entries.last().0)),
            encode_utf8(entries.last().1),
        )
    }
}

impl DocumentView {
    /// What stands between `<` and `>` in the start tag of `e`: its name, its attributes
    /// and its namespace declarations.
    pub open spec fn tag(self, e: Element) -> Seq<u8> {
        with_declarations(
            with_attributes(encode_utf8(self.get(e).full_name), self.get(e).attributes),
            self.get(e).namespace_decls,
        )
    }

    /// The page after `nodes` were written, one after the other. An element without
    /// children is an empty tag; any other is a start tag, its children and an end tag.
    /// Text is escaped; comments, CDATA sections, processing instructions and document
    /// type declarations are written as they are, the last behind a space.
    /// Elements are entered at most `depth` levels deep.
    pub open spec fn emit(self, page: Page, nodes: Seq<NodeView>, depth: nat) -> Page
        decreases depth, nodes.len(),
    {
        if nodes.len() == 0 {
            page
        } else {
            let before = self.emit(page, nodes.drop_last(), depth);
            match nodes.last() {
                NodeView::Element(e) => if self.children(e).len() > 0 {
                    let opened = before.start(self.tag(e));
                    let filled = if depth > 0 {
                        self.emit(opened, self.children(e), (depth - 1) as nat)
                    } else {
                        opened
                    };
                    filled.end(encode_utf8(self.get(e).full_name))
                } else {
                    before.empty(self.tag(e))
                },
                NodeView::Text(text) => before.text(escaped(encode_utf8(text))),
                NodeView::DocType(text) => before.doctype(bytes_of(" ") + encode_utf8(text)),
                NodeView::Comment(text) => before.comment(encode_utf8(text)),
                NodeView::CData(text) => before.cdata(encode_utf8(text)),
                NodeView::PI(text) => before.pi(encode_utf8(text)),
            }
        }
    }

    /// The page with the XML declaration of the document. It names the version, the
    /// encoding `UTF-8`, and `standalone` only where the document stands alone.
    pub open spec fn declared(self, page: Page) -> Page {
        page.markup(
            bytes_of("<?"),
            declaration(
                encode_utf8(self.version),
                Some(bytes_of("UTF-8")),
                if self.standalone {
                    Some(bytes_of("yes"))
                } else {
                    None
                },
            ),
            bytes_of("?>"),
        )
    }

    /// The bytes of the document as XML: the declaration, if the options ask for it,
    /// and the top-level nodes.
    pub open spec fn rendered(self, options: WriteOptions) -> Seq<u8> {
        let blank = Page::blank(options.indent_char, options.indent_size as nat);
        let top = if options.write_decl {
            self.declared(blank)
        } else {
            blank
        };
        self.emit(top, self.children(Element::top()), self.elements.len()).eof().bytes
    }

    /// Whether the indentation of the options fits the writer however deep the
    /// document is.
    pub open spec fn can_indent(self, options: WriteOptions) -> bool {
        options.indent_size * (self.elements.len() + 1) <= max_width()
    }
}

/// The error of an indentation that is too wide for the writer.
pub open spec fn indent_error() -> ErrorView {
    ErrorView::MalformedXML("Indentation is too wide"@)
}

/// Writing nodes leaves the layout at the level where it was.
pub proof fn lemma_emit_layout(v: DocumentView, page: Page, nodes: Seq<NodeView>, depth: nat)
    ensures
        v.emit(page, nodes, depth).layout.width == page.layout.width,
        v.emit(page, nodes, depth).layout.size == page.layout.size,
        v.emit(page, nodes, depth).layout.fill == page.layout.fill,
    decreases depth, nodes.len(),
{
    if nodes.len() > 0 {
        lemma_emit_layout(v, page, nodes.drop_last(), depth);
        let before = v.emit(page, nodes.drop_last(), depth);
        match nodes.last() {
            NodeView::Element(e) => {
                if v.children(e).len() > 0 && depth > 0 {
                    lemma_emit_layout(
                        v,
                        before.start(v.tag(e)),
                        v.children(e),
                        (depth - 1) as nat,
                    );
                }
            },
            _ => {},
        }
    }
}

/// An element without children is written as an empty tag, and an element whose one
/// child is an empty text as a start tag and an end tag with nothing between them: the
/// two are told apart in what is written.
pub proof fn lemma_empty_text_is_written(v: DocumentView, page: Page, e: Element, depth: nat)
    requires
        depth > 0,
    ensures
        v.children(e).len() == 0 ==> v.emit(page, seq![NodeView::Element(e)], depth).bytes
            == page.bytes + lead(page.layout) + bytes_of("<") + v.tag(e) + bytes_of("/>"),
        v.children(e) == seq![NodeView::Text(Seq::empty())] ==> v.emit(
            page,
            seq![NodeView::Element(e)],
            depth,
        ).bytes == page.bytes + lead(page.layout) + bytes_of("<") + v.tag(e) + bytes_of(">") + bytes_of("</") + encode_utf8(v.get(e).full_name) + bytes_of(">"),
{
    let one = seq![NodeView::Element(e)];
    assert(one.drop_last() =~= Seq::<NodeView>::empty());
    assert(one.last() == NodeView::Element(e));
    assert(v.emit(page, one.drop_last(), depth) == page);
    if v.children(e) == seq![NodeView::Text(Seq::empty())] {
        let kids = v.children(e);
        let opened = page.start(v.tag(e));
        assert(kids.drop_last() =~= Seq::<NodeView>::empty());
        assert(kids.last() == NodeView::Text(Seq::empty()));
        assert(v.emit(opened, kids.drop_last(), (depth - 1) as nat) == opened);
        assert(encode_utf8(Seq::<char>::empty()) =~= Seq::<u8>::empty()) by {
            reveal_with_fuel(encode_utf8, 1);
        }
        assert(escaped(Seq::<u8>::empty()) =~= Seq::<u8>::empty());
        let filled = v.emit(opened, kids, (depth - 1) as nat);
        assert(filled == opened.text(Seq::empty()));
        assert(filled.bytes =~= opened.bytes);
        assert(lead(shrunk(filled.layout)) =~= Seq::<u8>::empty());
        assert(filled.end(encode_utf8(v.get(e).full_name)).bytes =~= page.bytes + lead(
            page.layout,
        ) + bytes_of("<") + v.tag(e) + bytes_of(">") + bytes_of("</") + encode_utf8(
            v.get(e).full_name,
        ) + bytes_of(">"));
    }
}

/// Adds the entries of `entries` to `tag` as attributes, with the name of each made by
/// `declares` or taken as it is.
fn push_entries(tag: &mut quick_xml::events::BytesStart<'static>, entries: &NameMap, declares: bool)
    requires
        entries.wf(),
    ensures
        tag_bytes(*final(tag)) == if declares {
            with_declarations(tag_bytes(*old(tag)), entries@)
        } else {
            with_attributes(tag_bytes(*old(tag)), entries@)
        },
{
    let ghost start = tag_bytes(*tag);
    let mut i: usize = 0;
    assert(entries@.take(0) =~= Seq::empty());
    while i < entries.len()
        invariant
            i <= entries@.len(),
            tag_bytes(*tag) == if declares {
                with_declarations(start, entries@.take(i as int))
            } else {
                with_attributes(start, entries@.take(i as int))
            },
        decreases entries@.len() - i,
    {
        proof {
            assert(entries@.take(i + 1).drop_last() =~= entries@.take(i as int));
            assert(entries@.take(i + 1).last() == entries@[i as int]);
        }
        let value = escape(entries.value_at(i).as_bytes());
        if declares {
            let prefix = entries.key_at(i);
            if prefix.unicode_len() == 0 {
                push_attribute(tag, "xmlns".as_bytes(), value.as_slice());
            } else {
                let name = "xmlns:".to_owned().concat(prefix);
                push_attribute(tag, name.as_str().as_bytes(), value.as_slice());
            }
        } else {
            push_attribute(tag, entries.key_at(i).as_bytes(), value.as_slice());
        }
        i += 1;
    }
    assert(entries@.take(i as int) =~= entries@);
}

impl Document {
    /// Writes the XML declaration.
    fn write_decl(&self, writer: &mut XmlWriter)
        ensures
            page(*final(writer)) == self@.declared(page(*old(writer))),
    {
        let standalone = if self.standalone() {
            Some("yes".as_bytes())
        } else {
            None
        };
        writer.write_decl(self.version().as_bytes(), Some("UTF-8".as_bytes()), standalone);
    }

    /// Writes an element: an empty tag if it has no children, else its start tag, its
    /// children and its end tag.
    fn write_element(&self, writer: &mut XmlWriter, element: Element, depth: usize)
        requires
            self.wf(),
            self@.has(element),
            layout(*old(writer)).width + layout(*old(writer)).size * (depth + 1) <= max_width(),
        ensures
            page(*final(writer)) == self@.emit(
                page(*old(writer)),
                seq![NodeView::Element(element)],
                depth as nat,
            ),
        decreases depth, 1nat,
    {
        let ghost before = page(*writer);
        proof {
            assert(seq![NodeView::Element(element)].drop_last() =~= Seq::<NodeView>::empty());
            assert(layout(*writer).size * (depth + 1) >= layout(*writer).size) by (nonlinear_arith)
                requires
                    depth + 1 >= 1,
                    layout(*writer).size >= 0,
            ;
        }
        let name = element.full_name(self).as_bytes();
        let mut tag = new_tag(name);
        push_entries(&mut tag, element.attributes(self), false);
        push_entries(&mut tag, element.namespace_decls(self), true);
        let ghost one = seq![NodeView::Element(element)];
        proof {
            assert(tag_bytes(tag) == self@.tag(element));
            assert(one.last() == NodeView::Element(element));
            assert(self@.emit(before, one.drop_last(), depth as nat) == before);
        }
        if element.has_children(self) {
            writer.write_start(&tag);
            assert(page(*writer) == before.start(self@.tag(element)));
            if depth > 0 {
                let kids = element.children(self);
                proof {
                    self.lemma_wf();
                    assert forall|i: int| 0 <= i < kids@.len() implies ((#[trigger] kids@[i])@ matches NodeView::Element(
                        e,
                    ) ==> self@.has(e)) by {
                        assert(self@.linked_down(element, i));
                        assert(nodes_view(kids@)[i] == kids@[i]@);
                    }
                    assert(layout(*writer).size * (depth + 1) == layout(*writer).size * depth
                        + layout(*writer).size) by (nonlinear_arith);
                }
                self.write_nodes(writer, kids, depth - 1);
            }
            proof {
                if depth > 0 {
                    lemma_emit_layout(
                        self@,
                        before.start(self@.tag(element)),
                        self@.children(element),
                        (depth - 1) as nat,
                    );
                }
            }
            writer.write_end(name);
        } else {
            writer.write_empty(&tag);
        }
    }

    /// Writes nodes, one after the other.
    fn write_nodes(&self, writer: &mut XmlWriter, nodes: &Vec<Node>, depth: usize)
        requires
            self.wf(),
            forall|i: int|
                0 <= i < nodes@.len() ==> ((#[trigger] nodes@[i])@ matches NodeView::Element(e)
                    ==> self@.has(e)),
            layout(*old(writer)).width + layout(*old(writer)).size * (depth + 1) <= max_width(),
        ensures
            page(*final(writer)) == self@.emit(
                page(*old(writer)),
                nodes_view(nodes@),
                depth as nat,
            ),
        decreases depth, 2nat,
    {
        let ghost start = page(*writer);
        let ghost all = nodes_view(nodes@);
        let mut i: usize = 0;
        assert(all.take(0) =~= Seq::empty());
        while i < nodes.len()
            invariant
                i <= nodes@.len(),
                self.wf(),
                all == nodes_view(nodes@),
                forall|i: int|
                    0 <= i < nodes@.len() ==> ((#[trigger] nodes@[i])@ matches NodeView::Element(e)
                        ==> self@.has(e)),
                start.layout.width + start.layout.size * (depth + 1) <= max_width(),
                page(*writer) == self@.emit(start, all.take(i as int), depth as nat),
            decreases nodes@.len() - i,
        {
            proof {
                assert(all.take(i + 1).drop_last() =~= all.take(i as int));
                assert(all.take(i + 1).last() == all[i as int]);
                assert(all[i as int] == nodes@[i as int]@);
                lemma_emit_layout(self@, start, all.take(i as int), depth as nat);
            }
            let ghost before = page(*writer);
            match &nodes[i] {
                Node::Element(element) => {
                    self.write_element(writer, *element, depth);
                    proof {
                        let one = seq![NodeView::Element(*element)];
                        assert(one.drop_last() =~= Seq::<NodeView>::empty());
                        assert(one.last() == NodeView::Element(*element));
                        assert(self@.emit(before, one.drop_last(), depth as nat) == before);
                    }
                },
                Node::Text(text) => {
                    let bytes = escape(text.as_str().as_bytes());
                    writer.write_text(bytes.as_slice());
                },
                Node::DocType(text) => {
                    let mut raw = vstd::slice::slice_to_vec(" ".as_bytes());
                    let mut content = vstd::slice::slice_to_vec(text.as_str().as_bytes());
                    raw.append(&mut content);
                    assert(raw@ =~= bytes_of(" ") + encode_utf8(text@));
                    writer.write_doctype(raw.as_slice());
                },
                Node::Comment(text) => {
                    writer.write_comment(text.as_str().as_bytes());
                },
                Node::CData(text) => {
                    writer.write_cdata(text.as_str().as_bytes());
                },
                Node::PI(text) => {
                    writer.write_pi(text.as_str().as_bytes());
                },
            }
            i += 1;
        }
        assert(all.take(i as int) =~= all);
    }

    /// The bytes of the document as XML, written with `opts`.
    fn render(&self, opts: WriteOptions) -> (r: Vec<u8>)
        requires
            self.wf(),
            self@.can_indent(opts),
        ensures
            r@ == self@.rendered(opts),
    {
        let container = self.container();
        let mut writer = XmlWriter::new(opts.indent_char, opts.indent_size);
        if opts.write_decl {
            self.write_decl(&mut writer);
        }
        let nodes = container.children(self);
        proof {
            self.lemma_wf();
            assert forall|i: int| 0 <= i < nodes@.len() implies ((#[trigger] nodes@[i])@ matches NodeView::Element(
                e,
            ) ==> self@.has(e)) by {
                assert(self@.linked_down(container, i));
                assert(nodes_view(nodes@)[i] == nodes@[i]@);
            }
        }
        let depth = self.len();
        self.write_nodes(&mut writer, nodes, depth);
        writer.write_eof();
        writer.into_bytes()
    }

    /// Whether the indentation of the options fits the writer.
    fn can_indent(&self, opts: WriteOptions) -> (r: bool)
        ensures
            r == self@.can_indent(opts),
    {
        let count = self.len();
        if opts.indent_size == 0 {
            assert(opts.indent_size * (count + 1) == 0) by (nonlinear_arith)
                requires
                    opts.indent_size == 0,
            ;
            true
        } else {
            let most = (isize::MAX as usize) / opts.indent_size;
            let size = opts.indent_size;
            proof {
                assert(count < most <==> size * (count + 1) <= isize::MAX as int) by (nonlinear_arith)
                    requires
                        size > 0,
                        count >= 0,
                        most == (isize::MAX as int) / (size as int),
                ;
            }
            count < most
        }
    }

    /// Appends the document as XML to `writer`, written with `opts`.
    ///
    /// Fails with [`Error::MalformedXML`] where the indentation is too wide for the
    /// writer; nothing is written then.
    pub fn write_with_opts(&self, writer: &mut Vec<u8>, opts: WriteOptions) -> (r: Result<()>)
        requires
            self.wf(),
        ensures
            match r {
                Ok(_) => self@.can_indent(opts) && final(writer)@ == old(writer)@ + self@.rendered(
                    opts,
                ),
                Err(error) => !self@.can_indent(opts) && error@ == indent_error() && final(writer)@ == old(writer)@,
            },
    {
        if !self.can_indent(opts) {
            return Err(Error::malformed("Indentation is too wide"));
        }
        let mut bytes = self.render(opts);
        writer.append(&mut bytes);
        Ok(())
    }

    /// Appends the document as XML to `writer`, written with the default options.
    pub fn write(&self, writer: &mut Vec<u8>) -> (r: Result<()>)
        requires
            self.wf(),
        ensures
            match r {
                Ok(_) => self@.can_indent(WriteOptions::default()) && final(writer)@ == old(writer)@ + self@.rendered(WriteOptions::default()),
                Err(error) => !self@.can_indent(WriteOptions::default()) && error@
                    == indent_error() && final(writer)@ == old(writer)@,
            },
    {
        self.write_with_opts(writer, WriteOptions::default())
    }

    /// What `write_str_with_opts` returns: the document as XML, as text. The bytes are
    /// no text where the byte to indent with is none.
    pub open spec fn written_text(self, opts: WriteOptions) -> std::result::Result<Seq<char>, ErrorView> {
        if !self@.can_indent(opts) {
            Err(indent_error())
        } else {
            match utf8_text(self@.rendered(opts)) {
                Some(text) => Ok(text),
                None => Err(ErrorView::CannotDecode),
            }
        }
    }

    /// The document as XML, written with `opts`.
    ///
    /// Fails with [`Error::MalformedXML`] where the indentation is too wide for the
    /// writer, and with [`Error::CannotDecode`] where what was written is not UTF-8.
    pub fn write_str_with_opts(&self, opts: WriteOptions) -> (r: Result<String>)
        requires
            self.wf(),
        ensures
            match r {
                Ok(text) => self.written_text(opts) == Ok::<Seq<char>, ErrorView>(text@),
                Err(error) => self.written_text(opts) == Err::<Seq<char>, ErrorView>(error@),
            },
    {
        if !self.can_indent(opts) {
            return Err(Error::malformed("Indentation is too wide"));
        }
        match string_from_utf8(self.render(opts)) {
            Some(text) => Ok(text),
            None => Err(Error::CannotDecode),
        }
    }

    /// The document as XML, written with the default options.
    pub fn write_str(&self) -> (r: Result<String>)
        requires
            self.wf(),
        ensures
            match r {
                Ok(text) => self.written_text(WriteOptions::default()) == Ok::<
                    Seq<char>,
                    ErrorView,
                >(text@),
                Err(error) => self.written_text(WriteOptions::default()) == Err::<
                    Seq<char>,
                    ErrorView,
                >(error@),
            },
    {
        self.write_str_with_opts(WriteOptions::default())
    }
}

} // verus!
