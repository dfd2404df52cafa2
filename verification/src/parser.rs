use vstd::prelude::*;
use crate::encoding::{label_charset, raw_end, spoiled, stream, Charset};
use crate::error::{lemma_failure_is_reading_error, Error, ErrorView, Failure, Result};
use crate::names::{with_entry, Entries, NameMap};
use crate::space::{all_space, only_has_whitespace};
use crate::text::{
    after_prefix, bytes_of, str_eq, string_from_utf8, strip_prefix, utf8_text,
};
use crate::reader::DecodeReader;
use crate::sniff::{
    lemma_mark_fits, lemma_signature_of_start, signature, sniff, Signature, Utf16,
};
use crate::tokens::{
    bytes_view, charset_name, is_resolved, resolved, shows_item, taken_by, takes_item, tokenized,
    tokenizer_state, Attribute, Declaration, EventView, ItemView, RawItem, RawValue, Tag, Token,
    Tokenizer,
};
use crate::tree::{Document, DocumentView, Element, ElementView, Node, NodeView};

verus! {

/// What the parser does with what it reads.
#[derive(Debug, Clone, PartialEq, Eq)]
pub struct ReadOptions {
    /// Give `<tag></tag>` an empty text node as its child, so that it differs from
    /// `<tag/>`. Default: `true`.
    pub empty_text_node: bool,
    /// Drop white space at the start and at the end of text, and text that is empty
    /// then. Default: `true`.
    pub trim_text: bool,
    /// Drop text that is nothing but white space. Makes a difference only without
    /// `trim_text`. Default: `false`.
    pub ignore_whitespace_only: bool,
    /// Fail if the document does not start with an XML declaration. Default: `true`.
    pub require_decl: bool,
    /// The label of the encoding to start reading with. The encoding that the XML
    /// declaration names takes over if it is another. Default: `None`.
    pub encoding: Option<String>,
}

impl ReadOptions {
    /// The default options.
    pub open spec fn spec_default() -> ReadOptions {
        ReadOptions {
            empty_text_node: true,
            trim_text: true,
            ignore_whitespace_only: false,
            require_decl: true,
            encoding: None,
        }
    }

    /// The default options.
    #[verifier::when_used_as_spec(spec_default)]
    pub fn default() -> (r: ReadOptions)
        ensures
            r == ReadOptions::default(),
    {
        ReadOptions {
            empty_text_node: true,
            trim_text: true,
            ignore_whitespace_only: false,
            require_decl: true,
            encoding: None,
        }
    }
}

/// The kinds of nodes that hold text.
#[derive(Debug, Clone, Copy, PartialEq, Eq, Structural)]
pub enum Kind {
    Text,
    Comment,
    CData,
    PI,
    DocType,
}

impl Kind {
    /// The node of this kind with the content `text`.
    pub open spec fn node(self, text: Seq<char>) -> NodeView {
        match self {
            Kind::Text => NodeView::Text(text),
            Kind::Comment => NodeView::Comment(text),
            Kind::CData => NodeView::CData(text),
            Kind::PI => NodeView::PI(text),
            Kind::DocType => NodeView::DocType(text),
        }
    }

    /// The node of this kind with the content `text`.
    pub fn make(self, text: String) -> (r: Node)
        ensures
            r@ == self.node(text@),
    {
        match self {
            Kind::Text => Node::Text(text),
            Kind::Comment => Node::Comment(text),
            Kind::CData => Node::CData(text),
            Kind::PI => Node::PI(text),
            Kind::DocType => Node::DocType(text),
        }
    }
}

/// The attributes and the namespace declarations that a tag gives its element.
pub struct Parts {
    pub attributes: Entries,
    pub namespace_decls: Entries,
}

impl Parts {
    /// The parts with one more attribute of the tag. The key `xmlns` declares the
    /// default namespace, a key that starts with `xmlns:` declares the namespace of the
    /// prefix behind it, and any other key is an attribute of the element.
    pub open spec fn with(self, key: Seq<char>, value: Seq<char>) -> Parts {
        if key == "xmlns"@ {
            Parts { namespace_decls: with_entry(self.namespace_decls, Seq::empty(), value), ..self }
        } else {
            match after_prefix(key, "xmlns:"@) {
                Some(prefix) => Parts {
                    namespace_decls: with_entry(self.namespace_decls, prefix, value),
                    ..self
                },
                None => Parts { attributes: with_entry(self.attributes, key, value), ..self },
            }
        }
    }
}

/// Key and value of an attribute as text. What the tokenizer could not read is its
/// error; a key or a value that is not UTF-8 cannot be decoded; a value whose references
/// could not be resolved is its error.
pub open spec fn attribute_entry(item: Result<Attribute>) -> std::result::Result<
    (Seq<char>, Seq<char>),
    ErrorView,
> {
    match item {
        Err(error) => Err(error@),
        Ok(attribute) => match utf8_text(attribute.key@) {
            None => Err(ErrorView::CannotDecode),
            Some(key) => match attribute.value {
                Err(error) => Err(error@),
                Ok(bytes) => match utf8_text(bytes@) {
                    None => Err(ErrorView::CannotDecode),
                    Some(value) => Ok((key, value)),
                },
            },
        },
    }
}

/// The parts that the attributes of a tag give, or the first error among them.
pub open spec fn tag_parts(items: Seq<Result<Attribute>>) -> std::result::Result<Parts, ErrorView>
    decreases items.len(),
{
    if items.len() == 0 {
        Ok(Parts { attributes: Seq::empty(), namespace_decls: Seq::empty() })
    } else {
        match tag_parts(items.drop_last()) {
            Err(error) => Err(error),
            Ok(parts) => match attribute_entry(items.last()) {
                Err(error) => Err(error),
                Ok((key, value)) => Ok(parts.with(key, value)),
            },
        }
    }
}

/// The record of the element that a tag stands for, or the first error in the tag,
/// its name first.
pub open spec fn tag_element(tag: Tag) -> std::result::Result<ElementView, ErrorView> {
    match utf8_text(tag.name@) {
        None => Err(ErrorView::CannotDecode),
        Some(name) => match tag_parts(tag.attributes@) {
            Err(error) => Err(error),
            Ok(parts) => Ok(ElementView::fresh(name, parts.attributes, parts.namespace_decls)),
        },
    }
}

/// The error of an event that finds no open element.
pub open spec fn tree_error() -> ErrorView {
    ErrorView::MalformedXML("Malformed Element Tree"@)
}

/// The error of a declaration that is not the first thing in the document.
pub open spec fn late_declaration_error() -> ErrorView {
    ErrorView::MalformedXML("XML declaration found in the middle of the document"@)
}

/// `bytes` without the one space that they may start with.
pub open spec fn without_leading_space(bytes: Seq<u8>) -> Seq<u8> {
    if bytes.len() > 0 && bytes[0] == 0x20 {
        bytes.skip(1)
    } else {
        bytes
    }
}

/// What a result with a flag holds.
pub open spec fn flag_view(r: Result<bool>) -> std::result::Result<bool, ErrorView> {
    match r {
        Ok(flag) => Ok(flag),
        Err(error) => Err(error@),
    }
}

/// What a result with an element holds.
pub open spec fn element_view(r: Result<Element>) -> std::result::Result<Element, ErrorView> {
    match r {
        Ok(element) => Ok(element),
        Err(error) => Err(error@),
    }
}

/// What a result without a value holds.
pub open spec fn unit_view(r: Result<()>) -> std::result::Result<(), ErrorView> {
    match r {
        Ok(_) => Ok(()),
        Err(error) => Err(error@),
    }
}

/// What the parser holds: the document as far as it is built, the elements that are
/// open, innermost last, and the name of the encoding that the declaration asks for.
pub struct ParserView {
    pub doc: DocumentView,
    pub stack: Seq<Element>,
    pub encoding: Option<Seq<char>>,
}

impl ParserView {
    /// After a node was added to the innermost open element. Without an open element
    /// the tree is malformed.
    pub open spec fn append(self, node: NodeView) -> (ParserView, std::result::Result<bool, ErrorView>) {
        if self.stack.len() == 0 {
            (self, Err(tree_error()))
        } else {
            let parent = self.stack.last();
            (
                ParserView {
                    doc: self.doc.attach(parent, self.doc.children(parent).len() as int, node),
                    ..self
                },
                Ok(false),
            )
        }
    }

    /// After a node of `kind` with the text that `content` encodes was added. An error
    /// in the content comes first, then content that is not UTF-8.
    pub open spec fn append_content(
        self,
        content: std::result::Result<Seq<u8>, ErrorView>,
        kind: Kind,
    ) -> (ParserView, std::result::Result<bool, ErrorView>) {
        match content {
            Err(error) => (self, Err(error)),
            Ok(bytes) => match utf8_text(bytes) {
                None => (self, Err(ErrorView::CannotDecode)),
                Some(text) => self.append(kind.node(text)),
            },
        }
    }

    /// After the element of `tag` was made and added to `parent`.
    pub open spec fn create(self, parent: Element, tag: Tag) -> (
        ParserView,
        std::result::Result<Element, ErrorView>,
    ) {
        match tag_element(tag) {
            Err(error) => (self, Err(error)),
            Ok(data) => {
                let element = Element::nth(self.doc.elements.len());
                let grown = self.doc.with_element(data);
                (
                    ParserView {
                        doc: grown.attach(
                            parent,
                            grown.children(parent).len() as int,
                            NodeView::Element(element),
                        ),
                        ..self
                    },
                    Ok(element),
                )
            },
        }
    }

    /// After a start tag: its element is added to the innermost open element, and is
    /// open itself if `keep_open`.
    pub open spec fn open(self, tag: Tag, keep_open: bool) -> (
        ParserView,
        std::result::Result<bool, ErrorView>,
    ) {
        if self.stack.len() == 0 {
            (self, Err(tree_error()))
        } else {
            let (next, made) = self.create(self.stack.last(), tag);
            match made {
                Err(error) => (next, Err(error)),
                Ok(element) => (
                    if keep_open {
                        ParserView { stack: next.stack.push(element), ..next }
                    } else {
                        next
                    },
                    Ok(false),
                ),
            }
        }
    }

    /// After an end tag: the innermost open element is closed. If it has no children
    /// and `empty_text_node` is set, it gets an empty text node.
    pub open spec fn close(self, empty_text_node: bool) -> (
        ParserView,
        std::result::Result<bool, ErrorView>,
    ) {
        if self.stack.len() == 0 {
            (self, Err(tree_error()))
        } else {
            let element = self.stack.last();
            (
                ParserView {
                    doc: if empty_text_node && self.doc.children(element).len() == 0 {
                        self.doc.attach(element, 0, NodeView::Text(Seq::empty()))
                    } else {
                        self.doc
                    },
                    stack: self.stack.drop_last(),
                    ..self
                },
                Ok(false),
            )
        }
    }

    /// After one token of the content, with whether the text is at its end.
    ///
    /// Text that is empty is dropped, and so is text of white space with
    /// `ignore_whitespace_only`. A document type declaration loses the one space that it
    /// may start with. An XML declaration is an error here.
    pub open spec fn handle(self, options: ReadOptions, token: Token) -> (
        ParserView,
        std::result::Result<bool, ErrorView>,
    ) {
        match token {
            Token::Start(tag) => self.open(tag, true),
            Token::End => self.close(options.empty_text_node),
            Token::Empty(tag) => self.open(tag, false),
            Token::Text { raw, content } => if (options.ignore_whitespace_only && all_space(raw@))
                || raw@.len() == 0 {
                (self, Ok(false))
            } else {
                self.append_content(bytes_view(content), Kind::Text)
            },
            Token::Comment(raw) => self.append_content(Ok(raw@), Kind::Comment),
            Token::CData(content) => self.append_content(bytes_view(content), Kind::CData),
            Token::PI(raw) => self.append_content(Ok(raw@), Kind::PI),
            Token::DocType(content) => self.append_content(
                match bytes_view(content) {
                    Ok(bytes) => Ok(without_leading_space(bytes)),
                    Err(error) => Err(error),
                },
                Kind::DocType,
            ),
            Token::Decl(_) => (self, Err(late_declaration_error())),
            Token::Eof => (self, Ok(true)),
        }
    }
}

/// The lower-case form of an ASCII letter; any other byte as it is.
pub open spec fn lower(byte: u8) -> u8 {
    if 0x41 <= byte <= 0x5a {
        (byte + 0x20) as u8
    } else {
        byte
    }
}

/// Whether `bytes` spell `word`, whatever the case of their letters.
pub open spec fn spells(bytes: Seq<u8>, word: Seq<u8>) -> bool {
    bytes.len() == word.len() && forall|i: int| 0 <= i < bytes.len() ==> lower(#[trigger] bytes[i]) == word[i]
}

/// The error of a `standalone` that says neither yes nor no.
pub open spec fn standalone_error() -> ErrorView {
    ErrorView::MalformedXML("Standalone Document Declaration has non boolean value"@)
}

/// What `standalone` says: `yes` or `no`, whatever the case of the letters; without
/// it the document does not stand alone.
pub open spec fn declared_standalone(item: Option<Result<Vec<u8>>>) -> std::result::Result<
    bool,
    ErrorView,
> {
    match item {
        None => Ok(false),
        Some(Err(error)) => Err(error@),
        Some(Ok(bytes)) => if utf8_text(bytes@) is None {
            Err(ErrorView::CannotDecode)
        } else if spells(bytes@, bytes_of("yes")) {
            Ok(true)
        } else if spells(bytes@, bytes_of("no")) {
            Ok(false)
        } else {
            Err(standalone_error())
        },
    }
}

/// The name of the encoding that the declaration asks for: none for UTF-8, which
/// needs no decoder. A label that names no encoding cannot be decoded.
pub open spec fn declared_encoding(item: Option<Result<Option<Charset>>>) -> std::result::Result<
    Option<Seq<char>>,
    ErrorView,
> {
    match item {
        None => Ok(None),
        Some(Err(error)) => Err(error@),
        Some(Ok(None)) => Err(ErrorView::CannotDecode),
        Some(Ok(Some(charset))) => if charset@ == "UTF-8"@ {
            Ok(None)
        } else {
            Ok(Some(charset@))
        },
    }
}

impl ParserView {
    /// After the XML declaration: version, encoding and `standalone` are taken in this
    /// order, and what was taken before an error stays.
    pub open spec fn declare(self, decl: Declaration) -> (ParserView, std::result::Result<(), ErrorView>) {
        match bytes_view(decl.version) {
            Err(error) => (self, Err(error)),
            Ok(bytes) => match utf8_text(bytes) {
                None => (self, Err(ErrorView::CannotDecode)),
                Some(version) => {
                    let versioned = ParserView {
                        doc: DocumentView { version, ..self.doc },
                        ..self
                    };
                    match declared_encoding(decl.encoding) {
                        Err(error) => (versioned, Err(error)),
                        Ok(encoding) => {
                            let encoded = ParserView { encoding, ..versioned };
                            match declared_standalone(decl.standalone) {
                                Err(error) => (encoded, Err(error)),
                                Ok(standalone) => (
                                    ParserView {
                                        doc: DocumentView { standalone, ..encoded.doc },
                                        ..encoded
                                    },
                                    Ok(()),
                                ),
                            }
                        },
                    }
                },
            }
        }
    }
}

/// Whether `bytes` spell `word`, whatever the case of their letters.
fn spells_word(bytes: &[u8], word: &[u8]) -> (r: bool)
    ensures
        r == spells(bytes@, word@),
{
    if bytes.len() != word.len() {
        return false;
    }
    let mut i: usize = 0;
    while i < bytes.len()
        invariant
            i <= bytes@.len(),
            bytes@.len() == word@.len(),
            forall|j: int| 0 <= j < i ==> lower(#[trigger] bytes@[j]) == word@[j],
        decreases bytes@.len() - i,
    {
        let byte = bytes[i];
        let low = if 0x41 <= byte && byte <= 0x5a { byte + 0x20 } else { byte };
        if low != word[i] {
            return false;
        }
        i += 1;
    }
    true
}

/// Builds a document from tokens. It holds the document as far as it is built, and
/// the elements that are open, the container first.
pub struct DocumentParser {
    doc: Document,
    read_opts: ReadOptions,
    encoding: Option<Charset>,
    element_stack: Vec<Element>,
    state: State,
    initial: Option<Charset>,
    skipped: bool,
}

impl View for DocumentParser {
    type V = ParserView;

    closed spec fn view(&self) -> ParserView {
        ParserView {
            doc: self.doc@,
            stack: self.element_stack@,
            encoding: match self.encoding {
                Some(charset) => Some(charset@),
                None => None,
            },
        }
    }
}

impl DocumentParser {
    /// The options that the parser works with.
    pub closed spec fn options(&self) -> ReadOptions {
        self.read_opts
    }

    /// Where the parser stands.
    pub closed spec fn spec_state(&self) -> State {
        self.state
    }

    /// What the parser holds as a machine that takes tokens.
    pub closed spec fn machine(&self) -> MachineView {
        MachineView {
            parser: self@,
            state: self.state,
            initial: match self.initial {
                Some(charset) => Some(charset@),
                None => None,
            },
            skipped: self.skipped,
        }
    }

    /// The machine holds what the parser holds.
    pub broadcast proof fn lemma_machine(&self)
        ensures
            (#[trigger] self.machine()).parser == self@,
            self.machine().state == self.state(),
    {
    }

    /// Where the parser stands.
    #[verifier::when_used_as_spec(spec_state)]
    pub fn state(&self) -> (r: State)
        ensures
            r == self.state(),
    {
        self.state
    }

    /// The invariant of the type: the document is well formed and holds every open
    /// element.
    pub closed spec fn wf(&self) -> bool {
        &&& self.doc.wf()
        &&& forall|i: int| 0 <= i < self.element_stack@.len() ==> self.doc@.has(#[trigger] self.element_stack@[i])
    }

    /// A parser at the start of a document: nothing is built, and only the container is
    /// open.
    pub fn new(options: ReadOptions) -> (r: DocumentParser)
        ensures
            r.wf(),
            r.options() == options,
            r.machine() == MachineView::initial(),
            r@ == ParserView::initial(),
    {
        let doc = Document::new();
        let mut element_stack = Vec::new();
        element_stack.push(doc.container());
        let r = DocumentParser {
            doc,
            read_opts: options,
            encoding: None,
            element_stack,
            state: State::SniffEncoding,
            initial: None,
            skipped: false,
        };
        assert(r@.stack =~= seq![Element::top()]);
        assert(r@.doc == ParserView::initial().doc);
        r
    }

    /// The document as far as it is built.
    pub fn into_document(self) -> (r: Document)
        requires
            self.wf(),
        ensures
            r.wf(),
            r@ == self@.doc,
    {
        self.doc
    }

    /// How many elements are open.
    pub fn depth(&self) -> (r: usize)
        ensures
            r == self@.stack.len(),
    {
        self.element_stack.len()
    }

    /// The encoding that the declaration asks for.
    pub fn encoding(&self) -> (r: Option<&Charset>)
        ensures
            match r {
                Some(charset) => self@.encoding == Some(charset@),
                None => self@.encoding is None,
            },
    {
        self.encoding.as_ref()
    }

    /// Adds a node to the innermost open element.
    fn append(&mut self, node: Node) -> (r: Result<bool>)
        requires
            old(self).wf(),
            !(node@ is Element),
        ensures
            final(self).wf(),
            final(self).options() == old(self).options(),
            final(self).machine() == (MachineView { parser: final(self)@, ..old(self).machine() }),
            (final(self)@, flag_view(r)) == old(self)@.append(node@),
    {
        let depth = self.element_stack.len();
        if depth == 0 {
            return Err(Error::malformed("Malformed Element Tree"));
        }
        let parent = self.element_stack[depth - 1];
        let added = parent.push_child(&mut self.doc, node);
        Ok(false)
    }

    /// Adds a node of `kind` with the text that `content` encodes.
    fn append_content(&mut self, content: Result<Vec<u8>>, kind: Kind) -> (r: Result<bool>)
        requires
            old(self).wf(),
        ensures
            final(self).wf(),
            final(self).options() == old(self).options(),
            final(self).machine() == (MachineView { parser: final(self)@, ..old(self).machine() }),
            (final(self)@, flag_view(r)) == old(self)@.append_content(bytes_view(content), kind),
    {
        match content {
            Err(error) => Err(error),
            Ok(bytes) => match string_from_utf8(bytes) {
                None => Err(Error::CannotDecode),
                Some(text) => self.append(kind.make(text)),
            },
        }
    }

    /// Takes what the XML declaration says: the version, the encoding and whether the
    /// document stands alone.
    pub fn handle_decl(&mut self, decl: Declaration) -> (r: Result<()>)
        requires
            old(self).wf(),
        ensures
            final(self).wf(),
            final(self).options() == old(self).options(),
            final(self).machine() == (MachineView { parser: final(self)@, ..old(self).machine() }),
            (final(self)@, unit_view(r)) == old(self)@.declare(decl),
    {
        let Declaration { version, encoding, standalone } = decl;
        let version = match version {
            Err(error) => {
                return Err(error);
            },
            Ok(bytes) => match string_from_utf8(bytes) {
                None => {
                    return Err(Error::CannotDecode);
                },
                Some(text) => text,
            },
        };
        self.doc.set_version(version);
        match encoding {
            None => {
                self.encoding = None;
            },
            Some(Err(error)) => {
                return Err(error);
            },
            Some(Ok(None)) => {
                return Err(Error::CannotDecode);
            },
            Some(Ok(Some(charset))) => {
                if str_eq(charset.name(), "UTF-8") {
                    self.encoding = None;
                } else {
                    self.encoding = Some(charset);
                }
            },
        }
        let standalone = match standalone {
            None => false,
            Some(Err(error)) => {
                return Err(error);
            },
            Some(Ok(bytes)) => {
                let is_yes = spells_word(bytes.as_slice(), "yes".as_bytes());
                let is_no = spells_word(bytes.as_slice(), "no".as_bytes());
                if string_from_utf8(bytes).is_none() {
                    return Err(Error::CannotDecode);
                } else if is_yes {
                    true
                } else if is_no {
                    false
                } else {
                    return Err(
                        Error::malformed("Standalone Document Declaration has non boolean value"),
                    );
                }
            },
        };
        self.doc.set_standalone(standalone);
        Ok(())
    }

    /// Makes the element of a tag and adds it to `parent`.
    ///
    /// The attributes `xmlns` and `xmlns:…` become namespace declarations of the
    /// element, the others its attributes. With an error nothing is made.
    pub fn create_element(&mut self, parent: Element, tag: Tag) -> (r: Result<Element>)
        requires
            old(self).wf(),
            old(self)@.doc.has(parent),
        ensures
            final(self).wf(),
            final(self).options() == old(self).options(),
            final(self).machine() == (MachineView { parser: final(self)@, ..old(self).machine() }),
            (final(self)@, element_view(r)) == old(self)@.create(parent, tag),
            r matches Ok(element) ==> final(self)@.doc.has(element),
    {
        let Tag { name, attributes: mut items } = tag;
        let full_name = match string_from_utf8(name) {
            None => {
                return Err(Error::CannotDecode);
            },
            Some(text) => text,
        };
        let mut attributes = NameMap::new();
        let mut namespace_decls = NameMap::new();
        let ghost all = items@;
        let ghost mut done: int = 0;
        assert(all.take(0) =~= Seq::empty());
        assert(all.skip(0) =~= all);
        while items.len() > 0
            invariant
                0 <= done <= all.len(),
                items@ == all.skip(done),
                attributes.wf(),
                namespace_decls.wf(),
                tag_parts(all.take(done)) == Ok::<Parts, ErrorView>(
                    Parts { attributes: attributes@, namespace_decls: namespace_decls@ },
                ),
                *self == *old(self),
                self.wf(),
                self@.doc.has(parent),
                all == tag.attributes@,
                utf8_text(tag.name@) == Some(full_name@),
            decreases items.len(),
        {
            let item = items.remove(0);
            proof {
                assert(item == all[done]);
                assert(all.take(done + 1).drop_last() =~= all.take(done));
                assert(all.take(done + 1).last() == all[done]);
                assert(items@ =~= all.skip(done + 1));
                lemma_first_error_stays(all, done + 1);
            }
            let attribute = match item {
                Err(error) => {
                    return Err(error);
                },
                Ok(attribute) => attribute,
            };
            let Attribute { key, value } = attribute;
            let key = match string_from_utf8(key) {
                None => {
                    return Err(Error::CannotDecode);
                },
                Some(text) => text,
            };
            let value = match value {
                Err(error) => {
                    return Err(error);
                },
                Ok(bytes) => match string_from_utf8(bytes) {
                    None => {
                        return Err(Error::CannotDecode);
                    },
                    Some(text) => text,
                },
            };
            if str_eq(key.as_str(), "xmlns") {
                namespace_decls.insert(String::new(), value);
            } else {
                match strip_prefix(key.as_str(), "xmlns:") {
                    Some(prefix) => {
                        let prefix = prefix.to_owned();
                        namespace_decls.insert(prefix, value);
                    },
                    None => {
                        attributes.insert(key, value);
                    },
                }
            }
            proof {
                done = done + 1;
            }
        }
        assert(all.take(done) =~= all);
        let element = Element::with_data(&mut self.doc, full_name, attributes, namespace_decls);
        let added = parent.push_child(&mut self.doc, Node::Element(element));
        proof {
            broadcast use Element::lemma_nth;

        }
        Ok(element)
    }

    /// Takes one token of the content. Returns whether the text is at its end.
    pub fn handle_event(&mut self, token: Token) -> (r: Result<bool>)
        requires
            old(self).wf(),
        ensures
            final(self).wf(),
            final(self).options() == old(self).options(),
            final(self).machine() == (MachineView { parser: final(self)@, ..old(self).machine() }),
            (final(self)@, flag_view(r)) == old(self)@.handle(old(self).options(), token),
    {
        match token {
            Token::Start(tag) => {
                let depth = self.element_stack.len();
                if depth == 0 {
                    return Err(Error::malformed("Malformed Element Tree"));
                }
                let parent = self.element_stack[depth - 1];
                match self.create_element(parent, tag) {
                    Err(error) => Err(error),
                    Ok(element) => {
                        self.element_stack.push(element);
                        Ok(false)
                    },
                }
            },
            Token::End => {
                let element = match self.element_stack.pop() {
                    None => {
                        return Err(Error::malformed("Malformed Element Tree"));
                    },
                    Some(element) => element,
                };
                assert(self.element_stack@ =~= old(self).element_stack@.drop_last());
                if self.read_opts.empty_text_node {
                    if !element.has_children(&self.doc) {
                        let added = element.push_child(&mut self.doc, Node::Text(String::new()));
                    }
                }
                Ok(false)
            },
            Token::Empty(tag) => {
                let depth = self.element_stack.len();
                if depth == 0 {
                    return Err(Error::malformed("Malformed Element Tree"));
                }
                let parent = self.element_stack[depth - 1];
                match self.create_element(parent, tag) {
                    Err(error) => Err(error),
                    Ok(_) => Ok(false),
                }
            },
            Token::Text { raw, content } => {
                if self.read_opts.ignore_whitespace_only && only_has_whitespace(raw.as_slice()) {
                    return Ok(false);
                }
                if raw.len() == 0 {
                    return Ok(false);
                }
                self.append_content(content, Kind::Text)
            },
            Token::Comment(raw) => self.append_content(Ok(raw), Kind::Comment),
            Token::CData(content) => self.append_content(content, Kind::CData),
            Token::PI(raw) => self.append_content(Ok(raw), Kind::PI),
            Token::DocType(content) => {
                let content = match content {
                    Ok(bytes) => {
                        let mut bytes = bytes;
                        let ghost whole = bytes@;
                        if bytes.len() > 0 && bytes[0] == 0x20 {
                            bytes.remove(0);
                            assert(bytes@ =~= without_leading_space(whole));
                        }
                        Ok(bytes)
                    },
                    Err(error) => Err(error),
                };
                self.append_content(content, Kind::DocType)
            },
            Token::Decl(_) => Err(
                Error::malformed("XML declaration found in the middle of the document"),
            ),
            Token::Eof => Ok(true),
        }
    }
}

/// Where the parser stands.
#[derive(Debug, Clone, Copy, PartialEq, Eq, Structural)]
pub enum State {
    /// Nothing is read: the first bytes will tell the encoding.
    SniffEncoding,
    /// The encoding to start with is known: the first token may be the XML declaration.
    AwaitDeclaration,
    /// The prolog is read: the tokens that follow are content.
    StreamingContent,
    /// The text is at its end and every element is closed.
    Done,
    /// An error stopped the parser.
    Failed,
}

/// Whether reading goes on with another decoder after a declaration that names an
/// encoding: it does if the declared encoding is not the one that reading started with,
/// unless the declaration says UTF-16 with the little end first, as the plain label
/// `UTF-16` does, and the byte order mark showed the big end first.
pub open spec fn switches(declared: Option<Seq<char>>, initial: Option<Seq<char>>) -> bool {
    declared != initial && !(declared == Some("UTF-16LE"@) && initial == Some("UTF-16BE"@))
}

/// Whether two optional encodings are the same.
fn same_charset(a: Option<&Charset>, b: Option<&Charset>) -> (r: bool)
    ensures
        r == (match a {
            Some(x) => Some(x@),
            None => None,
        } == match b {
            Some(y) => Some(y@),
            None => None,
        }),
{
    match a {
        Some(x) => match b {
            Some(y) => str_eq(x.name(), y.name()),
            None => false,
        },
        None => b.is_none(),
    }
}

/// Whether an optional encoding has the name `name`.
fn is_charset(a: Option<&Charset>, name: &str) -> (r: bool)
    ensures
        r == (a matches Some(x) && x@ == name@),
{
    match a {
        Some(x) => str_eq(x.name(), name),
        None => false,
    }
}

/// Whether reading goes on with another decoder after the declaration.
pub fn must_switch(declared: Option<&Charset>, initial: Option<&Charset>) -> (r: bool)
    ensures
        r == switches(
            match declared {
                Some(x) => Some(x@),
                None => None,
            },
            match initial {
                Some(y) => Some(y@),
                None => None,
            },
        ),
{
    !same_charset(declared, initial) && !(is_charset(declared, "UTF-16LE") && is_charset(
        initial,
        "UTF-16BE",
    ))
}

/// The encoding that reading starts with, by what the first bytes show: UTF-16 in the
/// flavour that they show, else none, which hands the bytes on as UTF-8.
pub fn initial_charset(found: Signature) -> (r: Option<Charset>)
    ensures
        match found.utf16() {
            Some(Utf16::BigEndian) => r matches Some(c) && c@ == "UTF-16BE"@,
            Some(Utf16::LittleEndian) => r matches Some(c) && c@ == "UTF-16LE"@,
            None => r is None,
        },
{
    match found.utf16() {
        Some(Utf16::BigEndian) => Some(Charset::utf_16be()),
        Some(Utf16::LittleEndian) => Some(Charset::utf_16le()),
        None => None,
    }
}

impl ParserView {
    /// What a parser holds before it has read anything: an empty document, with the
    /// container as the one open element.
    pub open spec fn initial() -> ParserView {
        ParserView {
            doc: DocumentView {
                elements: seq![ElementView::fresh(Seq::empty(), Seq::empty(), Seq::empty())],
                version: "1.0"@,
                standalone: false,
            },
            stack: seq![Element::top()],
            encoding: None,
        }
    }

    /// After the tokens of `tokens` were taken as content, one after the other.
    pub open spec fn handle_all(self, options: ReadOptions, tokens: Seq<Token>) -> ParserView
        decreases tokens.len(),
    {
        if tokens.len() == 0 {
            self
        } else {
            self.handle_all(options, tokens.drop_last()).handle(options, tokens.last()).0
        }
    }

    /// Whether the tokens of `tokens` are tokens that the parser takes for events of the
    /// tokenizer, all taken without an error, and the last of them, and no other, ends
    /// the text.
    pub open spec fn reads(self, options: ReadOptions, tokens: Seq<Token>) -> bool {
        &&& tokens.len() > 0
        &&& forall|i: int| 0 <= i < tokens.len() ==> (#[trigger] tokens[i]).is_cooked()
        &&& forall|i: int|
            0 <= i < tokens.len() ==> (#[trigger] self.handle_all(options, tokens.take(i)).handle(
                options,
                tokens[i],
            )).1 == Ok::<bool, ErrorView>(i == tokens.len() - 1)
    }

    /// Whether this is what the parser holds when it has read a whole document: the
    /// parser took a declaration or none, then some tokens as content without an error
    /// up to the end of the text, and only the container is open.
    pub open spec fn is_read(self, options: ReadOptions) -> bool {
        exists|start: ParserView, tokens: Seq<Token>|
            {
                &&& start == ParserView::initial() || (exists|decl: Declaration|
                    decl.is_cooked() && #[trigger] ParserView::initial().declare(decl) == (
                        start,
                        Ok::<(), ErrorView>(()),
                    ))
                &&& #[trigger] start.reads(options, tokens)
                &&& self == start.handle_all(options, tokens)
            }
    }
}

/// A start tag with its end tag right behind it makes an element whose one child is an
/// empty text, if the options ask for that; a tag that is start and end in one makes an
/// element without children. Either way the open elements are the same afterwards.
pub proof fn lemma_empty_text_is_read(p: ParserView, options: ReadOptions, tag: Tag)
    requires
        p.stack.len() > 0,
        p.doc.has(p.stack.last()),
        p.doc.elements.len() < usize::MAX,
        tag_element(tag) is Ok,
    ensures
        ({
            let made = Element::nth(p.doc.elements.len());
            let paired = p.handle(options, Token::Start(tag)).0.handle(options, Token::End).0;
            let single = p.handle(options, Token::Empty(tag)).0;
            &&& paired.stack == p.stack
            &&& single.stack == p.stack
            &&& single.doc.children(made) == Seq::<NodeView>::empty()
            &&& paired.doc.children(made) == if options.empty_text_node {
                seq![NodeView::Text(Seq::empty())]
            } else {
                Seq::<NodeView>::empty()
            }
        }),
{
    broadcast use Element::lemma_nth, Element::lemma_same_index;

    let made = Element::nth(p.doc.elements.len());
    let parent = p.stack.last();
    let data = tag_element(tag)->Ok_0;
    let grown = p.doc.with_element(data);
    let attached = grown.attach(parent, grown.children(parent).len() as int, NodeView::Element(made));
    assert(made.index() == p.doc.elements.len());
    assert(grown.get(made) == data);
    assert(attached.children(made) == Seq::<NodeView>::empty());
    let opened = p.handle(options, Token::Start(tag)).0;
    assert(opened.doc == attached);
    assert(opened.stack == p.stack.push(made));
    assert(opened.stack.drop_last() =~= p.stack);
    if options.empty_text_node {
        let closed = attached.attach(made, 0, NodeView::Text(Seq::empty()));
        assert(closed.children(made) =~= seq![NodeView::Text(Seq::empty())]);
    }
}

/// Tokens that are read as content stay read when one more is taken without an error.
pub proof fn lemma_reads_more(start: ParserView, options: ReadOptions, tokens: Seq<Token>, token: Token, end: bool)
    requires
        forall|i: int|
            0 <= i < tokens.len() ==> (#[trigger] start.handle_all(options, tokens.take(i)).handle(
                options,
                tokens[i],
            )).1 == Ok::<bool, ErrorView>(false),
        start.handle_all(options, tokens).handle(options, token).1 == Ok::<bool, ErrorView>(end),
    ensures
        start.handle_all(options, tokens.push(token)) == start.handle_all(options, tokens).handle(
            options,
            token,
        ).0,
        forall|i: int|
            0 <= i < tokens.len() + 1 ==> (#[trigger] start.handle_all(
                options,
                tokens.push(token).take(i),
            ).handle(options, tokens.push(token)[i])).1 == Ok::<bool, ErrorView>(
                if i == tokens.len() {
                    end
                } else {
                    false
                },
            ),
{
    let more = tokens.push(token);
    assert(more.drop_last() =~= tokens);
    assert forall|i: int| 0 <= i < tokens.len() + 1 implies (#[trigger] start.handle_all(
        options,
        more.take(i),
    ).handle(options, more[i])).1 == Ok::<bool, ErrorView>(
        if i == tokens.len() {
            end
        } else {
            false
        },
    ) by {
        if i < tokens.len() {
            assert(more.take(i) =~= tokens.take(i));
            assert(more[i] == tokens[i]);
        } else {
            assert(more.take(i) =~= tokens);
        }
    }
}

/// More tokens than a text of the given length can hold: a token takes a byte of the
/// text at least, the end is one more, and decoding makes hardly three bytes of one.
pub open spec fn token_limit(length: nat) -> nat {
    3 * length + 16
}

/// Whether the label of the option `encoding` names no encoding.
pub open spec fn unknown_label(options: ReadOptions) -> bool {
    options.encoding matches Some(label) && label_charset(vstd::utf8::encode_utf8(label@)) is None
}

/// Whether reading cannot even start: the first bytes show no encoding although a
/// declaration is required, or the option `encoding` names none.
pub open spec fn undecodable(input: Seq<u8>, options: ReadOptions) -> bool {
    (signature(input) is None && options.require_decl) || unknown_label(options)
}

/// Whether `doc` is a document that the parser can have read with `options`: what the
/// parser holds after a declaration or none and some tokens up to the end of the text,
/// with only the container open.
pub open spec fn is_parsed(doc: DocumentView, options: ReadOptions) -> bool {
    exists|end: ParserView| #[trigger] end.is_read(options) && end.stack.len() == 1 && end.doc == doc
}

/// The error of a text whose tokens do not end.
pub open spec fn budget_error() -> ErrorView {
    ErrorView::MalformedXML("More tokens than the text can hold"@)
}

/// How many bytes the byte order mark takes, if the first bytes show one.
pub open spec fn mark_of(found: Option<Signature>) -> nat {
    match found {
        Some(signature) => signature.mark_len() as nat,
        None => 0,
    }
}

/// What the labels of character sets name that were looked up for the option
/// `encoding`.
pub open spec fn forced_names(forced: Option<Option<Charset>>) -> Option<Option<Seq<char>>> {
    match forced {
        Some(found) => Some(charset_name(found)),
        None => None,
    }
}

/// The character set that the option `encoding` asks for: none where the option is not
/// set, and the one that its label names, if it names one, where it is.
pub open spec fn forced_charset(options: ReadOptions) -> Option<Option<Seq<char>>> {
    match options.encoding {
        Some(label) => Some(label_charset(vstd::utf8::encode_utf8(label@))),
        None => None,
    }
}

/// What reading a document comes to: the document, or the error that ended it.
pub type Outcome = std::result::Result<DocumentView, ErrorView>;

/// What the parser hands back, as an outcome: the document that it has built, or the
/// error.
pub open spec fn outcome_of(doc: DocumentView, r: Result<()>) -> Outcome {
    match r {
        Ok(_) => Ok(doc),
        Err(error) => Err(error@),
    }
}

/// What a document that was read or an error is, as an outcome.
pub open spec fn outcome_view(r: Result<Document>) -> Outcome {
    match r {
        Ok(doc) => Ok(doc@),
        Err(error) => Err(error@),
    }
}

/// The text that is read after the declaration has asked for another decoder. `body`
/// holds the bytes behind the byte order mark, `made` says how much of the text that
/// reading started with lies behind the tokenizer. The bytes from the place in `body`
/// where that text ends go through a decoder for the declared encoding, from its start.
pub open spec fn text_after(
    initial: Option<Seq<char>>,
    declared: Option<Seq<char>>,
    body: Seq<u8>,
    made: nat,
) -> Seq<u8> {
    stream(declared, body.skip(raw_end(initial, body, made) as int))
}

/// Whether the bytes that are read hold a malformed sequence once the declaration has
/// asked for another decoder: the bytes up to the end of the declaration in the encoding
/// that reading started with, or the bytes behind it in the declared encoding.
pub open spec fn spoilt_after(
    initial: Option<Seq<char>>,
    declared: Option<Seq<char>>,
    body: Seq<u8>,
    made: nat,
) -> bool {
    let end = raw_end(initial, body, made) as int;
    spoiled(initial, body.take(end), false) || spoiled(declared, body.skip(end), true)
}

/// What reading comes to in the end: bytes that hold a malformed sequence cannot be
/// decoded, whatever else was found in them.
pub open spec fn verdict(spoilt: bool, outcome: Outcome) -> Outcome {
    if spoilt {
        Err(ErrorView::CannotDecode)
    } else {
        outcome
    }
}

/// The token that the parser makes of an event that holds `seen`. What the machine
/// does with a token rests on nothing that [`Token::cooks`] leaves open: see
/// [`lemma_same_take`].
pub open spec fn cooked(seen: EventView) -> Token {
    choose|token: Token| token.cooks(seen)
}

/// What the machine `m` comes to when it is fed from `text`, from the answer of the
/// tokenizer with the number `index` on, with no more than `left` tokens to take.
/// `spoilt` says whether the bytes that `text` was made of hold a malformed sequence.
///
/// The tokenizer answers with an event or an error. An error ends reading. Of an event
/// the machine takes the token that the parser makes of it, and the machine's answer
/// says how reading goes on: with the next answer on the same text, with the first answer
/// on the text that the declared encoding makes of the bytes behind the declaration, or
/// not at all, because the document is read or an error was found. When no token may be
/// taken any more, reading ends with an error. However reading ends, bytes with a
/// malformed sequence cannot be decoded.
pub open spec fn run(
    m: MachineView,
    options: ReadOptions,
    body: Seq<u8>,
    text: Seq<u8>,
    spoilt: bool,
    index: nat,
    left: nat,
) -> Outcome
    decreases left,
{
    if left == 0 {
        verdict(spoilt, Err(budget_error()))
    } else {
        match tokenized(text, options.trim_text, index) {
            Err(error) => verdict(spoilt, Err(error)),
            Ok(seen) => match m.take(options, cooked(seen)) {
                (_, Err(error)) => verdict(spoilt, Err(error)),
                (next, Ok(Action::Finish)) => verdict(spoilt, Ok(next.parser.doc)),
                (next, Ok(Action::Continue)) => run(
                    next,
                    options,
                    body,
                    text,
                    spoilt,
                    index + 1,
                    (left - 1) as nat,
                ),
                (next, Ok(Action::Switch)) => run(
                    next,
                    options,
                    body,
                    text_after(
                        next.initial,
                        next.parser.encoding,
                        body,
                        taken_by(text, options.trim_text, index + 1),
                    ),
                    spoilt_after(
                        next.initial,
                        next.parser.encoding,
                        body,
                        taken_by(text, options.trim_text, index + 1),
                    ),
                    0,
                    (left - 1) as nat,
                ),
            },
        }
    }
}

/// What reading `input` comes to for a machine that stands as `m` does.
///
/// The first bytes tell the encoding to start with, and the option `encoding`
/// overrides them. The byte order mark is no part of the text. What lies behind it is
/// decoded and handed to the tokenizer, and the machine takes the tokens up to the end
/// of the text or the first error. Bytes that hold a malformed sequence in the encoding
/// that they are read in cannot be decoded.
pub open spec fn parsed_from(m: MachineView, input: Seq<u8>, options: ReadOptions) -> Outcome {
    let found = signature(input);
    let (begun, started) = m.begin(options, found, forced_charset(options));
    match started {
        Err(error) => Err(error),
        Ok(_) => {
            let body = input.skip(mark_of(found) as int);
            run(
                begun,
                options,
                body,
                stream(begun.initial, body),
                spoiled(begun.initial, body, true),
                0,
                token_limit(input.len()),
            )
        },
    }
}

/// What reading the document in `input` with `options` comes to: what a machine that
/// has read nothing yet makes of it.
pub open spec fn parsed(input: Seq<u8>, options: ReadOptions) -> Outcome {
    parsed_from(MachineView::initial(), input, options)
}

/// What the one who feeds the parser does after a token.
#[derive(Debug, Clone, Copy, PartialEq, Eq, Structural)]
pub enum Action {
    /// Hand over the next token.
    Continue,
    /// Start reading anew behind the declaration, in the declared encoding, then hand
    /// over the next token.
    Switch,
    /// Stop: the document is read.
    Finish,
}

/// The error of a document that does not start with an XML declaration.
pub open spec fn missing_declaration_error() -> ErrorView {
    ErrorView::MalformedXML("Didn't find XML Declaration at the start of file"@)
}

/// The error of a text that ends while an element is open.
pub open spec fn unclosed_error() -> ErrorView {
    ErrorView::MalformedXML("Closing tag not found."@)
}

/// Whether `token` is text that counts for nothing before the first markup: empty text,
/// and white space with `ignore_whitespace_only`.
pub open spec fn droppable(options: ReadOptions, token: Token) -> bool {
    token matches Token::Text { raw, .. } && (raw@.len() == 0 || (options.ignore_whitespace_only
        && all_space(raw@)))
}

/// The name of the encoding that the first bytes ask for: UTF-16 in the flavour that
/// they show, else none, which hands the bytes on as UTF-8.
pub open spec fn sniffed(found: Option<Signature>) -> Option<Seq<char>> {
    match found {
        Some(signature) => match signature.utf16() {
            Some(Utf16::BigEndian) => Some("UTF-16BE"@),
            Some(Utf16::LittleEndian) => Some("UTF-16LE"@),
            None => None,
        },
        None => None,
    }
}

/// What a result with an action holds.
pub open spec fn action_view(r: Result<Action>) -> std::result::Result<Action, ErrorView> {
    match r {
        Ok(action) => Ok(action),
        Err(error) => Err(error@),
    }
}

/// The parser as a machine that takes tokens: what it has built, where it stands, the
/// name of the encoding that reading started with, and whether it has passed over text
/// before the first markup.
pub struct MachineView {
    pub parser: ParserView,
    pub state: State,
    pub initial: Option<Seq<char>>,
    pub skipped: bool,
}

impl MachineView {
    /// The machine before anything is read.
    pub open spec fn initial() -> MachineView {
        MachineView {
            parser: ParserView::initial(),
            state: State::SniffEncoding,
            initial: None,
            skipped: false,
        }
    }

    /// The machine after an error.
    pub open spec fn failed(self) -> MachineView {
        MachineView { state: State::Failed, ..self }
    }

    /// After the first bytes were looked at. Reading starts with the encoding that the
    /// option `encoding` names, if it is set, else with the one that the bytes show.
    /// Bytes that show nothing cannot be decoded where a declaration is required, and
    /// neither can anything with a label that names no encoding.
    pub open spec fn begin(
        self,
        options: ReadOptions,
        found: Option<Signature>,
        forced: Option<Option<Seq<char>>>,
    ) -> (MachineView, std::result::Result<(), ErrorView>) {
        if found is None && options.require_decl {
            (self.failed(), Err(ErrorView::CannotDecode))
        } else {
            match forced {
                Some(None) => (self.failed(), Err(ErrorView::CannotDecode)),
                Some(Some(name)) => (
                    MachineView {
                        state: State::AwaitDeclaration,
                        initial: Some(name),
                        skipped: false,
                        ..self
                    },
                    Ok(()),
                ),
                None => (
                    MachineView {
                        state: State::AwaitDeclaration,
                        initial: sniffed(found),
                        skipped: false,
                        ..self
                    },
                    Ok(()),
                ),
            }
        }
    }

    /// After the first token that counts. An XML declaration is taken, and reading goes
    /// on as content, with another decoder where the declaration names an encoding and
    /// that differs; a declaration that names none leaves the decoder as it is. Anything
    /// else is an error where a declaration is required, and content where it is not.
    pub open spec fn take_first(self, options: ReadOptions, token: Token) -> (
        MachineView,
        std::result::Result<Action, ErrorView>,
    ) {
        match token {
            Token::Decl(decl) => {
                let (parser, taken) = self.parser.declare(decl);
                match taken {
                    Err(error) => (MachineView { parser, ..self }.failed(), Err(error)),
                    Ok(_) => (
                        MachineView { parser, state: State::StreamingContent, ..self },
                        Ok(
                            if decl.encoding is Some && switches(parser.encoding, self.initial) {
                                Action::Switch
                            } else {
                                Action::Continue
                            },
                        ),
                    ),
                }
            },
            _ => if options.require_decl {
                (self.failed(), Err(missing_declaration_error()))
            } else {
                let (parser, taken) = self.parser.handle(options, token);
                match taken {
                    Err(error) => (MachineView { parser, ..self }.failed(), Err(error)),
                    Ok(end) => if end {
                        (MachineView { parser, state: State::Done, ..self }, Ok(Action::Finish))
                    } else {
                        (
                            MachineView { parser, state: State::StreamingContent, ..self },
                            Ok(Action::Continue),
                        )
                    },
                }
            },
        }
    }

    /// After a token of the content. At the end of the text every element must be
    /// closed.
    pub open spec fn take_content(self, options: ReadOptions, token: Token) -> (
        MachineView,
        std::result::Result<Action, ErrorView>,
    ) {
        let (parser, taken) = self.parser.handle(options, token);
        match taken {
            Err(error) => (MachineView { parser, ..self }.failed(), Err(error)),
            Ok(end) => if !end {
                (MachineView { parser, ..self }, Ok(Action::Continue))
            } else if parser.stack.len() == 1 {
                (MachineView { parser, state: State::Done, ..self }, Ok(Action::Finish))
            } else {
                (MachineView { parser, ..self }.failed(), Err(unclosed_error()))
            },
        }
    }

    /// After a token. Before the first token that counts, one empty text, or one text of
    /// white space with `ignore_whitespace_only`, is passed over.
    pub open spec fn take(self, options: ReadOptions, token: Token) -> (
        MachineView,
        std::result::Result<Action, ErrorView>,
    ) {
        if self.state == State::AwaitDeclaration {
            if !self.skipped && droppable(options, token) {
                (MachineView { skipped: true, ..self }, Ok(Action::Continue))
            } else {
                self.take_first(options, token)
            }
        } else {
            self.take_content(options, token)
        }
    }

    /// Whether the machine stands where `tokens`, taken as content after `start`, lead:
    /// none of them has ended the text yet.
    pub open spec fn follows(self, options: ReadOptions, start: ParserView, tokens: Seq<Token>) -> bool {
        &&& self.state == State::StreamingContent
        &&& start == ParserView::initial() || (exists|decl: Declaration|
            decl.is_cooked() && #[trigger] ParserView::initial().declare(decl) == (
                start,
                Ok::<(), ErrorView>(()),
            ))
        &&& self.parser == start.handle_all(options, tokens)
        &&& forall|i: int| 0 <= i < tokens.len() ==> (#[trigger] tokens[i]).is_cooked()
        &&& forall|i: int|
            0 <= i < tokens.len() ==> (#[trigger] start.handle_all(options, tokens.take(i)).handle(
                options,
                tokens[i],
            )).1 == Ok::<bool, ErrorView>(false)
    }

    /// Whether the machine can have come here from its start: it awaits the first token
    /// with nothing built, or it stands where some tokens lead.
    pub open spec fn on_track(self, options: ReadOptions) -> bool {
        ||| self.state == State::AwaitDeclaration && self.parser == ParserView::initial()
        ||| exists|start: ParserView, tokens: Seq<Token>| #[trigger]
            self.follows(options, start, tokens)
    }
}

/// The attributes of a tag that the parser takes give their parts, or an error of
/// reading.
proof fn lemma_tag_parts_errors(items: Seq<Result<Attribute>>, raw: Seq<RawItem>)
    requires
        items.len() == raw.len(),
        forall|i: int| 0 <= i < raw.len() ==> takes_item(raw[i], #[trigger] items[i]),
    ensures
        tag_parts(items) matches Err(error) ==> error.is_reading_error(),
    decreases items.len(),
{
    if items.len() > 0 {
        let before = items.drop_last();
        assert forall|i: int| 0 <= i < raw.drop_last().len() implies takes_item(
            raw.drop_last()[i],
            #[trigger] before[i],
        ) by {
            assert(takes_item(raw[i], items[i]));
        }
        lemma_tag_parts_errors(before, raw.drop_last());
        let last = raw.len() - 1;
        assert(takes_item(raw[last], items[last]));
        if let Err(failure) = raw[last] {
            lemma_failure_is_reading_error(failure);
        }
    }
}

/// Taking a token that the parser takes for an event of the tokenizer fails only with an
/// error of reading.
pub proof fn lemma_handle_errors(p: ParserView, options: ReadOptions, token: Token)
    requires
        token.is_cooked(),
    ensures
        p.handle(options, token).1 matches Err(error) ==> error.is_reading_error(),
{
    match token {
        Token::Start(tag) => {
            let (name, items) = choose|name: Seq<u8>, items: Seq<RawItem>| #[trigger]
                tag.is_built(name, items);
            lemma_tag_parts_errors(tag.attributes@, items);
        },
        Token::Empty(tag) => {
            let (name, items) = choose|name: Seq<u8>, items: Seq<RawItem>| #[trigger]
                tag.is_built(name, items);
            lemma_tag_parts_errors(tag.attributes@, items);
        },
        Token::CData(content) => {
            let raw = choose|raw: Seq<u8>| bytes_view(content) == #[trigger] resolved(raw);
        },
        Token::DocType(content) => {
            let raw = choose|raw: Seq<u8>| bytes_view(content) == #[trigger] resolved(raw);
        },
        _ => {},
    }
}

/// Taking a declaration that the parser takes for one of the tokenizer fails only with
/// an error of reading.
pub proof fn lemma_declare_errors(p: ParserView, decl: Declaration)
    requires
        decl.is_cooked(),
    ensures
        p.declare(decl).1 matches Err(error) ==> error.is_reading_error(),
{
    let (version, encoding, standalone) = choose|
        version: RawValue,
        encoding: Option<RawValue>,
        standalone: Option<RawValue>,
    | #[trigger] decl.is_built(version, encoding, standalone);
    if let Err(failure) = version {
        lemma_failure_is_reading_error(failure);
    }
    if let Some(Err(failure)) = encoding {
        lemma_failure_is_reading_error(failure);
    }
    if let Some(Err(failure)) = standalone {
        lemma_failure_is_reading_error(failure);
    }
}

/// The machine fails only with an error of reading, whatever the tokenizer hands out.
pub proof fn lemma_take_errors(m: MachineView, options: ReadOptions, token: Token)
    requires
        token.is_cooked(),
    ensures
        m.take(options, token).1 matches Err(error) ==> error.is_reading_error(),
{
    lemma_handle_errors(m.parser, options, token);
    if let Token::Decl(decl) = token {
        lemma_declare_errors(m.parser, decl);
    }
}

/// Attributes that the parser takes for the same attributes of the tokenizer give the
/// same parts, or the same error.
pub proof fn lemma_same_parts(seen: Seq<ItemView>, a: Seq<Result<Attribute>>, b: Seq<Result<Attribute>>)
    requires
        a.len() == seen.len(),
        b.len() == seen.len(),
        forall|i: int| 0 <= i < seen.len() ==> shows_item(seen[i], #[trigger] a[i]),
        forall|i: int| 0 <= i < seen.len() ==> shows_item(seen[i], #[trigger] b[i]),
    ensures
        tag_parts(a) == tag_parts(b),
    decreases seen.len(),
{
    if seen.len() > 0 {
        let fewer = seen.drop_last();
        assert forall|i: int| 0 <= i < fewer.len() implies shows_item(
            fewer[i],
            #[trigger] a.drop_last()[i],
        ) by {
            assert(shows_item(seen[i], a[i]));
        }
        assert forall|i: int| 0 <= i < fewer.len() implies shows_item(
            fewer[i],
            #[trigger] b.drop_last()[i],
        ) by {
            assert(shows_item(seen[i], b[i]));
        }
        lemma_same_parts(fewer, a.drop_last(), b.drop_last());
        let last = seen.len() - 1;
        assert(shows_item(seen[last], a[last]));
        assert(shows_item(seen[last], b[last]));
        assert(attribute_entry(a.last()) == attribute_entry(b.last()));
    }
}

/// What the machine does with a token rests on what the tokenizer read alone: two
/// tokens that the parser takes for the same event lead the machine to the same place.
pub proof fn lemma_same_take(m: MachineView, options: ReadOptions, seen: EventView, a: Token, b: Token)
    requires
        a.cooks(seen),
        b.cooks(seen),
    ensures
        m.take(options, a) == m.take(options, b),
{
    match seen {
        EventView::Start(tag) => {
            lemma_same_parts(tag.items, a->Start_0.attributes@, b->Start_0.attributes@);
            assert(tag_element(a->Start_0) == tag_element(b->Start_0));
        },
        EventView::Empty(tag) => {
            lemma_same_parts(tag.items, a->Empty_0.attributes@, b->Empty_0.attributes@);
            assert(tag_element(a->Empty_0) == tag_element(b->Empty_0));
        },
        EventView::Decl(decl) => {
            let x = a->Decl_0;
            let y = b->Decl_0;
            assert(declared_encoding(x.encoding) == declared_encoding(y.encoding));
            assert(declared_standalone(x.standalone) == declared_standalone(y.standalone));
            assert(m.parser.declare(x) == m.parser.declare(y));
        },
        _ => {},
    }
}

/// The machine takes the token that the parser makes of an event as it takes any token
/// that the parser takes for that event.
pub proof fn lemma_take_cooked(m: MachineView, options: ReadOptions, seen: EventView, token: Token)
    requires
        token.cooks(seen),
    ensures
        m.take(options, token) == m.take(options, cooked(seen)),
{
    lemma_same_take(m, options, seen, token, cooked(seen));
}

/// The declaration decides the encoding of what follows it. When the machine asks for
/// another decoder, it has just taken the declaration as the first token, the declared
/// encoding is not the one that reading started with, and reading goes on from the first
/// byte behind the declaration, which a decoder for the declared encoding takes from its
/// start: nothing that follows the declaration is read in the encoding that the first
/// bytes showed, and a sequence there is malformed only if it is so in the declared
/// encoding.
pub proof fn lemma_declaration_decides(
    m: MachineView,
    options: ReadOptions,
    body: Seq<u8>,
    text: Seq<u8>,
    spoilt: bool,
    index: nat,
    left: nat,
    seen: EventView,
)
    requires
        left > 0,
        tokenized(text, options.trim_text, index) == Ok::<EventView, ErrorView>(seen),
        m.take(options, cooked(seen)).1 == Ok::<Action, ErrorView>(Action::Switch),
    ensures
        m.state == State::AwaitDeclaration,
        cooked(seen) is Decl,
        m.take(options, cooked(seen)).0.parser.encoding != m.initial,
        ({
            let next = m.take(options, cooked(seen)).0;
            let end = raw_end(m.initial, body, taken_by(text, options.trim_text, index + 1)) as int;
            run(m, options, body, text, spoilt, index, left) == run(
                next,
                options,
                body,
                stream(next.parser.encoding, body.skip(end)),
                spoiled(m.initial, body.take(end), false) || spoiled(
                    next.parser.encoding,
                    body.skip(end),
                    true,
                ),
                0,
                (left - 1) as nat,
            )
        }),
{
}

/// A byte order mark of UTF-16 and a declaration that names UTF-8 disagree, and the
/// declaration wins: the machine asks for another decoder, and what follows the
/// declaration is read as the bytes are, which is how UTF-8 is read. Whether those
/// bytes are UTF-16 does not count any more: only the declaration itself is judged in
/// the encoding of the mark.
pub proof fn lemma_declared_utf8_wins(
    m: MachineView,
    options: ReadOptions,
    decl: Declaration,
    body: Seq<u8>,
    made: nat,
)
    requires
        m.state == State::AwaitDeclaration,
        m.initial == Some("UTF-16LE"@) || m.initial == Some("UTF-16BE"@),
        decl.encoding matches Some(Ok(Some(charset))) && charset@ == "UTF-8"@,
        m.parser.declare(decl).1 is Ok,
    ensures
        m.take(options, Token::Decl(decl)).1 == Ok::<Action, ErrorView>(Action::Switch),
        m.take(options, Token::Decl(decl)).0.parser.encoding is None,
        m.take(options, Token::Decl(decl)).0.initial == m.initial,
        text_after(m.initial, None, body, made) == body.skip(raw_end(m.initial, body, made) as int),
        spoilt_after(m.initial, None, body, made) == spoiled(
            m.initial,
            body.take(raw_end(m.initial, body, made) as int),
            false,
        ),
{
    reveal_strlit("UTF-16LE");
    reveal_strlit("UTF-16BE");
    reveal_strlit("UTF-8");
    assert("UTF-8"@.len() == 5);
    assert("UTF-16LE"@.len() == 8);
    assert("UTF-16BE"@.len() == 8);
    assert(declared_encoding(decl.encoding) == Ok::<Option<Seq<char>>, ErrorView>(None));
}

/// Bytes that hold a malformed sequence never give a document: if reading starts on
/// such bytes and no other decoder is asked for, it ends with
/// [`ErrorView::CannotDecode`], whatever the tokens are.
pub proof fn lemma_spoilt_is_no_document(
    m: MachineView,
    options: ReadOptions,
    body: Seq<u8>,
    text: Seq<u8>,
    index: nat,
    left: nat,
)
    requires
        m.state != State::AwaitDeclaration,
    ensures
        run(m, options, body, text, true, index, left) == Err::<DocumentView, ErrorView>(
            ErrorView::CannotDecode,
        ),
    decreases left,
{
    if left > 0 {
        if let Ok(seen) = tokenized(text, options.trim_text, index) {
            let (next, taken) = m.take(options, cooked(seen));
            lemma_one_declaration(m, options, cooked(seen));
            if taken == Ok::<Action, ErrorView>(Action::Continue) {
                lemma_spoilt_is_no_document(next, options, body, text, index + 1, (left - 1) as nat);
            }
        }
    }
}

/// The declaration comes first and once, and the decoder changes with it or never: the
/// machine asks for another decoder only when it takes the declaration as the first
/// token, it never awaits the first token again, and a declaration behind the first
/// token is an error.
pub proof fn lemma_one_declaration(m: MachineView, options: ReadOptions, token: Token)
    ensures
        m.take(options, token).1 == Ok::<Action, ErrorView>(Action::Switch) ==> m.state
            == State::AwaitDeclaration && token is Decl && m.take(options, token).0.state
            == State::StreamingContent,
        m.take(options, token).0.state == State::AwaitDeclaration ==> m.state
            == State::AwaitDeclaration && m.take(options, token).0.skipped,
        m.state != State::AwaitDeclaration && token is Decl ==> m.take(options, token) == (
            m.failed(),
            Err::<Action, ErrorView>(late_declaration_error()),
        ),
{
}

/// A machine on its track stays on it with every token that it takes, and it has read a
/// document when it says so.
pub proof fn lemma_take_keeps_track(m: MachineView, options: ReadOptions, token: Token)
    requires
        m.on_track(options),
        token.is_cooked(),
    ensures
        m.take(options, token).1 == Ok::<Action, ErrorView>(Action::Finish) ==> m.take(
            options,
            token,
        ).0.parser.is_read(options) && m.take(options, token).0.parser.stack.len() == 1,
        m.take(options, token).1 is Ok && m.take(options, token).1 != Ok::<Action, ErrorView>(
            Action::Finish,
        ) ==> m.take(options, token).0.on_track(options),
{
    let (next, taken) = m.take(options, token);
    if m.state == State::AwaitDeclaration && m.parser == ParserView::initial() {
        let initial = ParserView::initial();
        if !m.skipped && droppable(options, token) {
        } else {
            match token {
                Token::Decl(decl) => {
                    if taken is Ok {
                        assert(next.follows(options, next.parser, Seq::empty()));
                    }
                },
                _ => {
                    if !options.require_decl {
                        let handled = initial.handle(options, token);
                        if let Ok(end) = handled.1 {
                            lemma_reads_more(initial, options, Seq::empty(), token, end);
                            let tokens = Seq::<Token>::empty().push(token);
                            if end {
                                assert(handled.0 == initial);
                                assert(initial.reads(options, tokens));
                            } else {
                                assert(next.follows(options, initial, tokens));
                            }
                        }
                    }
                },
            }
        }
    } else {
        let (start, tokens) = choose|start: ParserView, tokens: Seq<Token>| #[trigger]
            m.follows(options, start, tokens);
        let handled = m.parser.handle(options, token);
        if let Ok(end) = handled.1 {
            lemma_reads_more(start, options, tokens, token, end);
            let more = tokens.push(token);
            if end {
                if handled.0.stack.len() == 1 {
                    assert(start.reads(options, more));
                }
            } else {
                assert(next.follows(options, start, more));
            }
        }
    }
}

impl DocumentParser {
    /// Tells the encoding from the first bytes of the source and takes the byte order
    /// mark away, if there is one.
    pub fn sniff_encoding(reader: &mut DecodeReader) -> (r: Option<Signature>)
        requires
            old(reader).is_plain(),
            old(reader).decoded().len() == 0,
            old(reader).buffered().len() == 0,
        ensures
            r == signature(old(reader).pending()),
            final(reader).whole() == old(reader).whole(),
            final(reader).is_plain(),
            final(reader).decoded().len() == 0,
            final(reader).pending() == old(reader).pending().skip(
                match r {
                    Some(found) => found.mark_len() as int,
                    None => 0,
                },
            ),
    {
        let ghost pending = reader.pending();
        let bytes = reader.fill();
        let found = sniff(bytes);
        proof {
            lemma_signature_of_start(pending, bytes@.len() as int);
            lemma_mark_fits(bytes@);
        }
        let amount = match found {
            Some(signature) => signature.mark_len(),
            None => 0,
        };
        reader.advance(amount);
        found
    }

    /// The encoding that reading started with.
    pub fn initial_encoding(&self) -> (r: Option<&Charset>)
        ensures
            match r {
                Some(charset) => self.machine().initial == Some(charset@),
                None => self.machine().initial is None,
            },
    {
        self.initial.as_ref()
    }

    /// Marks the parser as one that has failed.
    pub fn fail(&mut self)
        requires
            old(self).wf(),
        ensures
            final(self).wf(),
            final(self).options() == old(self).options(),
            final(self).machine() == old(self).machine().failed(),
    {
        self.state = State::Failed;
    }

    /// Takes what the first bytes show, and the encoding that the option `encoding`
    /// names if there is one: `forced` is what its label stands for.
    pub fn begin(&mut self, found: Option<Signature>, forced: Option<Option<Charset>>) -> (r: Result<()>)
        requires
            old(self).wf(),
        ensures
            final(self).wf(),
            final(self).options() == old(self).options(),
            (final(self).machine(), unit_view(r)) == old(self).machine().begin(
                old(self).options(),
                found,
                forced_names(forced),
            ),
    {
        let sniffed = match found {
            None => {
                if self.read_opts.require_decl {
                    self.state = State::Failed;
                    return Err(Error::CannotDecode);
                }
                None
            },
            Some(signature) => initial_charset(signature),
        };
        match forced {
            Some(None) => {
                self.state = State::Failed;
                Err(Error::CannotDecode)
            },
            Some(Some(charset)) => {
                self.initial = Some(charset);
                self.skipped = false;
                self.state = State::AwaitDeclaration;
                Ok(())
            },
            None => {
                self.initial = sniffed;
                self.skipped = false;
                self.state = State::AwaitDeclaration;
                Ok(())
            },
        }
    }

    /// Takes one token, the first of the text or any later one, and says what is to
    /// follow. The parser must be one that awaits tokens.
    pub fn take(&mut self, token: Token) -> (r: Result<Action>)
        requires
            old(self).wf(),
            old(self).state() == State::AwaitDeclaration || old(self).state()
                == State::StreamingContent,
        ensures
            final(self).wf(),
            final(self).options() == old(self).options(),
            (final(self).machine(), action_view(r)) == old(self).machine().take(
                old(self).options(),
                token,
            ),
    {
        if self.state == State::AwaitDeclaration {
            if !self.skipped {
                if let Token::Text { raw, content } = &token {
                    if raw.len() == 0 || (self.read_opts.ignore_whitespace_only
                        && only_has_whitespace(raw.as_slice())) {
                        self.skipped = true;
                        return Ok(Action::Continue);
                    }
                }
            }
            self.take_first(token)
        } else {
            self.take_content(token)
        }
    }

    /// Takes the first token that counts.
    fn take_first(&mut self, token: Token) -> (r: Result<Action>)
        requires
            old(self).wf(),
        ensures
            final(self).wf(),
            final(self).options() == old(self).options(),
            (final(self).machine(), action_view(r)) == old(self).machine().take_first(
                old(self).options(),
                token,
            ),
    {
        match token {
            Token::Decl(decl) => {
                let named = decl.encoding.is_some();
                match self.handle_decl(decl) {
                    Err(error) => {
                        self.state = State::Failed;
                        Err(error)
                    },
                    Ok(_) => {
                        self.state = State::StreamingContent;
                        if named && must_switch(self.encoding.as_ref(), self.initial.as_ref()) {
                            Ok(Action::Switch)
                        } else {
                            Ok(Action::Continue)
                        }
                    },
                }
            },
            other => {
                if self.read_opts.require_decl {
                    self.state = State::Failed;
                    return Err(
                        Error::malformed("Didn't find XML Declaration at the start of file"),
                    );
                }
                match self.handle_event(other) {
                    Err(error) => {
                        self.state = State::Failed;
                        Err(error)
                    },
                    Ok(true) => {
                        self.state = State::Done;
                        Ok(Action::Finish)
                    },
                    Ok(false) => {
                        self.state = State::StreamingContent;
                        Ok(Action::Continue)
                    },
                }
            },
        }
    }

    /// Takes a token of the content.
    fn take_content(&mut self, token: Token) -> (r: Result<Action>)
        requires
            old(self).wf(),
        ensures
            final(self).wf(),
            final(self).options() == old(self).options(),
            (final(self).machine(), action_view(r)) == old(self).machine().take_content(
                old(self).options(),
                token,
            ),
    {
        match self.handle_event(token) {
            Err(error) => {
                self.state = State::Failed;
                Err(error)
            },
            Ok(false) => Ok(Action::Continue),
            Ok(true) => {
                if self.element_stack.len() == 1 {
                    self.state = State::Done;
                    Ok(Action::Finish)
                } else {
                    self.state = State::Failed;
                    Err(Error::malformed("Closing tag not found."))
                }
            },
        }
    }

    /// Feeds the parser with the tokens of `tokenizer` up to the end of the text. When the
    /// parser asks for another decoder, reading starts anew behind the declaration, in
    /// the declared encoding: `mark` says how many bytes of the source the byte order
    /// mark takes. No more than `limit` tokens are taken: the loop ends even if the
    /// tokenizer should not.
    fn parse_content(&mut self, tokenizer: Tokenizer, limit: u128, mark: usize, spoilt: bool) -> (r:
        Result<()>)
        requires
            old(self).wf(),
            old(self).state() == State::AwaitDeclaration,
            tokenizer_state(tokenizer).trim == old(self).options().trim_text,
            mark <= tokenizer_state(tokenizer).source.len(),
        ensures
            final(self).wf(),
            final(self).options() == old(self).options(),
            final(self).state() == if r is Ok {
                State::Done
            } else {
                State::Failed
            },
            outcome_of(final(self)@.doc, r) == run(
                old(self).machine(),
                old(self).options(),
                tokenizer_state(tokenizer).source.skip(mark as int),
                tokenizer_state(tokenizer).text,
                spoilt,
                tokenizer_state(tokenizer).count,
                limit as nat,
            ),
            r is Ok && old(self).machine().on_track(old(self).options()) ==> final(self)@.is_read(
                old(self).options(),
            ) && final(self)@.stack.len() == 1,
            r matches Err(error) ==> error@.is_reading_error(),
    {
        broadcast use DocumentParser::lemma_machine;

        let ghost options = self.options();
        let ghost start = self.machine();
        let ghost first = tokenizer_state(tokenizer);
        let ghost body = first.source.skip(mark as int);
        let mut feed = tokenizer;
        let mut left = limit;
        let mut marred = spoilt;
        while left > 0
            invariant
                self.wf(),
                self.options() == options,
                options == old(self).options(),
                self.state() == State::AwaitDeclaration || self.state() == State::StreamingContent,
                old(self).machine().on_track(self.options()) ==> self.machine().on_track(
                    self.options(),
                ),
                start == old(self).machine(),
                first == tokenizer_state(tokenizer),
                tokenizer_state(feed).trim == options.trim_text,
                tokenizer_state(feed).source == first.source,
                body == first.source.skip(mark as int),
                mark <= first.source.len(),
                run(
                    self.machine(),
                    options,
                    body,
                    tokenizer_state(feed).text,
                    marred,
                    tokenizer_state(feed).count,
                    left as nat,
                ) == run(start, options, body, first.text, spoilt, first.count, limit as nat),
            decreases left,
        {
            let ghost before = self.machine();
            let ghost at = tokenizer_state(feed);
            let ghost budget = left as nat;
            let ghost spoilt_before = marred;
            left = left - 1;
            let token = match Token::next(&mut feed) {
                Ok(token) => token,
                Err(error) => {
                    proof {
                        let failure = choose|failure: Failure| error@ == #[trigger] failure.error();
                        lemma_failure_is_reading_error(failure);
                    }
                    self.fail();
                    return self.settle(marred, Err(error));
                },
            };
            let ghost taken = token;
            let ghost seen = tokenized(at.text, at.trim, at.count)->Ok_0;
            proof {
                assert(taken.cooks(seen));
                lemma_take_cooked(before, options, seen, taken);
                lemma_take_errors(self.machine(), self.options(), token);
                if self.machine().on_track(self.options()) {
                    lemma_take_keeps_track(self.machine(), self.options(), token);
                }
            }
            match self.take(token) {
                Err(error) => {
                    return self.settle(marred, Err(error));
                },
                Ok(Action::Finish) => {
                    return self.settle(marred, Ok(()));
                },
                Ok(Action::Switch) => {
                    let made = feed.position();
                    let mut reader = feed.into_inner();
                    let length = reader.measure(mark, self.initial.as_ref(), made);
                    let end = reader.size();
                    marred = reader.spoiled(mark, mark + length, self.initial.as_ref(), false)
                        || reader.spoiled(mark + length, end, self.encoding.as_ref(), true);
                    reader.restart(mark + length, self.encoding.as_ref());
                    feed = Tokenizer::new(reader);
                    feed.trim_text(self.read_opts.trim_text);
                    proof {
                        let next = self.machine();
                        assert(first.source.skip((mark + length) as int) =~= body.skip(length as int));
                        assert(first.source.subrange(mark as int, (mark + length) as int) =~= body.take(
                            length as int,
                        ));
                        assert(first.source.subrange((mark + length) as int, end as int) =~= body.skip(
                            length as int,
                        ));
                        assert(marred == spoilt_after(
                            next.initial,
                            next.parser.encoding,
                            body,
                            taken_by(at.text, options.trim_text, at.count + 1),
                        ));
                        assert(tokenizer_state(feed).text == text_after(
                            next.initial,
                            next.parser.encoding,
                            body,
                            taken_by(at.text, options.trim_text, at.count + 1),
                        ));
                        assert(run(
                            next,
                            options,
                            body,
                            tokenizer_state(feed).text,
                            marred,
                            tokenizer_state(feed).count,
                            left as nat,
                        ) == run(before, options, body, at.text, spoilt_before, at.count, budget));
                    }
                },
                Ok(Action::Continue) => {
                    proof {
                        let next = self.machine();
                        assert(run(
                            next,
                            options,
                            body,
                            tokenizer_state(feed).text,
                            marred,
                            tokenizer_state(feed).count,
                            left as nat,
                        ) == run(before, options, body, at.text, spoilt_before, at.count, budget));
                    }
                },
            }
        }
        self.fail();
        self.settle(marred, Err(Error::malformed("More tokens than the text can hold")))
    }

    /// The last word on what was read: bytes that hold a malformed sequence cannot be
    /// decoded, and a parser that has read such bytes has failed.
    fn settle(&mut self, spoilt: bool, found: Result<()>) -> (r: Result<()>)
        requires
            old(self).wf(),
            old(self).state() == if found is Ok {
                State::Done
            } else {
                State::Failed
            },
        ensures
            final(self).wf(),
            final(self).options() == old(self).options(),
            final(self)@ == old(self)@,
            final(self).state() == if r is Ok {
                State::Done
            } else {
                State::Failed
            },
            outcome_of(final(self)@.doc, r) == verdict(spoilt, outcome_of(old(self)@.doc, found)),
            r is Ok ==> found is Ok,
            r matches Err(error) ==> (found matches Err(before) && error@ == before@) || error@
                == ErrorView::CannotDecode,
    {
        broadcast use DocumentParser::lemma_machine;

        if spoilt {
            self.fail();
            Err(Error::CannotDecode)
        } else {
            found
        }
    }

    /// Reads the prolog of `input` and then its content.
    ///
    /// The first bytes tell the encoding to start with; the option `encoding` overrides
    /// them. White space before the first markup is passed over. If the document starts
    /// with an XML declaration, that is taken, and reading goes on in the encoding that
    /// it names. Without a declaration the first token is content.
    fn parse_start(&mut self, input: Vec<u8>) -> (r: Result<()>)
        requires
            old(self).wf(),
        ensures
            final(self).wf(),
            final(self).options() == old(self).options(),
            final(self).state() == if r is Ok {
                State::Done
            } else {
                State::Failed
            },
            outcome_of(final(self)@.doc, r) == parsed_from(
                old(self).machine(),
                input@,
                old(self).options(),
            ),
            undecodable(input@, old(self).options()) ==> unit_view(r) == Err::<(), ErrorView>(
                ErrorView::CannotDecode,
            ),
            r is Ok && old(self)@ == ParserView::initial() ==> final(self)@.is_read(
                old(self).options(),
            ) && final(self)@.stack.len() == 1,
            r matches Err(error) ==> error@.is_reading_error(),
    {
        broadcast use DocumentParser::lemma_machine;

        let limit: u128 = 3 * (input.len() as u128) + 16;
        assert(limit == token_limit(input@.len()));
        let ghost bytes = input@;
        let mut reader = DecodeReader::new(input, None);
        let found = DocumentParser::sniff_encoding(&mut reader);
        let forced = match &self.read_opts.encoding {
            Some(label) => Some(Charset::for_label(label.as_str().as_bytes())),
            None => None,
        };
        match self.begin(found, forced) {
            Ok(_) => {},
            Err(error) => {
                return Err(error);
            },
        }
        let mark = match found {
            Some(signature) => signature.mark_len(),
            None => 0,
        };
        proof {
            lemma_mark_fits(bytes);
        }
        let end = reader.size();
        let spoilt = reader.spoiled(mark, end, self.initial.as_ref(), true);
        reader.restart(mark, self.initial.as_ref());
        let mut tokenizer = Tokenizer::new(reader);
        tokenizer.trim_text(self.read_opts.trim_text);
        proof {
            assert(bytes.subrange(mark as int, end as int) =~= bytes.skip(mark as int));
        }
        self.parse_content(tokenizer, limit, mark, spoilt)
    }

    /// Reads the document that `input` holds into the parser, from the first bytes to
    /// the end of the text. The parser is done afterwards, or has failed.
    pub fn parse(&mut self, input: Vec<u8>) -> (r: Result<()>)
        requires
            old(self).wf(),
        ensures
            final(self).wf(),
            final(self).options() == old(self).options(),
            final(self).state() == if r is Ok {
                State::Done
            } else {
                State::Failed
            },
            outcome_of(final(self)@.doc, r) == parsed_from(
                old(self).machine(),
                input@,
                old(self).options(),
            ),
            undecodable(input@, old(self).options()) ==> unit_view(r) == Err::<(), ErrorView>(
                ErrorView::CannotDecode,
            ),
            r is Ok && old(self)@ == ParserView::initial() ==> final(self)@.is_read(
                old(self).options(),
            ) && final(self)@.stack.len() == 1,
            r matches Err(error) ==> error@.is_reading_error(),
    {
        self.parse_start(input)
    }

    /// Reads the document that `input` holds.
    ///
    /// The result is what [`parsed`] says: the document that the machine builds of the
    /// tokens of the text, or the error that ended reading. Reading fails with
    /// [`Error::CannotDecode`] where the first bytes show no encoding and a declaration
    /// is required, where the option `encoding` names none, and where the bytes hold a
    /// sequence that is malformed in the encoding that they are read in. A document that
    /// is returned is well formed.
    pub fn parse_reader(input: &[u8], options: ReadOptions) -> (r: Result<Document>)
        ensures
            outcome_view(r) == parsed(input@, options),
            r matches Ok(doc) ==> doc.wf() && is_parsed(doc@, options),
            r matches Err(error) ==> error@.is_reading_error(),
            undecodable(input@, options) ==> (r matches Err(error) && error@
                == ErrorView::CannotDecode),
    {
        let mut parser = DocumentParser::new(options);
        match parser.parse(vstd::slice::slice_to_vec(input)) {
            Ok(_) => Ok(parser.into_document()),
            Err(error) => Err(error),
        }
    }
}

/// Once the attributes up to some point give an error, all of them give that error.
pub proof fn lemma_first_error_stays(items: Seq<Result<Attribute>>, count: int)
    requires
        0 <= count <= items.len(),
    ensures
        tag_parts(items.take(count)) matches Err(error) ==> tag_parts(items) == Err::<Parts, ErrorView>(error),
    decreases items.len() - count,
{
    if count < items.len() {
        assert(items.take(count + 1).drop_last() =~= items.take(count));
        lemma_first_error_stays(items, count + 1);
    } else {
        assert(items.take(count) =~= items);
    }
}

} // verus!
