use vstd::prelude::*;
use quick_xml::events::Event;
use crate::encoding::{label_charset, Charset};
use crate::error::{Error, ErrorView, Failure, Result};
use crate::reader::DecodeReader;
use crate::space::{normalize_space, normalized};

verus! {

/// What `quick_xml` makes of escaped bytes: the bytes with every character reference and
/// every predefined entity resolved, or the message of its failure.
pub uninterp spec fn unescaped(raw: Seq<u8>) -> std::result::Result<Seq<u8>, Seq<char>>;

/// What the tokenizer can say of one attribute: the key and the raw value, or the error
/// that stands for its failure to read them.
pub type ItemView = std::result::Result<(Seq<u8>, Seq<u8>), ErrorView>;

/// What the tokenizer can say of one value: its bytes, or the error that stands for its
/// failure to read them.
pub type ValueView = std::result::Result<Seq<u8>, ErrorView>;

/// What a start tag of the tokenizer holds: the name and the attributes in their order.
pub struct TagView {
    pub name: Seq<u8>,
    pub items: Seq<ItemView>,
}

/// What a declaration of the tokenizer holds.
pub struct DeclView {
    pub version: ValueView,
    pub encoding: Option<ValueView>,
    pub standalone: Option<ValueView>,
}

/// What an event of the tokenizer holds.
pub enum EventView {
    Start(TagView),
    End,
    Empty(TagView),
    Text(Seq<u8>),
    Comment(Seq<u8>),
    CData(Seq<u8>),
    Decl(DeclView),
    PI(Seq<u8>),
    DocType(Seq<u8>),
    Eof,
}

/// Where a tokenizer stands: the text that it reads, whether it drops white space
/// around text, how many events it was asked for, and the bytes that its reader was
/// made of.
pub struct TokenizerView {
    pub text: Seq<u8>,
    pub trim: bool,
    pub count: nat,
    pub source: Seq<u8>,
}

/// What the tokenizer of `quick_xml` answers when it is asked for an event of `text` for
/// the time `index`, counted from zero: the event, or the error that stands for its
/// failure. `trim` says whether it drops white space around text.
pub uninterp spec fn tokenized(text: Seq<u8>, trim: bool, index: nat) -> std::result::Result<
    EventView,
    ErrorView,
>;

/// How many bytes of `text` the tokenizer of `quick_xml` says it has behind it when it
/// was asked for `count` events.
pub uninterp spec fn taken_by(text: Seq<u8>, trim: bool, count: nat) -> nat;

/// Where the tokenizer stands.
pub uninterp spec fn tokenizer_state(tokenizer: Tokenizer) -> TokenizerView;

/// What an event of `quick_xml` holds.
pub uninterp spec fn seen(event: Event<'static>) -> EventView;

/// The name that a start tag of `quick_xml` holds.
pub uninterp spec fn tag_name_seen(tag: quick_xml::events::BytesStart<'static>) -> Seq<u8>;

/// The attributes that a start tag of `quick_xml` holds, as its iterator hands them
/// out.
pub uninterp spec fn tag_items_seen(tag: quick_xml::events::BytesStart<'static>) -> Seq<ItemView>;

/// What a start tag of `quick_xml` holds.
pub open spec fn tag_seen(tag: quick_xml::events::BytesStart<'static>) -> TagView {
    TagView { name: tag_name_seen(tag), items: tag_items_seen(tag) }
}

/// The bytes that a text of `quick_xml` holds.
pub uninterp spec fn text_seen(text: quick_xml::events::BytesText<'static>) -> Seq<u8>;

/// The version that a declaration of `quick_xml` holds.
pub uninterp spec fn decl_version_seen(decl: quick_xml::events::BytesDecl<'static>) -> ValueView;

/// The encoding that a declaration of `quick_xml` holds, if it holds one.
pub uninterp spec fn decl_encoding_seen(decl: quick_xml::events::BytesDecl<'static>) -> Option<
    ValueView,
>;

/// The `standalone` that a declaration of `quick_xml` holds, if it holds one.
pub uninterp spec fn decl_standalone_seen(decl: quick_xml::events::BytesDecl<'static>) -> Option<
    ValueView,
>;

/// What a declaration of `quick_xml` holds.
pub open spec fn decl_seen(decl: quick_xml::events::BytesDecl<'static>) -> DeclView {
    DeclView {
        version: decl_version_seen(decl),
        encoding: decl_encoding_seen(decl),
        standalone: decl_standalone_seen(decl),
    }
}

/// The tokenizer of `quick_xml` over a decoding reader. Its state is its own: the
/// contracts speak of it by [`tokenizer_state`].
#[verifier::external_body]
pub struct Tokenizer {
    reader: quick_xml::Reader<DecodeReader>,
}

/// One event of the tokenizer, taken apart by kind. What an event holds stays opaque.
pub enum Lexeme {
    Start(quick_xml::events::BytesStart<'static>),
    End,
    Empty(quick_xml::events::BytesStart<'static>),
    Text(quick_xml::events::BytesText<'static>),
    Comment(quick_xml::events::BytesText<'static>),
    CData(quick_xml::events::BytesText<'static>),
    Decl(quick_xml::events::BytesDecl<'static>),
    PI(quick_xml::events::BytesText<'static>),
    DocType(quick_xml::events::BytesText<'static>),
    Eof,
}

impl Lexeme {
    /// What the event holds that this is a part of.
    pub open spec fn seen(self) -> EventView {
        match self {
            Lexeme::Start(tag) => EventView::Start(tag_seen(tag)),
            Lexeme::End => EventView::End,
            Lexeme::Empty(tag) => EventView::Empty(tag_seen(tag)),
            Lexeme::Text(text) => EventView::Text(text_seen(text)),
            Lexeme::Comment(text) => EventView::Comment(text_seen(text)),
            Lexeme::CData(text) => EventView::CData(text_seen(text)),
            Lexeme::Decl(decl) => EventView::Decl(decl_seen(decl)),
            Lexeme::PI(text) => EventView::PI(text_seen(text)),
            Lexeme::DocType(text) => EventView::DocType(text_seen(text)),
            Lexeme::Eof => EventView::Eof,
        }
    }
}

impl Tokenizer {
    /// `Reader::from_reader` of `quick_xml`: a tokenizer that reads from `source`. The
    /// contract claims that it stands at the start of the text that `source` hands out,
    /// asked for nothing yet, and keeps white space around text.
    #[verifier::external_body]
    pub(crate) fn new(source: DecodeReader) -> (r: Tokenizer)
        ensures
            tokenizer_state(r) == (TokenizerView {
                text: source.text(),
                trim: false,
                count: 0,
                source: source.whole(),
            }),
    {
        Tokenizer { reader: quick_xml::Reader::from_reader(source) }
    }

    /// `Reader::trim_text` of `quick_xml`: whether white space around text is dropped.
    /// It is set before the tokenizer is asked for anything, and the contract claims
    /// that nothing else changes.
    #[verifier::external_body]
    pub(crate) fn trim_text(&mut self, trim: bool)
        requires
            tokenizer_state(*old(self)).count == 0,
        ensures
            tokenizer_state(*final(self)) == (TokenizerView { trim, ..tokenizer_state(*old(self)) }),
    {
        self.reader.trim_text(trim);
    }

    /// `Reader::into_underlying_reader` of `quick_xml`: the reader that the tokenizer
    /// read from, as the tokenizer left it. The contract claims only that it is still
    /// the reader of the same bytes.
    #[verifier::external_body]
    pub(crate) fn into_inner(self) -> (r: DecodeReader)
        ensures
            r.whole() == tokenizer_state(self).source,
    {
        self.reader.into_underlying_reader()
    }

    /// `Reader::buffer_position` of `quick_xml`: how many bytes of its text the
    /// tokenizer has behind it. The contract gives that number its name.
    #[verifier::external_body]
    pub(crate) fn position(&self) -> (r: usize)
        ensures
            r == taken_by(
                tokenizer_state(*self).text,
                tokenizer_state(*self).trim,
                tokenizer_state(*self).count,
            ),
    {
        self.reader.buffer_position()
    }

    /// `Reader::read_event` of `quick_xml`: the next event of the text, which owns its
    /// bytes, or the failure to find one, told apart by kind. The contract claims that
    /// the tokenizer was asked once more, and gives the answer its name: it is what the
    /// tokenizer answers on this text at this count.
    #[verifier::external_body]
    pub(crate) fn read_event(&mut self) -> (r: std::result::Result<Event<'static>, Failure>)
        ensures
            tokenizer_state(*final(self)) == (TokenizerView {
                count: tokenizer_state(*old(self)).count + 1,
                ..tokenizer_state(*old(self))
            }),
            tokenized(
                tokenizer_state(*old(self)).text,
                tokenizer_state(*old(self)).trim,
                tokenizer_state(*old(self)).count,
            ) == match r {
                Ok(event) => Ok::<EventView, ErrorView>(seen(event)),
                Err(failure) => Err::<EventView, ErrorView>(failure.error()),
            },
    {
        let mut buf = Vec::new();
        self.reader.read_event(&mut buf).map(|event| event.into_owned()).map_err(|error| match error {
            quick_xml::Error::EndEventMismatch { expected, found } => Failure::Mismatch { expected, found },
            quick_xml::Error::Io(error) => Failure::Io(error),
            quick_xml::Error::Utf8(_) => Failure::Utf8,
            other => Failure::Other(other.to_string()),
        })
    }
}

/// Tells the kinds of events of `quick_xml` apart and hands on what each holds. The
/// contract claims that the kind and the parts are those of the event: what the event
/// holds is what its parts hold, under the kind.
#[verifier::external_body]
pub(crate) fn lexeme(event: Event<'static>) -> (r: Lexeme)
    ensures
        r.seen() == seen(event),
{
    match event {
        Event::Start(tag) => Lexeme::Start(tag),
        Event::End(_) => Lexeme::End,
        Event::Empty(tag) => Lexeme::Empty(tag),
        Event::Text(text) => Lexeme::Text(text),
        Event::Comment(text) => Lexeme::Comment(text),
        Event::CData(text) => Lexeme::CData(text),
        Event::Decl(decl) => Lexeme::Decl(decl),
        Event::PI(text) => Lexeme::PI(text),
        Event::DocType(text) => Lexeme::DocType(text),
        Event::Eof => Lexeme::Eof,
    }
}

/// `BytesStart::name` of `quick_xml`: the name of the tag, as bytes. The contract gives
/// the result its name.
#[verifier::external_body]
pub(crate) fn tag_name(tag: &quick_xml::events::BytesStart<'static>) -> (r: Vec<u8>)
    ensures
        r@ == tag_name_seen(*tag),
{
    tag.name().to_vec()
}

/// `BytesStart::attributes` of `quick_xml`: the attributes of the tag in their order,
/// each with key and raw value, or the failure to read one, after which none follows.
/// The contract gives the result its name, a failure taken as the error that stands
/// for it.
#[verifier::external_body]
pub(crate) fn tag_attributes(tag: &quick_xml::events::BytesStart<'static>) -> (r: Vec<
    std::result::Result<(Vec<u8>, Vec<u8>), Failure>,
>)
    ensures
        item_views(r@) == tag_items_seen(*tag),
{
    tag.attributes().map(|item| item.map(|a| (a.key.to_vec(), a.value.into_owned())).map_err(|error| match error {
        quick_xml::Error::EndEventMismatch { expected, found } => Failure::Mismatch { expected, found },
        quick_xml::Error::Io(error) => Failure::Io(error),
        quick_xml::Error::Utf8(_) => Failure::Utf8,
        other => Failure::Other(other.to_string()),
    })).collect()
}

/// `BytesText::escaped` of `quick_xml`: the content of the event as the tokenizer holds
/// it. The contract gives the result its name.
#[verifier::external_body]
pub(crate) fn text_bytes(text: &quick_xml::events::BytesText<'static>) -> (r: Vec<u8>)
    ensures
        r@ == text_seen(*text),
{
    text.escaped().to_vec()
}

/// `escape::unescape` of `quick_xml`: `raw` with every character reference and every
/// predefined entity resolved, or the message of the failure. The contract gives the
/// result the name `unescaped` and claims nothing else.
#[verifier::external_body]
pub(crate) fn unescape(raw: &[u8]) -> (r: std::result::Result<Vec<u8>, String>)
    ensures
        match r {
            Ok(bytes) => unescaped(raw@) == Ok::<Seq<u8>, Seq<char>>(bytes@),
            Err(detail) => unescaped(raw@) == Err::<Seq<u8>, Seq<char>>(detail@),
        },
{
    quick_xml::escape::unescape(raw).map(|bytes| bytes.into_owned()).map_err(|e| e.to_string())
}

/// `BytesDecl::version` of `quick_xml`: the value of `version`, which must come first.
/// The contract gives the result its name, a failure taken as the error that stands
/// for it.
#[verifier::external_body]
pub(crate) fn decl_version(decl: &quick_xml::events::BytesDecl<'static>) -> (r: std::result::Result<
    Vec<u8>,
    Failure,
>)
    ensures
        taken_value(r) == decl_version_seen(*decl),
{
    decl.version().map(|value| value.into_owned()).map_err(|error| match error {
        quick_xml::Error::EndEventMismatch { expected, found } => Failure::Mismatch { expected, found },
        quick_xml::Error::Io(error) => Failure::Io(error),
        quick_xml::Error::Utf8(_) => Failure::Utf8,
        other => Failure::Other(other.to_string()),
    })
}

/// `BytesDecl::encoding` of `quick_xml`: the value of `encoding`, if it is there. The
/// contract gives the result its name, a failure taken as the error that stands for it.
#[verifier::external_body]
pub(crate) fn decl_encoding(decl: &quick_xml::events::BytesDecl<'static>) -> (r: Option<
    std::result::Result<Vec<u8>, Failure>,
>)
    ensures
        taken_option(r) == decl_encoding_seen(*decl),
{
    decl.encoding().map(|item| item.map(|value| value.into_owned()).map_err(|error| match error {
        quick_xml::Error::EndEventMismatch { expected, found } => Failure::Mismatch { expected, found },
        quick_xml::Error::Io(error) => Failure::Io(error),
        quick_xml::Error::Utf8(_) => Failure::Utf8,
        other => Failure::Other(other.to_string()),
    }))
}

/// `BytesDecl::standalone` of `quick_xml`: the value of `standalone`, if it is there.
/// The contract gives the result its name, a failure taken as the error that stands
/// for it.
#[verifier::external_body]
pub(crate) fn decl_standalone(decl: &quick_xml::events::BytesDecl<'static>) -> (r: Option<
    std::result::Result<Vec<u8>, Failure>,
>)
    ensures
        taken_option(r) == decl_standalone_seen(*decl),
{
    decl.standalone().map(|item| item.map(|value| value.into_owned()).map_err(|error| match error {
        quick_xml::Error::EndEventMismatch { expected, found } => Failure::Mismatch { expected, found },
        quick_xml::Error::Io(error) => Failure::Io(error),
        quick_xml::Error::Utf8(_) => Failure::Utf8,
        other => Failure::Other(other.to_string()),
    }))
}

/// What a result with bytes holds.
pub open spec fn bytes_view(r: Result<Vec<u8>>) -> std::result::Result<Seq<u8>, ErrorView> {
    match r {
        Ok(bytes) => Ok(bytes@),
        Err(error) => Err(error@),
    }
}

/// `raw` with its references resolved; a failure to resolve them is malformed XML.
pub open spec fn resolved(raw: Seq<u8>) -> std::result::Result<Seq<u8>, ErrorView> {
    match unescaped(raw) {
        Ok(bytes) => Ok(bytes),
        Err(detail) => Err(ErrorView::MalformedXML(detail)),
    }
}

/// Whether `content` is some bytes with their references resolved, or the error of
/// resolving them.
pub open spec fn is_resolved(content: Result<Vec<u8>>) -> bool {
    exists|raw: Seq<u8>| bytes_view(content) == #[trigger] resolved(raw)
}

/// Resolves the character references and predefined entities in `raw`.
pub fn resolve(raw: &[u8]) -> (r: Result<Vec<u8>>)
    ensures
        bytes_view(r) == resolved(raw@),
        is_resolved(r),
{
    match unescape(raw) {
        Ok(bytes) => Ok(bytes),
        Err(detail) => Err(Error::MalformedXML(detail)),
    }
}

/// An attribute as the parser takes it: the key as written, and the value normalized
/// and with its references resolved, in this order.
#[derive(Debug)]
pub struct Attribute {
    pub key: Vec<u8>,
    pub value: Result<Vec<u8>>,
}

/// A start tag as the parser takes it: its name and its attributes in their order. An
/// attribute that the tokenizer could not read stands as its error.
#[derive(Debug)]
pub struct Tag {
    pub name: Vec<u8>,
    pub attributes: Vec<Result<Attribute>>,
}

/// An XML declaration as the parser takes it. The encoding stands as the character set
/// that its label names, or as nothing where the label names none.
#[derive(Debug)]
pub struct Declaration {
    pub version: Result<Vec<u8>>,
    pub encoding: Option<Result<Option<Charset>>>,
    pub standalone: Option<Result<Vec<u8>>>,
}

/// A lexical event as the parser takes it: plain bytes, with the references of text
/// resolved where XML resolves them.
#[derive(Debug)]
pub enum Token {
    /// A start tag.
    Start(Tag),
    /// An end tag.
    End,
    /// A tag that is start and end in one.
    Empty(Tag),
    /// Character data: as written, and with its references resolved.
    Text { raw: Vec<u8>, content: Result<Vec<u8>> },
    /// A comment, as written.
    Comment(Vec<u8>),
    /// The content of a CDATA section.
    CData(Result<Vec<u8>>),
    /// A processing instruction, as written.
    PI(Vec<u8>),
    /// A document type declaration, with its references resolved.
    DocType(Result<Vec<u8>>),
    /// An XML declaration.
    Decl(Declaration),
    /// The end of the text.
    Eof,
}

/// The attribute that the parser takes for what the tokenizer read: a value is
/// normalized first, then its references are resolved.
pub fn read_attribute(key: Vec<u8>, raw_value: Vec<u8>) -> (r: Attribute)
    ensures
        r.key@ == key@,
        bytes_view(r.value) == resolved(normalized(raw_value@)),
{
    let value = normalize_space(raw_value.as_slice());
    Attribute { key, value: resolve(value.as_slice()) }
}

/// What the tokenizer hands out for one attribute: the key and the raw value, or its
/// failure to read them.
pub type RawItem = std::result::Result<(Vec<u8>, Vec<u8>), Failure>;

/// What the tokenizer hands out for one value: its bytes, or its failure to read them.
pub type RawValue = std::result::Result<Vec<u8>, Failure>;

/// What the parser takes for a value of the tokenizer: the bytes as they are, and the
/// error that stands for a failure.
pub open spec fn taken_value(item: RawValue) -> std::result::Result<Seq<u8>, ErrorView> {
    match item {
        Ok(bytes) => Ok(bytes@),
        Err(failure) => Err(failure.error()),
    }
}

/// What the parser sees of a value that may be missing.
pub open spec fn taken_option(item: Option<RawValue>) -> Option<ValueView> {
    match item {
        Some(value) => Some(taken_value(value)),
        None => None,
    }
}

/// What the parser sees of one attribute of the tokenizer.
pub open spec fn item_view(item: RawItem) -> ItemView {
    match item {
        Ok((key, raw_value)) => Ok((key@, raw_value@)),
        Err(failure) => Err(failure.error()),
    }
}

/// What the parser sees of the attributes of the tokenizer, each in its place.
pub open spec fn item_views(items: Seq<RawItem>) -> Seq<ItemView> {
    Seq::new(items.len(), |i: int| item_view(items[i]))
}

/// Whether `attribute` is what the parser takes for an attribute that holds `item`.
pub open spec fn shows_item(item: ItemView, attribute: Result<Attribute>) -> bool {
    match item {
        Ok((key, raw_value)) => attribute matches Ok(taken) && taken.key@ == key && bytes_view(
            taken.value,
        ) == resolved(normalized(raw_value)),
        Err(found) => attribute matches Err(error) && error@ == found,
    }
}

/// Whether `encoding` is what the parser takes for an `encoding` that holds `item`.
pub open spec fn shows_label(item: Option<ValueView>, encoding: Option<Result<Option<Charset>>>) -> bool {
    match item {
        None => encoding is None,
        Some(Ok(label)) => encoding matches Some(Ok(found)) && charset_name(found)
            == label_charset(label),
        Some(Err(found)) => encoding matches Some(Err(error)) && error@ == found,
    }
}

/// Whether `standalone` is what the parser takes for a `standalone` that holds `item`.
pub open spec fn shows_standalone(item: Option<ValueView>, standalone: Option<Result<Vec<u8>>>) -> bool {
    match item {
        None => standalone is None,
        Some(value) => standalone matches Some(taken) && bytes_view(taken) == value,
    }
}

/// Whether `attribute` is what the parser takes for `item`: the key as it is with the
/// value normalized and then resolved, or the error that stands for the failure.
pub open spec fn takes_item(item: RawItem, attribute: Result<Attribute>) -> bool {
    match item {
        Ok((key, raw_value)) => attribute matches Ok(taken) && taken.key@ == key@ && bytes_view(
            taken.value,
        ) == resolved(normalized(raw_value@)),
        Err(failure) => attribute matches Err(error) && error@ == failure.error(),
    }
}

/// The name of the character set that `found` holds, if it holds one.
pub open spec fn charset_name(found: Option<Charset>) -> Option<Seq<char>> {
    match found {
        Some(charset) => Some(charset@),
        None => None,
    }
}

/// Whether `encoding` is what the parser takes for the `encoding` of a declaration as
/// the tokenizer hands it out: the character set that the label names, if it names one,
/// or the error that stands for the failure.
pub open spec fn takes_label(item: Option<RawValue>, encoding: Option<Result<Option<Charset>>>) -> bool {
    match item {
        None => encoding is None,
        Some(Ok(label)) => encoding matches Some(Ok(found)) && charset_name(found)
            == label_charset(label@),
        Some(Err(failure)) => encoding matches Some(Err(error)) && error@ == failure.error(),
    }
}

/// Whether `standalone` is what the parser takes for the `standalone` of a declaration
/// as the tokenizer hands it out.
pub open spec fn takes_standalone(item: Option<RawValue>, standalone: Option<Result<Vec<u8>>>) -> bool {
    match item {
        None => standalone is None,
        Some(value) => standalone matches Some(taken) && bytes_view(taken) == taken_value(value),
    }
}

impl Tag {
    /// Whether this is the tag that the parser takes for a start tag with the name
    /// `name` and the attributes `items`, each in its place.
    pub open spec fn is_built(self, name: Seq<u8>, items: Seq<RawItem>) -> bool {
        &&& self.name@ == name
        &&& self.attributes@.len() == items.len()
        &&& forall|i: int|
            0 <= i < items.len() ==> takes_item(items[i], #[trigger] self.attributes@[i])
    }

    /// Whether this is a tag that the parser takes for a start tag, whatever its name
    /// and attributes.
    pub open spec fn is_cooked(self) -> bool {
        exists|name: Seq<u8>, items: Seq<RawItem>| #[trigger] self.is_built(name, items)
    }

    /// Whether this is the tag that the parser takes for a start tag that holds `seen`.
    pub open spec fn shows(self, seen: TagView) -> bool {
        &&& self.name@ == seen.name
        &&& self.attributes@.len() == seen.items.len()
        &&& forall|i: int|
            0 <= i < seen.items.len() ==> shows_item(seen.items[i], #[trigger] self.attributes@[i])
    }

    /// The tag that the parser takes for a start tag with the name `name` and the
    /// attributes `items`, as the tokenizer hands them out.
    pub fn build(name: Vec<u8>, items: Vec<RawItem>) -> (r: Tag)
        ensures
            r.is_built(name@, items@),
            r.is_cooked(),
            r.shows(TagView { name: name@, items: item_views(items@) }),
    {
        let mut items = items;
        let ghost all = items@;
        let ghost mut done: int = 0;
        let mut attributes: Vec<Result<Attribute>> = Vec::new();
        assert(all.skip(0) =~= all);
        while items.len() > 0
            invariant
                0 <= done <= all.len(),
                items@ == all.skip(done),
                attributes@.len() == done,
                forall|i: int| 0 <= i < done ==> takes_item(all[i], #[trigger] attributes@[i]),
            decreases items.len(),
        {
            let item = items.remove(0);
            proof {
                assert(item == all[done]);
                assert(items@ =~= all.skip(done + 1));
            }
            match item {
                Ok((key, raw_value)) => attributes.push(Ok(read_attribute(key, raw_value))),
                Err(failure) => attributes.push(Err(Error::from_failure(failure))),
            }
            proof {
                done = done + 1;
            }
        }
        let r = Tag { name, attributes };
        proof {
            assert(r.is_built(name@, all));
            assert forall|i: int| 0 <= i < all.len() implies shows_item(
                item_views(all)[i],
                #[trigger] r.attributes@[i],
            ) by {
                assert(takes_item(all[i], r.attributes@[i]));
            }
        }
        r
    }
}

/// The tag that the parser takes for a start tag of the tokenizer: what [`Tag::build`]
/// makes of the name and the attributes that the tokenizer hands out.
fn read_tag(tag: &quick_xml::events::BytesStart<'static>) -> (r: Tag)
    ensures
        r.is_cooked(),
        r.shows(tag_seen(*tag)),
{
    let name = tag_name(tag);
    let items = tag_attributes(tag);
    Tag::build(name, items)
}

/// The bytes of a value of the tokenizer, or the error that stands for its failure.
fn read_value(item: RawValue) -> (r: Result<Vec<u8>>)
    ensures
        bytes_view(r) == taken_value(item),
{
    match item {
        Ok(bytes) => Ok(bytes),
        Err(failure) => Err(Error::from_failure(failure)),
    }
}

/// The character set that a label of a declaration names.
pub fn read_label(label: &[u8]) -> (r: Option<Charset>)
    ensures
        match r {
            Some(charset) => label_charset(label@) == Some(charset@),
            None => label_charset(label@) is None,
        },
{
    Charset::for_label(label)
}

impl Declaration {
    /// Whether this is the declaration that the parser takes for a declaration with
    /// the given version, encoding and `standalone`.
    pub open spec fn is_built(
        self,
        version: RawValue,
        encoding: Option<RawValue>,
        standalone: Option<RawValue>,
    ) -> bool {
        &&& bytes_view(self.version) == taken_value(version)
        &&& takes_label(encoding, self.encoding)
        &&& takes_standalone(standalone, self.standalone)
    }

    /// Whether this is the declaration that the parser takes for a declaration that
    /// holds `seen`: the encoding stands as the character set that its label names.
    pub open spec fn shows(self, seen: DeclView) -> bool {
        &&& bytes_view(self.version) == seen.version
        &&& shows_label(seen.encoding, self.encoding)
        &&& shows_standalone(seen.standalone, self.standalone)
    }

    /// Whether this is a declaration that the parser takes for a declaration of the
    /// tokenizer, whatever its version, encoding and `standalone`.
    pub open spec fn is_cooked(self) -> bool {
        exists|version: RawValue, encoding: Option<RawValue>, standalone: Option<RawValue>|
            #[trigger] self.is_built(version, encoding, standalone)
    }

    /// The declaration that the parser takes for a declaration with the given
    /// version, encoding and `standalone`, as the tokenizer hands them out. The encoding
    /// becomes the character set that its label names.
    pub fn build(version: RawValue, encoding: Option<RawValue>, standalone: Option<RawValue>) -> (r:
        Declaration)
        ensures
            r.is_built(version, encoding, standalone),
            r.is_cooked(),
            r.shows(
                DeclView {
                    version: taken_value(version),
                    encoding: taken_option(encoding),
                    standalone: taken_option(standalone),
                },
            ),
    {
        let ghost given = (version, encoding, standalone);
        let version = read_value(version);
        let encoding = match encoding {
            Some(Ok(label)) => Some(Ok(read_label(label.as_slice()))),
            Some(Err(failure)) => Some(Err(Error::from_failure(failure))),
            None => None,
        };
        let standalone = match standalone {
            Some(item) => Some(read_value(item)),
            None => None,
        };
        let r = Declaration { version, encoding, standalone };
        assert(r.is_built(given.0, given.1, given.2));
        r
    }
}

/// The declaration that the parser takes for a declaration of the tokenizer: what
/// [`Declaration::build`] makes of the version, the encoding and the `standalone` that
/// the tokenizer hands out.
fn read_declaration(decl: &quick_xml::events::BytesDecl<'static>) -> (r: Declaration)
    ensures
        r.is_cooked(),
        r.shows(decl_seen(*decl)),
{
    let version = decl_version(decl);
    let encoding = decl_encoding(decl);
    let standalone = decl_standalone(decl);
    Declaration::build(version, encoding, standalone)
}

impl Token {
    /// Whether the token is one that the parser takes for an event of the tokenizer:
    /// text carries its references resolved, a tag is built from a name and attributes,
    /// and a declaration from a version, an encoding and a `standalone`.
    pub open spec fn is_cooked(self) -> bool {
        match self {
            Token::Start(tag) => tag.is_cooked(),
            Token::Empty(tag) => tag.is_cooked(),
            Token::Text { raw, content } => bytes_view(content) == resolved(raw@),
            Token::CData(content) => is_resolved(content),
            Token::DocType(content) => is_resolved(content),
            Token::Decl(decl) => decl.is_cooked(),
            Token::Comment(_) => true,
            Token::PI(_) => true,
            Token::End => true,
            Token::Eof => true,
        }
    }

    /// Whether this is the token that the parser takes for an event that holds `seen`:
    /// a tag and a declaration are built of what the event holds, text and the content
    /// of CDATA sections and document type declarations have their references
    /// resolved, and comments and processing instructions stay as they are.
    pub open spec fn cooks(self, seen: EventView) -> bool {
        match seen {
            EventView::Start(tag) => self matches Token::Start(built) && built.shows(tag),
            EventView::End => self is End,
            EventView::Empty(tag) => self matches Token::Empty(built) && built.shows(tag),
            EventView::Text(bytes) => self matches Token::Text { raw, content } && raw@ == bytes
                && bytes_view(content) == resolved(bytes),
            EventView::Comment(bytes) => self matches Token::Comment(raw) && raw@ == bytes,
            EventView::CData(bytes) => self matches Token::CData(content) && bytes_view(content)
                == resolved(bytes),
            EventView::Decl(decl) => self matches Token::Decl(built) && built.shows(decl),
            EventView::PI(bytes) => self matches Token::PI(raw) && raw@ == bytes,
            EventView::DocType(bytes) => self matches Token::DocType(content) && bytes_view(
                content,
            ) == resolved(bytes),
            EventView::Eof => self is Eof,
        }
    }

    /// The token that the parser takes for an event of the tokenizer: the one that
    /// [`Token::cooks`] describes for what the event holds.
    pub(crate) fn read(event: Event<'static>) -> (r: Token)
        ensures
            r.is_cooked(),
            r.cooks(seen(event)),
    {
        match lexeme(event) {
            Lexeme::Start(tag) => Token::Start(read_tag(&tag)),
            Lexeme::End => Token::End,
            Lexeme::Empty(tag) => Token::Empty(read_tag(&tag)),
            Lexeme::Text(text) => {
                let raw = text_bytes(&text);
                let content = resolve(raw.as_slice());
                Token::Text { raw, content }
            },
            Lexeme::Comment(text) => Token::Comment(text_bytes(&text)),
            Lexeme::CData(text) => Token::CData(resolve(text_bytes(&text).as_slice())),
            Lexeme::Decl(decl) => Token::Decl(read_declaration(&decl)),
            Lexeme::PI(text) => Token::PI(text_bytes(&text)),
            Lexeme::DocType(text) => Token::DocType(resolve(text_bytes(&text).as_slice())),
            Lexeme::Eof => Token::Eof,
        }
    }

    /// The next token of the text, or the error that stopped the tokenizer: the token
    /// that the parser takes for what the tokenizer answers on its text at its count, or
    /// the error that it answers. The tokenizer was asked once more afterwards.
    pub(crate) fn next(tokenizer: &mut Tokenizer) -> (r: Result<Token>)
        ensures
            tokenizer_state(*final(tokenizer)) == (TokenizerView {
                count: tokenizer_state(*old(tokenizer)).count + 1,
                ..tokenizer_state(*old(tokenizer))
            }),
            match tokenized(
                tokenizer_state(*old(tokenizer)).text,
                tokenizer_state(*old(tokenizer)).trim,
                tokenizer_state(*old(tokenizer)).count,
            ) {
                Ok(seen) => r matches Ok(token) && token.cooks(seen),
                Err(found) => r matches Err(error) && error@ == found,
            },
            match r {
                Ok(token) => token.is_cooked(),
                Err(error) => exists|failure: Failure| error@ == #[trigger] failure.error(),
            },
    {
        match tokenizer.read_event() {
            Ok(event) => Ok(Token::read(event)),
            Err(failure) => {
                let ghost seen = failure;
                let error = Error::from_failure(failure);
                assert(error@ == seen.error());
                Err(error)
            },
        }
    }
}

} // verus!
