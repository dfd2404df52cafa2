use vstd::prelude::*;
use crate::error::{ErrorView, Result};
use crate::parser::{is_parsed, outcome_view, parsed, undecodable, DocumentParser, ReadOptions};
use crate::tree::Document;

verus! {

/// Below are the functions that read a document. `parse_*_with_opts` takes the options of
/// the parser; the others work with [`ReadOptions::default`].
///
/// They fail with [`crate::Error::CannotDecode`] where the text cannot be decoded, which
/// includes bytes that are malformed in their encoding, and with
/// [`crate::Error::MalformedXML`] where it is not well formed. What they return is what
/// [`parsed`] says: the document that the parser builds of the tokens of the text, or the
/// first error.
impl Document {
    /// Reads the document that `text` holds.
    pub fn parse_str(text: &str) -> (r: Result<Document>)
        ensures
            outcome_view(r) == parsed(vstd::utf8::encode_utf8(text@), ReadOptions::default()),
            r matches Ok(doc) ==> doc.wf() && is_parsed(doc@, ReadOptions::default()),
            r matches Err(error) ==> error@.is_reading_error(),
            undecodable(vstd::utf8::encode_utf8(text@), ReadOptions::default()) ==> (r matches Err(error)
                && error@ == ErrorView::CannotDecode),
    {
        DocumentParser::parse_reader(text.as_bytes(), ReadOptions::default())
    }

    /// Reads the document that `text` holds, with the given options.
    pub fn parse_str_with_opts(text: &str, opts: ReadOptions) -> (r: Result<Document>)
        ensures
            outcome_view(r) == parsed(vstd::utf8::encode_utf8(text@), opts),
            r matches Ok(doc) ==> doc.wf() && is_parsed(doc@, opts),
            r matches Err(error) ==> error@.is_reading_error(),
            undecodable(vstd::utf8::encode_utf8(text@), opts) ==> (r matches Err(error) && error@
                == ErrorView::CannotDecode),
    {
        DocumentParser::parse_reader(text.as_bytes(), opts)
    }

    /// Reads the document that the bytes of `reader` hold, in whatever encoding they
    /// show.
    pub fn parse_reader(reader: &[u8]) -> (r: Result<Document>)
        ensures
            outcome_view(r) == parsed(reader@, ReadOptions::default()),
            r matches Ok(doc) ==> doc.wf() && is_parsed(doc@, ReadOptions::default()),
            r matches Err(error) ==> error@.is_reading_error(),
            undecodable(reader@, ReadOptions::default()) ==> (r matches Err(error) && error@
                == ErrorView::CannotDecode),
    {
        DocumentParser::parse_reader(reader, ReadOptions::default())
    }

    /// Reads the document that the bytes of `reader` hold, with the given options.
    pub fn parse_reader_with_opts(reader: &[u8], opts: ReadOptions) -> (r: Result<Document>)
        ensures
            outcome_view(r) == parsed(reader@, opts),
            r matches Ok(doc) ==> doc.wf() && is_parsed(doc@, opts),
            r matches Err(error) ==> error@.is_reading_error(),
            undecodable(reader@, opts) ==> (r matches Err(error) && error@
                == ErrorView::CannotDecode),
    {
        DocumentParser::parse_reader(reader, opts)
    }
}

impl std::str::FromStr for Document {
    type Err = crate::error::Error;

    /// Reads the document that `text` holds, as [`Document::parse_str`] does.
    fn from_str(text: &str) -> (r: Result<Document>)
        ensures
            outcome_view(r) == parsed(vstd::utf8::encode_utf8(text@), ReadOptions::default()),
            r matches Ok(doc) ==> doc.wf() && is_parsed(doc@, ReadOptions::default()),
            r matches Err(error) ==> error@.is_reading_error(),
            undecodable(vstd::utf8::encode_utf8(text@), ReadOptions::default()) ==> (r matches Err(
                error,
            ) && error@ == ErrorView::CannotDecode),
    {
        Document::parse_str(text)
    }
}

} // verus!
