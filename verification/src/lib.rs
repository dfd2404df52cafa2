//! A tree of elements to read, change and write XML.
//!
//! A [`Document`] owns the records of all its elements; an [`Element`] is a handle to
//! one of them, and a [`Node`] is an element or a piece of text. Every function that
//! changes the tree keeps parents and children in step: [`tree::DocumentView::wf`] says
//! what that means, and the modules [`shape`] and [`scope`] hold what follows from it.
//!
//! Reading goes from bytes through a [`DecodeReader`], which decodes them, and the
//! tokenizer of `quick_xml` to the [`DocumentParser`], which builds the tree from
//! [`Token`]s. Writing goes from the tree through the writer of `quick_xml` to bytes;
//! [`tree::DocumentView::rendered`] says which.

pub mod builder;
pub mod document;
pub mod encoding;
pub mod error;
pub mod names;
mod outside;
pub mod parser;
pub mod printer;
pub mod reader;
pub mod scope;
pub mod shape;
pub mod sniff;
pub mod space;
pub mod text;
pub mod tokens;
pub mod tree;
pub mod writer;

pub use crate::builder::ElementBuilder;
pub use crate::encoding::{Charset, StreamDecoder};
pub use crate::error::{Error, Failure, Result};
pub use crate::names::NameMap;
pub use crate::parser::{Action, DocumentParser, Kind, ReadOptions, State};
pub use crate::reader::DecodeReader;
pub use crate::sniff::{sniff, Signature, Utf16};
pub use crate::space::{is_whitespace, normalize_space, only_has_whitespace};
pub use crate::tokens::{read_attribute, read_label, resolve, Attribute, Declaration, Tag, Token};
pub use crate::tree::{Document, Element, Node};
pub use crate::writer::WriteOptions;
