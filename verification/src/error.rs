use vstd::prelude::*;

verus! {

/// What can go wrong while a document is read, changed or written.
#[derive(Debug)]
pub enum Error {
    /// The byte source or sink failed.
    Io(std::io::Error),
    /// The bytes cannot be decoded: an unknown encoding label, or text that is not UTF-8
    /// where UTF-8 is needed.
    CannotDecode,
    /// The markup is not well formed; the string says how.
    MalformedXML(String),
    /// The container element has no parent and cannot get one.
    ContainerCannotMove,
    /// The element already has a parent: detach it first.
    HasAParent,
    /// The element is not among the children it was to be removed from.
    NotFound,
}

/// What an [`Error`] says, without the error of the byte source.
pub enum ErrorView {
    Io,
    CannotDecode,
    MalformedXML(Seq<char>),
    ContainerCannotMove,
    HasAParent,
    NotFound,
}

impl View for Error {
    type V = ErrorView;

    open spec fn view(&self) -> ErrorView {
        match self {
            Error::Io(_) => ErrorView::Io,
            Error::CannotDecode => ErrorView::CannotDecode,
            Error::MalformedXML(detail) => ErrorView::MalformedXML(detail@),
            Error::ContainerCannotMove => ErrorView::ContainerCannotMove,
            Error::HasAParent => ErrorView::HasAParent,
            Error::NotFound => ErrorView::NotFound,
        }
    }
}

/// What a failure of the tokenizer was about, as far as this library tells failures
/// apart.
#[derive(Debug)]
pub enum Failure {
    /// A closing tag does not match the open element.
    Mismatch { expected: String, found: String },
    /// The byte source failed.
    Io(std::io::Error),
    /// Text is not UTF-8.
    Utf8,
    /// Anything else; the string is the tokenizer's message.
    Other(String),
}

impl ErrorView {
    /// Whether this is an error of reading: one of the byte source, of decoding, or of
    /// markup that is not well formed. The others are errors of changing the tree.
    pub open spec fn is_reading_error(self) -> bool {
        self is Io || self is CannotDecode || self is MalformedXML
    }
}

impl Failure {
    /// The error that stands for this failure.
    pub open spec fn error(self) -> ErrorView {
        match self {
            Failure::Mismatch { expected, found } => ErrorView::MalformedXML(
                "Closing tag mismatch. Expected "@ + expected@ + ", found "@ + found@,
            ),
            Failure::Io(_) => ErrorView::Io,
            Failure::Utf8 => ErrorView::CannotDecode,
            Failure::Other(detail) => ErrorView::MalformedXML(detail@),
        }
    }
}

/// A failure of the tokenizer stands as an error of reading.
pub proof fn lemma_failure_is_reading_error(failure: Failure)
    ensures
        failure.error().is_reading_error(),
{
}

impl Error {
    /// The error that stands for a failure of the tokenizer: a mismatch of tags and
    /// anything unforeseen is malformed XML, text that is not UTF-8 cannot be decoded.
    pub fn from_failure(failure: Failure) -> (r: Error)
        ensures
            r@ == failure.error(),
    {
        match failure {
            Failure::Mismatch { expected, found } => {
                let detail = "Closing tag mismatch. Expected ".to_owned().concat(
                    expected.as_str(),
                ).concat(", found ").concat(found.as_str());
                Error::MalformedXML(detail)
            },
            Failure::Io(error) => Error::Io(error),
            Failure::Utf8 => Error::CannotDecode,
            Failure::Other(detail) => Error::MalformedXML(detail),
        }
    }

    /// The error for markup that is not well formed, with `detail` as its message.
    pub fn malformed(detail: &str) -> (r: Error)
        ensures
            r@ == ErrorView::MalformedXML(detail@),
    {
        Error::MalformedXML(detail.to_owned())
    }

    /// What the error says, in words.
    pub fn message(&self) -> (r: String)
        ensures
            self matches Error::MalformedXML(detail) ==> r@ == "Malformed XML: "@ + detail@,
            self is CannotDecode ==> r@ == "Cannot decode XML"@,
            self is ContainerCannotMove ==> r@ == "Container element cannot move"@,
            self is HasAParent ==> r@
                == "Element already has a parent. Call detatch() before changing parent."@,
            self is NotFound ==> r@ == "Element not found among the children"@,
            self is Io ==> exists|detail: Seq<char>| r@ == "IO Error: "@ + detail,
    {
        match self {
            Error::Io(error) => {
                let detail = error.to_string();
                "IO Error: ".to_owned().concat(detail.as_str())
            },
            Error::CannotDecode => "Cannot decode XML".to_owned(),
            Error::MalformedXML(detail) => "Malformed XML: ".to_owned().concat(detail.as_str()),
            Error::ContainerCannotMove => "Container element cannot move".to_owned(),
            Error::HasAParent => "Element already has a parent. Call detatch() before changing parent.".to_owned(),
            Error::NotFound => "Element not found among the children".to_owned(),
        }
    }
}

/// Results of this library.
pub type Result<T> = std::result::Result<T, Error>;

/// An error of the byte source, kept as it came.
#[verifier::external_type_specification]
#[verifier::external_body]
pub struct ExIoError(std::io::Error);

} // verus!
