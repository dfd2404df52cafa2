use vstd::prelude::*;

verus! {

/// An event of `quick_xml`, opaque here.
#[verifier::external_type_specification]
#[verifier::external_body]
pub struct ExEvent<'a>(quick_xml::events::Event<'a>);

/// The inside of a start tag, opaque here.
#[verifier::external_type_specification]
#[verifier::external_body]
pub struct ExBytesStart<'a>(quick_xml::events::BytesStart<'a>);

/// The content of a text-like event, opaque here.
#[verifier::external_type_specification]
#[verifier::external_body]
pub struct ExBytesText<'a>(quick_xml::events::BytesText<'a>);

/// The inside of an XML declaration, opaque here.
#[verifier::external_type_specification]
#[verifier::external_body]
pub struct ExBytesDecl<'a>(quick_xml::events::BytesDecl<'a>);

} // verus!
