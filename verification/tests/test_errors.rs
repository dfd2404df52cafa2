use xml_doc::{Error, Failure};

#[test]
fn failures_become_errors() {
    let mismatch = Error::from_failure(Failure::Mismatch {
        expected: "a".to_string(),
        found: "b".to_string(),
    });
    assert!(
        matches!(&mismatch, Error::MalformedXML(detail) if detail == "Closing tag mismatch. Expected a, found b")
    );
    assert!(matches!(Error::from_failure(Failure::Utf8), Error::CannotDecode));
    assert!(
        matches!(Error::from_failure(Failure::Other("x".to_string())), Error::MalformedXML(detail) if detail == "x")
    );
    let source = std::io::Error::new(std::io::ErrorKind::Other, "broken");
    assert!(
        matches!(Error::from_failure(Failure::Io(source)), Error::Io(error) if error.to_string() == "broken")
    );
}

#[test]
fn messages() {
    assert_eq!(Error::CannotDecode.message(), "Cannot decode XML");
    assert_eq!(
        Error::malformed("no end").message(),
        "Malformed XML: no end"
    );
    assert_eq!(
        Error::ContainerCannotMove.message(),
        "Container element cannot move"
    );
    assert_eq!(
        Error::HasAParent.message(),
        "Element already has a parent. Call detatch() before changing parent."
    );
    assert_eq!(
        Error::NotFound.message(),
        "Element not found among the children"
    );
    let source = std::io::Error::new(std::io::ErrorKind::Other, "broken");
    assert_eq!(Error::Io(source).message(), "IO Error: broken");
}
