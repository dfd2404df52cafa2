use vstd::prelude::*;

verus! {

/// What the first bytes of a document can show.
#[derive(Debug, Clone, Copy, PartialEq, Eq, Structural)]
pub enum Signature {
    /// `<?` in an encoding that holds ASCII as it is.
    PlainText,
    /// The byte order mark of UTF-16, big end first.
    Utf16BeMark,
    /// The byte order mark of UTF-16, little end first.
    Utf16LeMark,
    /// The byte order mark of UTF-8.
    Utf8Mark,
    /// `<?` in UTF-16, big end first.
    Utf16BeText,
    /// `<?` in UTF-16, little end first.
    Utf16LeText,
}

/// The flavours of UTF-16.
#[derive(Debug, Clone, Copy, PartialEq, Eq, Structural)]
pub enum Utf16 {
    BigEndian,
    LittleEndian,
}

impl Signature {
    /// How many bytes the byte order mark takes.
    pub open spec fn spec_mark_len(self) -> usize {
        match self {
            Signature::Utf16BeMark => 2,
            Signature::Utf16LeMark => 2,
            Signature::Utf8Mark => 3,
            _ => 0,
        }
    }

    /// How many bytes the byte order mark takes.
    #[verifier::when_used_as_spec(spec_mark_len)]
    pub fn mark_len(self) -> (r: usize)
        ensures
            r == self.mark_len(),
    {
        match self {
            Signature::Utf16BeMark => 2,
            Signature::Utf16LeMark => 2,
            Signature::Utf8Mark => 3,
            _ => 0,
        }
    }

    /// The flavour of UTF-16 that the signature shows, if it shows one.
    pub open spec fn spec_utf16(self) -> Option<Utf16> {
        match self {
            Signature::Utf16BeMark => Some(Utf16::BigEndian),
            Signature::Utf16BeText => Some(Utf16::BigEndian),
            Signature::Utf16LeMark => Some(Utf16::LittleEndian),
            Signature::Utf16LeText => Some(Utf16::LittleEndian),
            _ => None,
        }
    }

    /// The flavour of UTF-16 that the signature shows, if it shows one.
    #[verifier::when_used_as_spec(spec_utf16)]
    pub fn utf16(self) -> (r: Option<Utf16>)
        ensures
            r == self.utf16(),
    {
        match self {
            Signature::Utf16BeMark => Some(Utf16::BigEndian),
            Signature::Utf16BeText => Some(Utf16::BigEndian),
            Signature::Utf16LeMark => Some(Utf16::LittleEndian),
            Signature::Utf16LeText => Some(Utf16::LittleEndian),
            _ => None,
        }
    }
}

/// Whether `bytes` starts with the two bytes `a` and `b`.
pub open spec fn starts_with2(bytes: Seq<u8>, a: u8, b: u8) -> bool {
    bytes.len() >= 2 && bytes[0] == a && bytes[1] == b
}

/// The signature at the start of `bytes`: a byte order mark, or `<?` in UTF-8 or UTF-16.
pub open spec fn signature(bytes: Seq<u8>) -> Option<Signature> {
    if starts_with2(bytes, 0x3c, 0x3f) {
        Some(Signature::PlainText)
    } else if starts_with2(bytes, 0xfe, 0xff) {
        Some(Signature::Utf16BeMark)
    } else if starts_with2(bytes, 0xff, 0xfe) {
        Some(Signature::Utf16LeMark)
    } else if starts_with2(bytes, 0xef, 0xbb) && bytes.len() >= 3 && bytes[2] == 0xbf {
        Some(Signature::Utf8Mark)
    } else if starts_with2(bytes, 0x00, 0x3c) && bytes.len() >= 4 && bytes[2] == 0x00 && bytes[3]
        == 0x3f {
        Some(Signature::Utf16BeText)
    } else if starts_with2(bytes, 0x3c, 0x00) && bytes.len() >= 4 && bytes[2] == 0x3f && bytes[3]
        == 0x00 {
        Some(Signature::Utf16LeText)
    } else {
        None
    }
}

/// The signature is that of the first four bytes.
pub proof fn lemma_signature_of_start(bytes: Seq<u8>, count: int)
    requires
        0 <= count <= bytes.len(),
        count >= 4 || count == bytes.len(),
    ensures
        signature(bytes.take(count)) == signature(bytes),
{
    let start = bytes.take(count);
    assert(forall|i: int| 0 <= i < count ==> start[i] == bytes[i]);
}

/// The byte order mark of a signature is part of the bytes that show it.
pub proof fn lemma_mark_fits(bytes: Seq<u8>)
    ensures
        signature(bytes) matches Some(found) ==> found.mark_len() <= bytes.len(),
{
}

/// Tells the encoding of a document from its first bytes.
pub fn sniff(bytes: &[u8]) -> (r: Option<Signature>)
    ensures
        r == signature(bytes@),
{
    let n = bytes.len();
    if n >= 2 && bytes[0] == 0x3c && bytes[1] == 0x3f {
        Some(Signature::PlainText)
    } else if n >= 2 && bytes[0] == 0xfe && bytes[1] == 0xff {
        Some(Signature::Utf16BeMark)
    } else if n >= 2 && bytes[0] == 0xff && bytes[1] == 0xfe {
        Some(Signature::Utf16LeMark)
    } else if n >= 3 && bytes[0] == 0xef && bytes[1] == 0xbb && bytes[2] == 0xbf {
        Some(Signature::Utf8Mark)
    } else if n >= 4 && bytes[0] == 0x00 && bytes[1] == 0x3c && bytes[2] == 0x00 && bytes[3]
        == 0x3f {
        Some(Signature::Utf16BeText)
    } else if n >= 4 && bytes[0] == 0x3c && bytes[1] == 0x00 && bytes[2] == 0x3f && bytes[3]
        == 0x00 {
        Some(Signature::Utf16LeText)
    } else {
        None
    }
}

} // verus!
