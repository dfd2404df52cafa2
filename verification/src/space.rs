use vstd::prelude::*;

verus! {

/// Whether `byte` is XML white space: a space, a tab, a line feed or a carriage return.
pub open spec fn is_space(byte: u8) -> bool {
    byte == 0x20 || byte == 0x09 || byte == 0x0a || byte == 0x0d
}

/// Whether `byte` is XML white space.
#[verifier::when_used_as_spec(is_space)]
pub fn is_whitespace(byte: u8) -> (r: bool)
    ensures
        r == is_space(byte),
{
    byte == 0x0d || byte == 0x0a || byte == 0x09 || byte == 0x20
}

/// Whether every byte of `bytes` is white space.
pub open spec fn all_space(bytes: Seq<u8>) -> bool {
    forall|i: int| 0 <= i < bytes.len() ==> is_space(#[trigger] bytes[i])
}

/// Whether `bytes` holds nothing but white space. True of no bytes at all.
pub fn only_has_whitespace(bytes: &[u8]) -> (r: bool)
    ensures
        r == all_space(bytes@),
{
    let mut i: usize = 0;
    while i < bytes.len()
        invariant
            i <= bytes@.len(),
            forall|j: int| 0 <= j < i ==> is_space(#[trigger] bytes@[j]),
        decreases bytes@.len() - i,
    {
        if !is_whitespace(bytes[i]) {
            return false;
        }
        i += 1;
    }
    true
}

/// The normalized form of an attribute value: its words, each a longest run of bytes
/// that are no white space, with one space between two words and nothing around them.
///
/// Read from the end: a white space byte adds nothing; a byte behind another byte of its
/// word continues the word; the first byte of a word follows one space, unless the word
/// is the first.
pub open spec fn normalized(bytes: Seq<u8>) -> Seq<u8>
    decreases bytes.len(),
{
    if bytes.len() == 0 {
        Seq::empty()
    } else {
        let before = bytes.drop_last();
        let byte = bytes.last();
        if is_space(byte) {
            normalized(before)
        } else if before.len() > 0 && !is_space(before.last()) {
            normalized(before).push(byte)
        } else if normalized(before).len() == 0 {
            seq![byte]
        } else {
            normalized(before).push(0x20u8).push(byte)
        }
    }
}

/// A normalized value ends in a byte that is no white space, if it holds any, and it
/// holds one as soon as the bytes do.
pub proof fn lemma_normalized_end(bytes: Seq<u8>)
    ensures
        normalized(bytes).len() > 0 ==> !is_space(normalized(bytes).last()),
        normalized(bytes).len() == 0 <==> all_space(bytes),
        normalized(bytes).len() <= bytes.len(),
        bytes.len() > 0 && is_space(bytes.last()) ==> normalized(bytes).len() < bytes.len(),
    decreases bytes.len(),
{
    if bytes.len() > 0 {
        let before = bytes.drop_last();
        lemma_normalized_end(before);
        if all_space(before) && is_space(bytes.last()) {
            assert forall|i: int| 0 <= i < bytes.len() implies is_space(#[trigger] bytes[i]) by {
                if i < before.len() {
                    assert(before[i] == bytes[i]);
                }
            }
        }
        if all_space(bytes) {
            assert forall|i: int| 0 <= i < before.len() implies is_space(#[trigger] before[i]) by {
                assert(before[i] == bytes[i]);
            }
            assert(is_space(bytes[bytes.len() - 1]));
        }
        if !is_space(bytes.last()) {
            assert(!is_space(bytes[bytes.len() - 1]));
        }
    }
}

/// A normalized value holds no white space but single spaces between bytes that are
/// none, and neither starts nor ends with one.
pub proof fn lemma_normalized_shape(bytes: Seq<u8>, i: int)
    requires
        0 <= i < normalized(bytes).len(),
    ensures
        is_space(normalized(bytes)[i]) ==> {
            &&& normalized(bytes)[i] == 0x20
            &&& 0 < i < normalized(bytes).len() - 1
            &&& !is_space(normalized(bytes)[i - 1])
            &&& !is_space(normalized(bytes)[i + 1])
        },
    decreases bytes.len(),
{
    if bytes.len() > 0 {
        let before = bytes.drop_last();
        let byte = bytes.last();
        lemma_normalized_end(before);
        let n = normalized(before);
        if i < n.len() {
            lemma_normalized_shape(before, i);
            if is_space(byte) {
            } else if before.len() > 0 && !is_space(before.last()) {
                assert(normalized(bytes) == n.push(byte));
            } else if n.len() == 0 {
            } else {
                assert(normalized(bytes) == n.push(0x20u8).push(byte));
                assert(i == n.len() - 1 ==> !is_space(n[i]));
            }
        } else {
            if is_space(byte) {
            } else if before.len() > 0 && !is_space(before.last()) {
            } else if n.len() == 0 {
            } else {
                assert(normalized(bytes) == n.push(0x20u8).push(byte));
            }
        }
    }
}

/// Normalizes an attribute value: a tab, a line feed and a carriage return count as a
/// space, spaces at the start and at the end are dropped, and a run of spaces becomes one
/// space.
pub fn normalize_space(bytes: &[u8]) -> (r: Vec<u8>)
    ensures
        r@ == normalized(bytes@),
{
    let mut out: Vec<u8> = Vec::with_capacity(bytes.len());
    let mut char_found = false;
    let mut last_space = false;
    let mut i: usize = 0;
    assert(bytes@.take(0) =~= Seq::empty());
    while i < bytes.len()
        invariant
            i <= bytes@.len(),
            char_found == (normalized(bytes@.take(i as int)).len() > 0),
            last_space == (char_found && i > 0 && is_space(bytes@[i - 1])),
            out@ == if last_space {
                normalized(bytes@.take(i as int)).push(0x20u8)
            } else {
                normalized(bytes@.take(i as int))
            },
        decreases bytes@.len() - i,
    {
        let byte = bytes[i];
        proof {
            assert(bytes@.take(i + 1).drop_last() =~= bytes@.take(i as int));
            assert(bytes@.take(i + 1).last() == byte);
            lemma_normalized_end(bytes@.take(i as int));
            if i > 0 {
                assert(bytes@.take(i as int).last() == bytes@[i - 1]);
            }
        }
        if is_whitespace(byte) {
            if char_found && !last_space {
                out.push(0x20u8);
                last_space = true;
            }
        } else {
            char_found = true;
            last_space = false;
            out.push(byte);
        }
        i += 1;
    }
    assert(bytes@.take(i as int) =~= bytes@);
    if last_space {
        out.pop();
        assert(out@ =~= normalized(bytes@));
    }
    out
}

} // verus!
