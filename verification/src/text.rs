use vstd::prelude::*;

verus! {

/// The bytes of a text, in UTF-8.
pub open spec fn bytes_of(text: &str) -> Seq<u8> {
    vstd::utf8::encode_utf8(text@)
}

/// Whether two string slices hold the same characters.
pub fn str_eq(a: &str, b: &str) -> (r: bool)
    ensures
        r == (a@ == b@),
{
    let x = a.as_bytes();
    let y = b.as_bytes();
    proof {
        vstd::utf8::encode_utf8_decode_utf8(a@);
        vstd::utf8::encode_utf8_decode_utf8(b@);
    }
    if x.len() != y.len() {
        return false;
    }
    let mut i: usize = 0;
    while i < x.len()
        invariant
            i <= x.len(),
            x.len() == y.len(),
            x@ == vstd::utf8::encode_utf8(a@),
            y@ == vstd::utf8::encode_utf8(b@),
            forall|j: int| 0 <= j < i ==> x@[j] == y@[j],
        decreases x.len() - i,
    {
        if x[i] != y[i] {
            return false;
        }
        i += 1;
    }
    assert(x@ =~= y@);
    true
}

/// The position of the first `c` in `s`, where `s` holds one.
pub open spec fn first_index_of(s: Seq<char>, c: char) -> int {
    choose|i: int| 0 <= i < s.len() && s[i] == c && forall|j: int| 0 <= j < i ==> s[j] != c
}

/// What stands before the first `:` of a name: its namespace prefix. Empty where the name
/// holds no `:`.
pub open spec fn prefix_of(full_name: Seq<char>) -> Seq<char> {
    if full_name.contains(':') {
        full_name.subrange(0, first_index_of(full_name, ':'))
    } else {
        Seq::empty()
    }
}

/// What stands behind the first `:` of a name: its local part. The whole name where it
/// holds no `:`.
pub open spec fn local_name_of(full_name: Seq<char>) -> Seq<char> {
    if full_name.contains(':') {
        full_name.subrange(first_index_of(full_name, ':') + 1, full_name.len() as int)
    } else {
        full_name
    }
}

/// The first position of a character is the only one with nothing equal before it.
pub proof fn lemma_first_index_of(s: Seq<char>, c: char, i: int)
    requires
        0 <= i < s.len(),
        s[i] == c,
        forall|j: int| 0 <= j < i ==> s[j] != c,
    ensures
        s.contains(c),
        first_index_of(s, c) == i,
{
    let k = first_index_of(s, c);
    assert(0 <= k < s.len() && s[k] == c && forall|j: int| 0 <= j < k ==> s[j] != c);
}

/// The position of the first `c` in `s`, counted in characters.
pub fn find_char(s: &str, c: char) -> (r: Option<usize>)
    ensures
        match r {
            Some(i) => i < s@.len() && s@.contains(c) && i == first_index_of(s@, c),
            None => !s@.contains(c),
        },
{
    let total = s.unicode_len();
    let mut n: usize = 0;
    for x in it: s.chars()
        invariant
            n == it.index(),
            total == s@.len(),
            it.seq() == s@,
            forall|j: int| 0 <= j < n ==> s@[j] != c,
    {
        if x == c {
            proof {
                lemma_first_index_of(s@, c, n as int);
            }
            return Some(n);
        }
        n += 1;
    }
    None
}

/// Splits a name at its first `:` into prefix and local part.
pub fn split_name(full_name: &str) -> (r: (&str, &str))
    ensures
        r.0@ == prefix_of(full_name@),
        r.1@ == local_name_of(full_name@),
{
    match find_char(full_name, ':') {
        Some(i) => {
            let total = full_name.unicode_len();
            (full_name.substring_char(0, i), full_name.substring_char(i + 1, total))
        },
        None => {
            let prefix = full_name.substring_char(0, 0);
            assert(prefix@ =~= Seq::empty());
            (prefix, full_name)
        },
    }
}

/// `prefix`, a `:` and `name` in one string.
pub fn join_name(prefix: &str, name: &str) -> (r: String)
    ensures
        r@ == prefix@ + seq![':'] + name@,
{
    proof {
        reveal_strlit(":");
    }
    let r = prefix.to_owned().concat(":").concat(name);
    assert(":"@ =~= seq![':']);
    r
}

/// The text that `bytes` encode in UTF-8, where they encode one.
pub open spec fn utf8_text(bytes: Seq<u8>) -> Option<Seq<char>> {
    if vstd::utf8::valid_utf8(bytes) {
        Some(vstd::utf8::decode_utf8(bytes))
    } else {
        None
    }
}

/// `String::from_utf8` of the standard library: the string that the bytes encode, if
/// they are valid UTF-8, and nothing otherwise.
#[verifier::external_body]
pub(crate) fn string_from_utf8(bytes: Vec<u8>) -> (r: Option<String>)
    ensures
        match r {
            Some(text) => utf8_text(bytes@) == Some(text@),
            None => utf8_text(bytes@) is None,
        },
{
    String::from_utf8(bytes).ok()
}

/// What is left of `text` behind `prefix`, where it starts with `prefix`.
pub open spec fn after_prefix(text: Seq<char>, prefix: Seq<char>) -> Option<Seq<char>> {
    if prefix.len() <= text.len() && text.subrange(0, prefix.len() as int) == prefix {
        Some(text.skip(prefix.len() as int))
    } else {
        None
    }
}

/// What is left of `text` behind `prefix`, where it starts with `prefix`.
pub fn strip_prefix<'a>(text: &'a str, prefix: &str) -> (r: Option<&'a str>)
    ensures
        match r {
            Some(rest) => after_prefix(text@, prefix@) == Some(rest@),
            None => after_prefix(text@, prefix@) is None,
        },
{
    let total = text.unicode_len();
    let width = prefix.unicode_len();
    if width <= total && str_eq(text.substring_char(0, width), prefix) {
        let rest = text.substring_char(width, total);
        assert(rest@ =~= text@.skip(width as int));
        Some(rest)
    } else {
        None
    }
}

} // verus!
