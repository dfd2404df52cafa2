use vstd::prelude::*;

verus! {

/// An encoding of `encoding_rs`, opaque here.
#[verifier::external_type_specification]
#[verifier::external_body]
pub struct ExEncoding(encoding_rs::Encoding);

/// A decoder of `encoding_rs`, opaque here.
#[verifier::external_type_specification]
#[verifier::external_body]
pub struct ExDecoder(encoding_rs::Decoder);

/// The canonical name of the encoding that a label stands for, as `encoding_rs`
/// resolves labels.
pub uninterp spec fn label_charset(label: Seq<u8>) -> Option<Seq<char>>;

/// A character encoding: its canonical name, by which the library tells encodings
/// apart, and the encoding itself, which only the decoder reads.
#[derive(Debug)]
pub struct Charset {
    name: String,
    encoding: &'static encoding_rs::Encoding,
}

impl View for Charset {
    type V = Seq<char>;

    /// The canonical name.
    closed spec fn view(&self) -> Seq<char> {
        self.name@
    }
}

impl Charset {
    /// The canonical name of the encoding.
    pub fn name(&self) -> (r: &str)
        ensures
            r@ == self@,
    {
        self.name.as_str()
    }

    /// `Encoding::for_label` and `Encoding::name` of `encoding_rs`: the encoding that a
    /// label names, if it names one. The contract gives the encoding's canonical name the
    /// name `label_charset` and claims nothing else.
    #[verifier::external_body]
    pub(crate) fn for_label(label: &[u8]) -> (r: Option<Charset>)
        ensures
            match r {
                Some(charset) => label_charset(label@) == Some(charset@),
                None => label_charset(label@) is None,
            },
    {
        encoding_rs::Encoding::for_label(label).map(
            |encoding| Charset { name: encoding.name().to_string(), encoding },
        )
    }

    /// `encoding_rs::UTF_16LE`, whose name is `UTF-16LE`.
    #[verifier::external_body]
    pub(crate) fn utf_16le() -> (r: Charset)
        ensures
            r@ == "UTF-16LE"@,
    {
        Charset { name: encoding_rs::UTF_16LE.name().to_string(), encoding: encoding_rs::UTF_16LE }
    }

    /// `encoding_rs::UTF_16BE`, whose name is `UTF-16BE`.
    #[verifier::external_body]
    pub(crate) fn utf_16be() -> (r: Charset)
        ensures
            r@ == "UTF-16BE"@,
    {
        Charset { name: encoding_rs::UTF_16BE.name().to_string(), encoding: encoding_rs::UTF_16BE }
    }
}

/// The text that a decoder for the character set `charset` has made when it has taken
/// `bytes` and never lacked room for what it made: with `last`, when it was told that
/// they are all and has made the most of them; without, as far as it can tell before
/// more comes.
pub uninterp spec fn decoding(charset: Seq<char>, bytes: Seq<u8>, last: bool) -> Seq<u8>;

/// Whether a decoder for the character set `charset` has put U+FFFD in the place of a
/// malformed sequence when it has taken `bytes` and never lacked room: with `last`,
/// when it was told that they are all; without, as far as it can tell before more comes.
pub uninterp spec fn marring(charset: Seq<char>, bytes: Seq<u8>, last: bool) -> bool;

/// The room that a decoder is given for the text of `length` bytes: three bytes for
/// each, which is the most that a byte makes, and some more for what the decoder holds
/// from before.
pub open spec fn room(length: nat) -> nat {
    3 * length + 32
}

/// The bytes that a decoder has taken so far.
pub uninterp spec fn fed(decoder: encoding_rs::Decoder) -> Seq<u8>;

/// The name of the character set that a decoder is for.
pub uninterp spec fn decoder_charset(decoder: encoding_rs::Decoder) -> Seq<char>;

/// Whether `a` is the start of `b`.
pub open spec fn starts(b: Seq<u8>, a: Seq<u8>) -> bool {
    a.len() <= b.len() && b.take(a.len() as int) =~= a
}

/// What decoding bit by bit means: a decoder has made nothing and replaced nothing
/// before it takes anything, and what it has made of some bytes stays as the start of
/// whatever it makes when more bytes follow or the end is told.
pub open spec fn streams(charset: Seq<char>) -> bool {
    &&& decoding(charset, Seq::empty(), false).len() == 0
    &&& !marring(charset, Seq::empty(), false)
    &&& forall|bytes: Seq<u8>, rest: Seq<u8>, last: bool|
        starts(#[trigger] decoding(charset, bytes + rest, last), decoding(charset, bytes, false))
}

/// How many bytes of `bytes` a decoder for `charset` takes, from the byte with the number
/// `from` on and fed byte by byte, until it has made `made` bytes of text: the least
/// number that is enough, and all of them if none is.
pub open spec fn least_fed(charset: Seq<char>, bytes: Seq<u8>, made: nat, from: nat) -> nat
    decreases bytes.len() - from,
{
    if from >= bytes.len() {
        bytes.len()
    } else if decoding(charset, bytes.take(from as int), false).len() >= made {
        from
    } else {
        least_fed(charset, bytes, made, from + 1)
    }
}

/// Where in `bytes` the text ends that is `made` bytes long: with a decoder, after the
/// least number of bytes that make so much text; without one, after `made` bytes. It is
/// the end of `bytes` where they make less.
pub open spec fn raw_end(charset: Option<Seq<char>>, bytes: Seq<u8>, made: nat) -> nat {
    match charset {
        Some(name) => least_fed(name, bytes, made, 0),
        None => if made <= bytes.len() {
            made
        } else {
            bytes.len()
        },
    }
}

/// The text of `bytes` in the character set `charset`; as they are without one.
pub open spec fn stream(charset: Option<Seq<char>>, bytes: Seq<u8>) -> Seq<u8> {
    match charset {
        Some(name) => decoding(name, bytes, true),
        None => bytes,
    }
}

/// Whether `bytes` hold a sequence that is malformed in the character set `charset`;
/// without a character set nothing is decoded, and nothing is malformed.
pub open spec fn spoiled(charset: Option<Seq<char>>, bytes: Seq<u8>, last: bool) -> bool {
    match charset {
        Some(name) => marring(name, bytes, last),
        None => false,
    }
}

/// A decoder together with the one thing the library must know of it: whether it has
/// been told that its input is complete. After that it must not be fed again.
pub struct StreamDecoder {
    decoder: encoding_rs::Decoder,
    finished: bool,
}

impl StreamDecoder {
    /// Whether the decoder has been told that its input is complete, and has taken all
    /// of it.
    pub closed spec fn finished(&self) -> bool {
        self.finished
    }

    /// The name of the character set that the decoder is for.
    pub closed spec fn charset(&self) -> Seq<char> {
        decoder_charset(self.decoder)
    }

    /// The bytes that the decoder has taken so far.
    pub closed spec fn taken(&self) -> Seq<u8> {
        fed(self.decoder)
    }

    /// The text that the decoder has made so far.
    pub open spec fn made(&self) -> Seq<u8> {
        decoding(self.charset(), self.taken(), self.finished())
    }

    /// Whether the decoder has replaced a malformed sequence so far.
    pub open spec fn marred(&self) -> bool {
        marring(self.charset(), self.taken(), self.finished())
    }

    /// `Encoding::new_decoder_without_bom_handling` of `encoding_rs`: a fresh decoder
    /// for the encoding, which takes a byte order mark for ordinary input. It has taken
    /// nothing, and it decodes bit by bit, as the documentation of the decoder says.
    #[verifier::external_body]
    fn new(charset: &Charset) -> (r: StreamDecoder)
        ensures
            !r.finished(),
            r.charset() == charset@,
            r.taken() == Seq::<u8>::empty(),
            streams(r.charset()),
    {
        StreamDecoder { decoder: charset.encoding.new_decoder_without_bom_handling(), finished: false }
    }

    /// A fresh decoder for `charset`: it has taken nothing, made nothing and replaced
    /// nothing.
    pub fn start(charset: &Charset) -> (r: StreamDecoder)
        ensures
            !r.finished(),
            r.charset() == charset@,
            r.taken() == Seq::<u8>::empty(),
            r.made().len() == 0,
            !r.marred(),
            streams(r.charset()),
    {
        StreamDecoder::new(charset)
    }

    /// Whether the decoder has been told that its input is complete, and has taken all
    /// of it.
    pub fn is_finished(&self) -> (r: bool)
        ensures
            r == self.finished(),
    {
        self.finished
    }

    /// `Decoder::decode_to_utf8` of `encoding_rs`: decodes the bytes of `src` into the
    /// start of `dst`, with U+FFFD in place of what is malformed. Returns how many bytes
    /// it wrote and whether it replaced anything.
    ///
    /// The decoder is given the room of [`room`] for `src`. That is no less than
    /// `Decoder::max_utf8_buffer_length` asks for in any state of any decoder that
    /// does not look for a byte order mark; with so much room, the documentation of the
    /// decoder says, it takes all of `src` and never holds back what it has made. The
    /// decoder must not be fed again once it has taken the last of its input.
    ///
    /// The contract claims: `dst` keeps its length and what was written lies within it;
    /// the decoder has taken `src`; what it wrote is what it has now made but had not
    /// made before, and it is UTF-8; and it has replaced something by now if it had
    /// before or did so in this call.
    #[verifier::external_body]
    fn decode_to_utf8(&mut self, src: &[u8], dst: &mut Vec<u8>, last: bool) -> (r: (usize, bool))
        requires
            !old(self).finished(),
            old(dst)@.len() >= room(src@.len()),
        ensures
            final(self).finished() == old(self).finished(),
            decoder_charset(final(self).decoder) == decoder_charset(old(self).decoder),
            fed(final(self).decoder) == fed(old(self).decoder) + src@,
            r.0 <= old(dst)@.len(),
            final(dst)@.len() == old(dst)@.len(),
            decoding(final(self).charset(), final(self).taken(), last) == old(self).made()
                + final(dst)@.take(r.0 as int),
            marring(final(self).charset(), final(self).taken(), last) == (old(self).marred()
                || r.1),
            vstd::utf8::valid_utf8(final(dst)@.take(r.0 as int)),
        no_unwind
    {
        let (_, _, written, replaced) = self.decoder.decode_to_utf8(src, dst.as_mut_slice(), last);
        (written, replaced)
    }

    /// Decodes the bytes of `src` into the start of `dst`, which has the room of
    /// [`room`] for them, and returns how many bytes were written and whether a
    /// malformed sequence was replaced. With `last` the input ends with `src`, and the
    /// decoder is finished.
    ///
    /// The decoder has taken `src`, and what was written is what it has made of all
    /// that it has taken, beyond what it had made before.
    pub fn decode(&mut self, src: &[u8], dst: &mut Vec<u8>, last: bool) -> (r: (usize, bool))
        requires
            !old(self).finished(),
            old(dst)@.len() >= room(src@.len()),
        ensures
            final(self).charset() == old(self).charset(),
            final(self).taken() == old(self).taken() + src@,
            final(self).made() == old(self).made() + final(dst)@.take(r.0 as int),
            final(self).marred() == (old(self).marred() || r.1),
            final(self).finished() == last,
            r.0 <= old(dst)@.len(),
            final(dst)@.len() == old(dst)@.len(),
            vstd::utf8::valid_utf8(final(dst)@.take(r.0 as int)),
        no_unwind
    {
        let r = self.decode_to_utf8(src, dst, last);
        self.finished = last;
        r
    }

    /// Decodes with `decoder`, which is there, as [`StreamDecoder::decode`] does.
    pub fn decode_with(
        decoder: &mut Option<StreamDecoder>,
        src: &[u8],
        dst: &mut Vec<u8>,
        last: bool,
    ) -> (r: (usize, bool))
        requires
            *old(decoder) matches Some(d) && !d.finished(),
            old(dst)@.len() >= room(src@.len()),
        ensures
            *final(decoder) matches Some(d) && ({
                let before = old(decoder)->Some_0;
                &&& d.charset() == before.charset()
                &&& d.taken() == before.taken() + src@
                &&& d.made() == before.made() + final(dst)@.take(r.0 as int)
                &&& d.marred() == (before.marred() || r.1)
                &&& d.finished() == last
            }),
            r.0 <= old(dst)@.len(),
            final(dst)@.len() == old(dst)@.len(),
            vstd::utf8::valid_utf8(final(dst)@.take(r.0 as int)),
        no_unwind
    {
        match decoder {
            Some(d) => d.decode(src, dst, last),
            None => (0, false),
        }
    }

    /// Whether `decoder` is there and finished.
    pub fn is_spent(decoder: &Option<StreamDecoder>) -> (r: bool)
        ensures
            r == (*decoder matches Some(d) && d.finished()),
    {
        match decoder {
            Some(d) => d.is_finished(),
            None => false,
        }
    }
}

/// Where in `bytes` the text ends that is `made` bytes long: a fresh decoder for
/// `charset` is fed byte by byte until it has made so much.
pub fn raw_length(charset: Option<&Charset>, bytes: &[u8], made: usize) -> (r: usize)
    ensures
        r == raw_end(
            match charset {
                Some(found) => Some(found@),
                None => None,
            },
            bytes@,
            made as nat,
        ),
        r <= bytes@.len(),
{
    match charset {
        None => if made <= bytes.len() {
            made
        } else {
            bytes.len()
        },
        Some(found) => {
            let mut decoder = StreamDecoder::start(found);
            let mut piece: Vec<u8> = vec![0u8; 64];
            let mut fed: usize = 0;
            let mut count: usize = 0;
            assert(bytes@.take(0) =~= Seq::<u8>::empty());
            while fed < bytes.len() && count < made
                invariant
                    fed <= bytes@.len(),
                    !decoder.finished(),
                    decoder.charset() == found@,
                    decoder.taken() == bytes@.take(fed as int),
                    piece@.len() == 64,
                    count <= made,
                    count < made ==> count == decoder.made().len(),
                    count == made ==> decoder.made().len() >= made,
                    least_fed(found@, bytes@, made as nat, 0) == least_fed(
                        found@,
                        bytes@,
                        made as nat,
                        fed as nat,
                    ),
                decreases bytes@.len() - fed,
            {
                let one = vstd::slice::slice_subrange(bytes, fed, fed + 1);
                let (written, _) = decoder.decode(one, &mut piece, false);
                assert(bytes@.take(fed as int) + one@ =~= bytes@.take(fed + 1));
                fed = fed + 1;
                count = if written >= made - count {
                    made
                } else {
                    count + written
                };
            }
            fed
        },
    }
}

/// How many bytes [`is_marred`] hands to the decoder at once.
pub const STRIDE: usize = 1024;

/// Whether `bytes` hold a sequence that is malformed in the character set `charset`: a
/// fresh decoder takes them piece by piece, and with `last` it is told that they are
/// all, so that a character that breaks off at the end counts too.
pub fn is_marred(charset: Option<&Charset>, bytes: &[u8], last: bool) -> (r: bool)
    ensures
        r == spoiled(
            match charset {
                Some(found) => Some(found@),
                None => None,
            },
            bytes@,
            last,
        ),
{
    match charset {
        None => false,
        Some(found) => {
            let mut decoder = StreamDecoder::start(found);
            let mut piece: Vec<u8> = vec![0u8; 3104];
            let mut fed: usize = 0;
            let mut marred = false;
            assert(bytes@.take(0) =~= Seq::<u8>::empty());
            while bytes.len() - fed > STRIDE
                invariant
                    fed <= bytes@.len(),
                    !decoder.finished(),
                    decoder.charset() == found@,
                    decoder.taken() == bytes@.take(fed as int),
                    marred == decoder.marred(),
                    piece@.len() == 3104,
                decreases bytes@.len() - fed,
            {
                let some = vstd::slice::slice_subrange(bytes, fed, fed + STRIDE);
                let (_, replaced) = decoder.decode(some, &mut piece, false);
                assert(bytes@.take(fed as int) + some@ =~= bytes@.take(fed + STRIDE));
                marred = marred || replaced;
                fed = fed + STRIDE;
            }
            let rest = vstd::slice::slice_subrange(bytes, fed, bytes.len());
            let (_, replaced) = decoder.decode(rest, &mut piece, last);
            assert(bytes@.take(fed as int) + rest@ =~= bytes@);
            marred || replaced
        },
    }
}

} // verus!
