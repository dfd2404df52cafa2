use vstd::prelude::*;
use vstd::slice::slice_subrange;
use crate::encoding::{
    decoding, is_marred, raw_end, raw_length, spoiled, starts, stream, streams, Charset,
    StreamDecoder,
};

verus! {

/// How many bytes are read from the source at once.
pub const RAW_SIZE: usize = 4096;

/// How many decoded bytes are buffered at once: the room that a decoder is given for
/// as many bytes as are read at once.
pub const TEXT_SIZE: usize = 12320;

/// When no more raw bytes than this are left, more are read: no encoding needs so many
/// for one character.
pub const CARRY: usize = 32;

/// A byte source seen as buffered UTF-8 text.
///
/// With a decoder the bytes of the source are decoded piece by piece; without one they
/// are handed on as they are. The decoder can be changed while reading: what was decoded
/// already is still handed out, and what follows goes through the new decoder.
///
/// Reading itself never fails: a sequence that is malformed in the character set comes
/// out as U+FFFD, so that the text is the same however it is asked for. The reader
/// remembers that it met one, and can be asked beforehand whether a stretch of the source
/// holds one; the parser takes either for text that cannot be decoded.
pub struct DecodeReader {
    decoder: Option<StreamDecoder>,
    source: Vec<u8>,
    source_pos: usize,
    raw: Vec<u8>,
    raw_pos: usize,
    raw_cap: usize,
    text: Vec<u8>,
    text_pos: usize,
    text_cap: usize,
    done: bool,
    marred: bool,
}

impl DecodeReader {
    #[verifier::type_invariant]
    spec fn inv(self) -> bool {
        &&& self.source_pos <= self.source@.len()
        &&& self.raw@.len() == RAW_SIZE
        &&& self.raw_pos <= self.raw_cap <= RAW_SIZE
        &&& self.text@.len() == TEXT_SIZE
        &&& self.text_pos <= self.text_cap <= TEXT_SIZE
        &&& (self.decoder matches Some(d) && d.finished()) ==> self.done && self.raw_pos
            == self.raw_cap
        &&& self.done ==> self.source_pos == self.source@.len()
        &&& self.decoder matches Some(d) ==> streams(d.charset())
        &&& self.decoder matches Some(d) ==> self.marred == d.marred()
    }

    /// The bytes of the source that no decoder has seen and no reader has taken.
    pub closed spec fn pending(&self) -> Seq<u8> {
        self.raw@.subrange(self.raw_pos as int, self.raw_cap as int) + self.source@.skip(
            self.source_pos as int,
        )
    }

    /// The decoded text that waits to be taken.
    pub closed spec fn decoded(&self) -> Seq<u8> {
        self.text@.subrange(self.text_pos as int, self.text_cap as int)
    }

    /// Whether the reader hands the bytes on as they are.
    pub closed spec fn is_plain(&self) -> bool {
        self.decoder is None
    }

    /// The bytes that `fill` hands out next without reading any: decoded text if there
    /// is some, else, without a decoder, the raw bytes at hand.
    pub closed spec fn buffered(&self) -> Seq<u8> {
        if self.text_pos < self.text_cap {
            self.decoded()
        } else if self.decoder is None {
            self.raw@.subrange(self.raw_pos as int, self.raw_cap as int)
        } else {
            Seq::empty()
        }
    }

    /// The bytes of the source, from its start.
    pub closed spec fn whole(&self) -> Seq<u8> {
        self.source@
    }

    /// The name of the character set that is decoded, if one is.
    pub closed spec fn charset(&self) -> Option<Seq<char>> {
        match self.decoder {
            Some(d) => Some(d.charset()),
            None => None,
        }
    }

    /// The bytes that are decoded from the start of the decoder to the end of the source:
    /// those that the decoder has taken, and those that are pending.
    pub closed spec fn scope(&self) -> Seq<u8> {
        match self.decoder {
            Some(d) => d.taken() + self.pending(),
            None => self.pending(),
        }
    }

    /// Whether the bytes that are decoded hold a malformed sequence, wherever it is.
    pub open spec fn spoilt(&self) -> bool {
        spoiled(self.charset(), self.scope(), true)
    }

    /// Whether the decoder has met a malformed sequence so far, and has put U+FFFD in
    /// its place.
    pub closed spec fn marred(&self) -> bool {
        self.decoder is Some && self.marred
    }

    /// The text that is still to be made of what is pending: the pending bytes as they
    /// are without a decoder, and else what the decoder makes of all that it has taken
    /// and of them, beyond what it has made already.
    pub closed spec fn ahead(&self) -> Seq<u8> {
        match self.decoder {
            Some(d) => decoding(d.charset(), d.taken() + self.pending(), true).skip(
                d.made().len() as int,
            ),
            None => self.pending(),
        }
    }

    /// The text that the reader hands out from here to its end, if it is left alone:
    /// the decoded text that waits, and the text that is still to be made.
    pub closed spec fn text(&self) -> Seq<u8> {
        self.decoded() + self.ahead()
    }

    /// What the decoder has made is the start of what it makes in the end.
    proof fn lemma_made_starts(&self)
        requires
            self.inv(),
        ensures
            self.decoder matches Some(d) ==> starts(
                decoding(d.charset(), d.taken() + self.pending(), true),
                d.made(),
            ),
            self.decoder matches Some(d) && d.finished() ==> self.ahead().len() == 0,
    {
        if let Some(d) = self.decoder {
            if d.finished() {
                assert(self.pending() =~= Seq::<u8>::empty());
                assert(d.taken() + self.pending() =~= d.taken());
            } else {
                assert(starts(
                    decoding(d.charset(), d.taken() + self.pending(), true),
                    decoding(d.charset(), d.taken(), false),
                ));
            }
        }
    }

    /// Whether `self` is what `fill` makes of the reader `before` when it hands out
    /// `bytes`.
    ///
    /// The text that the reader has to hand out is the same before and after, and the
    /// bytes are its start; there are none only at its end, and there the reader knows
    /// whether the bytes that it has decoded held a malformed sequence.
    /// The bytes are what is buffered afterwards. Bytes that were buffered before are
    /// handed out as they were, and nothing is read for them. Bytes leave the source only
    /// towards the decoder: what is pending afterwards is an end piece of what was
    /// pending before, and what the decoder made of the rest is UTF-8. Without a decoder,
    /// and with no decoded text left, nothing leaves the source at all: the bytes are the
    /// start of what is pending, as many as are read at once if none was at hand, and
    /// there are none only if nothing is pending.
    pub open spec fn is_filled(&self, before: &DecodeReader, bytes: Seq<u8>) -> bool {
        &&& bytes =~= self.buffered()
        &&& self.is_plain() == before.is_plain()
        &&& self.charset() == before.charset()
        &&& self.whole() == before.whole()
        &&& self.text() =~= before.text()
        &&& starts(self.text(), bytes)
        &&& bytes.len() == 0 ==> self.text().len() == 0
        &&& self.spoilt() == before.spoilt()
        &&& bytes.len() == 0 ==> self.marred() == self.spoilt()
        &&& self.is_plain() && self.decoded().len() == 0 ==> bytes =~= self.pending().take(
            bytes.len() as int,
        )
        &&& before.buffered().len() > 0 ==> bytes =~= before.buffered() && self.pending()
            =~= before.pending()
        &&& exists|k: int|
            0 <= k <= before.pending().len() && self.pending() =~= before.pending().skip(k)
        &&& !before.is_plain() && before.decoded().len() == 0 ==> vstd::utf8::valid_utf8(bytes)
        &&& before.is_plain() && before.decoded().len() == 0 ==> self.pending() =~= before.pending()
            && self.decoded().len() == 0 && (bytes.len() == 0 ==> self.pending().len() == 0)
        &&& before.is_plain() && before.decoded().len() == 0 && before.buffered().len() == 0
            ==> bytes =~= before.pending().take(
            if before.pending().len() <= RAW_SIZE {
                before.pending().len() as int
            } else {
                RAW_SIZE as int
            },
        )
    }

    /// How many bytes `advance` takes when it is asked for `amount` of `at_hand`.
    pub open spec fn taken(amount: usize, at_hand: Seq<u8>) -> int {
        if amount <= at_hand.len() {
            amount as int
        } else {
            at_hand.len() as int
        }
    }

    /// Whether `self` is what `advance` makes of the reader `before` when it is asked to
    /// take `amount` bytes: decoded text goes first, and the source is left alone while
    /// there is some; without decoded text the bytes are taken from what is buffered,
    /// which is the start of what is pending.
    pub open spec fn is_advanced(&self, before: &DecodeReader, amount: usize) -> bool {
        &&& self.is_plain() == before.is_plain()
        &&& self.charset() == before.charset()
        &&& self.whole() == before.whole()
        &&& self.text() =~= before.text().skip(DecodeReader::taken(amount, before.buffered()))
        &&& self.spoilt() == before.spoilt()
        &&& self.marred() == before.marred()
        &&& before.decoded().len() > 0 ==> self.pending() =~= before.pending() && self.decoded()
            =~= before.decoded().skip(DecodeReader::taken(amount, before.decoded()))
        &&& before.decoded().len() == 0 ==> self.decoded().len() == 0 && self.pending()
            =~= before.pending().skip(DecodeReader::taken(amount, before.buffered()))
            && self.buffered() =~= before.buffered().skip(
            DecodeReader::taken(amount, before.buffered()),
        )
    }

    /// Whether `self` is what `read` makes of the reader `before`: `middle` is the reader
    /// after `fill`, and of the bytes that `fill` handed out as many as the buffer holds
    /// were copied to its start and taken.
    pub open spec fn is_read(
        &self,
        before: &DecodeReader,
        middle: &DecodeReader,
        buf_before: Seq<u8>,
        buf_after: Seq<u8>,
        count: usize,
    ) -> bool {
        &&& middle.is_filled(before, middle.buffered())
        &&& count == DecodeReader::taken(buf_before.len() as usize, middle.buffered())
        &&& buf_after =~= middle.buffered().take(count as int) + buf_before.skip(count as int)
        &&& self.is_advanced(middle, count)
    }

    /// Whether `self` is what `read` makes of the reader `before`, with `r` as its
    /// result: reading never fails, and the result is the number of bytes that were
    /// copied and taken.
    pub open spec fn has_read(
        &self,
        before: &DecodeReader,
        buf_before: Seq<u8>,
        buf_after: Seq<u8>,
        r: std::io::Result<usize>,
    ) -> bool {
        r matches Ok(count) && exists|middle: DecodeReader| #[trigger]
            self.is_read(before, &middle, buf_before, buf_after, count)
    }

    /// A reader over `source`.
    pub fn new(source: Vec<u8>, decoder: Option<StreamDecoder>) -> (r: DecodeReader)
        requires
            decoder matches Some(d) ==> !d.finished() && d.taken().len() == 0 && streams(
                d.charset(),
            ),
        ensures
            r.pending() == source@,
            r.whole() == source@,
            r.decoded().len() == 0,
            r.buffered().len() == 0,
            r.is_plain() == (decoder is None),
            r.charset() == (match decoder {
                Some(d) => Some(d.charset()),
                None => None,
            }),
            r.text() == stream(r.charset(), source@),
            r.spoilt() == spoiled(r.charset(), source@, true),
            !r.marred(),
    {
        proof {
            if let Some(d) = &decoder {
                assert(d.taken() =~= Seq::<u8>::empty());
            }
        }
        let r = DecodeReader {
            decoder,
            source,
            source_pos: 0,
            raw: vec![0u8; RAW_SIZE],
            raw_pos: 0,
            raw_cap: 0,
            text: vec![0u8; TEXT_SIZE],
            text_pos: 0,
            text_cap: 0,
            done: false,
            marred: false,
        };
        proof {
            assert(r.pending() =~= source@);
            if let Some(d) = &r.decoder {
                assert(d.taken() =~= Seq::<u8>::empty());
                assert(d.taken() + r.pending() =~= source@);
                assert(d.made().len() == 0);
                assert(decoding(d.charset(), source@, true).skip(0) =~= decoding(
                    d.charset(),
                    source@,
                    true,
                ));
            }
            assert(r.decoded() =~= Seq::<u8>::empty());
            assert(r.text() =~= stream(r.charset(), source@));
        }
        r
    }

    /// Changes the decoder: `None` hands the bytes on as they are. Nothing that is
    /// buffered is lost: the decoded text that waits stays, and what is pending goes
    /// through the new decoder from its start.
    pub fn set_encoding(&mut self, encoding: Option<&Charset>)
        ensures
            final(self).pending() == old(self).pending(),
            final(self).whole() == old(self).whole(),
            final(self).decoded() == old(self).decoded(),
            final(self).is_plain() == (encoding is None),
            final(self).charset() == (match encoding {
                Some(charset) => Some(charset@),
                None => None,
            }),
            final(self).text() == old(self).decoded() + stream(
                final(self).charset(),
                old(self).pending(),
            ),
            final(self).spoilt() == spoiled(final(self).charset(), old(self).pending(), true),
            !final(self).marred(),
    {
        proof {
            use_type_invariant(&*self);
        }
        self.decoder = None;
        self.done = false;
        self.marred = false;
        match encoding {
            Some(charset) => {
                self.decoder = Some(StreamDecoder::start(charset));
            },
            None => {},
        }
        proof {
            if let Some(d) = &self.decoder {
                assert(d.taken() + self.pending() =~= self.pending());
                assert(d.made().len() == 0);
                assert(decoding(d.charset(), self.pending(), true).skip(0) =~= decoding(
                    d.charset(),
                    self.pending(),
                    true,
                ));
            }
            assert(self.text() =~= old(self).decoded() + stream(
                self.charset(),
                old(self).pending(),
            ));
        }
    }

    /// Whether the decoder has met a malformed sequence so far. At the end of the text
    /// that says whether the bytes that were decoded held one.
    pub fn is_marred(&self) -> (r: bool)
        ensures
            r == self.marred(),
    {
        self.decoder.is_some() && self.marred
    }

    /// How many bytes the source has.
    pub fn size(&self) -> (r: usize)
        ensures
            r == self.whole().len(),
    {
        self.source.len()
    }

    /// Whether the bytes of the source from the number `from` up to the number `to` hold
    /// a sequence that is malformed in the character set `charset`. With `last` a
    /// character that breaks off at the end counts too.
    pub fn spoiled(&self, from: usize, to: usize, charset: Option<&Charset>, last: bool) -> (r: bool)
        requires
            from <= to <= self.whole().len(),
        ensures
            r == spoiled(
                match charset {
                    Some(found) => Some(found@),
                    None => None,
                },
                self.whole().subrange(from as int, to as int),
                last,
            ),
    {
        is_marred(charset, slice_subrange(self.source.as_slice(), from, to), last)
    }

    /// How many bytes of the source, counted from the byte with the number `from`, a
    /// decoder for `charset` must take from its start to make `made` bytes of text:
    /// the least number that is enough, and all of them if none is.
    pub fn measure(&self, from: usize, charset: Option<&Charset>, made: usize) -> (r: usize)
        requires
            from <= self.whole().len(),
        ensures
            r == raw_end(
                match charset {
                    Some(found) => Some(found@),
                    None => None,
                },
                self.whole().skip(from as int),
                made as nat,
            ),
            from + r <= self.whole().len(),
            from + r <= usize::MAX,
    {
        let rest = slice_subrange(self.source.as_slice(), from, self.source.len());
        assert(rest@ =~= self.whole().skip(from as int));
        raw_length(charset, rest, made)
    }

    /// Starts anew at the byte of the source with the number `offset`, with another
    /// decoder: what was buffered is dropped, and the bytes from there on go through
    /// the new decoder from its start.
    pub fn restart(&mut self, offset: usize, encoding: Option<&Charset>)
        requires
            offset <= old(self).whole().len(),
        ensures
            final(self).whole() == old(self).whole(),
            final(self).pending() == old(self).whole().skip(offset as int),
            final(self).decoded().len() == 0,
            final(self).buffered().len() == 0,
            final(self).is_plain() == (encoding is None),
            final(self).charset() == (match encoding {
                Some(charset) => Some(charset@),
                None => None,
            }),
            final(self).text() == stream(
                final(self).charset(),
                old(self).whole().skip(offset as int),
            ),
            final(self).spoilt() == spoiled(
                final(self).charset(),
                old(self).whole().skip(offset as int),
                true,
            ),
            !final(self).marred(),
    {
        proof {
            use_type_invariant(&*self);
        }
        self.decoder = None;
        self.done = false;
        self.marred = false;
        self.text_pos = 0;
        self.text_cap = 0;
        self.raw_pos = 0;
        self.raw_cap = 0;
        self.source_pos = offset;
        match encoding {
            Some(charset) => {
                self.decoder = Some(StreamDecoder::start(charset));
            },
            None => {},
        }
        proof {
            let rest = self.source@.skip(offset as int);
            assert(self.pending() =~= rest);
            assert(self.decoded() =~= Seq::<u8>::empty());
            if let Some(d) = &self.decoder {
                assert(d.taken() + self.pending() =~= rest);
                assert(d.made().len() == 0);
                assert(decoding(d.charset(), rest, true).skip(0) =~= decoding(
                    d.charset(),
                    rest,
                    true,
                ));
            }
            assert(self.text() =~= stream(self.charset(), rest));
        }
    }

    /// Moves the raw bytes at hand to the start of their buffer and reads more from the
    /// source behind them. Returns whether the source gave nothing.
    fn read_more(&mut self) -> (dry: bool)
        requires
            old(self).raw_cap - old(self).raw_pos <= CARRY,
            !(old(self).decoder matches Some(d) && d.finished()),
        ensures
            final(self).source == old(self).source,
            final(self).pending() == old(self).pending(),
            final(self).decoded() == old(self).decoded(),
            final(self).decoder == old(self).decoder,
            final(self).done == old(self).done,
            dry == (old(self).source_pos == old(self).source@.len()),
            dry ==> final(self).source_pos == final(self).source@.len(),
            final(self).raw_pos == 0,
            old(self).raw_pos == old(self).raw_cap ==> final(self).raw_cap == (if old(self).source@.len() - old(self).source_pos <= RAW_SIZE {
                old(self).source@.len() - old(self).source_pos
            } else {
                RAW_SIZE as int
            }),
            dry ==> final(self).raw_cap - final(self).raw_pos == old(self).raw_cap - old(self).raw_pos,
            !dry ==> final(self).raw_pos < final(self).raw_cap,
    {
        proof {
            use_type_invariant(&*self);
        }
        let left = self.raw_cap - self.raw_pos;
        let from = self.raw_pos;
        let ghost kept = self.raw@.subrange(self.raw_pos as int, self.raw_cap as int);
        let mut k: usize = 0;
        while k < left
            invariant
                k <= left,
                from + left <= RAW_SIZE,
                self.raw@.len() == RAW_SIZE,
                self.raw_pos == from,
                self.raw_cap == from + left,
                self.source_pos == old(self).source_pos,
                self.source == old(self).source,
                self.text == old(self).text,
                self.text_pos == old(self).text_pos,
                self.text_cap == old(self).text_cap,
                self.decoder == old(self).decoder,
                self.marred == old(self).marred,
                self.done == old(self).done,
                self.source_pos <= self.source@.len(),
                self.text@.len() == TEXT_SIZE,
                self.text_pos <= self.text_cap <= TEXT_SIZE,
                !(self.decoder matches Some(d) && d.finished()),
                self.decoder matches Some(d) ==> streams(d.charset()),
                self.decoder matches Some(d) ==> self.marred == d.marred(),
                self.done ==> self.source_pos == self.source@.len(),
                forall|j: int| 0 <= j < k ==> self.raw@[j] == kept[j],
                forall|j: int| from + k <= j < from + left ==> #[trigger] self.raw@[j] == kept[j - from],
                kept.len() == left,
            decreases left - k,
        {
            let byte = self.raw[from + k];
            self.raw[k] = byte;
            k += 1;
        }
        let available = self.source.len() - self.source_pos;
        let space = RAW_SIZE - left;
        let count = if available < space { available } else { space };
        let start = self.source_pos;
        let mut n: usize = 0;
        while n < count
            invariant
                n <= count,
                left + count <= RAW_SIZE,
                from + left <= RAW_SIZE,
                self.source@.len() <= usize::MAX,
                start + count <= self.source@.len(),
                self.raw@.len() == RAW_SIZE,
                self.raw_pos == from,
                self.raw_cap == from + left,
                self.source_pos == start,
                self.source == old(self).source,
                self.text == old(self).text,
                self.text_pos == old(self).text_pos,
                self.text_cap == old(self).text_cap,
                self.decoder == old(self).decoder,
                self.marred == old(self).marred,
                self.done == old(self).done,
                kept.len() == left,
                self.text@.len() == TEXT_SIZE,
                self.text_pos <= self.text_cap <= TEXT_SIZE,
                !(self.decoder matches Some(d) && d.finished()),
                self.decoder matches Some(d) ==> streams(d.charset()),
                self.decoder matches Some(d) ==> self.marred == d.marred(),
                self.done ==> self.source_pos == self.source@.len(),
                forall|j: int| 0 <= j < left ==> self.raw@[j] == kept[j],
                forall|j: int| left <= j < left + n ==> #[trigger] self.raw@[j] == self.source@[start + j - left],
            decreases count - n,
        {
            let byte = self.source[start + n];
            self.raw[left + n] = byte;
            n += 1;
        }
        self.raw_pos = 0;
        self.raw_cap = left + count;
        self.source_pos = start + count;
        assert(self.pending() =~= old(self).pending());
        count == 0
    }

    /// Decodes more text where none is left to hand out: piece by piece, until the
    /// decoder has made some text or is at its end. Every piece takes bytes of the
    /// source, so the end comes.
    #[verifier::rlimit(60)]
    fn fill_buf_decode(&mut self)
        requires
            !old(self).is_plain(),
        ensures
            !final(self).is_plain(),
            final(self).charset() == old(self).charset(),
            final(self).whole() == old(self).whole(),
            old(self).decoded().len() > 0 ==> final(self).decoded() == old(self).decoded()
                && final(self).pending() == old(self).pending(),
            exists|k: int|
                0 <= k <= old(self).pending().len() && final(self).pending() == old(self).pending().skip(k),
            old(self).decoded().len() == 0 ==> vstd::utf8::valid_utf8(final(self).decoded()),
            final(self).text() =~= old(self).text(),
            final(self).decoded().len() == 0 ==> final(self).text().len() == 0,
            final(self).spoilt() == old(self).spoilt(),
            old(self).decoded().len() > 0 ==> final(self).marred() == old(self).marred(),
            final(self).decoded().len() == 0 ==> final(self).marred() == final(self).spoilt(),
    {
        proof {
            use_type_invariant(&*self);
            assert(self.pending().skip(0) =~= self.pending());
        }
        if self.text_pos < self.text_cap {
            return ;
        }
        let ghost start = self.pending();
        let ghost whole_text = self.text();
        let ghost mut gone: int = 0;
        let mut going = true;
        assert(self.decoded() =~= Seq::<u8>::empty());
        assert(vstd::utf8::valid_utf8(self.decoded())) by {
            reveal_with_fuel(vstd::utf8::valid_utf8, 1);
        }
        while going
            invariant
                self.decoder is Some,
                self.charset() == old(self).charset(),
                self.source == old(self).source,
                0 <= gone <= start.len(),
                self.pending() =~= start.skip(gone),
                self.text() =~= whole_text,
                self.scope() == old(self).scope(),
                !going && self.decoded().len() == 0 ==> (self.decoder matches Some(d) && d.finished()),
                vstd::utf8::valid_utf8(self.decoded()),
                going ==> self.text_pos == self.text_cap,
                !going ==> self.decoded().len() > 0 || self.text().len() == 0,
            decreases
                    self.pending().len(),
                    (if self.decoder matches Some(d) && d.finished() {
                        0nat
                    } else {
                        1nat
                    }),
                    (if going {
                        1nat
                    } else {
                        0nat
                    }),
        {
            proof {
                use_type_invariant(&*self);
                self.lemma_made_starts();
            }
            if StreamDecoder::is_spent(&self.decoder) {
                proof {
                    assert(self.decoded() =~= Seq::<u8>::empty());
                }
                going = false;
            } else {
                if self.raw_cap - self.raw_pos <= CARRY && !self.done {
                    let dry = self.read_more();
                    proof {
                        use_type_invariant(&*self);
                    }
                    self.done = dry;
                }
                proof {
                    use_type_invariant(&*self);
                    self.lemma_made_starts();
                }
                let ghost before = *self;
                let last = self.done;
                let src = slice_subrange(self.raw.as_slice(), self.raw_pos, self.raw_cap);
                let mut held: Option<StreamDecoder> = None;
                let was = self.marred;
                std::mem::swap(&mut held, &mut self.decoder);
                let ghost read = src@.len();
                let (written, replaced) = StreamDecoder::decode_with(
                    &mut held,
                    src,
                    &mut self.text,
                    last,
                );
                self.raw_pos = self.raw_cap;
                self.text_pos = 0;
                self.text_cap = written;
                self.marred = was || replaced;
                std::mem::swap(&mut held, &mut self.decoder);
                proof {
                    let d0 = before.decoder->Some_0;
                    let d1 = self.decoder->Some_0;
                    let window = before.raw@.subrange(before.raw_pos as int, before.raw_cap as int);
                    let piece = self.text@.take(written as int);
                    assert(self.pending() =~= before.pending().skip(read as int));
                    assert(self.decoded() =~= piece);
                    assert(before.pending().take(read as int) =~= window);
                    assert(d1.taken() + self.pending() =~= d0.taken() + before.pending());
                    assert(self.scope() =~= before.scope());
                    let all = decoding(d0.charset(), d0.taken() + before.pending(), true);
                    // What is made now is the start of all that is made in the end.
                    if d1.finished() {
                        assert(self.pending() =~= Seq::<u8>::empty());
                        assert(d1.taken() + self.pending() =~= d1.taken());
                    } else {
                        assert(starts(
                            decoding(d1.charset(), d1.taken() + self.pending(), true),
                            decoding(d1.charset(), d1.taken(), false),
                        ));
                    }
                    assert(starts(all, d1.made()));
                    assert(d1.made() =~= d0.made() + piece);
                    let m0 = d0.made().len() as int;
                    let m1 = d1.made().len() as int;
                    assert(all.take(m1) =~= d1.made());
                    assert forall|i: int| 0 <= i < piece.len() implies all[m0 + i] == piece[i] by {
                        assert(all.take(m1)[m0 + i] == d1.made()[m0 + i]);
                    }
                    assert(all.skip(m0) =~= piece + all.skip(m1));
                    assert(before.decoded() =~= Seq::<u8>::empty());
                    assert(before.ahead() =~= all.skip(m0));
                    assert(self.ahead() =~= all.skip(m1));
                    assert(self.text() =~= before.text());
                    gone = gone + read;
                    if written == 0 && d1.finished() {
                        assert(self.text().len() == 0);
                    }
                }
                if written > 0 {
                    going = false;
                }
            }
        }
        proof {
            use_type_invariant(&*self);
            if self.decoded().len() == 0 {
                let d = self.decoder->Some_0;
                assert(self.pending() =~= Seq::<u8>::empty());
                assert(d.taken() + self.pending() =~= d.taken());
            }
        }
    }

    /// Reads more raw bytes where none is left to hand out.
    fn fill_buf_without_decode(&mut self)
        requires
            old(self).is_plain(),
        ensures
            final(self).is_plain(),
            final(self).whole() == old(self).whole(),
            final(self).decoded() == old(self).decoded(),
            final(self).pending() == old(self).pending(),
            final(self).text() =~= old(self).text(),
            old(self).buffered().len() > 0 ==> final(self).buffered() == old(self).buffered(),
            final(self).decoded().len() == 0 && final(self).buffered().len() == 0 ==> final(self).pending().len() == 0,
            old(self).decoded().len() == 0 && old(self).buffered().len() == 0 ==> final(self).buffered() == old(self).pending().take(
                if old(self).pending().len() <= RAW_SIZE {
                    old(self).pending().len() as int
                } else {
                    RAW_SIZE as int
                },
            ),
    {
        proof {
            use_type_invariant(&*self);
        }
        if self.raw_pos >= self.raw_cap {
            self.read_more();
        }
        proof {
            use_type_invariant(&*self);
        }
    }

    /// The bytes that can be taken now, after decoding or reading more if none was at
    /// hand. An empty result means that the text is at its end.
    ///
    /// Bytes leave the source only towards the decoder: what is pending afterwards is an
    /// end piece of what was pending before. Without a decoder nothing leaves at all, and
    /// the result is empty only if nothing is pending.
    pub fn fill(&mut self) -> (r: &[u8])
        ensures
            final(self).is_filled(old(self), r@),
    {
        proof {
            use_type_invariant(&*self);
            assert(self.pending().skip(0) =~= self.pending());
        }
        if self.text_pos >= self.text_cap {
            if self.decoder.is_some() {
                self.fill_buf_decode();
            } else {
                self.fill_buf_without_decode();
            }
        }
        proof {
            use_type_invariant(&*self);
        }
        if self.text_pos < self.text_cap {
            slice_subrange(self.text.as_slice(), self.text_pos, self.text_cap)
        } else if self.decoder.is_none() {
            assert(self.pending().take(self.raw_cap - self.raw_pos) =~= self.raw@.subrange(
                self.raw_pos as int,
                self.raw_cap as int,
            ));
            slice_subrange(self.raw.as_slice(), self.raw_pos, self.raw_cap)
        } else {
            slice_subrange(self.text.as_slice(), 0, 0)
        }
    }

    /// Takes `amount` of the bytes that `fill` hands out, or all of them if they are
    /// fewer.
    pub fn advance(&mut self, amount: usize)
        ensures
            final(self).is_advanced(old(self), amount),
    {
        proof {
            use_type_invariant(&*self);
        }
        if self.text_pos < self.text_cap {
            let left = self.text_cap - self.text_pos;
            let step = if amount < left { amount } else { left };
            self.text_pos = self.text_pos + step;
            assert(self.decoded() =~= old(self).decoded().skip(step as int));
        } else if self.decoder.is_none() {
            let left = self.raw_cap - self.raw_pos;
            let step = if amount < left { amount } else { left };
            self.raw_pos = self.raw_pos + step;
            assert(self.pending() =~= old(self).pending().skip(step as int));
        } else {
            assert(self.pending() =~= old(self).pending().skip(0));
        }
    }
}

impl std::io::Read for DecodeReader {
    fn read(&mut self, buf: &mut [u8]) -> (r: std::io::Result<usize>)
        ensures
            r is Ok,
            final(self).has_read(old(self), old(buf)@, final(buf)@, r),
    {
        let wanted = buf.len();
        let ghost start = buf@;
        let mut count: usize = 0;
        let available = self.fill();
        let ghost handed = available@;
        let limit = if available.len() < wanted { available.len() } else { wanted };
        while count < limit
            invariant
                count <= limit,
                limit <= available@.len(),
                limit <= buf@.len(),
                buf@.len() == start.len(),
                handed == available@,
                forall|j: int| 0 <= j < count ==> buf@[j] == handed[j],
                forall|j: int| count <= j < buf@.len() ==> buf@[j] == start[j],
            decreases limit - count,
        {
            buf[count] = available[count];
            count += 1;
        }
        let ghost middle = *self;
        self.advance(count);
        let r: std::io::Result<usize> = Ok(count);
        proof {
            assert(buf@ =~= handed.take(count as int) + start.skip(count as int));
            assert(self.is_read(old(self), &middle, old(buf)@, buf@, r->Ok_0));
        }
        r
    }
}

impl std::io::BufRead for DecodeReader {
    fn fill_buf(&mut self) -> (r: std::io::Result<&[u8]>)
        ensures
            r matches Ok(bytes) && final(self).is_filled(old(self), bytes@),
    {
        Ok(self.fill())
    }

    fn consume(&mut self, amount: usize)
        ensures
            final(self).is_advanced(old(self), amount),
    {
        self.advance(amount);
    }
}

} // verus!
