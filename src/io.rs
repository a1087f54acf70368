//! The buffered reading of token trees from a byte stream: bytes come in as
//! they arrive, and whole trees leave the front of the buffer.
use vstd::prelude::*;
use crate::codec::{
    copy_range, enc, enc_items, lemma_enc_first_byte, lemma_parse_enc, lemma_parse_prefix, parse_value,
    needed_of, tokenize, wf, wf_items, LexError, Lexed, TokenTree, Tree,
};

verus! {

/// Bytes received and not yet read as a token tree.
pub struct ReadBuffer {
    buf: Vec<u8>,
}

impl View for ReadBuffer {
    type V = Seq<u8>;

    closed spec fn view(&self) -> Seq<u8> {
        self.buf@
    }
}

impl ReadBuffer {
    pub fn new() -> (r: ReadBuffer)
        ensures
            r@ == Seq::<u8>::empty(),
    {
        ReadBuffer { buf: Vec::new() }
    }

    /// The buffered bytes.
    pub fn fill_buf(&self) -> (r: &[u8])
        ensures
            r@ == self@,
    {
        self.buf.as_slice()
    }

    /// Appends bytes read from the stream.
    pub fn fill(&mut self, bytes: &[u8])
        ensures
            final(self)@ == old(self)@ + bytes@,
    {
        let mut i: usize = 0;
        let ghost start = self.buf@;
        while i < bytes.len()
            invariant
                i <= bytes.len(),
                self.buf@ == start + bytes@.take(i as int),
            decreases bytes.len() - i,
        {
            self.buf.push(bytes[i]);
            i = i + 1;
            assert(self.buf@ =~= start + bytes@.take(i as int));
        }
        assert(bytes@.take(bytes.len() as int) =~= bytes@);
    }

    /// Drops the first `amt` buffered bytes.
    pub fn consume(&mut self, amt: usize)
        requires
            amt <= old(self)@.len(),
        ensures
            final(self)@ == old(self)@.skip(amt as int),
    {
        let len = self.buf.len();
        self.buf = copy_range(self.buf.as_slice(), amt, len);
        assert(self.buf@ =~= old(self)@.skip(amt as int));
    }

    /// Reads one token tree from the front of the buffer and consumes exactly
    /// its bytes. When the buffer holds only the start of a tree, or bytes that
    /// are no encoding, it stays as it is and the error says which.
    pub fn try_consume_syrup(&mut self) -> (r: Result<TokenTree, LexError>)
        ensures
            match parse_value(old(self)@) {
                Lexed::Done(t, n) => r is Ok && r->Ok_0@ == t && final(self)@ == old(self)@.skip(n as int),
                Lexed::Incomplete(x) => r == Err::<TokenTree, LexError>(LexError::Incomplete(needed_of(x))) && final(self)@ == old(self)@,
                Lexed::Malformed => r == Err::<TokenTree, LexError>(LexError::Malformed) && final(self)@ == old(self)@,
            },
    {
        match tokenize(self.buf.as_slice()) {
            Ok((tree, n)) => {
                self.consume(n);
                Ok(tree)
            },
            Err(e) => Err(e),
        }
    }
}

/// The two halves of a session's byte stream.
pub struct CapTpSessionCore<Reader, Writer> {
    pub reader: Reader,
    pub writer: Writer,
}

impl<Reader, Writer> CapTpSessionCore<Reader, Writer> {
    pub fn new(reader: Reader, writer: Writer) -> (r: CapTpSessionCore<Reader, Writer>)
        ensures
            r.reader == reader,
            r.writer == writer,
    {
        CapTpSessionCore { reader, writer }
    }
}

/// Reading every whole tree from the front of a buffer, until what is left
/// is no whole tree: the trees read and the bytes left.
pub open spec fn drain(buf: Seq<u8>) -> (Seq<Tree>, Seq<u8>)
    decreases buf.len(),
{
    match parse_value(buf) {
        Lexed::Done(t, n) => if 0 < n <= buf.len() {
            let (ts, rest) = drain(buf.skip(n as int));
            (seq![t] + ts, rest)
        } else {
            (Seq::empty(), buf)
        },
        _ => (Seq::empty(), buf),
    }
}

/// Feeding `input` one byte at a time into a buffer that holds `buf`,
/// draining the buffer after each byte: the trees read, in order, and the
/// bytes left.
pub open spec fn feed(buf: Seq<u8>, input: Seq<u8>) -> (Seq<Tree>, Seq<u8>)
    decreases input.len(),
{
    if input.len() == 0 {
        (Seq::empty(), buf)
    } else {
        let (ts, rest) = drain(buf.push(input[0]));
        let (more, left) = feed(rest, input.drop_first());
        (ts + more, left)
    }
}

/// Feeding the encodings of well-formed trees, one byte at a time, reads
/// exactly those trees, in order, and leaves nothing behind.
pub proof fn lemma_feed_encodings(ts: Seq<Tree>)
    requires
        wf_items(ts),
    ensures
        feed(Seq::empty(), enc_items(ts)) == (ts, Seq::<u8>::empty()),
    decreases ts.len(), if ts.len() > 0 { enc(ts[0]).len() + 1 } else { 0 },
{
    if ts.len() == 0 {
        assert(enc_items(ts) =~= Seq::<u8>::empty());
    } else {
        let t = ts[0];
        lemma_enc_first_byte(t);
        assert(enc(t).take(0) =~= Seq::<u8>::empty());
        assert(enc(t).skip(0) =~= enc(t));
        lemma_feed_message(t, ts.drop_first(), 0);
        assert(seq![t] + ts.drop_first() =~= ts);
    }
}

/// Feeding the rest of one tree's encoding, then the encodings of more
/// trees, into a buffer that holds the start of that tree.
proof fn lemma_feed_message(t: Tree, ts: Seq<Tree>, j: nat)
    requires
        wf(t),
        wf_items(ts),
        j < enc(t).len(),
    ensures
        feed(enc(t).take(j as int), enc(t).skip(j as int) + enc_items(ts)) == (seq![t] + ts, Seq::<u8>::empty()),
    decreases ts.len() + 1, enc(t).len() - j,
{
    let e = enc(t);
    let input = e.skip(j as int) + enc_items(ts);
    assert(input[0] == e[j as int]);
    assert(e.take(j as int).push(e[j as int]) =~= e.take(j + 1 as int));
    assert(input.drop_first() =~= e.skip(j + 1 as int) + enc_items(ts));
    if j + 1 < e.len() {
        lemma_parse_prefix(t, j + 1);
        assert(drain(e.take(j + 1 as int)) == (Seq::<Tree>::empty(), e.take(j + 1 as int)));
        lemma_feed_message(t, ts, j + 1);
        assert(Seq::<Tree>::empty() + (seq![t] + ts) =~= seq![t] + ts);
    } else {
        assert(e.take(j + 1 as int) =~= e);
        lemma_parse_enc(t, Seq::empty());
        assert(e + Seq::<u8>::empty() =~= e);
        assert(e.skip(e.len() as int) =~= Seq::<u8>::empty());
        assert(drain(Seq::<u8>::empty()) == (Seq::<Tree>::empty(), Seq::<u8>::empty()));
        assert(seq![t] + Seq::<Tree>::empty() =~= seq![t]);
        assert(drain(e) == (seq![t], Seq::<u8>::empty()));
        assert(e.skip(j + 1 as int) + enc_items(ts) =~= enc_items(ts));
        lemma_feed_encodings(ts);
    }
}

} // verus!
