//! The byte buffers a connection reads into and writes out of.

use vstd::prelude::*;

verus! {

/// Outgoing bytes are sent once this many have gathered.
pub const FLUSH_THRESHOLD: usize = 512;

/// Bytes received and not yet consumed.
pub struct InputBuffer {
    bytes: Vec<u8>,
}

impl View for InputBuffer {
    type V = Seq<u8>;

    closed spec fn view(&self) -> Seq<u8> {
        self.bytes@
    }
}

impl InputBuffer {
    /// An empty buffer.
    pub fn new() -> (b: InputBuffer)
        ensures
            b@ == Seq::<u8>::empty(),
    {
        InputBuffer { bytes: Vec::new() }
    }

    /// Appends received bytes.
    pub fn extend(&mut self, data: &[u8])
        ensures
            final(self)@ == old(self)@ + data@,
    {
        self.bytes.extend_from_slice(data);
        assert(self@ =~= old(self)@ + data@);
    }

    /// The buffered bytes.
    pub fn as_slice(&self) -> (s: &[u8])
        ensures
            s@ == self@,
    {
        self.bytes.as_slice()
    }

    /// Number of buffered bytes.
    pub fn len(&self) -> (n: usize)
        ensures
            n == self@.len(),
    {
        self.bytes.len()
    }

    /// Drops the first `n` bytes.
    pub fn consume(&mut self, n: usize)
        requires
            n <= old(self)@.len(),
        ensures
            final(self)@ == old(self)@.skip(n as int),
    {
        let rest = self.bytes.split_off(n);
        self.bytes = rest;
    }

    /// Takes the first `n` bytes when that many are buffered; otherwise
    /// leaves the buffer as it is.
    pub fn read_n(&mut self, n: usize) -> (r: Option<Vec<u8>>)
        ensures
            match r {
                Some(v) => n <= old(self)@.len() && v@ == old(self)@.take(n as int) && final(self)@
                    == old(self)@.skip(n as int),
                None => n > old(self)@.len() && final(self)@ == old(self)@,
            },
    {
        if self.bytes.len() < n {
            return None;
        }
        let mut head = self.bytes.split_off(n);
        std::mem::swap(&mut self.bytes, &mut head);
        Some(head)
    }
}

/// Bytes written and not yet sent.
pub struct OutputBuffer {
    bytes: Vec<u8>,
}

impl View for OutputBuffer {
    type V = Seq<u8>;

    closed spec fn view(&self) -> Seq<u8> {
        self.bytes@
    }
}

impl OutputBuffer {
    /// An empty buffer.
    pub fn new() -> (b: OutputBuffer)
        ensures
            b@ == Seq::<u8>::empty(),
    {
        OutputBuffer { bytes: Vec::new() }
    }

    /// Appends `data`; returns whether enough has gathered to be sent.
    pub fn write(&mut self, data: &[u8]) -> (flush: bool)
        ensures
            final(self)@ == old(self)@ + data@,
            flush == (final(self)@.len() >= FLUSH_THRESHOLD),
    {
        self.bytes.extend_from_slice(data);
        assert(self@ =~= old(self)@ + data@);
        self.bytes.len() >= FLUSH_THRESHOLD
    }

    /// Takes every gathered byte, leaving the buffer empty.
    pub fn take_all(&mut self) -> (v: Vec<u8>)
        ensures
            v@ == old(self)@,
            final(self)@ == Seq::<u8>::empty(),
    {
        let mut all: Vec<u8> = Vec::new();
        std::mem::swap(&mut self.bytes, &mut all);
        all
    }
}

/// The bytes sent and the bytes still waiting after `chunks` are written in
/// turn into an empty `OutputBuffer`, everything gathered being taken out and
/// sent each time a write reports that enough has gathered.
pub open spec fn delivered(chunks: Seq<Seq<u8>>) -> (Seq<u8>, Seq<u8>)
    decreases chunks.len(),
{
    if chunks.len() == 0 {
        (Seq::empty(), Seq::empty())
    } else {
        let (sent, waiting) = delivered(chunks.drop_last());
        let gathered = waiting + chunks.last();
        if gathered.len() >= FLUSH_THRESHOLD {
            (sent + gathered, Seq::empty())
        } else {
            (sent, gathered)
        }
    }
}

/// Writes in turn, with a flush whenever a write asks for one and a last
/// flush at the end, deliver exactly the written bytes, in order, none twice;
/// between flushes fewer than `FLUSH_THRESHOLD` bytes wait.
pub proof fn law_writes_arrive_in_order(chunks: Seq<Seq<u8>>)
    ensures
        delivered(chunks).0 + delivered(chunks).1 == chunks.flatten(),
        delivered(chunks).1.len() < FLUSH_THRESHOLD,
    decreases chunks.len(),
{
    chunks.lemma_flatten_and_flatten_alt_are_equivalent();
    if chunks.len() > 0 {
        let init = chunks.drop_last();
        law_writes_arrive_in_order(init);
        init.lemma_flatten_and_flatten_alt_are_equivalent();
        let (sent, waiting) = delivered(init);
        assert(sent + (waiting + chunks.last()) =~= (sent + waiting) + chunks.last());
        assert(sent + (waiting + chunks.last()) + Seq::<u8>::empty() =~= (sent + waiting)
            + chunks.last());
    }
}

} // verus!
