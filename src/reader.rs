//! The buffer discipline of a framed event source: bytes arrive in chunks,
//! whole frames are decoded from the front of the unconsumed bytes, and a
//! partial frame waits in the buffer until the rest of it arrives.
use vstd::prelude::*;
use vstd::slice::slice_subrange;

verus! {

/// Initial capacity of the decode window, in bytes.
pub const READ_BUFFER_CAPACITY: usize = 1048576;

/// A byte source together with the decode window over what it has sent.
pub struct EventReader<R> {
    reader: R,
    buffer: Vec<u8>,
    consumed: usize,
    peer_finished: bool,
    retried: bool,
}

impl<R> EventReader<R> {
    /// The invariant: the consumed prefix lies inside the buffer.
    pub closed spec fn wf(&self) -> bool {
        self.consumed <= self.buffer@.len()
    }

    /// The bytes that have arrived and not yet been decoded.
    pub closed spec fn pending_bytes(&self) -> Seq<u8> {
        self.buffer@.subrange(self.consumed as int, self.buffer@.len() as int)
    }

    /// The byte source.
    pub closed spec fn source(&self) -> R {
        self.reader
    }

    /// The source has reported its end.
    pub closed spec fn at_eof(&self) -> bool {
        self.peer_finished
    }

    /// The caller has been shown a first empty poll after the end.
    pub closed spec fn eof_shown(&self) -> bool {
        self.retried
    }

    /// A reader of `reader` that has received nothing.
    pub fn new(reader: R) -> (r: EventReader<R>)
        ensures
            r.wf(),
            r.source() == reader,
            r.pending_bytes() == Seq::<u8>::empty(),
            !r.at_eof(),
            !r.eof_shown(),
    {
        let r = EventReader {
            reader,
            buffer: Vec::with_capacity(READ_BUFFER_CAPACITY),
            consumed: 0,
            peer_finished: false,
            retried: false,
        };
        assert(r.pending_bytes() =~= Seq::<u8>::empty());
        r
    }

    /// Starts a poll. Returns `false` where the poll must end with no event:
    /// the first poll after the end of the source, which gives the caller one
    /// more turn to drain queued frames. From the poll after that on,
    /// `is_finished` is set. Otherwise the caller goes on to decode.
    pub fn begin_poll(&mut self, is_finished: &mut bool) -> (r: bool)
        requires
            old(self).wf(),
        ensures
            final(self).wf(),
            final(self).pending_bytes() == old(self).pending_bytes(),
            final(self).at_eof() == old(self).at_eof(),
            final(self).source() == old(self).source(),
            r == !(old(self).at_eof() && !old(self).eof_shown()),
            final(self).eof_shown() == (old(self).eof_shown() || old(self).at_eof()),
            *final(is_finished) == (*old(is_finished) || (old(self).at_eof()
                && old(self).eof_shown())),
    {
        if self.peer_finished && self.retried {
            *is_finished = true;
            true
        } else if self.peer_finished {
            self.retried = true;
            false
        } else {
            true
        }
    }

    /// The byte source, to read the next chunk from.
    pub fn reader_mut(&mut self) -> (r: &mut R)
        ensures
            *r == old(self).source(),
            final(self).source() == *final(r),
            final(self).wf() == old(self).wf(),
            final(self).pending_bytes() == old(self).pending_bytes(),
            final(self).at_eof() == old(self).at_eof(),
            final(self).eof_shown() == old(self).eof_shown(),
    {
        &mut self.reader
    }

    /// The bytes that have arrived and not yet been decoded.
    pub fn pending(&self) -> (r: &[u8])
        requires
            self.wf(),
        ensures
            r@ == self.pending_bytes(),
    {
        slice_subrange(self.buffer.as_slice(), self.consumed, self.buffer.len())
    }

    /// Records that a frame of `len` bytes was decoded from the front of
    /// the pending bytes.
    pub fn consume(&mut self, len: usize)
        requires
            old(self).wf(),
            len <= old(self).pending_bytes().len(),
        ensures
            final(self).wf(),
            final(self).pending_bytes() == old(self).pending_bytes().subrange(
                len as int,
                old(self).pending_bytes().len() as int,
            ),
            final(self).at_eof() == old(self).at_eof(),
            final(self).eof_shown() == old(self).eof_shown(),
            final(self).source() == old(self).source(),
    {
        let valid = self.buffer.len();
        let rest = valid - self.consumed - len;
        self.consumed = valid - rest;
        assert(self.pending_bytes() =~= old(self).pending_bytes().subrange(
            len as int,
            old(self).pending_bytes().len() as int,
        ));
    }

    /// Moves the pending bytes to the front of the buffer, where no whole
    /// frame could be decoded, so that the next chunk lands after them.
    pub fn compact(&mut self)
        requires
            old(self).wf(),
        ensures
            final(self).wf(),
            final(self).pending_bytes() == old(self).pending_bytes(),
            final(self).at_eof() == old(self).at_eof(),
            final(self).eof_shown() == old(self).eof_shown(),
            final(self).source() == old(self).source(),
    {
        if self.consumed > 0 {
            let rest = slice_subrange(self.buffer.as_slice(), self.consumed, self.buffer.len());
            let mut moved: Vec<u8> = Vec::with_capacity(READ_BUFFER_CAPACITY);
            moved.extend_from_slice(rest);
            assert(moved@ =~= old(self).pending_bytes());
            self.buffer = moved;
            self.consumed = 0;
            assert(self.pending_bytes() =~= old(self).pending_bytes());
        }
    }

    /// Appends a chunk that the source sent; an empty chunk is the end of
    /// the source.
    pub fn receive(&mut self, chunk: &[u8])
        requires
            old(self).wf(),
        ensures
            final(self).wf(),
            final(self).pending_bytes() == old(self).pending_bytes() + chunk@,
            final(self).at_eof() == (old(self).at_eof() || chunk@.len() == 0),
            final(self).eof_shown() == old(self).eof_shown(),
            final(self).source() == old(self).source(),
    {
        if chunk.len() == 0 {
            self.peer_finished = true;
        }
        self.buffer.extend_from_slice(chunk);
        assert(self.pending_bytes() =~= old(self).pending_bytes() + chunk@);
    }
}

} // verus!
