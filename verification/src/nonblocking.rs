//! Read-side buffering that turns a connection with only blocking reads into
//! one that can be polled: a background reader hands over whole chunks, and
//! this buffer serves callers the bytes they ask for, keeping any remainder
//! of a chunk for the next call.

use vstd::prelude::*;

verus! {

/// The bytes of dequeued chunks not yet handed to a caller.
pub struct ChunkBuffer {
    chunk: Vec<u8>,
    offset: usize,
}

impl ChunkBuffer {
    /// The bytes held back for the next read, in the order they arrived.
    pub closed spec fn buffered(&self) -> Seq<u8> {
        self.chunk@.skip(self.offset as int)
    }

    pub closed spec fn wf(&self) -> bool {
        self.offset <= self.chunk@.len()
    }

    pub fn new() -> (b: ChunkBuffer)
        ensures
            b.wf(),
            b.buffered() == Seq::<u8>::empty(),
    {
        let b = ChunkBuffer { chunk: Vec::new(), offset: 0 };
        proof {
            assert(b.buffered() =~= Seq::<u8>::empty());
        }
        b
    }

    /// Whether a read can be served without dequeuing another chunk; when
    /// nothing is buffered, a blocking-mode caller waits for the reader's
    /// next chunk instead.
    pub fn has_buffered(&self) -> (r: bool)
        requires
            self.wf(),
        ensures
            r == (self.buffered().len() != 0),
    {
        self.offset < self.chunk.len()
    }

    /// One poll-style read: serves up to `max` bytes, first from the held
    /// remainder, then from the chunk dequeued this call, if any; whatever
    /// is not served stays buffered for the next call. Would-block (the
    /// second result) is reported only when the caller asked for bytes,
    /// nothing was produced and no chunk was available; a caller whose
    /// buffer is already full gets an empty result at once.
    pub fn read_step(&mut self, incoming: Option<Vec<u8>>, max: usize) -> (r: (Vec<u8>, bool))
        requires
            old(self).wf(),
        ensures
            final(self).wf(),
            ({
                let avail = old(self).buffered() + (match incoming {
                    Some(c) => c@,
                    None => Seq::<u8>::empty(),
                });
                let served: int = if max <= avail.len() {
                    max as int
                } else {
                    avail.len() as int
                };
                &&& r.0@ == avail.take(served)
                &&& final(self).buffered() == avail.skip(served)
                &&& r.1 == (max > 0 && r.0@.len() == 0 && incoming is None)
            }),
    {
        let ghost avail = old(self).buffered() + (match incoming {
            Some(ref c) => c@,
            None => Seq::<u8>::empty(),
        });
        let got = incoming.is_some();
        match incoming {
            Some(c) => {
                if self.offset >= self.chunk.len() {
                    self.chunk = c;
                    self.offset = 0;
                } else {
                    let mut merged: Vec<u8> = Vec::new();
                    let mut i: usize = self.offset;
                    while i < self.chunk.len()
                        invariant
                            old(self).wf(),
                            self == old(self),
                            old(self).offset <= i <= self.chunk@.len(),
                            merged@ == self.chunk@.subrange(old(self).offset as int, i as int),
                        decreases self.chunk@.len() - i,
                    {
                        merged.push(self.chunk[i]);
                        assert(merged@ =~= self.chunk@.subrange(old(self).offset as int, i as int
                            + 1));
                        i += 1;
                    }
                    let mut tail = c;
                    merged.append(&mut tail);
                    self.chunk = merged;
                    self.offset = 0;
                }
            },
            None => {},
        }
        assert(self.buffered() =~= avail);
        let ghost folded = self.chunk@;
        let mut out: Vec<u8> = Vec::new();
        while self.offset < self.chunk.len() && out.len() < max
            invariant
                self.wf(),
                self.chunk@ == folded,
                out@.len() <= max,
                avail =~= out@ + self.buffered(),
                out@.len() < max || self.buffered().len() == 0 || out@.len() == max,
            decreases self.chunk@.len() - self.offset,
        {
            out.push(self.chunk[self.offset]);
            self.offset += 1;
            assert(avail =~= out@ + self.buffered());
        }
        proof {
            let served: int = if max <= avail.len() {
                max as int
            } else {
                avail.len() as int
            };
            assert(out@.len() == served);
            assert(out@ =~= avail.take(served));
            assert(self.buffered() =~= avail.skip(served));
        }
        let would_block = max > 0 && out.len() == 0 && !got;
        (out, would_block)
    }
}

} // verus!
