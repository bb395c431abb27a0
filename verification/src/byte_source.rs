//! Sequential byte producers.
//!
//! A producer hands out the bytes of one logical stream in order, some at a
//! time, and never goes back. Its model is the sequence of bytes that it has
//! yet to hand out.

use vstd::prelude::*;

verus! {

/// A failure of the underlying producer, as opposed to a clean end of data.
#[derive(Debug)]
pub struct IoFailure {
    pub message: String,
}

/// A producer of bytes in stream order.
///
/// A producer written with Verus says with `modelled` that `pending`
/// describes it, and all that this crate proves of a reader over a producer
/// is proved for modelled producers. A producer written without Verus keeps
/// the defaults: it has no model, and `read_chunk` owes nothing.
pub trait ByteSource {
    /// Whether `pending` describes this producer.
    open spec fn modelled(&self) -> bool {
        false
    }

    /// The bytes that this producer has not handed out yet.
    open spec fn pending(&self) -> Seq<u8> {
        Seq::empty()
    }

    /// Whether this producer is known never to fail.
    open spec fn reliable(&self) -> bool {
        false
    }

    /// Hands out the next bytes of the stream, at most `limit` of them.
    ///
    /// An empty chunk is returned only when `limit` is zero or the stream is
    /// at its end. A failure consumes nothing.
    fn read_chunk(&mut self, limit: usize) -> (r: Result<Vec<u8>, IoFailure>)
        ensures
            final(self).modelled() == old(self).modelled(),
            final(self).reliable() == old(self).reliable(),
            old(self).modelled() ==> match r {
                Ok(chunk) => {
                    &&& chunk@.len() <= limit
                    &&& chunk@.len() <= old(self).pending().len()
                    &&& chunk@ == old(self).pending().take(chunk@.len() as int)
                    &&& final(self).pending() == old(self).pending().skip(chunk@.len() as int)
                    &&& chunk@.len() == 0 ==> limit == 0 || old(self).pending().len() == 0
                },
                Err(_) => {
                    &&& !old(self).reliable()
                    &&& final(self).pending() == old(self).pending()
                },
            },
    ;
}

/// A producer over bytes held in memory. It never fails.
pub struct MemorySource {
    data: Vec<u8>,
    position: usize,
    chunk_limit: usize,
}

impl MemorySource {
    #[verifier::type_invariant]
    spec fn wf(&self) -> bool {
        &&& self.position <= self.data@.len()
        &&& self.chunk_limit >= 1
    }

    /// The largest chunk this producer hands out at once.
    pub closed spec fn chunk_limit(&self) -> nat {
        self.chunk_limit as nat
    }

    /// The number of bytes handed out when `limit` are asked for.
    pub open spec fn chunk_len(&self, limit: usize) -> nat {
        let allowed = if limit as nat <= self.chunk_limit() {
            limit as nat
        } else {
            self.chunk_limit()
        };
        if allowed <= self.pending().len() {
            allowed
        } else {
            self.pending().len()
        }
    }

    /// A producer of `data` that hands out as much as is asked for.
    pub fn new(data: Vec<u8>) -> (s: MemorySource)
        ensures
            s.pending() == data@,
            s.pending().len() <= usize::MAX,
            s.chunk_limit() == usize::MAX,
    {
        assert(data@.len() == data.len());
        MemorySource { data, position: 0, chunk_limit: usize::MAX }
    }

    /// A producer of `data` that hands out at most `chunk_limit` bytes at
    /// once; a limit of zero is taken as one.
    pub fn with_chunk_limit(data: Vec<u8>, chunk_limit: usize) -> (s: MemorySource)
        ensures
            s.pending() == data@,
            s.pending().len() <= usize::MAX,
            s.chunk_limit() == if chunk_limit == 0 {
                1
            } else {
                chunk_limit as nat
            },
    {
        let chunk_limit: usize = if chunk_limit == 0 {
            1
        } else {
            chunk_limit
        };
        assert(data@.len() == data.len());
        MemorySource { data, position: 0, chunk_limit }
    }
}

impl ByteSource for MemorySource {
    open spec fn modelled(&self) -> bool {
        true
    }

    closed spec fn pending(&self) -> Seq<u8> {
        if self.position <= self.data@.len() {
            self.data@.skip(self.position as int)
        } else {
            Seq::empty()
        }
    }

    open spec fn reliable(&self) -> bool {
        true
    }

    fn read_chunk(&mut self, limit: usize) -> (r: Result<Vec<u8>, IoFailure>)
        ensures
            r is Ok,
            r->Ok_0@.len() == old(self).chunk_len(limit),
            final(self).chunk_limit() == old(self).chunk_limit(),
    {
        proof {
            use_type_invariant(&*self);
        }
        let mut chunk: Vec<u8> = Vec::new();
        let remaining: usize = self.data.len() - self.position;
        let allowed: usize = if limit <= self.chunk_limit {
            limit
        } else {
            self.chunk_limit
        };
        let count: usize = if allowed <= remaining {
            allowed
        } else {
            remaining
        };
        let start: usize = self.position;
        let mut i: usize = 0;
        while i < count
            invariant
                i <= count,
                start + count <= self.data@.len() <= usize::MAX,
                chunk@ == self.data@.subrange(start as int, start + i),
            decreases count - i,
        {
            chunk.push(self.data[start + i]);
            i += 1;
        }
        self.position = start + count;
        Ok(chunk)
    }
}

} // verus!
