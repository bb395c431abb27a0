//! Buffered access to a sequential byte producer.
//!
//! The reader keeps one buffer of the stream alive. Reading walks forward
//! through the buffers and discards each one that is left behind; seeking is
//! free inside the live buffer, costs a walk forward beyond it, and fails
//! behind it.

use vstd::prelude::*;
use vstd::arithmetic::div_mod::lemma_fundamental_div_mod_converse;
use crate::byte_source::{ByteSource, IoFailure};

verus! {

/// Why a reader could not do what was asked.
#[derive(Debug)]
pub enum SourceError {
    /// The stream ended before the position or the bytes asked for.
    EndOfData,
    /// The position lies behind the live buffer, or a relative move left it.
    UnreachablePosition,
    /// The producer failed.
    Io(IoFailure),
}

/// Where a seek is measured from.
#[derive(Debug, Clone, Copy)]
pub enum SeekFrom {
    /// An absolute position in the stream.
    Start(u64),
    /// A distance from the current position, inside the live buffer.
    Current(i64),
}

/// The model of a reader: the whole stream, and where the reader stands.
///
/// The live buffer starts at `base` and holds `loaded()` bytes; `cursor`
/// counts from `base`.
pub struct ReaderState {
    pub stream: Seq<u8>,
    pub capacity: nat,
    pub base: nat,
    pub cursor: nat,
}

impl ReaderState {
    /// The length of the whole stream.
    pub open spec fn len(self) -> nat {
        self.stream.len()
    }

    /// The number of bytes in the live buffer: a full buffer, or what is
    /// left of the stream.
    pub open spec fn loaded(self) -> nat {
        if self.base + self.capacity <= self.len() {
            self.capacity
        } else {
            (self.len() - self.base) as nat
        }
    }

    /// The absolute position of the cursor.
    pub open spec fn position(self) -> nat {
        self.base + self.cursor
    }

    /// Buffers start at multiples of the capacity, and the live buffer is
    /// never empty.
    pub open spec fn wf(self) -> bool {
        &&& self.capacity >= 1
        &&& self.len() <= u64::MAX
        &&& self.base < self.len()
        &&& self.cursor <= self.loaded()
        &&& self.base % self.capacity == 0
    }

    /// A reader at the start of `stream`.
    pub open spec fn start(stream: Seq<u8>, capacity: nat) -> ReaderState {
        ReaderState { stream, capacity, base: 0, cursor: 0 }
    }

    /// The reader with base and cursor replaced.
    pub open spec fn at(self, base: nat, cursor: nat) -> ReaderState {
        ReaderState { stream: self.stream, capacity: self.capacity, base, cursor }
    }

    /// The reader after it consumed all that the stream holds: it stands
    /// in the last buffer of the stream, with the cursor at its end.
    pub open spec fn at_end(self) -> ReaderState {
        let base = (((self.len() - 1) / (self.capacity as int)) * self.capacity) as nat;
        self.at(base, (self.len() - base) as nat)
    }

    /// Whether `n` more bytes lie ahead of the cursor.
    pub open spec fn has_ahead(self, n: nat) -> bool {
        self.position() + n <= self.len()
    }

    /// The `n` bytes ahead of the cursor.
    pub open spec fn ahead(self, n: nat) -> Seq<u8> {
        self.stream.subrange(self.position() as int, (self.position() + n) as int)
    }

    /// The reader after it consumed `n` bytes, or all that was left where
    /// that is less. A buffer is left behind only when a byte beyond it is
    /// needed, so the cursor may come to rest at the end of the live buffer.
    pub open spec fn advanced(self, n: nat) -> ReaderState {
        let target = self.position() + n;
        if target > self.len() {
            self.at_end()
        } else if target <= self.base + self.loaded() {
            self.at(self.base, self.cursor + n)
        } else {
            let base = (((target - 1) / (self.capacity as int)) * self.capacity) as nat;
            self.at(base, (target - base) as nat)
        }
    }

    /// The reader after the live buffer was left for the next one; where
    /// there is none, the reader stays as it is.
    pub open spec fn next_buffer(self) -> ReaderState {
        if self.base + self.loaded() < self.len() {
            self.at(self.base + self.loaded(), 0)
        } else {
            self
        }
    }

    /// The reader after a seek to the absolute position `pos`, which is not
    /// behind the live buffer. A seek to the end of the stream or beyond it
    /// walks to the end.
    pub open spec fn sought(self, pos: nat) -> ReaderState {
        if pos < self.base + self.loaded() {
            self.at(self.base, (pos - self.base) as nat)
        } else if pos < self.len() {
            self.at(((pos / self.capacity) * self.capacity) as nat, pos % self.capacity)
        } else {
            self.at_end()
        }
    }
}

/// A buffered reader over a byte producer, with a limited ability to seek.
pub struct BufStreamReader<R: ByteSource> {
    reader: R,
    offset: u64,
    buffer_size: usize,
    buffer: Vec<u8>,
    cursor: usize,
    failure: Option<IoFailure>,
    consumed: Ghost<Seq<u8>>,
}

impl Clone for IoFailure {
    fn clone(&self) -> (r: Self)
        ensures
            r == *self,
    {
        IoFailure { message: self.message.clone() }
    }
}

impl<R: ByteSource> View for BufStreamReader<R> {
    type V = ReaderState;

    closed spec fn view(&self) -> ReaderState {
        ReaderState {
            stream: self.consumed@ + self.buffer@ + self.reader.pending(),
            capacity: self.buffer_size as nat,
            base: self.offset as nat,
            cursor: self.cursor as nat,
        }
    }
}

impl<R: ByteSource> BufStreamReader<R> {
    /// Whether the producer has a model.
    pub closed spec fn modelled(&self) -> bool {
        self.reader.modelled()
    }

    /// Whether the producer is known never to fail.
    pub closed spec fn reliable(&self) -> bool {
        self.reader.reliable()
    }

    /// Whether the producer failed under this reader. Such a reader answers
    /// every call that needs the producer with the failure.
    pub closed spec fn poisoned(&self) -> bool {
        self.failure is Some
    }

    /// Whether the view describes this reader: the producer has a model and
    /// has not failed.
    pub open spec fn healthy(&self) -> bool {
        self.modelled() && !self.poisoned()
    }

    /// The part of the invariant that holds of every reader.
    pub closed spec fn sound(&self) -> bool {
        &&& self.buffer_size >= 1
        &&& self.buffer@.len() <= self.buffer_size
        &&& self.cursor <= self.buffer@.len()
        &&& self.offset + self.buffer@.len() <= u64::MAX
    }

    /// The part of the invariant that ties a healthy reader to its stream.
    pub closed spec fn tied(&self) -> bool {
        &&& self.consumed@.len() == self.offset
        &&& self.buffer@.len() == self@.loaded()
        &&& self@.wf()
    }

    /// The reader's invariant.
    pub open spec fn wf(&self) -> bool {
        &&& self.sound()
        &&& self.healthy() ==> self.tied()
    }

    /// What no call changes: the producer's kind, the capacity, and the
    /// stream of a modelled producer.
    pub open spec fn same_source(&self, before: &Self) -> bool {
        &&& self.modelled() == before.modelled()
        &&& self.reliable() == before.reliable()
        &&& before.poisoned() ==> self.poisoned()
        &&& self@.capacity == before@.capacity
        &&& before.healthy() && self.healthy() ==> self@.stream == before@.stream
    }

    /// What holds after a call on a healthy reader that was to bring it to
    /// `after`: it did, or the producer failed and the reader is poisoned.
    pub open spec fn moved_to(&self, after: ReaderState, failed: bool, before: &Self) -> bool {
        if failed {
            self.poisoned() && !before.reliable()
        } else {
            self.healthy() && self@ == after
        }
    }

    /// The view of a healthy reader is well formed.
    pub proof fn lemma_view_wf(&self)
        requires
            self.wf(),
            self.healthy(),
        ensures
            self@.wf(),
    {
    }

    /// The position of a reader fits a `u64`.
    pub proof fn lemma_position_fits(&self)
        requires
            self.wf(),
        ensures
            self@.position() <= u64::MAX,
    {
    }

    proof fn lemma_healthy_view(&self)
        requires
            self.wf(),
            self.healthy(),
        ensures
            self@.wf(),
            self.buffer@ == self@.stream.subrange(
                self@.base as int,
                (self@.base + self@.loaded()) as int,
            ),
            self.reader.pending() == self@.stream.skip((self@.base + self@.loaded()) as int),
            self.consumed@ == self@.stream.take(self@.base as int),
    {
        let s = self@.stream;
        assert(self.buffer@ =~= s.subrange(self@.base as int, (self@.base + self@.loaded()) as int));
        assert(self.reader.pending() =~= s.skip((self@.base + self@.loaded()) as int));
        assert(self.consumed@ =~= s.take(self@.base as int));
    }

    /// Fills one buffer from the producer: `buffer_size` bytes, or fewer
    /// where the stream ends first.
    fn initialize_buffer(reader: &mut R, buffer_size: usize) -> (r: Result<Vec<u8>, SourceError>)
        ensures
            final(reader).modelled() == old(reader).modelled(),
            final(reader).reliable() == old(reader).reliable(),
            r matches Ok(buffer) ==> 0 < buffer@.len() <= buffer_size,
            old(reader).modelled() ==> match r {
                Ok(buffer) => {
                    &&& buffer@.len() <= old(reader).pending().len()
                    &&& buffer@ == old(reader).pending().take(buffer@.len() as int)
                    &&& final(reader).pending() == old(reader).pending().skip(buffer@.len() as int)
                    &&& buffer@.len() == buffer_size || final(reader).pending().len() == 0
                },
                Err(SourceError::EndOfData) => {
                    &&& final(reader).pending() == old(reader).pending()
                    &&& buffer_size == 0 || old(reader).pending().len() == 0
                },
                Err(SourceError::Io(_)) => !old(reader).reliable(),
                Err(SourceError::UnreachablePosition) => false,
            },
    {
        let mut buffer: Vec<u8> = Vec::new();
        let ghost before = reader.pending();
        while buffer.len() < buffer_size
            invariant
                buffer@.len() <= buffer_size,
                reader.modelled() == old(reader).modelled(),
                reader.reliable() == old(reader).reliable(),
                before == old(reader).pending(),
                reader.modelled() ==> {
                    &&& buffer@.len() <= before.len()
                    &&& buffer@ == before.take(buffer@.len() as int)
                    &&& reader.pending() == before.skip(buffer@.len() as int)
                },
            ensures
                buffer@.len() <= buffer_size,
                reader.modelled() == old(reader).modelled(),
                reader.reliable() == old(reader).reliable(),
                reader.modelled() ==> {
                    &&& buffer@.len() <= before.len()
                    &&& buffer@ == before.take(buffer@.len() as int)
                    &&& reader.pending() == before.skip(buffer@.len() as int)
                    &&& buffer@.len() == buffer_size || reader.pending().len() == 0
                },
            decreases buffer_size - buffer@.len(),
        {
            let room: usize = buffer_size - buffer.len();
            match reader.read_chunk(room) {
                Ok(mut chunk) => {
                    if chunk.len() > room {
                        chunk.truncate(room);
                    }
                    if chunk.len() == 0 {
                        break ;
                    }
                    buffer.append(&mut chunk);
                    proof {
                        if reader.modelled() {
                            assert(buffer@ =~= before.take(buffer@.len() as int));
                            assert(reader.pending() =~= before.skip(buffer@.len() as int));
                        }
                    }
                },
                Err(failure) => {
                    return Err(SourceError::Io(failure));
                },
            }
        }
        if buffer.len() == 0 {
            proof {
                if reader.modelled() {
                    assert(reader.pending() =~= before);
                }
            }
            Err(SourceError::EndOfData)
        } else {
            Ok(buffer)
        }
    }

    /// A reader over `reader` with buffers of `buffer_size` bytes, the first
    /// of them loaded. An empty stream has no first buffer: that is
    /// `EndOfData`.
    pub fn new(mut reader: R, buffer_size: usize) -> (r: Result<Self, SourceError>)
        requires
            reader.modelled() ==> reader.pending().len() <= u64::MAX,
        ensures
            r matches Ok(s) ==> s.wf() && !s.poisoned() && s.modelled() == reader.modelled()
                && s.reliable() == reader.reliable(),
            reader.modelled() ==> match r {
                Ok(s) => {
                    &&& buffer_size >= 1
                    &&& reader.pending().len() >= 1
                    &&& s@ == ReaderState::start(reader.pending(), buffer_size as nat)
                },
                Err(SourceError::EndOfData) => buffer_size == 0 || reader.pending().len() == 0,
                Err(SourceError::Io(_)) => !reader.reliable(),
                Err(SourceError::UnreachablePosition) => false,
            },
    {
        let ghost stream = reader.pending();
        // already read the first buffer:
        let buffer = Self::initialize_buffer(&mut reader, buffer_size)?;
        let s = BufStreamReader {
            reader,
            offset: 0,
            buffer_size,
            buffer,
            cursor: 0,
            failure: None,
            consumed: Ghost(Seq::empty()),
        };
        proof {
            if s.modelled() {
                assert(s@.stream =~= stream);
            }
        }
        Ok(s)
    }

    /// The absolute position at which the live buffer starts.
    pub fn offset(&self) -> (o: u64)
        ensures
            o == self@.base,
    {
        self.offset
    }

    /// The absolute position of the cursor.
    pub fn current_offset(&self) -> (o: u64)
        requires
            self.wf(),
        ensures
            o == self@.position(),
    {
        self.offset + self.cursor as u64
    }

    /// The number of bytes in the live buffer.
    pub fn bytes_in_buffer(&self) -> (n: usize)
        requires
            self.wf(),
        ensures
            n == self.live().len(),
            self.healthy() ==> n == self@.loaded(),
    {
        self.buffer.len()
    }

    /// The answer of a poisoned reader: the failure that poisoned it.
    fn fail<T>(&self) -> (r: Result<T, SourceError>)
        requires
            self.poisoned(),
        ensures
            r is Err,
            r->Err_0 is Io,
    {
        match &self.failure {
            Some(failure) => Err(SourceError::Io(failure.clone())),
            None => Err(SourceError::EndOfData),
        }
    }

    /// The bytes of the live buffer.
    pub closed spec fn live(&self) -> Seq<u8> {
        self.buffer@
    }

    /// The number of bytes between the cursor and the end of the live
    /// buffer.
    pub closed spec fn cursor_room(&self) -> nat {
        (self.buffer@.len() - self.cursor) as nat
    }

    /// Whether base, cursor and live buffer are those of `before`.
    pub open spec fn stayed(&self, before: &Self) -> bool {
        &&& self@.base == before@.base
        &&& self@.cursor == before@.cursor
        &&& self.live() == before.live()
    }

    /// The live buffer of a healthy reader holds the bytes of the stream
    /// from the base on.
    pub proof fn lemma_live(&self)
        requires
            self.wf(),
        ensures
            self.cursor_room() == self.live().len() - self@.cursor,
            self@.cursor <= self.live().len(),
            self.healthy() ==> self.live() == self@.stream.subrange(
                self@.base as int,
                (self@.base + self@.loaded()) as int,
            ),
    {
        if self.healthy() {
            self.lemma_healthy_view();
        }
    }

    /// Leaves the live buffer behind and loads the one that follows it.
    /// Where the stream has no further byte, nothing changes, and the
    /// answer is `EndOfData`.
    pub fn read_next_buffer(&mut self) -> (r: Result<(), SourceError>)
        requires
            old(self).wf(),
        ensures
            final(self).wf(),
            final(self).same_source(old(self)),
            r is Ok ==> {
                &&& !final(self).poisoned()
                &&& final(self)@.cursor == 0
                &&& final(self).live().len() >= 1
                &&& final(self)@.base == old(self)@.base + old(self).live().len()
            },
            r is Err ==> final(self).stayed(old(self)),
            r matches Err(e) ==> !(e is UnreachablePosition),
            old(self).poisoned() ==> r is Err && r->Err_0 is Io,
            !(r is Err && r->Err_0 is Io) ==> final(self).poisoned() == old(self).poisoned(),
            old(self).healthy() ==> {
                &&& final(self).moved_to(
                    old(self)@.next_buffer(),
                    r is Err && r->Err_0 is Io,
                    old(self),
                )
                &&& r is Ok ==> old(self)@.base + old(self)@.loaded() < old(self)@.len()
                &&& r matches Err(SourceError::EndOfData) ==> old(self)@.base + old(self)@.loaded()
                    == old(self)@.len()
            },
    {
        if self.failure.is_some() {
            return self.fail();
        }
        proof {
            if self.healthy() {
                self.lemma_healthy_view();
            }
        }
        let ghost before = self@;
        let ghost left = self.consumed@ + self.buffer@;
        let start: u64 = self.offset + self.buffer.len() as u64;
        let room: u64 = u64::MAX - start;
        let limit: usize = if room < self.buffer_size as u64 {
            room as usize
        } else {
            self.buffer_size
        };
        match Self::initialize_buffer(&mut self.reader, limit) {
            Ok(buffer) => {
                self.cursor = 0;
                self.offset = start;
                self.buffer = buffer;
                self.consumed = Ghost(left);
                proof {
                    if self.healthy() {
                        assert(self@.stream =~= before.stream);
                        assert(before.base + before.loaded() < before.len());
                        assert(before.loaded() == before.capacity);
                        lemma_next_multiple(before.base as int, before.capacity as int);
                    }
                }
                Ok(())
            },
            Err(SourceError::Io(failure)) => {
                self.failure = Some(failure.clone());
                Err(SourceError::Io(failure))
            },
            Err(_) => {
                proof {
                    if self.healthy() {
                        assert(self@.stream =~= before.stream);
                    }
                }
                Err(SourceError::EndOfData)
            },
        }
    }

    /// Appends the `take` bytes at the cursor to `bytes`.
    fn copy_out(&self, bytes: &mut Vec<u8>, take: usize)
        requires
            self.cursor + take <= self.buffer.len(),
        ensures
            final(bytes)@ == old(bytes)@ + self.buffer@.subrange(
                self.cursor as int,
                self.cursor + take,
            ),
    {
        let ghost had = bytes@;
        let mut i: usize = 0;
        while i < take
            invariant
                i <= take,
                self.cursor + take <= self.buffer.len(),
                bytes@ == had + self.buffer@.subrange(self.cursor as int, self.cursor + i),
            decreases take - i,
        {
            bytes.push(self.buffer[self.cursor + i]);
            i += 1;
        }
    }

    /// Consumes `count` bytes and hands them back if `keep` is set.
    #[verifier::rlimit(80)]
    fn consume(&mut self, count: u64, keep: bool) -> (r: Result<Vec<u8>, SourceError>)
        requires
            old(self).wf(),
            keep ==> count <= usize::MAX,
        ensures
            final(self).wf(),
            final(self).same_source(old(self)),
            final(self)@.base >= old(self)@.base,
            r matches Err(e) ==> !(e is UnreachablePosition),
            r matches Ok(bytes) ==> bytes@.len() == if keep {
                count as nat
            } else {
                0
            },
            r is Ok ==> final(self)@.position() == old(self)@.position() + count,
            count <= old(self).cursor_room() ==> r is Ok,
            old(self).poisoned() ==> (r is Ok <==> count <= old(self).cursor_room()),
            old(self).poisoned() && r is Err ==> r->Err_0 is Io,
            old(self).healthy() ==> final(self).moved_to(
                old(self)@.advanced(count as nat),
                r is Err && r->Err_0 is Io,
                old(self),
            ) && match r {
                Ok(bytes) => old(self)@.has_ahead(count as nat) && (keep ==> bytes@ == old(
                    self,
                )@.ahead(count as nat)),
                Err(SourceError::EndOfData) => !old(self)@.has_ahead(count as nat),
                Err(_) => true,
            },
    {
        let mut bytes: Vec<u8> = Vec::new();
        let mut remaining: u64 = count;
        let ghost before = self@;
        let ghost origin = self@.position();
        let ghost was_healthy = self.healthy();
        let ghost mut moved: bool = false;
        proof {
            if self.healthy() {
                self.lemma_healthy_view();
            }
        }
        while remaining > 0
            invariant
                self.wf(),
                self.same_source(old(self)),
                self@.base >= old(self)@.base,
                was_healthy == old(self).healthy(),
                before == old(self)@,
                origin == before.position(),
                remaining <= count,
                keep ==> count <= usize::MAX,
                bytes@.len() == if keep {
                    (count - remaining) as nat
                } else {
                    0
                },
                !moved ==> self.cursor_room() + (count - remaining) == old(self).cursor_room(),
                moved ==> count > old(self).cursor_room() && !old(self).poisoned(),
                self@.position() == old(self)@.position() + (count - remaining),
                was_healthy ==> {
                    &&& self.healthy()
                    &&& before.wf()
                    &&& self@.stream == before.stream
                    &&& self@.position() == origin + (count - remaining)
                    &&& keep ==> bytes@ == before.stream.subrange(
                        origin as int,
                        origin + (count - remaining),
                    )
                    &&& self@.base == before.base || {
                        &&& self@.base >= before.base + before.loaded()
                        &&& self@.cursor >= 1
                    }
                },
            decreases remaining,
        {
            if self.cursor >= self.buffer.len() {
                proof {
                    if self.healthy() {
                        self.lemma_healthy_view();
                    }
                }
                match self.read_next_buffer() {
                    Ok(()) => {
                        proof {
                            moved = true;
                        }
                    },
                    Err(e) => {
                        proof {
                            if was_healthy && e is EndOfData {
                                self.lemma_healthy_view();
                                lemma_at_end(self@);
                                lemma_at_end_of(before);
                            }
                        }
                        return Err(e);
                    },
                }
            }
            let available: usize = self.buffer.len() - self.cursor;
            let take: usize = if (available as u64) <= remaining {
                available
            } else {
                remaining as usize
            };
            proof {
                if self.healthy() {
                    self.lemma_healthy_view();
                }
            }
            if keep {
                self.copy_out(&mut bytes, take);
                proof {
                    if was_healthy {
                        assert(bytes@ =~= before.stream.subrange(
                            origin as int,
                            origin + (count - remaining) + take,
                        ));
                    }
                }
            }
            self.cursor = self.cursor + take;
            remaining = remaining - take as u64;
        }
        proof {
            if was_healthy {
                self.lemma_healthy_view();
                lemma_advanced_rest(before, count as nat, self@);
            }
        }
        Ok(bytes)
    }

    /// Reads the next `n` bytes.
    ///
    /// Where the stream ends before `n` bytes, what was left of it is
    /// consumed, the reader stays in the last buffer of the stream, and the
    /// answer is `EndOfData`. Bytes that lie in the live buffer are read
    /// without the producer.
    pub fn read(&mut self, n: usize) -> (r: Result<Vec<u8>, SourceError>)
        requires
            old(self).wf(),
        ensures
            final(self).wf(),
            final(self).same_source(old(self)),
            final(self)@.base >= old(self)@.base,
            r matches Err(e) ==> !(e is UnreachablePosition),
            r matches Ok(bytes) ==> bytes@.len() == n,
            r is Ok ==> final(self)@.position() == old(self)@.position() + n,
            n <= old(self).cursor_room() ==> r is Ok,
            old(self).poisoned() ==> (r is Ok <==> n <= old(self).cursor_room()),
            old(self).poisoned() && r is Err ==> r->Err_0 is Io,
            old(self).healthy() ==> final(self).moved_to(
                old(self)@.advanced(n as nat),
                r is Err && r->Err_0 is Io,
                old(self),
            ) && match r {
                Ok(bytes) => old(self)@.has_ahead(n as nat) && bytes@ == old(self)@.ahead(n as nat),
                Err(SourceError::EndOfData) => !old(self)@.has_ahead(n as nat),
                Err(_) => true,
            },
    {
        self.consume(n as u64, true)
    }

    /// Consumes the next `n` bytes without keeping them.
    ///
    /// Where the stream ends before `n` bytes, what was left of it is
    /// consumed, the reader stays in the last buffer of the stream, and the
    /// answer is `EndOfData`. Bytes that lie in the live buffer are passed
    /// over without the producer.
    pub fn skip(&mut self, n: u64) -> (r: Result<(), SourceError>)
        requires
            old(self).wf(),
        ensures
            final(self).wf(),
            final(self).same_source(old(self)),
            final(self)@.base >= old(self)@.base,
            r matches Err(e) ==> !(e is UnreachablePosition),
            r is Ok ==> final(self)@.position() == old(self)@.position() + n,
            n <= old(self).cursor_room() ==> r is Ok,
            old(self).poisoned() ==> (r is Ok <==> n <= old(self).cursor_room()),
            old(self).poisoned() && r is Err ==> r->Err_0 is Io,
            old(self).healthy() ==> final(self).moved_to(
                old(self)@.advanced(n as nat),
                r is Err && r->Err_0 is Io,
                old(self),
            ) && match r {
                Ok(_) => old(self)@.has_ahead(n as nat),
                Err(SourceError::EndOfData) => !old(self)@.has_ahead(n as nat),
                Err(_) => true,
            },
    {
        match self.consume(n, false) {
            Ok(_) => Ok(()),
            Err(e) => Err(e),
        }
    }

    /// Walks forward to the buffer that holds the position
    /// `position_in_buffer`, counted from the start of the live buffer, and
    /// answers with that position counted from the start of the buffer
    /// reached. The cursor is left at the start of that buffer.
    ///
    /// A position inside the live buffer is answered as it is, and nothing
    /// moves. Where the stream ends at or before the position, the reader
    /// is left at the end of the stream, and the answer is `EndOfData`.
    pub fn seek_until_position(&mut self, position_in_buffer: u64) -> (r: Result<
        u64,
        SourceError,
    >)
        requires
            old(self).wf(),
            old(self)@.base + position_in_buffer <= u64::MAX,
        ensures
            final(self).wf(),
            final(self).same_source(old(self)),
            final(self)@.base >= old(self)@.base,
            r matches Err(e) ==> !(e is UnreachablePosition),
            r matches Ok(at) ==> at < final(self).live().len(),
            position_in_buffer < old(self).live().len() ==> {
                &&& r == Ok::<u64, SourceError>(position_in_buffer)
                &&& *final(self) == *old(self)
            },
            old(self).healthy() && position_in_buffer >= old(self)@.loaded() ==> {
                let pos = (old(self)@.base + position_in_buffer) as nat;
                let there = old(self)@.sought(pos);
                &&& final(self).moved_to(
                    if pos < old(self)@.len() {
                        there.at(there.base, 0)
                    } else {
                        there
                    },
                    r is Err && r->Err_0 is Io,
                    old(self),
                )
                &&& r matches Ok(at) ==> {
                    &&& pos < old(self)@.len()
                    &&& at == there.cursor
                    &&& at == position_in_buffer % (old(self)@.capacity as u64)
                    &&& final(self)@.base == old(self)@.base + (position_in_buffer - at)
                }
                &&& r matches Err(SourceError::EndOfData) ==> pos >= old(self)@.len()
            },
    {
        if position_in_buffer < self.buffer.len() as u64 {
            return Ok(position_in_buffer);
        }
        let ghost before = self@;
        let ghost was_healthy = self.healthy();
        let ghost pos = before.base + position_in_buffer;
        proof {
            if self.healthy() {
                self.lemma_healthy_view();
            }
        }
        let size: u64 = self.buffer_size as u64;
        let offset_in_buffer: u64 = position_in_buffer % size;
        // The live buffer is one of the buffers to leave behind; the last
        // one loaded is the destination.
        let buffers: u64 = position_in_buffer / size;
        proof {
            lemma_division(position_in_buffer as int, size as int);
        }
        match self.read_next_buffer() {
            Ok(()) => {},
            Err(e) => {
                proof {
                    if was_healthy && e is EndOfData {
                        lemma_at_end(before);
                    }
                }
                return self.stop_at_end(e);
            },
        }
        let mut left: u64 = 1;
        while left < buffers
            invariant
                self.wf(),
                self.same_source(old(self)),
                self@.base >= old(self)@.base,
                !self.poisoned(),
                was_healthy == old(self).healthy(),
                before == old(self)@,
                pos == before.base + position_in_buffer,
                position_in_buffer >= old(self).live().len(),
                size == self.buffer_size,
                buffers * size <= position_in_buffer,
                1 <= left,
                left <= buffers || buffers == 0,
                self.live().len() >= 1,
                was_healthy ==> {
                    &&& before.wf()
                    &&& self@ == before.at((before.base + left * size) as nat, 0)
                    &&& before.loaded() == before.capacity
                    &&& old(self).live().len() == before.loaded()
                },
            decreases buffers - left,
        {
            proof {
                if self.healthy() {
                    self.lemma_healthy_view();
                    assert((before.base + left * size) + size == before.base + (left + 1) * size)
                        by (nonlinear_arith);
                    assert((left + 1) * size <= buffers * size) by (nonlinear_arith)
                        requires
                            left + 1 <= buffers,
                            size >= 0,
                    ;
                }
            }
            let ghost here = self@;
            match self.read_next_buffer() {
                Ok(()) => {},
                Err(e) => {
                    proof {
                        if was_healthy && e is EndOfData {
                            lemma_at_end(here);
                        }
                    }
                    return self.stop_at_end(e);
                },
            }
            left = left + 1;
        }
        proof {
            if was_healthy {
                self.lemma_healthy_view();
                lemma_seek_target(before.base as int, position_in_buffer as int, size as int);
            }
        }
        if offset_in_buffer >= self.buffer.len() as u64 {
            proof {
                if was_healthy {
                    lemma_at_end(self@);
                }
            }
            self.stop_at_end(SourceError::EndOfData)
        } else {
            Ok(offset_in_buffer)
        }
    }

    /// Ends a walk forward that met `e`: where that is the end of the
    /// data, the cursor goes to the end of the live buffer.
    fn stop_at_end(&mut self, e: SourceError) -> (r: Result<u64, SourceError>)
        requires
            old(self).wf(),
        ensures
            final(self).wf(),
            final(self).same_source(old(self)),
            final(self).poisoned() == old(self).poisoned(),
            final(self)@.base == old(self)@.base,
            r == Err::<u64, SourceError>(e),
            !(e is EndOfData) ==> *final(self) == *old(self),
            e is EndOfData && old(self).healthy() ==> final(self).healthy() && final(self)@ == old(
                self,
            )@.at(old(self)@.base, old(self)@.loaded()),
    {
        match e {
            SourceError::EndOfData => {
                self.cursor = self.buffer.len();
                Err(SourceError::EndOfData)
            },
            other => Err(other),
        }
    }

    /// Moves the cursor to the absolute position `pos`.
    ///
    /// A position behind the live buffer is unreachable. Inside the live
    /// buffer only the cursor moves. Beyond it the reader walks forward to
    /// the buffer that holds `pos`; where the stream ends at or before
    /// `pos`, the reader is left at the end of the stream and the answer is
    /// `EndOfData`.
    pub fn seek_to(&mut self, pos: u64) -> (r: Result<u64, SourceError>)
        requires
            old(self).wf(),
        ensures
            final(self).wf(),
            final(self).same_source(old(self)),
            final(self)@.base >= old(self)@.base,
            r matches Ok(at) ==> at == pos,
            pos < old(self)@.base ==> {
                &&& r matches Err(SourceError::UnreachablePosition)
                &&& final(self).stayed(old(self))
                &&& final(self).poisoned() == old(self).poisoned()
            },
            pos >= old(self)@.base ==> !(r matches Err(SourceError::UnreachablePosition)),
            pos >= old(self)@.base && pos - old(self)@.base < old(self).live().len() ==> r is Ok,
            old(self).healthy() && pos < old(self)@.base ==> final(self)@ == old(self)@,
            old(self).healthy() && pos >= old(self)@.base ==> {
                &&& final(self).moved_to(
                    old(self)@.sought(pos as nat),
                    r is Err && r->Err_0 is Io,
                    old(self),
                )
                &&& r is Ok ==> pos < old(self)@.len()
                &&& r matches Err(SourceError::EndOfData) ==> pos >= old(self)@.len()
                &&& pos < old(self)@.base + old(self)@.loaded() ==> r is Ok
            },
    {
        // don't seek before the start of the live buffer
        if pos < self.offset {
            return Err(SourceError::UnreachablePosition);
        }
        proof {
            if self.healthy() {
                self.lemma_healthy_view();
            }
        }
        // We can seek beyond the end of the live buffer, but this requires
        // discarding it and loading another.
        let position_in_buffer: u64 = self.seek_until_position(pos - self.offset)?;
        self.cursor = position_in_buffer as usize;
        Ok(pos)
    }

    /// Moves the cursor by `delta` inside the live buffer; the end of the
    /// buffer counts as inside. A move that would leave the buffer moves
    /// nothing and is answered with `UnreachablePosition`.
    pub fn seek_relative(&mut self, delta: i64) -> (r: Result<u64, SourceError>)
        requires
            old(self).wf(),
        ensures
            final(self).wf(),
            final(self).same_source(old(self)),
            final(self).poisoned() == old(self).poisoned(),
            final(self)@.base == old(self)@.base,
            final(self).live() == old(self).live(),
            ({
                let target = old(self)@.cursor + delta;
                if 0 <= target <= old(self).live().len() {
                    &&& r == Ok::<u64, SourceError>((old(self)@.base + target) as u64)
                    &&& final(self)@ == old(self)@.at(old(self)@.base, target as nat)
                } else {
                    &&& r matches Err(SourceError::UnreachablePosition)
                    &&& final(self)@ == old(self)@
                }
            }),
            old(self).healthy() ==> old(self).live().len() == old(self)@.loaded(),
    {
        let target: i128 = self.cursor as i128 + delta as i128;
        if 0 <= target && target <= self.buffer.len() as i128 {
            self.cursor = target as usize;
            Ok(self.offset + self.cursor as u64)
        } else {
            Err(SourceError::UnreachablePosition)
        }
    }

    /// Moves the cursor as `seek_from` says: to an absolute position as
    /// `seek_to` does, or by a distance as `seek_relative` does.
    pub fn seek(&mut self, seek_from: SeekFrom) -> (r: Result<u64, SourceError>)
        requires
            old(self).wf(),
        ensures
            final(self).wf(),
            final(self).same_source(old(self)),
            final(self)@.base >= old(self)@.base,
            old(self).healthy() ==> match seek_from {
                SeekFrom::Start(pos) => if pos < old(self)@.base {
                    &&& r matches Err(SourceError::UnreachablePosition)
                    &&& final(self).healthy()
                    &&& final(self)@ == old(self)@
                } else {
                    &&& final(self).moved_to(
                        old(self)@.sought(pos as nat),
                        r is Err && r->Err_0 is Io,
                        old(self),
                    )
                    &&& r matches Ok(at) ==> at == pos && pos < old(self)@.len()
                    &&& r matches Err(SourceError::EndOfData) ==> pos >= old(self)@.len()
                    &&& r matches Err(e) ==> !(e is UnreachablePosition)
                    &&& pos < old(self)@.base + old(self)@.loaded() ==> r is Ok
                },
                SeekFrom::Current(delta) => {
                    let target = old(self)@.cursor + delta;
                    &&& final(self).healthy()
                    &&& if 0 <= target <= old(self)@.loaded() {
                        &&& r == Ok::<u64, SourceError>((old(self)@.base + target) as u64)
                        &&& final(self)@ == old(self)@.at(old(self)@.base, target as nat)
                    } else {
                        &&& r matches Err(SourceError::UnreachablePosition)
                        &&& final(self)@ == old(self)@
                    }
                },
            },
    {
        match seek_from {
            SeekFrom::Start(pos) => self.seek_to(pos),
            SeekFrom::Current(delta) => self.seek_relative(delta),
        }
    }
}

/// The multiple of `d` that follows a multiple of `d` is one.
proof fn lemma_next_multiple(x: int, d: int)
    requires
        d >= 1,
        x >= 0,
        x % d == 0,
    ensures
        (x + d) % d == 0,
{
    vstd::arithmetic::div_mod::lemma_mod_add_multiples_vanish(x, d);
}

/// The buffer that holds the position `p`, where `base` is the start of a
/// buffer at or below it and less than one buffer away.
proof fn lemma_buffer_of(base: int, p: int, d: int)
    requires
        d >= 1,
        base >= 0,
        base % d == 0,
        base <= p < base + d,
    ensures
        (p / d) * d == base,
        p % d == p - base,
{
    lemma_division(base, d);
    lemma_fundamental_div_mod_converse(p, d, base / d, p - base);
}

/// A reader in the last buffer of its stream has the base that the end of
/// the stream has.
pub proof fn lemma_at_end(v: ReaderState)
    requires
        v.wf(),
        v.base + v.loaded() == v.len(),
    ensures
        v.at_end() == v.at(v.base, v.loaded()),
{
    lemma_buffer_of(v.base as int, v.len() - 1, v.capacity as int);
}

/// The end of a stream: a well-formed reader at the position that is the
/// length of the stream, at or behind every reader on that stream.
pub proof fn lemma_at_end_of(v: ReaderState)
    requires
        v.wf(),
    ensures
        v.at_end().wf(),
        v.at_end().stream == v.stream,
        v.at_end().capacity == v.capacity,
        v.at_end().position() == v.len(),
        v.at_end().base >= v.base,
        v.at_end().base + v.at_end().loaded() == v.len(),
        v.at_end().cursor == v.at_end().loaded(),
{
    let d = v.capacity as int;
    let last = v.len() - 1;
    lemma_division(last, d);
    let base = (last / d) * d;
    assert(base % d == 0) by {
        vstd::arithmetic::div_mod::lemma_mod_multiples_basic(last / d, d);
    }
    assert(base >= v.base) by {
        lemma_division(v.base as int, d);
        vstd::arithmetic::div_mod::lemma_div_is_ordered(v.base as int, last, d);
        assert((v.base as int / d) * d <= (last / d) * d) by (nonlinear_arith)
            requires
                v.base as int / d <= last / d,
                d >= 1,
        ;
    }
}

/// Consuming bytes keeps a reader well formed and moves its position by
/// what was consumed; where the stream has fewer bytes, the reader ends
/// up at the end of the stream.
pub proof fn lemma_advanced(v: ReaderState, n: nat)
    requires
        v.wf(),
    ensures
        v.advanced(n).wf(),
        v.advanced(n).stream == v.stream,
        v.advanced(n).capacity == v.capacity,
        v.advanced(n).base >= v.base,
        v.has_ahead(n) ==> v.advanced(n).position() == v.position() + n,
        !v.has_ahead(n) ==> v.advanced(n) == v.at_end() && v.advanced(n).position() == v.len(),
{
    let target = v.position() + n;
    let d = v.capacity as int;
    lemma_at_end_of(v);
    if target <= v.len() && target > v.base + v.loaded() {
        lemma_division(target - 1, d);
        let base = ((target - 1) / d) * d;
        assert(base % d == 0) by {
            vstd::arithmetic::div_mod::lemma_mod_multiples_basic((target - 1) / d, d);
        }
        assert(v.loaded() == v.capacity);
        assert(base >= v.base) by {
            lemma_division(v.base as int, d);
            vstd::arithmetic::div_mod::lemma_div_is_ordered(v.base as int, target - 1, d);
            assert(v.base == (v.base as int / d) * d);
            assert((v.base as int / d) * d <= ((target - 1) / d) * d) by (nonlinear_arith)
                requires
                    v.base as int / d <= (target - 1) / d,
                    d >= 1,
            ;
        }
    }
}

/// Where a reader stands after it consumed up to `target`: in the buffer
/// that holds the byte before `target`, unless that lies in the buffer it
/// started in.
proof fn lemma_advanced_base(v: ReaderState, n: nat)
    requires
        v.wf(),
        v.has_ahead(n),
        v.advanced(n).base != v.base,
    ensures
        v.advanced(n).base == ((v.position() + n - 1) / (v.capacity as int)) * v.capacity,
        v.position() + n > v.base + v.loaded(),
{
}

/// Consuming in two steps is consuming in one.
pub proof fn lemma_advanced_twice(v: ReaderState, a: nat, b: nat)
    requires
        v.wf(),
    ensures
        v.advanced(a).advanced(b) == v.advanced(a + b),
{
    lemma_advanced(v, a);
    lemma_advanced(v, a + b);
    lemma_at_end_of(v);
    let w = v.advanced(a);
    lemma_advanced(w, b);
    let d = v.capacity as int;
    if v.has_ahead(a + b) {
        let direct = v.advanced(a + b);
        let stepped = w.advanced(b);
        let target = v.position() + a + b;
        assert(stepped.position() == direct.position());
        assert(stepped.base as int % d == 0 && direct.base as int % d == 0);
        assert(stepped.cursor <= d && direct.cursor <= d);
        if stepped.base != direct.base {
            if stepped.base == v.base {
                assert(w.base == v.base);
                assert(target <= v.base + v.loaded());
            } else if direct.base == v.base {
                assert(target <= v.base + v.loaded());
            } else {
                assert(direct.base == ((target - 1) / d) * d);
                if stepped.base == w.base {
                    // the second step stayed in the buffer that the first
                    // one reached, which holds the byte before the target
                    assert(w.base < target <= w.base + d);
                    lemma_buffer_of(w.base as int, target - 1, d);
                } else {
                    assert(stepped.base == ((target - 1) / d) * d);
                }
            }
        }
    } else if v.has_ahead(a) {
        assert(w.advanced(b) == w.at_end());
    } else {
        assert(w == v.at_end());
        if b > 0 {
            assert(w.advanced(b) == w.at_end());
        }
    }
}

/// A seek to a position that is not behind the live buffer keeps a reader
/// well formed and, where the stream reaches that far, brings it there;
/// where it does not, the reader goes to the end of the stream.
pub proof fn lemma_sought(v: ReaderState, pos: nat)
    requires
        v.wf(),
        pos >= v.base,
    ensures
        v.sought(pos).wf(),
        v.sought(pos).stream == v.stream,
        v.sought(pos).capacity == v.capacity,
        v.sought(pos).base >= v.base,
        pos < v.len() ==> v.sought(pos).position() == pos,
        pos >= v.len() ==> v.sought(pos) == v.at_end() && v.sought(pos).position() == v.len(),
{
    let d = v.capacity as int;
    lemma_at_end_of(v);
    if pos >= v.base + v.loaded() && pos < v.len() {
        lemma_division(pos as int, d);
        assert(((pos as int / d) * d) % d == 0) by {
            vstd::arithmetic::div_mod::lemma_mod_multiples_basic(pos as int / d, d);
        }
        assert((pos as int / d) * d >= v.base) by {
            lemma_division(v.base as int, d);
            vstd::arithmetic::div_mod::lemma_div_is_ordered(v.base as int, pos as int, d);
            assert((v.base as int / d) * d <= (pos as int / d) * d) by (nonlinear_arith)
                requires
                    v.base as int / d <= pos as int / d,
                    d >= 1,
            ;
        }
    }
}

/// What is read after a seek forward is what is read after as many bytes
/// were read and thrown away: the bytes of the stream from the destination
/// on. This holds across any number of buffers.
pub proof fn lemma_seek_reads_as_skip(v: ReaderState, dest: nat, k: nat)
    requires
        v.wf(),
        dest >= v.position(),
    ensures
        v.sought(dest).position() == v.advanced((dest - v.position()) as nat).position(),
        v.sought(dest).has_ahead(k) == v.advanced((dest - v.position()) as nat).has_ahead(k),
        v.sought(dest).ahead(k) == v.advanced((dest - v.position()) as nat).ahead(k),
        dest + k <= v.len() && dest < v.len() ==> v.sought(dest).has_ahead(k) && v.sought(
            dest,
        ).ahead(k) == v.stream.subrange(dest as int, (dest + k) as int),
{
    lemma_sought(v, dest);
    lemma_advanced(v, (dest - v.position()) as nat);
}

/// A seek back into the live buffer moves the cursor and nothing else, and
/// what is read next are the bytes of the stream from that position on.
pub proof fn lemma_seek_back_within_buffer(v: ReaderState, pos: nat, k: nat)
    requires
        v.wf(),
        v.base <= pos < v.base + v.loaded(),
    ensures
        v.sought(pos) == v.at(v.base, (pos - v.base) as nat),
        v.sought(pos).position() == pos,
        v.sought(pos).ahead(k) == v.stream.subrange(pos as int, (pos + k) as int),
{
}

/// Quotient and remainder of a natural number.
proof fn lemma_division(x: int, d: int)
    requires
        d >= 1,
        x >= 0,
    ensures
        0 <= (x / d) * d <= x,
        x == (x / d) * d + x % d,
        0 <= x % d < d,
        x >= d ==> x / d >= 1,
        x < d ==> x / d == 0,
{
    vstd::arithmetic::div_mod::lemma_fundamental_div_mod(x, d);
    vstd::arithmetic::div_mod::lemma_mod_bound(x, d);
    assert((x / d) * d == d * (x / d)) by (nonlinear_arith);
    if x >= d {
        if x / d <= 0 {
            assert(d * (x / d) <= 0) by (nonlinear_arith)
                requires
                    d >= 1,
                    x / d <= 0,
            ;
        }
    }
    if x < d {
        vstd::arithmetic::div_mod::lemma_basic_div(x, d);
    }
    if x / d < 0 {
        assert(d * (x / d) <= -d) by (nonlinear_arith)
            requires
                d >= 1,
                x / d <= -1,
        ;
    }
}

/// Where a seek beyond the live buffer ends: at the multiple of `d` below
/// the target.
proof fn lemma_seek_target(base: int, within: int, d: int)
    requires
        d >= 1,
        base >= 0,
        within >= 0,
        base % d == 0,
    ensures
        ((base + within) / d) * d == base + (within / d) * d,
        (base + within) % d == within % d,
{
    let q = base / d;
    vstd::arithmetic::div_mod::lemma_fundamental_div_mod(base, d);
    vstd::arithmetic::div_mod::lemma_fundamental_div_mod(within, d);
    assert(base + within == (q + within / d) * d + within % d) by (nonlinear_arith)
        requires
            base == d * q,
            within == d * (within / d) + within % d,
    ;
    lemma_fundamental_div_mod_converse(base + within, d, q + within / d, within % d);
    assert((q + within / d) * d == base + (within / d) * d) by (nonlinear_arith)
        requires
            base == d * q,
    ;
}

/// A reader that walked forward by whole buffers and then into the buffer
/// it stands in is where `advanced` says.
proof fn lemma_advanced_rest(before: ReaderState, n: nat, now: ReaderState)
    requires
        before.wf(),
        now.wf(),
        now.stream == before.stream,
        now.capacity == before.capacity,
        now.position() == before.position() + n,
        now.base == before.base || {
            &&& now.base >= before.base + before.loaded()
            &&& now.base % now.capacity == 0
            &&& now.cursor >= 1
        },
    ensures
        now == before.advanced(n),
{
    let target = before.position() + n;
    if now.base == before.base {
        assert(now.cursor == before.cursor + n);
    } else {
        let d = before.capacity as int;
        let q = now.base as int / d;
        assert(now.base == q * d) by {
            vstd::arithmetic::div_mod::lemma_fundamental_div_mod(now.base as int, d);
        }
        assert(now.cursor <= d);
        lemma_fundamental_div_mod_converse(target - 1, d, q, now.cursor - 1);
        assert((target - 1) / d == q);
        assert(target > before.base + before.loaded());
    }
}

} // verus!
