//! The sequence of the records of a journal.
//!
//! A sequence pulls one record after the other out of a buffered reader.
//! What a pull cannot decode is an item of the sequence like a record, and
//! the sequence goes on behind it. The end of the data ends the sequence
//! silently; a failure of the producer is its last item.

use vstd::prelude::*;
use crate::buf_stream_reader::{BufStreamReader, ReaderState, SourceError};
use crate::buf_stream_reader::{lemma_advanced, lemma_advanced_twice, lemma_at_end_of};
use crate::byte_source::ByteSource;
use crate::usn_reader_error::UsnReaderError;
use crate::usn_record::{CommonUsnRecord, Record, UsnRecordCommonHeader};
use crate::usn_record::{decode_step, decode_v2, find_record, header_at, le_u32, name_bytes};
use crate::usn_record::{converted, next_cluster, pulled, raw_record_at, read_raw_v2};
use crate::usn_record::{used_bytes, FIXED_SIZE_V2};

verus! {

/// The size of the buffers that a journal is read with: one cluster.
pub const BUFFER_SIZE: usize = 4096;

/// An item of a sequence: a record, or why there is none in its place.
pub type Item = Result<Record, UsnReaderError>;

/// The items that a sequence yields from a reader that stands at `v`, up to
/// the end of the data.
///
/// Every pull leaves the reader further on in the stream than it found it,
/// so the items are finitely many; the condition on the step says so for
/// the definition's sake.
pub open spec fn scan(v: ReaderState) -> Seq<Item>
    decreases v.len() - v.position(),
{
    let step = decode_step(v);
    if step.outcome == Err::<Record, UsnReaderError>(UsnReaderError::NoMoreData) {
        Seq::empty()
    } else if step.after.len() == v.len() && v.position() < step.after.position() <= v.len() {
        seq![step.outcome] + scan(step.after)
    } else {
        seq![step.outcome]
    }
}

/// The header that a search finds starts at or behind the position that
/// the search started at, lies in the stream, and declares a length.
pub proof fn lemma_find_record(stream: Seq<u8>, pos: nat)
    ensures
        find_record(stream, pos) matches Some(start) ==> {
            &&& pos <= start
            &&& start + 8 <= stream.len()
            &&& le_u32(stream, start as int) != 0
        },
    decreases stream.len() - pos,
{
    if pos + 8 <= stream.len() && le_u32(stream, pos as int) == 0 && next_cluster(pos + 8)
        <= stream.len() {
        lemma_find_record(stream, next_cluster(pos + 8));
    }
}

/// Reading a raw record leaves a well-formed reader well formed and on the
/// same stream; the record that comes out is the one that lies at `start`,
/// and the reader is left at the end of its file name.
pub proof fn lemma_read_raw_v2(v: ReaderState, start: int)
    requires
        v.wf(),
        v.position() == start + 8,
    ensures
        read_raw_v2(v, start).after.wf(),
        read_raw_v2(v, start).after.stream == v.stream,
        read_raw_v2(v, start).after.capacity == v.capacity,
        read_raw_v2(v, start).outcome matches Err(UsnReaderError::UnreachablePosition)
            ==> read_raw_v2(v, start).after.position() == start + 60,
        read_raw_v2(v, start).outcome matches Ok(raw) ==> {
            &&& raw == raw_record_at(v.stream, start)
            &&& read_raw_v2(v, start).after.position() == start + used_bytes(raw)
        },
        read_raw_v2(v, start).outcome matches Err(e) ==> e is NoMoreData || e
            is UnreachablePosition,
{
    let raw = raw_record_at(v.stream, start);
    let fixed = v.advanced(52);
    lemma_at_end_of(v);
    lemma_advanced(v, 52);
    let ahead = (raw.file_name_offset - 60) as nat;
    lemma_advanced(fixed, ahead);
    let anchored = if raw.file_name_offset >= 60 {
        fixed.advanced(ahead)
    } else {
        fixed.at(fixed.base, (start + raw.file_name_offset - fixed.base) as nat)
    };
    if read_raw_v2(v, start).outcome is Ok {
        lemma_advanced(anchored, name_bytes(raw.file_name_length));
    }
}

/// Decoding a record of version 2 leaves a well-formed reader well formed
/// and on the same stream. Unless the data ended, the reader is left behind
/// the start of the record; a record that is handed out lies whole in the
/// stream, and the reader is left at its declared end.
pub proof fn lemma_decode_v2(v: ReaderState, header: UsnRecordCommonHeader)
    requires
        v.wf(),
        v.position() == header.StartingPosition.0 + 8,
        header.RecordLength != 0,
    ensures
        decode_v2(v, header).after.wf(),
        decode_v2(v, header).after.stream == v.stream,
        decode_v2(v, header).after.capacity == v.capacity,
        decode_v2(v, header).outcome != Err::<Record, UsnReaderError>(UsnReaderError::NoMoreData)
            ==> decode_v2(v, header).after.position() > header.StartingPosition.0,
        decode_v2(v, header).outcome matches Ok(record) ==> {
            &&& record.header == header
            &&& record.data == converted(
                raw_record_at(v.stream, header.StartingPosition.0 as int),
            )
            &&& header.RecordLength >= FIXED_SIZE_V2
            &&& decode_v2(v, header).after.position() == header.StartingPosition.0
                + header.RecordLength
            &&& header.StartingPosition.0 + header.RecordLength <= v.len()
        },
        decode_v2(v, header).outcome matches Err(e) ==> {
            &&& e is NoMoreData || e is UnreachablePosition || e is InvalidRecordLength
            &&& e is InvalidRecordLength <==> header.RecordLength < FIXED_SIZE_V2 || (
            read_raw_v2(v, header.StartingPosition.0 as int).outcome is Ok
                && header.RecordLength < used_bytes(
                raw_record_at(v.stream, header.StartingPosition.0 as int),
            ))
        },
        header.StartingPosition.0 + header.RecordLength > v.len() ==> decode_v2(
            v,
            header,
        ).outcome is Err,
{
    let start = header.StartingPosition.0 as int;
    lemma_at_end_of(v);
    lemma_read_raw_v2(v, start);
    let read = read_raw_v2(v, start);
    match read.outcome {
        Err(e) => {},
        Ok(raw) => {
            let rest = (header.RecordLength - used_bytes(raw)) as nat;
            lemma_advanced(read.after, rest);
        },
    }
}

/// A pull leaves a well-formed reader well formed and on the same stream,
/// and, unless the data ended, further on than it was.
pub proof fn lemma_step(v: ReaderState)
    requires
        v.wf(),
    ensures
        decode_step(v).after.wf(),
        decode_step(v).after.stream == v.stream,
        decode_step(v).after.capacity == v.capacity,
        decode_step(v).outcome != Err::<Record, UsnReaderError>(UsnReaderError::NoMoreData)
            ==> decode_step(v).after.position() > v.position(),
{
    lemma_find_record(v.stream, v.position());
    lemma_at_end_of(v);
    match find_record(v.stream, v.position()) {
        None => {},
        Some(start) => {
            let header = header_at(v.stream, start as int);
            let behind = v.advanced((start + 8 - v.position()) as nat);
            lemma_advanced(v, (start + 8 - v.position()) as nat);
            if header.MajorVersion == 2 {
                lemma_decode_v2(behind, header);
            }
        },
    }
}

/// A header without a length is passed over: a pull that finds one where it
/// stands comes to what a pull from the start of the cluster behind it
/// comes to, and leaves the reader where that pull leaves it. So no item
/// stands for the zero fill.
pub proof fn lemma_zero_header_is_passed_over(v: ReaderState)
    requires
        v.wf(),
        v.has_ahead(8),
        le_u32(v.stream, v.position() as int) == 0,
        next_cluster(v.position() + 8) <= v.len(),
    ensures
        decode_step(v) == decode_step(
            v.advanced((next_cluster(v.position() + 8) - v.position()) as nat),
        ),
{
    let next = next_cluster(v.position() + 8);
    let gap = (next - v.position()) as nat;
    lemma_advanced(v, gap);
    lemma_find_record(v.stream, next);
    match find_record(v.stream, next) {
        None => {},
        Some(start) => {
            lemma_advanced_twice(v, gap, (start + 8 - next) as nat);
        },
    }
}

/// The record that a pull hands out is the one whose header the search
/// found, converted: its file name is the text of the code units that lie
/// at its start plus the offset that it declares. It starts at or behind
/// the place where the reader stood, and the reader is left at its declared
/// end, inside the stream. So records come in the order of the stream.
pub proof fn lemma_record_is_whole(v: ReaderState)
    requires
        v.wf(),
    ensures
        decode_step(v).outcome matches Ok(record) ==> {
            let start = record.header.StartingPosition.0;
            &&& find_record(v.stream, v.position()) == Some(start as nat)
            &&& record.header == header_at(v.stream, start as int)
            &&& record.data == converted(raw_record_at(v.stream, start as int))
            &&& record.header.RecordLength >= FIXED_SIZE_V2
            &&& v.position() <= start
            &&& decode_step(v).after.position() == start + record.header.RecordLength
            &&& start + record.header.RecordLength <= v.len()
        },
{
    lemma_find_record(v.stream, v.position());
    match find_record(v.stream, v.position()) {
        None => {},
        Some(start) => {
            let header = header_at(v.stream, start as int);
            let behind = v.advanced((start + 8 - v.position()) as nat);
            lemma_advanced(v, (start + 8 - v.position()) as nat);
            if header.MajorVersion == 2 {
                lemma_decode_v2(behind, header);
            }
        },
    }
}

/// A record of version 2 that lies whole in the stream is handed out,
/// where its declared length covers its fixed part and its file name, and
/// its file name does not lie behind the live buffer.
pub proof fn lemma_whole_record_is_handed_out(v: ReaderState, start: nat)
    requires
        v.wf(),
        find_record(v.stream, v.position()) == Some(start),
        header_at(v.stream, start as int).MajorVersion == 2,
        header_at(v.stream, start as int).RecordLength >= FIXED_SIZE_V2,
        header_at(v.stream, start as int).RecordLength >= used_bytes(
            raw_record_at(v.stream, start as int),
        ),
        start + header_at(v.stream, start as int).RecordLength <= v.len(),
        raw_record_at(v.stream, start as int).file_name_offset >= 60 || start + raw_record_at(
            v.stream,
            start as int,
        ).file_name_offset >= v.advanced((start + 60 - v.position()) as nat).base,
    ensures
        decode_step(v).outcome == Ok::<Record, UsnReaderError>(
            Record {
                header: header_at(v.stream, start as int),
                data: converted(raw_record_at(v.stream, start as int)),
            },
        ),
        decode_step(v).after.position() == start + header_at(v.stream, start as int).RecordLength,
{
    lemma_find_record(v.stream, v.position());
    let header = header_at(v.stream, start as int);
    let raw = raw_record_at(v.stream, start as int);
    let behind = v.advanced((start + 8 - v.position()) as nat);
    lemma_advanced(v, (start + 8 - v.position()) as nat);
    lemma_advanced_twice(v, (start + 8 - v.position()) as nat, 52);
    lemma_advanced(behind, 52);
    let fixed = behind.advanced(52);
    lemma_advanced(fixed, (raw.file_name_offset - 60) as nat);
    lemma_read_raw_v2(behind, start as int);
    lemma_decode_v2(behind, header);
}

/// A record of version 2 that declares more bytes than the stream holds
/// behind its start is never handed out. Where nothing else is wrong with
/// it, meeting it is the end of the data: the sequence ends without an
/// item for it.
pub proof fn lemma_truncated_record_ends_the_sequence(v: ReaderState, start: nat)
    requires
        v.wf(),
        find_record(v.stream, v.position()) == Some(start),
        header_at(v.stream, start as int).MajorVersion == 2,
        start + header_at(v.stream, start as int).RecordLength > v.len(),
    ensures
        decode_step(v).outcome matches Err(e) && (e is NoMoreData || e is UnreachablePosition || e
            is InvalidRecordLength),
        decode_step(v).outcome matches Err(e) && e is InvalidRecordLength ==> {
            ||| header_at(v.stream, start as int).RecordLength < FIXED_SIZE_V2
            ||| header_at(v.stream, start as int).RecordLength < used_bytes(
                raw_record_at(v.stream, start as int),
            )
        },
        decode_step(v).outcome matches Err(e) && e is NoMoreData ==> scan(v).len() == 0,
{
    lemma_find_record(v.stream, v.position());
    let header = header_at(v.stream, start as int);
    let behind = v.advanced((start + 8 - v.position()) as nat);
    lemma_advanced(v, (start + 8 - v.position()) as nat);
    lemma_decode_v2(behind, header);
}

/// Two passes over the same bytes with buffers of the same size yield the
/// same items, and so the same number of them: a sequence is a function of
/// the bytes that its producer holds, however the producer hands them out.
pub proof fn lemma_rescan_same_count(first: Seq<u8>, second: Seq<u8>, capacity: nat)
    requires
        first == second,
    ensures
        scan(ReaderState::start(first, capacity)) == scan(ReaderState::start(second, capacity)),
        scan(ReaderState::start(first, capacity)).len() == scan(
            ReaderState::start(second, capacity),
        ).len(),
{
}

/// The views of what was pulled.
pub open spec fn views(items: Seq<Result<CommonUsnRecord, UsnReaderError>>) -> Seq<Item> {
    Seq::new(items.len(), |i: int| pulled(items[i]))
}

/// A journal that has not been read yet.
pub struct UsnJrnlReader<R: ByteSource> {
    reader: R,
}

impl<R: ByteSource> UsnJrnlReader<R> {
    /// Whether the producer has a model.
    pub closed spec fn modelled(&self) -> bool {
        self.reader.modelled()
    }

    /// Whether the producer is known never to fail.
    pub closed spec fn reliable(&self) -> bool {
        self.reader.reliable()
    }

    /// The bytes of the journal.
    pub closed spec fn bytes(&self) -> Seq<u8> {
        self.reader.pending()
    }

    /// The journal that `reader` holds.
    pub fn from(reader: R) -> (journal: Self)
        ensures
            journal.modelled() == reader.modelled(),
            journal.reliable() == reader.reliable(),
            journal.bytes() == reader.pending(),
    {
        Self { reader }
    }

    /// The sequence of the records of the journal, read with buffers of
    /// one cluster.
    pub fn into_iter(self) -> (records: UsrJrnlIterator<R>)
        requires
            self.modelled() ==> self.bytes().len() <= u64::MAX,
        ensures
            records.wf(),
            self.modelled() ==> {
                &&& records.described()
                &&& self.reliable() ==> records.reliable()
                &&& self.reliable() && self.bytes().len() == 0 ==> records.finished()
                &&& records.remaining() == scan(ReaderState::start(self.bytes(), BUFFER_SIZE as nat))
                    || (!self.reliable() && records.remaining().len() == 1
                    && records.remaining()[0] is Err && records.remaining()[0]->Err_0 is IO)
            },
    {
        let ghost stream = self.reader.pending();
        match BufStreamReader::new(self.reader, BUFFER_SIZE) {
            Ok(data) => UsrJrnlIterator::from(data),
            Err(SourceError::Io(failure)) => UsrJrnlIterator {
                data: None,
                failure: Some(UsnReaderError::IO(failure)),
            },
            Err(_) => {
                proof {
                    if self.modelled() {
                        assert(find_record(stream, 0) is None);
                    }
                }
                UsrJrnlIterator { data: None, failure: None }
            },
        }
    }
}

/// The sequence of the records of a journal.
pub struct UsrJrnlIterator<R: ByteSource> {
    data: Option<BufStreamReader<R>>,
    failure: Option<UsnReaderError>,
}

impl<R: ByteSource> UsrJrnlIterator<R> {
    /// The invariant of a sequence.
    pub closed spec fn wf(&self) -> bool {
        &&& self.data matches Some(reader) ==> reader.wf()
        &&& self.failure matches Some(e) ==> e is IO && self.data is None
    }

    /// Whether `remaining` describes this sequence: its producer has a
    /// model and has not failed under it.
    pub closed spec fn described(&self) -> bool {
        self.data matches Some(reader) ==> reader.healthy()
    }

    /// Whether no pull will meet a failure of the producer: the producer is
    /// known never to fail, or it will not be asked again.
    pub closed spec fn reliable(&self) -> bool {
        self.data matches Some(reader) ==> reader.reliable()
    }

    /// Whether the sequence has ended.
    pub closed spec fn finished(&self) -> bool {
        self.data is None && self.failure is None
    }

    /// The items that are still to come.
    pub closed spec fn remaining(&self) -> Seq<Item> {
        match self.failure {
            Some(e) => seq![Err(e)],
            None => match self.data {
                Some(reader) => scan(reader@),
                None => Seq::empty(),
            },
        }
    }

    /// A bound on the number of pulls that still yield an item.
    pub closed spec fn fuel(&self) -> nat {
        let failure: nat = if self.failure is Some {
            1
        } else {
            0
        };
        let data: nat = match self.data {
            Some(reader) => (u64::MAX - reader@.position() + 1) as nat,
            None => 0,
        };
        failure + data
    }

    /// The sequence of the records that `data` holds from where it stands.
    pub fn from(data: BufStreamReader<R>) -> (records: Self)
        requires
            data.wf(),
        ensures
            records.wf(),
            !records.finished(),
            records.described() == data.healthy(),
            records.reliable() == data.reliable(),
            records.remaining() == scan(data@),
    {
        Self { data: Some(data), failure: None }
    }

    /// Pulls the next item; `None` at the end of the sequence.
    ///
    /// The end of the data is the end of the sequence. A failure of the
    /// producer is handed out once, and is the end as well.
    pub fn next(&mut self) -> (r: Option<Result<CommonUsnRecord, UsnReaderError>>)
        requires
            old(self).wf(),
        ensures
            final(self).wf(),
            r is None ==> final(self).finished(),
            r is Some ==> final(self).fuel() < old(self).fuel(),
            old(self).finished() ==> r is None,
            old(self).described() ==> {
                &&& final(self).described()
                &&& match r {
                    None => old(self).remaining().len() == 0,
                    Some(item) => {
                        ||| {
                            &&& item is Err
                            &&& item->Err_0 is IO
                            &&& !old(self).reliable()
                            &&& final(self).finished()
                        }
                        ||| {
                            &&& old(self).remaining().len() > 0
                            &&& pulled(item) == old(self).remaining()[0]
                            &&& final(self).remaining() == old(self).remaining().skip(1)
                            &&& old(self).reliable() ==> final(self).reliable()
                        }
                    },
                }
            },
    {
        let ghost all = self.remaining();
        match self.failure.take() {
            Some(failure) => {
                assert(self.remaining() =~= all.skip(1));
                return Some(Err(failure));
            },
            None => {},
        }
        let mut reader = match self.data.take() {
            Some(reader) => reader,
            None => {
                return None;
            },
        };
        let ghost v = reader@;
        let ghost healthy = reader.healthy();
        proof {
            reader.lemma_position_fits();
            if healthy {
                reader.lemma_view_wf();
                lemma_step(v);
            }
        }
        let before: u64 = reader.current_offset();
        let next_record = CommonUsnRecord::from(&mut reader);
        match next_record {
            Err(UsnReaderError::NoMoreData) => None,
            Err(UsnReaderError::IO(failure)) => Some(Err(UsnReaderError::IO(failure))),
            item => {
                proof {
                    reader.lemma_position_fits();
                }
                // A pull that got nowhere would be pulled for ever.
                if reader.current_offset() > before {
                    proof {
                        if healthy {
                            assert(scan(v).skip(1) =~= scan(decode_step(v).after));
                        }
                    }
                    self.data = Some(reader);
                }
                Some(item)
            },
        }
    }

    /// Pulls all the items that are still to come.
    pub fn collect(self) -> (items: Vec<Result<CommonUsnRecord, UsnReaderError>>)
        requires
            self.wf(),
        ensures
            self.described() ==> {
                ||| views(items@) == self.remaining()
                ||| {
                    &&& !self.reliable()
                    &&& items@.len() >= 1
                    &&& items@.last() is Err
                    &&& items@.last()->Err_0 is IO
                    &&& items@.len() - 1 <= self.remaining().len()
                    &&& views(items@).drop_last() == self.remaining().take(items@.len() - 1)
                }
            },
            self.described() && self.reliable() ==> views(items@) == self.remaining(),
            self.finished() ==> items@.len() == 0,
    {
        let ghost all = self.remaining();
        let ghost described = self.described();
        let ghost reliable = self.reliable();
        let mut items: Vec<Result<CommonUsnRecord, UsnReaderError>> = Vec::new();
        let mut done: bool = false;
        let mut records = self;
        while !done
            invariant
                records.wf(),
                all == self.remaining(),
                described == self.described(),
                reliable == self.reliable(),
                described ==> {
                    &&& records.described()
                    &&& {
                        ||| {
                            &&& items@.len() <= all.len()
                            &&& views(items@) == all.take(items@.len() as int)
                            &&& records.remaining() == all.skip(items@.len() as int)
                            &&& reliable ==> records.reliable()
                            &&& done ==> records.remaining().len() == 0
                        }
                        ||| {
                            &&& !reliable
                            &&& items@.len() >= 1
                            &&& items@.last() is Err
                            &&& items@.last()->Err_0 is IO
                            &&& items@.len() - 1 <= all.len()
                            &&& views(items@).drop_last() == all.take(items@.len() - 1)
                            &&& records.finished()
                        }
                    }
                },
            decreases
                    if done {
                        0
                    } else {
                        records.fuel() + 1
                    },
        {
            let ghost had = items@;
            match records.next() {
                None => {
                    done = true;
                },
                Some(item) => {
                    items.push(item);
                    proof {
                        if described {
                            assert(views(items@).drop_last() =~= views(had));
                            if !(item is Err && item->Err_0 is IO) {
                                assert(views(items@) =~= all.take(items@.len() as int));
                                assert(records.remaining() =~= all.skip(items@.len() as int));
                            }
                        }
                    }
                },
            }
        }
        proof {
            if described && views(items@) == all.take(items@.len() as int)
                && records.remaining().len() == 0 && records.remaining() == all.skip(
                items@.len() as int,
            ) && items@.len() <= all.len() {
                assert(views(items@) =~= all);
            }
        }
        items
    }

    /// Whether the sequence has ended.
    pub fn is_finished(&self) -> (yes: bool)
        ensures
            yes == self.finished(),
    {
        self.data.is_none() && self.failure.is_none()
    }

    /// The number of items that are still to come.
    pub fn count(self) -> (n: usize)
        requires
            self.wf(),
        ensures
            self.described() && self.reliable() ==> n == self.remaining().len(),
            self.finished() ==> n == 0,
    {
        self.collect().len()
    }
}

} // verus!
