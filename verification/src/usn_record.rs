//! The records of the journal, as they lie in the stream and as they are
//! handed out.
//!
//! A record starts with a header of eight bytes that declares its total
//! length and its version. A header with length zero is no record: it is
//! the start of the zero fill that ends a cluster. The fields of a record
//! lie at fixed places behind the header, but for the file name, whose place
//! and length the record declares itself.
#![allow(non_snake_case)]

use vstd::prelude::*;
use crate::buf_stream_reader::{BufStreamReader, ReaderState, SourceError};
use crate::buf_stream_reader::{lemma_advanced, lemma_advanced_twice};
use crate::byte_source::ByteSource;
use crate::conversions::{FileReference, UsnTimestamp};
use crate::conversions::{convert_filetime, decode_utf16_lossy, split_file_reference};
use crate::conversions::{instant_of, lemma_instant_is_one, utf16_lossy_text, ENTRY_RANGE};
use crate::usn_reader_error::UsnReaderError;
use crate::usn_reason::UsnReason;

verus! {

/// The size of a cluster: zero fill runs up to the next multiple of it.
pub const CLUSTER_SIZE: u64 = 0x1000;

/// The number that two bytes at `at` stand for, lowest byte first.
pub open spec fn le_u16(s: Seq<u8>, at: int) -> u16 {
    (s[at] as int + s[at + 1] as int * 0x100) as u16
}

/// The number that four bytes at `at` stand for, lowest byte first.
pub open spec fn le_u32(s: Seq<u8>, at: int) -> u32 {
    (le_u16(s, at) as int + le_u16(s, at + 2) as int * 0x1_0000) as u32
}

/// The number that eight bytes at `at` stand for, lowest byte first.
pub open spec fn le_u64(s: Seq<u8>, at: int) -> u64 {
    (le_u32(s, at) as int + le_u32(s, at + 4) as int * 0x1_0000_0000) as u64
}

/// The signed number that eight bytes at `at` stand for, lowest byte first,
/// in two's complement.
pub open spec fn le_i64(s: Seq<u8>, at: int) -> i64 {
    let raw = le_u64(s, at);
    if raw <= i64::MAX as u64 {
        raw as i64
    } else {
        (raw - 0x1_0000_0000_0000_0000) as i64
    }
}

/// The eight bytes at `at`.
pub open spec fn bytes8(s: Seq<u8>, at: int) -> [u8; 8] {
    [s[at], s[at + 1], s[at + 2], s[at + 3], s[at + 4], s[at + 5], s[at + 6], s[at + 7]]
}

/// The 16-bit code units that `bytes` hold, lowest byte first; an odd last
/// byte is left out.
pub open spec fn code_units(bytes: Seq<u8>) -> Seq<u16> {
    Seq::new(bytes.len() / 2, |i: int| le_u16(bytes, 2 * i))
}

/// The first multiple of the cluster size above `pos`.
pub open spec fn next_cluster(pos: nat) -> nat {
    ((pos / 0x1000) + 1) * 0x1000
}

/// A position in the stream.
#[derive(Debug, Clone, Copy, PartialEq, Eq, Structural)]
pub struct CurPos(pub u64);

/// The header that all versions share, and where it was found.
#[derive(Debug, Clone, Copy, PartialEq, Eq, Structural)]
pub struct UsnRecordCommonHeader {
    /// Where the record starts.
    pub StartingPosition: CurPos,
    /// The total length of the record, in bytes.
    pub RecordLength: u32,
    /// The major version: it decides the layout of the record.
    pub MajorVersion: u16,
    /// The minor version.
    pub MinorVersion: u16,
}

/// A record of version 2 as it lies in the stream: the fields behind the
/// header as numbers, and the file name as code units.
#[derive(Debug)]
pub struct BinaryUsnRecordV2 {
    pub FileReferenceNumber: u64,
    pub ParentFileReferenceNumber: u64,
    pub Usn: i64,
    pub TimeStamp: [u8; 8],
    pub Reason: u32,
    pub SourceInfo: u32,
    pub SecurityId: u32,
    pub FileAttributes: u32,
    /// The length of the file name, in bytes.
    pub FileNameLength: u16,
    /// Where the file name starts, counted from the start of the record.
    pub FileNameOffset: u16,
    pub FileName: Vec<u16>,
    /// Where the file name ends.
    pub EndingPosition: CurPos,
}

/// The model of a `BinaryUsnRecordV2`.
pub struct RawRecordV2 {
    pub file_reference: u64,
    pub parent_file_reference: u64,
    pub usn: i64,
    pub timestamp: [u8; 8],
    pub reason: u32,
    pub source_info: u32,
    pub security_id: u32,
    pub file_attributes: u32,
    pub file_name_length: u16,
    pub file_name_offset: u16,
    pub file_name: Seq<u16>,
    pub ending_position: u64,
}

impl View for BinaryUsnRecordV2 {
    type V = RawRecordV2;

    open spec fn view(&self) -> RawRecordV2 {
        RawRecordV2 {
            file_reference: self.FileReferenceNumber,
            parent_file_reference: self.ParentFileReferenceNumber,
            usn: self.Usn,
            timestamp: self.TimeStamp,
            reason: self.Reason,
            source_info: self.SourceInfo,
            security_id: self.SecurityId,
            file_attributes: self.FileAttributes,
            file_name_length: self.FileNameLength,
            file_name_offset: self.FileNameOffset,
            file_name: self.FileName@,
            ending_position: self.EndingPosition.0,
        }
    }
}

/// A record of version 2 as it is handed out.
#[derive(Debug)]
pub struct UsnRecordV2 {
    pub FileReferenceNumber: FileReference,
    pub ParentFileReferenceNumber: FileReference,
    pub Usn: i64,
    pub TimeStamp: UsnTimestamp,
    pub Reason: UsnReason,
    pub SourceInfo: u32,
    pub SecurityId: u32,
    pub FileAttributes: u32,
    pub FileName: String,
    pub EndingPosition: u64,
}

/// The model of a `UsnRecordV2`.
pub struct RecordV2 {
    pub file_reference: FileReference,
    pub parent_file_reference: FileReference,
    pub usn: i64,
    pub timestamp: UsnTimestamp,
    pub reason: u32,
    pub source_info: u32,
    pub security_id: u32,
    pub file_attributes: u32,
    pub file_name: Seq<char>,
    pub ending_position: u64,
}

impl View for UsnRecordV2 {
    type V = RecordV2;

    open spec fn view(&self) -> RecordV2 {
        RecordV2 {
            file_reference: self.FileReferenceNumber,
            parent_file_reference: self.ParentFileReferenceNumber,
            usn: self.Usn,
            timestamp: self.TimeStamp,
            reason: self.Reason@,
            source_info: self.SourceInfo,
            security_id: self.SecurityId,
            file_attributes: self.FileAttributes,
            file_name: self.FileName@,
            ending_position: self.EndingPosition,
        }
    }
}

/// What a record holds, by version. Version 2 is the one that is decoded.
#[derive(Debug)]
pub enum UsnRecordData {
    V2(UsnRecordV2),
}

impl View for UsnRecordData {
    type V = RecordV2;

    open spec fn view(&self) -> RecordV2 {
        match self {
            UsnRecordData::V2(data) => data@,
        }
    }
}

/// A record: its header and what it holds.
#[derive(Debug)]
pub struct CommonUsnRecord {
    pub header: UsnRecordCommonHeader,
    pub data: UsnRecordData,
}

/// The model of a `CommonUsnRecord`.
pub struct Record {
    pub header: UsnRecordCommonHeader,
    pub data: RecordV2,
}

impl View for CommonUsnRecord {
    type V = Record;

    open spec fn view(&self) -> Record {
        Record { header: self.header, data: self.data@ }
    }
}

/// The header that lies at `start`.
pub open spec fn header_at(stream: Seq<u8>, start: int) -> UsnRecordCommonHeader {
    UsnRecordCommonHeader {
        StartingPosition: CurPos(start as u64),
        RecordLength: le_u32(stream, start),
        MajorVersion: le_u16(stream, start + 4),
        MinorVersion: le_u16(stream, start + 6),
    }
}

/// Where the next header with a length lies, looking from `pos` on: a
/// header without one sends the search to the cluster that follows it.
/// `None` where the stream ends first.
pub open spec fn find_record(stream: Seq<u8>, pos: nat) -> Option<nat>
    decreases stream.len() - pos,
{
    if pos + 8 > stream.len() {
        None
    } else if le_u32(stream, pos as int) != 0 {
        Some(pos)
    } else if next_cluster(pos + 8) > stream.len() {
        None
    } else {
        find_record(stream, next_cluster(pos + 8))
    }
}

/// The number of bytes that a file name of the declared length takes: whole
/// code units only.
pub open spec fn name_bytes(declared: u16) -> nat {
    (2 * (declared / 2)) as nat
}

/// The record of version 2 that starts at `start`, with its file name read
/// at `start` plus the offset that the record declares.
pub open spec fn raw_record_at(stream: Seq<u8>, start: int) -> RawRecordV2 {
    let length = le_u16(stream, start + 56);
    let offset = le_u16(stream, start + 58);
    let name_at = start + offset;
    RawRecordV2 {
        file_reference: le_u64(stream, start + 8),
        parent_file_reference: le_u64(stream, start + 16),
        usn: le_i64(stream, start + 24),
        timestamp: bytes8(stream, start + 32),
        reason: le_u32(stream, start + 40),
        source_info: le_u32(stream, start + 44),
        security_id: le_u32(stream, start + 48),
        file_attributes: le_u32(stream, start + 52),
        file_name_length: length,
        file_name_offset: offset,
        file_name: code_units(stream.subrange(name_at, name_at + name_bytes(length))),
        ending_position: (name_at + name_bytes(length)) as u64,
    }
}

/// What a raw record is handed out as: the file references split into
/// entry and sequence, the time stamp as an instant, the file name as
/// text.
pub open spec fn converted(raw: RawRecordV2) -> RecordV2 {
    RecordV2 {
        file_reference: FileReference {
            entry: raw.file_reference % ENTRY_RANGE,
            sequence: (raw.file_reference / ENTRY_RANGE) as u16,
        },
        parent_file_reference: FileReference {
            entry: raw.parent_file_reference % ENTRY_RANGE,
            sequence: (raw.parent_file_reference / ENTRY_RANGE) as u16,
        },
        usn: raw.usn,
        timestamp: instant_of(raw.timestamp@),
        reason: raw.reason,
        source_info: raw.source_info,
        security_id: raw.security_id,
        file_attributes: raw.file_attributes,
        file_name: utf16_lossy_text(raw.file_name),
        ending_position: raw.ending_position,
    }
}

/// What a pull comes to, and where it leaves the reader.
pub struct Step {
    pub after: ReaderState,
    pub outcome: Result<Record, UsnReaderError>,
}

/// The pull that ends because the stream does: the reader is left at the
/// end.
pub open spec fn out_of_data(v: ReaderState) -> Step {
    Step { after: v.at_end(), outcome: Err(UsnReaderError::NoMoreData) }
}

/// What reading a raw record comes to, and where it leaves the reader.
pub struct RawStep {
    pub after: ReaderState,
    pub outcome: Result<RawRecordV2, UsnReaderError>,
}

/// Reading the record of version 2 that starts at `start`; `v` is the
/// reader behind the header.
///
/// The fixed part is read; then the reader goes to the file name, forward
/// through the stream or back inside its live buffer, and reads it. A file
/// name that starts behind the live buffer cannot be reached. A record that
/// is not whole in the stream is the end of the data.
pub open spec fn read_raw_v2(v: ReaderState, start: int) -> RawStep {
    let raw = raw_record_at(v.stream, start);
    let fixed = v.advanced(52);
    let ahead = (raw.file_name_offset - 60) as nat;
    let anchored = if raw.file_name_offset >= 60 {
        fixed.advanced(ahead)
    } else {
        fixed.at(fixed.base, (start + raw.file_name_offset - fixed.base) as nat)
    };
    let end_of_data = RawStep { after: v.at_end(), outcome: Err(UsnReaderError::NoMoreData) };
    if !v.has_ahead(52) {
        end_of_data
    } else if raw.file_name_offset >= 60 && !fixed.has_ahead(ahead) {
        end_of_data
    } else if raw.file_name_offset < 60 && start + raw.file_name_offset < fixed.base {
        RawStep { after: fixed, outcome: Err(UsnReaderError::UnreachablePosition) }
    } else if !anchored.has_ahead(name_bytes(raw.file_name_length)) {
        end_of_data
    } else {
        RawStep { after: anchored.advanced(name_bytes(raw.file_name_length)), outcome: Ok(raw) }
    }
}

/// The number of bytes from the start of a record to the end of its file
/// name.
pub open spec fn used_bytes(raw: RawRecordV2) -> nat {
    raw.file_name_offset as nat + name_bytes(raw.file_name_length)
}

/// The least length that a record of version 2 can declare: its fixed
/// part.
pub const FIXED_SIZE_V2: u32 = 60;

/// What becomes of a record of version 2 whose header, read at the start of
/// the record, is `header`; `v` is the reader behind the header.
///
/// A declared length below the fixed part is corrupt, and the reader stays
/// behind the header. Else the record is read; a declared length that is
/// less than what was read is corrupt; what is left of the declared length
/// is passed over; and the record is converted and handed out.
pub open spec fn decode_v2(v: ReaderState, header: UsnRecordCommonHeader) -> Step {
    let read = read_raw_v2(v, header.StartingPosition.0 as int);
    let corrupt = Err::<Record, UsnReaderError>(
        UsnReaderError::InvalidRecordLength(header.RecordLength),
    );
    if header.RecordLength < FIXED_SIZE_V2 {
        Step { after: v, outcome: corrupt }
    } else {
        match read.outcome {
            Err(e) => Step { after: read.after, outcome: Err(e) },
            Ok(raw) => {
                let rest = (header.RecordLength - used_bytes(raw)) as nat;
                if header.RecordLength < used_bytes(raw) {
                    Step { after: read.after, outcome: corrupt }
                } else if !read.after.has_ahead(rest) {
                    out_of_data(v)
                } else {
                    Step {
                        after: read.after.advanced(rest),
                        outcome: Ok(Record { header, data: converted(raw) }),
                    }
                }
            },
        }
    }
}

/// What a pull comes to on a reader that stands at `v`.
///
/// The next header with a length is looked for. Its major version decides:
/// 2 is decoded, 3 and 4 are known and not decoded, and any other is
/// corrupt; in the last two cases the reader is left behind the header.
pub open spec fn decode_step(v: ReaderState) -> Step {
    match find_record(v.stream, v.position()) {
        None => out_of_data(v),
        Some(start) => {
            let header = header_at(v.stream, start as int);
            let behind = v.advanced((start + 8 - v.position()) as nat);
            if header.MajorVersion == 2 {
                decode_v2(behind, header)
            } else if header.MajorVersion == 3 || header.MajorVersion == 4 {
                Step {
                    after: behind,
                    outcome: Err(UsnReaderError::UnsupportedVersion(header.MajorVersion)),
                }
            } else {
                Step {
                    after: behind,
                    outcome: Err(UsnReaderError::InvalidMajorVersion(header.MajorVersion)),
                }
            }
        },
    }
}

/// The view of what a pull returned.
pub open spec fn pulled(r: Result<CommonUsnRecord, UsnReaderError>) -> Result<
    Record,
    UsnReaderError,
> {
    match r {
        Ok(record) => Ok(record@),
        Err(e) => Err(e),
    }
}

fn u16_at(bytes: &Vec<u8>, at: usize) -> (v: u16)
    requires
        at + 2 <= bytes.len(),
    ensures
        v == le_u16(bytes@, at as int),
{
    bytes[at] as u16 + bytes[at + 1] as u16 * 0x100
}

fn u32_at(bytes: &Vec<u8>, at: usize) -> (v: u32)
    requires
        at + 4 <= bytes.len(),
    ensures
        v == le_u32(bytes@, at as int),
{
    u16_at(bytes, at) as u32 + u16_at(bytes, at + 2) as u32 * 0x1_0000
}

fn u64_at(bytes: &Vec<u8>, at: usize) -> (v: u64)
    requires
        at + 8 <= bytes.len(),
    ensures
        v == le_u64(bytes@, at as int),
{
    u32_at(bytes, at) as u64 + u32_at(bytes, at + 4) as u64 * 0x1_0000_0000
}

fn i64_at(bytes: &Vec<u8>, at: usize) -> (v: i64)
    requires
        at + 8 <= bytes.len(),
    ensures
        v == le_i64(bytes@, at as int),
{
    let raw: u64 = u64_at(bytes, at);
    if raw <= i64::MAX as u64 {
        raw as i64
    } else {
        (raw - 0x8000_0000_0000_0000) as i64 + i64::MIN
    }
}

fn bytes8_at(bytes: &Vec<u8>, at: usize) -> (v: [u8; 8])
    requires
        at + 8 <= bytes.len(),
    ensures
        v == bytes8(bytes@, at as int),
{
    let v: [u8; 8] = [
        bytes[at],
        bytes[at + 1],
        bytes[at + 2],
        bytes[at + 3],
        bytes[at + 4],
        bytes[at + 5],
        bytes[at + 6],
        bytes[at + 7],
    ];
    assert(v@ =~= bytes8(bytes@, at as int)@);
    v
}

/// The code units that `bytes` hold.
fn units_of(bytes: &Vec<u8>) -> (units: Vec<u16>)
    ensures
        units@ == code_units(bytes@),
{
    let count: usize = bytes.len() / 2;
    let mut units: Vec<u16> = Vec::new();
    let mut i: usize = 0;
    while i < count
        invariant
            i <= count,
            count == bytes.len() / 2,
            units@.len() == i,
            forall|k: int| 0 <= k < i ==> units@[k] == le_u16(bytes@, 2 * k),
        decreases count - i,
    {
        units.push(u16_at(bytes, 2 * i));
        i += 1;
    }
    assert(units@ =~= code_units(bytes@));
    units
}

/// Reading numbers out of a part of a stream is reading them out of the
/// stream.
proof fn lemma_part(stream: Seq<u8>, from: int, to: int, at: int)
    requires
        0 <= from <= to <= stream.len(),
        0 <= at,
    ensures
        at + 2 <= to - from ==> le_u16(stream.subrange(from, to), at) == le_u16(stream, from + at),
        at + 4 <= to - from ==> le_u32(stream.subrange(from, to), at) == le_u32(stream, from + at),
        at + 8 <= to - from ==> le_u64(stream.subrange(from, to), at) == le_u64(stream, from + at),
        at + 8 <= to - from ==> le_i64(stream.subrange(from, to), at) == le_i64(stream, from + at),
        at + 8 <= to - from ==> bytes8(stream.subrange(from, to), at) == bytes8(stream, from + at),
{
    let part = stream.subrange(from, to);
    if at + 8 <= to - from {
        assert(bytes8(part, at)@ =~= bytes8(stream, from + at)@);
    }
}

impl UsnRecordCommonHeader {
    /// Reads the header at which the reader stands.
    pub fn read<R: ByteSource>(reader: &mut BufStreamReader<R>) -> (r: Result<
        UsnRecordCommonHeader,
        UsnReaderError,
    >)
        requires
            old(reader).wf(),
        ensures
            final(reader).wf(),
            final(reader).same_source(old(reader)),
            r matches Ok(header) ==> header.StartingPosition.0 == old(reader)@.position()
                && final(reader)@.position() == old(reader)@.position() + 8,
            old(reader).healthy() ==> final(reader).moved_to(
                old(reader)@.advanced(8),
                r is Err && r->Err_0 is IO,
                old(reader),
            ) && match r {
                Ok(header) => old(reader)@.has_ahead(8) && header == header_at(
                    old(reader)@.stream,
                    old(reader)@.position() as int,
                ),
                Err(UsnReaderError::NoMoreData) => !old(reader)@.has_ahead(8),
                Err(UsnReaderError::IO(_)) => true,
                Err(_) => false,
            },
    {
        let start: u64 = reader.current_offset();
        let ghost v = reader@;
        match reader.read(8) {
            Ok(bytes) => {
                proof {
                    if old(reader).healthy() {
                        lemma_part(v.stream, v.position() as int, v.position() as int + 8, 0);
                        lemma_part(v.stream, v.position() as int, v.position() as int + 8, 4);
                        lemma_part(v.stream, v.position() as int, v.position() as int + 8, 6);
                    }
                }
                Ok(
                    UsnRecordCommonHeader {
                        StartingPosition: CurPos(start),
                        RecordLength: u32_at(&bytes, 0),
                        MajorVersion: u16_at(&bytes, 4),
                        MinorVersion: u16_at(&bytes, 6),
                    },
                )
            },
            Err(e) => Err(UsnReaderError::from(e)),
        }
    }
}

/// A raw record without its file name: the fields that lie at fixed
/// places.
pub open spec fn fixed_fields(raw: RawRecordV2) -> RawRecordV2 {
    RawRecordV2 { file_name: Seq::empty(), ending_position: 0, ..raw }
}

impl BinaryUsnRecordV2 {
    /// The fields of `fixed`, which holds the fixed part of a record behind
    /// its header, so that the record starts eight bytes before it; the
    /// file name is left empty.
    fn parse_fixed(fixed: &Vec<u8>) -> (raw: BinaryUsnRecordV2)
        requires
            fixed.len() == 52,
        ensures
            raw@ == fixed_fields(raw_record_at(fixed@, -8)),
    {
        BinaryUsnRecordV2 {
            FileReferenceNumber: u64_at(fixed, 0),
            ParentFileReferenceNumber: u64_at(fixed, 8),
            Usn: i64_at(fixed, 16),
            TimeStamp: bytes8_at(fixed, 24),
            Reason: u32_at(fixed, 32),
            SourceInfo: u32_at(fixed, 36),
            SecurityId: u32_at(fixed, 40),
            FileAttributes: u32_at(fixed, 44),
            FileNameLength: u16_at(fixed, 48),
            FileNameOffset: u16_at(fixed, 50),
            FileName: Vec::new(),
            EndingPosition: CurPos(0),
        }
    }

    /// Reads the fixed part of the record that starts at `start`; the
    /// reader stands behind the header.
    fn read_fixed<R: ByteSource>(reader: &mut BufStreamReader<R>, start: u64) -> (r: Result<
        BinaryUsnRecordV2,
        UsnReaderError,
    >)
        requires
            old(reader).wf(),
            old(reader)@.position() == start + 8,
        ensures
            final(reader).wf(),
            final(reader).same_source(old(reader)),
            r is Ok ==> final(reader)@.position() == start + 60,
            old(reader).healthy() ==> final(reader).moved_to(
                old(reader)@.advanced(52),
                r is Err && r->Err_0 is IO,
                old(reader),
            ) && match r {
                Ok(raw) => old(reader)@.has_ahead(52) && raw@ == fixed_fields(
                    raw_record_at(old(reader)@.stream, start as int),
                ),
                Err(UsnReaderError::NoMoreData) => !old(reader)@.has_ahead(52),
                Err(UsnReaderError::IO(_)) => true,
                Err(_) => false,
            },
    {
        let ghost v = reader@;
        match reader.read(52) {
            Ok(fixed) => {
                proof {
                    if old(reader).healthy() {
                        let from = start as int + 8;
                        lemma_part(v.stream, from, from + 52, 0);
                        lemma_part(v.stream, from, from + 52, 8);
                        lemma_part(v.stream, from, from + 52, 16);
                        lemma_part(v.stream, from, from + 52, 24);
                        lemma_part(v.stream, from, from + 52, 32);
                        lemma_part(v.stream, from, from + 52, 36);
                        lemma_part(v.stream, from, from + 52, 40);
                        lemma_part(v.stream, from, from + 52, 44);
                        lemma_part(v.stream, from, from + 52, 48);
                        lemma_part(v.stream, from, from + 52, 50);
                    }
                }
                Ok(Self::parse_fixed(&fixed))
            },
            Err(e) => Err(UsnReaderError::from(e)),
        }
    }

    /// Brings the reader from the end of the fixed part of the record that
    /// starts at `start` to where its file name starts.
    fn anchor<R: ByteSource>(reader: &mut BufStreamReader<R>, start: u64, name_offset: u16) -> (r:
        Result<(), UsnReaderError>)
        requires
            old(reader).wf(),
            old(reader)@.position() == start + 60,
        ensures
            final(reader).wf(),
            final(reader).same_source(old(reader)),
            old(reader).healthy() ==> {
                let fixed = old(reader)@;
                let ahead = (name_offset - 60) as nat;
                if name_offset >= 60 {
                    &&& final(reader).moved_to(
                        fixed.advanced(ahead),
                        r is Err && r->Err_0 is IO,
                        old(reader),
                    )
                    &&& match r {
                        Ok(()) => fixed.has_ahead(ahead),
                        Err(UsnReaderError::NoMoreData) => !fixed.has_ahead(ahead),
                        Err(UsnReaderError::IO(_)) => true,
                        Err(_) => false,
                    }
                } else if start + name_offset < fixed.base {
                    &&& r matches Err(UsnReaderError::UnreachablePosition)
                    &&& final(reader).healthy()
                    &&& final(reader)@ == fixed
                } else {
                    &&& r is Ok
                    &&& final(reader).healthy()
                    &&& final(reader)@ == fixed.at(
                        fixed.base,
                        (start + name_offset - fixed.base) as nat,
                    )
                }
            },
    {
        proof {
            reader.lemma_position_fits();
            if reader.healthy() {
                reader.lemma_view_wf();
            }
        }
        let moved = if name_offset >= 60 {
            reader.skip((name_offset - 60) as u64)
        } else {
            match reader.seek_to(start + name_offset as u64) {
                Ok(_) => Ok(()),
                Err(e) => Err(e),
            }
        };
        match moved {
            Ok(()) => Ok(()),
            Err(e) => Err(UsnReaderError::from(e)),
        }
    }

    /// Reads a file name of `name_length` bytes where the reader stands.
    fn read_name<R: ByteSource>(reader: &mut BufStreamReader<R>, name_length: u16) -> (r: Result<
        (Vec<u16>, u64),
        UsnReaderError,
    >)
        requires
            old(reader).wf(),
        ensures
            final(reader).wf(),
            final(reader).same_source(old(reader)),
            old(reader).healthy() ==> {
                let anchored = old(reader)@;
                let count = name_bytes(name_length);
                &&& final(reader).moved_to(
                    anchored.advanced(count),
                    r is Err && r->Err_0 is IO,
                    old(reader),
                )
                &&& match r {
                    Ok((units, ending)) => {
                        &&& anchored.has_ahead(count)
                        &&& units@ == code_units(anchored.ahead(count))
                        &&& ending == anchored.position() + count
                    },
                    Err(UsnReaderError::NoMoreData) => !anchored.has_ahead(count),
                    Err(UsnReaderError::IO(_)) => true,
                    Err(_) => false,
                }
            },
    {
        let count: usize = 2 * (name_length / 2) as usize;
        match reader.read(count) {
            Ok(name) => {
                let ending: u64 = reader.current_offset();
                Ok((units_of(&name), ending))
            },
            Err(e) => Err(UsnReaderError::from(e)),
        }
    }

    /// Reads the record of version 2 that starts at `start`; the reader
    /// stands behind the header.
    pub fn read<R: ByteSource>(reader: &mut BufStreamReader<R>, start: u64) -> (r: Result<
        BinaryUsnRecordV2,
        UsnReaderError,
    >)
        requires
            old(reader).wf(),
            old(reader)@.position() == start + 8,
        ensures
            final(reader).wf(),
            final(reader).same_source(old(reader)),
            old(reader).healthy() ==> {
                let read = read_raw_v2(old(reader)@, start as int);
                &&& final(reader).moved_to(read.after, r is Err && r->Err_0 is IO, old(reader))
                &&& match r {
                    Ok(raw) => read.outcome == Ok::<RawRecordV2, UsnReaderError>(raw@),
                    Err(UsnReaderError::IO(_)) => true,
                    Err(e) => read.outcome == Err::<RawRecordV2, UsnReaderError>(e),
                }
            },
    {
        let ghost v = reader@;
        let ghost healthy = reader.healthy();
        proof {
            if healthy {
                reader.lemma_view_wf();
                lemma_advanced(v, 52);
            }
        }
        let mut raw = Self::read_fixed(reader, start)?;
        let ghost fixed = reader@;
        proof {
            if healthy {
                reader.lemma_view_wf();
                if raw.FileNameOffset >= 60 {
                    lemma_advanced(fixed, (raw.FileNameOffset - 60) as nat);
                }
            }
        }
        // The file name is anchored at the start of the record.
        Self::anchor(reader, start, raw.FileNameOffset)?;
        let ghost anchored = reader@;
        proof {
            if healthy {
                lemma_advanced(anchored, name_bytes(raw.FileNameLength));
            }
        }
        let (units, ending) = Self::read_name(reader, raw.FileNameLength)?;
        raw.FileName = units;
        raw.EndingPosition = CurPos(ending);
        proof {
            if healthy {
                assert(raw@ == raw_record_at(v.stream, start as int));
            }
        }
        Ok(raw)
    }
}

impl UsnRecordV2 {
    /// Makes the record that is handed out from a raw one and from what
    /// its fields were converted to. Without an instant for the time stamp
    /// there is no record: the raw time stamp is handed back as the
    /// failure.
    pub fn assemble(
        raw: BinaryUsnRecordV2,
        file_reference: FileReference,
        parent_reference: FileReference,
        instant: Option<UsnTimestamp>,
        file_name: String,
    ) -> (r: Result<UsnRecordV2, UsnReaderError>)
        ensures
            match r {
                Ok(record) => instant is Some && record@ == (RecordV2 {
                    file_reference: file_reference,
                    parent_file_reference: parent_reference,
                    usn: raw.Usn,
                    timestamp: instant->0,
                    reason: raw.Reason,
                    source_info: raw.SourceInfo,
                    security_id: raw.SecurityId,
                    file_attributes: raw.FileAttributes,
                    file_name: file_name@,
                    ending_position: raw.EndingPosition.0,
                }),
                Err(e) => instant is None && e == UsnReaderError::FailedToReadWindowsTime(
                    raw.TimeStamp,
                ),
            },
    {
        match instant {
            None => Err(UsnReaderError::FailedToReadWindowsTime(raw.TimeStamp)),
            Some(timestamp) => Ok(
                UsnRecordV2 {
                    FileReferenceNumber: file_reference,
                    ParentFileReferenceNumber: parent_reference,
                    Usn: raw.Usn,
                    TimeStamp: timestamp,
                    Reason: UsnReason::from(raw.Reason),
                    SourceInfo: raw.SourceInfo,
                    SecurityId: raw.SecurityId,
                    FileAttributes: raw.FileAttributes,
                    FileName: file_name,
                    EndingPosition: raw.EndingPosition.0,
                },
            ),
        }
    }

    /// Converts a raw record: the file name to text, the file references
    /// to entry and sequence, the time stamp to an instant. No raw record
    /// is refused.
    pub fn from(raw: BinaryUsnRecordV2) -> (r: Result<UsnRecordV2, UsnReaderError>)
        ensures
            r matches Ok(record) && record@ == converted(raw@),
    {
        let filename = decode_utf16_lossy(&raw.FileName);
        let file_reference = split_file_reference(raw.FileReferenceNumber);
        let parent_reference = split_file_reference(raw.ParentFileReferenceNumber);
        let timestamp = convert_filetime(&raw.TimeStamp);
        proof {
            lemma_instant_is_one(timestamp->0, raw.TimeStamp@);
        }
        Self::assemble(raw, file_reference, parent_reference, timestamp, filename)
    }
}

impl UsnRecordData {
    /// The instant at which the change was recorded.
    pub fn timestamp(&self) -> (t: &UsnTimestamp)
        ensures
            *t == self@.timestamp,
    {
        match self {
            Self::V2(data) => &data.TimeStamp,
        }
    }

    /// The name of the file that changed.
    pub fn filename(&self) -> (name: &str)
        ensures
            name@ == self@.file_name,
    {
        match self {
            Self::V2(data) => data.FileName.as_str(),
        }
    }

    /// The reasons for which the record was written.
    pub fn reason(&self) -> (reason: &UsnReason)
        ensures
            reason@ == self@.reason,
    {
        match self {
            Self::V2(data) => &data.Reason,
        }
    }

    /// Where the file name of the record ends in the stream.
    pub fn ending_position(&self) -> (position: u64)
        ensures
            position == self@.ending_position,
    {
        match self {
            Self::V2(data) => data.EndingPosition,
        }
    }
}

impl CommonUsnRecord {
    /// Passes over `count` bytes. Where the stream ends before that, this
    /// is the end of the data.
    pub fn ignore_bytes<R: ByteSource>(reader: &mut BufStreamReader<R>, count: u64) -> (r: Result<
        (),
        UsnReaderError,
    >)
        requires
            old(reader).wf(),
        ensures
            final(reader).wf(),
            final(reader).same_source(old(reader)),
            final(reader)@.base >= old(reader)@.base,
            r is Ok ==> final(reader)@.position() == old(reader)@.position() + count,
            count <= old(reader).cursor_room() ==> r is Ok,
            old(reader).healthy() ==> final(reader).moved_to(
                old(reader)@.advanced(count as nat),
                r is Err && r->Err_0 is IO,
                old(reader),
            ) && match r {
                Ok(()) => old(reader)@.has_ahead(count as nat),
                Err(UsnReaderError::NoMoreData) => !old(reader)@.has_ahead(count as nat),
                Err(UsnReaderError::IO(_)) => true,
                Err(_) => false,
            },
    {
        match reader.skip(count) {
            Ok(()) => Ok(()),
            Err(e) => Err(UsnReaderError::from(e)),
        }
    }

    /// Reads the next header that declares a length. A header without one
    /// starts the zero fill of a cluster: the reader goes on to the cluster
    /// that follows and reads there.
    pub fn next_header<R: ByteSource>(reader: &mut BufStreamReader<R>) -> (r: Result<
        UsnRecordCommonHeader,
        UsnReaderError,
    >)
        requires
            old(reader).wf(),
        ensures
            final(reader).wf(),
            final(reader).same_source(old(reader)),
            r matches Ok(header) ==> {
                &&& final(reader)@.position() == header.StartingPosition.0 + 8
                &&& header.RecordLength != 0
                &&& header.StartingPosition.0 >= old(reader)@.position()
            },
            old(reader).healthy() ==> {
                let v = old(reader)@;
                let found = find_record(v.stream, v.position());
                &&& final(reader).moved_to(
                    match found {
                        Some(start) => v.advanced((start + 8 - v.position()) as nat),
                        None => v.at_end(),
                    },
                    r is Err && r->Err_0 is IO,
                    old(reader),
                )
                &&& match r {
                    Ok(header) => found matches Some(start) && header == header_at(
                        v.stream,
                        start as int,
                    ),
                    Err(UsnReaderError::NoMoreData) => found is None,
                    Err(UsnReaderError::IO(_)) => true,
                    Err(_) => false,
                }
            },
    {
        let ghost v = reader@;
        let ghost healthy = reader.healthy();
        proof {
            if healthy {
                reader.lemma_view_wf();
                lemma_advanced(v, 0);
            }
        }
        loop
            invariant
                reader.wf(),
                reader.same_source(old(reader)),
                v == old(reader)@,
                healthy == old(reader).healthy(),
                reader@.position() >= v.position(),
                healthy ==> {
                    &&& reader.healthy()
                    &&& v.wf()
                    &&& reader@ == v.advanced((reader@.position() - v.position()) as nat)
                    &&& reader@.position() <= v.len()
                    &&& find_record(v.stream, reader@.position()) == find_record(
                        v.stream,
                        v.position(),
                    )
                },
            decreases u64::MAX - reader@.position(),
        {
            let ghost here = reader@;
            proof {
                reader.lemma_position_fits();
                if healthy {
                    reader.lemma_view_wf();
                    lemma_advanced(here, 8);
                    lemma_advanced_twice(v, (here.position() - v.position()) as nat, 8);
                }
            }
            let header = UsnRecordCommonHeader::read(reader)?;
            if header.RecordLength != 0 {
                return Ok(header);
            }
            /* looks like a cluster change, round index up to the next cluster */
            let current_position: u64 = reader.current_offset();
            let diff: u64 = CLUSTER_SIZE - (current_position % CLUSTER_SIZE);
            let ghost behind = reader@;
            proof {
                if healthy {
                    reader.lemma_view_wf();
                    lemma_advanced(behind, diff as nat);
                    lemma_advanced_twice(v, (behind.position() - v.position()) as nat, diff as nat);
                    assert(behind.position() + diff == next_cluster(behind.position()));
                }
            }
            /* forward reader to new offset */
            Self::ignore_bytes(reader, diff)?;
            proof {
                reader.lemma_position_fits();
            }
        }
    }

    /// Pulls the next record out of the reader.
    ///
    /// What comes out, and where the reader is left, is `decode_step` of
    /// where the reader stood, unless the producer fails.
    pub fn from<R: ByteSource>(data: &mut BufStreamReader<R>) -> (r: Result<
        CommonUsnRecord,
        UsnReaderError,
    >)
        requires
            old(data).wf(),
        ensures
            final(data).wf(),
            final(data).same_source(old(data)),
            old(data).healthy() ==> {
                let step = decode_step(old(data)@);
                &&& final(data).moved_to(step.after, r is Err && r->Err_0 is IO, old(data))
                &&& !(r is Err && r->Err_0 is IO) ==> pulled(r) == step.outcome
            },
    {
        let ghost healthy = data.healthy();
        let header = Self::next_header(data)?;
        proof {
            if healthy {
                data.lemma_view_wf();
            }
        }
        let raw = match header.MajorVersion {
            2 => {
                if header.RecordLength < FIXED_SIZE_V2 {
                    return Err(UsnReaderError::InvalidRecordLength(header.RecordLength));
                }
                BinaryUsnRecordV2::read(data, header.StartingPosition.0)?
            },
            3 => {
                return Err(UsnReaderError::UnsupportedVersion(3));
            },
            4 => {
                return Err(UsnReaderError::UnsupportedVersion(4));
            },
            version => {
                return Err(UsnReaderError::InvalidMajorVersion(version));
            },
        };
        /*
         * pass over the padding bytes, until the beginning of the next record
         */
        let used: u64 = raw.FileNameOffset as u64 + 2 * (raw.FileNameLength / 2) as u64;
        if (header.RecordLength as u64) < used {
            return Err(UsnReaderError::InvalidRecordLength(header.RecordLength));
        }
        let next_record: u64 = header.RecordLength as u64 - used;
        let ghost named = data@;
        proof {
            if healthy {
                data.lemma_view_wf();
                lemma_advanced(named, next_record as nat);
            }
        }
        Self::ignore_bytes(data, next_record)?;
        let usn_data = UsnRecordData::V2(UsnRecordV2::from(raw)?);
        Ok(CommonUsnRecord { header, data: usn_data })
    }
}

} // verus!
