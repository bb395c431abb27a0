//! What can go wrong while a journal is decoded.

use vstd::prelude::*;
use vstd::std_specs::convert::FromSpecImpl;
use crate::buf_stream_reader::SourceError;
use crate::byte_source::IoFailure;

verus! {

/// Why no record came out of a pull.
///
/// `InvalidMajorVersion` and `InvalidRecordLength` are the two ways in
/// which a header is corrupt; each carries the value that is wrong.
#[derive(Debug)]
pub enum UsnReaderError {
    /// The producer failed. The sequence ends with this.
    IO(IoFailure),
    /// A field lies behind the live buffer of the reader.
    UnreachablePosition,
    /// The record is of a version that is known and not decoded.
    UnsupportedVersion(u16),
    /// The major version of the header is none that exists.
    InvalidMajorVersion(u16),
    /// The length that the header declares is less than what the record
    /// was found to hold.
    InvalidRecordLength(u32),
    /// The time stamp cannot be converted; these are its eight bytes.
    FailedToReadWindowsTime([u8; 8]),
    /// The stream has ended. This ends a sequence and is never an item
    /// of it.
    NoMoreData,
}

impl FromSpecImpl<SourceError> for UsnReaderError {
    open spec fn obeys_from_spec() -> bool {
        true
    }

    open spec fn from_spec(err: SourceError) -> UsnReaderError {
        match err {
            SourceError::EndOfData => UsnReaderError::NoMoreData,
            SourceError::UnreachablePosition => UsnReaderError::UnreachablePosition,
            SourceError::Io(failure) => UsnReaderError::IO(failure),
        }
    }
}

impl From<SourceError> for UsnReaderError {
    /// The end of the data is the end of the records; the other failures
    /// of a reader are carried over as they are.
    fn from(err: SourceError) -> (r: UsnReaderError) {
        match err {
            SourceError::EndOfData => UsnReaderError::NoMoreData,
            SourceError::UnreachablePosition => UsnReaderError::UnreachablePosition,
            SourceError::Io(failure) => UsnReaderError::IO(failure),
        }
    }
}

impl FromSpecImpl<IoFailure> for UsnReaderError {
    open spec fn obeys_from_spec() -> bool {
        true
    }

    open spec fn from_spec(err: IoFailure) -> UsnReaderError {
        UsnReaderError::IO(err)
    }
}

impl From<IoFailure> for UsnReaderError {
    fn from(err: IoFailure) -> (r: UsnReaderError) {
        UsnReaderError::IO(err)
    }
}

/// What an error is called, without the value that it carries.
pub open spec fn label(error: UsnReaderError) -> Seq<char> {
    match error {
        UsnReaderError::IO(_) => "IO Error"@,
        UsnReaderError::UnreachablePosition => "unreachable position"@,
        UsnReaderError::UnsupportedVersion(_) => "unsupported version"@,
        UsnReaderError::InvalidMajorVersion(_) => "invalid value for MajorVersion"@,
        UsnReaderError::InvalidRecordLength(_) => "invalid value for RecordLength"@,
        UsnReaderError::FailedToReadWindowsTime(_) => "failed to read windows time"@,
        UsnReaderError::NoMoreData => "no more data"@,
    }
}

impl UsnReaderError {
    /// What this error is called, without the value that it carries.
    pub fn description(&self) -> (text: &'static str)
        ensures
            text@ == label(*self),
    {
        match self {
            UsnReaderError::IO(_) => "IO Error",
            UsnReaderError::UnreachablePosition => "unreachable position",
            UsnReaderError::UnsupportedVersion(_) => "unsupported version",
            UsnReaderError::InvalidMajorVersion(_) => "invalid value for MajorVersion",
            UsnReaderError::InvalidRecordLength(_) => "invalid value for RecordLength",
            UsnReaderError::FailedToReadWindowsTime(_) => "failed to read windows time",
            UsnReaderError::NoMoreData => "no more data",
        }
    }
}

} // verus!
