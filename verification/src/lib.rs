//! Streaming decoder for the NTFS update sequence number journal.
//!
//! A journal is a stream of records of changes to files. `buf_stream_reader`
//! reads a stream through one live buffer; `usn_record` decodes one record
//! at the place where such a reader stands; `usnjrnl_reader` makes the
//! sequence of all records out of that.

pub mod buf_stream_reader;
pub mod byte_source;
pub mod conversions;
pub mod usn_reader_error;
pub mod usn_reason;
pub mod usn_record;
pub mod usnjrnl_reader;

pub use usn_reader_error::UsnReaderError;
pub use usn_reason::UsnReason;
pub use usn_record::{CommonUsnRecord, UsnRecordData};
pub use usnjrnl_reader::{UsnJrnlReader, UsrJrnlIterator};
