use usnjrnl::buf_stream_reader::BufStreamReader;
use usnjrnl::byte_source::{ByteSource, IoFailure, MemorySource};
use usnjrnl::usn_reason;
use usnjrnl::{CommonUsnRecord, UsnJrnlReader, UsnReaderError, UsrJrnlIterator};

fn record(length: u32, major: u16, reason: u32, name: &str) -> Vec<u8> {
    let units: Vec<u16> = name.encode_utf16().collect();
    let mut b = Vec::new();
    b.extend_from_slice(&length.to_le_bytes());
    b.extend_from_slice(&major.to_le_bytes());
    b.extend_from_slice(&0u16.to_le_bytes());
    b.extend_from_slice(&7u64.to_le_bytes());
    b.extend_from_slice(&5u64.to_le_bytes());
    b.extend_from_slice(&1i64.to_le_bytes());
    b.extend_from_slice(&[0x53, 0xC7, 0x8B, 0x18, 0xC5, 0xCC, 0xCE, 0x01]);
    b.extend_from_slice(&reason.to_le_bytes());
    b.extend_from_slice(&[0u8; 12]);
    b.extend_from_slice(&((2 * units.len()) as u16).to_le_bytes());
    b.extend_from_slice(&60u16.to_le_bytes());
    for unit in &units {
        b.extend_from_slice(&unit.to_le_bytes());
    }
    while b.len() < length as usize {
        b.push(0);
    }
    b
}

fn scan(bytes: Vec<u8>) -> Vec<Result<CommonUsnRecord, UsnReaderError>> {
    UsnJrnlReader::from(MemorySource::new(bytes)).into_iter().collect()
}

fn names(items: &[Result<CommonUsnRecord, UsnReaderError>]) -> Vec<String> {
    items
        .iter()
        .map(|item| match item {
            Ok(record) => record.data.filename().to_string(),
            Err(e) => format!("{:?}", e),
        })
        .collect()
}

struct Failing {
    data: Vec<u8>,
    at: usize,
}

impl ByteSource for Failing {
    fn read_chunk(&mut self, limit: usize) -> Result<Vec<u8>, IoFailure> {
        if self.at == self.data.len() {
            return Err(IoFailure { message: "read failed".to_string() });
        }
        let n = limit.min(self.data.len() - self.at);
        let chunk = self.data[self.at..self.at + n].to_vec();
        self.at += n;
        Ok(chunk)
    }
}

#[test]
fn empty_journal_has_no_records() {
    assert!(scan(Vec::new()).is_empty());
    let mut records = UsnJrnlReader::from(MemorySource::new(Vec::new())).into_iter();
    assert!(records.is_finished());
    assert!(records.next().is_none());
    assert!(records.next().is_none());
}

#[test]
fn consecutive_records_come_in_order() {
    let mut bytes = record(72, 2, usn_reason::FILE_CREATE, "one");
    bytes.extend(record(80, 2, usn_reason::DATA_EXTEND, "two"));
    bytes.extend(record(66, 2, usn_reason::CLOSE, "3"));
    let items = scan(bytes);
    assert_eq!(names(&items), vec!["one", "two", "3"]);
    let starts: Vec<u64> =
        items.iter().map(|i| i.as_ref().unwrap().header.StartingPosition.0).collect();
    assert_eq!(starts, vec![0, 72, 152]);
}

#[test]
fn zero_header_sends_to_next_cluster() {
    let mut bytes = record(72, 2, usn_reason::FILE_CREATE, "before");
    bytes.resize(4096, 0);
    bytes.extend(record(72, 2, usn_reason::FILE_DELETE, "behind"));
    let items = scan(bytes);
    assert_eq!(names(&items), vec!["before", "behind"]);
    assert_eq!(items[1].as_ref().unwrap().header.StartingPosition.0, 4096);
}

#[test]
fn zero_header_that_ends_a_cluster_skips_the_next_one() {
    // the header is read up to 4096, and the cluster looked for lies above that
    let mut bytes = record(4088, 2, usn_reason::FILE_CREATE, "first");
    bytes.resize(4096, 0);
    bytes.extend(record(72, 2, usn_reason::FILE_DELETE, "skipped"));
    bytes.resize(8192, 0);
    bytes.extend(record(72, 2, usn_reason::CLOSE, "found"));
    assert_eq!(names(&scan(bytes)), vec!["first", "found"]);
}

#[test]
fn three_records_a_cluster_of_zeros_and_a_fourth() {
    let mut bytes = record(72, 2, usn_reason::DATA_OVERWRITE, "a");
    bytes.extend(record(72, 2, usn_reason::RENAME_OLD_NAME, "b"));
    bytes.extend(record(4096 - 144, 2, usn_reason::RENAME_NEW_NAME, "c"));
    assert_eq!(bytes.len(), 4096);
    bytes.resize(8192, 0);
    bytes.extend(record(72, 2, usn_reason::FILE_DELETE | usn_reason::CLOSE, "d"));
    let items = scan(bytes);
    assert_eq!(items.len(), 4);
    assert_eq!(names(&items), vec!["a", "b", "c", "d"]);
    let reasons: Vec<u32> =
        items.iter().map(|i| i.as_ref().unwrap().data.reason().bits()).collect();
    assert_eq!(reasons, vec![0x1, 0x1000, 0x2000, 0x8000_0200]);
    assert_eq!(items[3].as_ref().unwrap().header.StartingPosition.0, 8192);
}

#[test]
fn zero_tail_ends_the_sequence() {
    let mut bytes = record(72, 2, usn_reason::FILE_CREATE, "only");
    bytes.resize(3 * 4096 + 17, 0);
    assert_eq!(names(&scan(bytes)), vec!["only"]);
    assert!(scan(vec![0u8; 10_000]).is_empty());
}

#[test]
fn record_longer_than_the_source_ends_the_sequence() {
    let mut bytes = record(72, 2, usn_reason::FILE_CREATE, "whole");
    let mut last = record(80, 2, usn_reason::FILE_DELETE, "cut");
    last.truncate(70);
    bytes.extend(last);
    let items = scan(bytes);
    assert_eq!(names(&items), vec!["whole"]);
    assert!(items.iter().all(|item| item.is_ok()));
}

#[test]
fn last_record_that_ends_with_the_source_is_handed_out() {
    let mut bytes = record(72, 2, usn_reason::FILE_CREATE, "one");
    bytes.extend(record(66, 2, usn_reason::FILE_DELETE, "end"));
    assert_eq!(names(&scan(bytes)), vec!["one", "end"]);
}

#[test]
fn sequence_goes_on_behind_a_failed_item() {
    // a record of version 3 of eight bytes, then a record of version 2
    let mut bytes = record(8, 3, 0, "");
    bytes.truncate(8);
    bytes.extend(record(72, 2, usn_reason::FILE_CREATE, "next"));
    let items = scan(bytes);
    assert_eq!(items.len(), 2);
    assert!(matches!(items[0], Err(UsnReaderError::UnsupportedVersion(3))));
    assert_eq!(items[1].as_ref().unwrap().data.filename(), "next");
}

#[test]
fn end_of_data_is_never_an_item() {
    let mut bytes = record(72, 2, usn_reason::FILE_CREATE, "one");
    bytes.extend_from_slice(&[1, 2, 3]);
    let items = scan(bytes);
    assert_eq!(items.len(), 1);
    assert!(!items.iter().any(|i| matches!(i, Err(UsnReaderError::NoMoreData))));
}

#[test]
fn producer_failure_is_the_last_item() {
    let mut bytes = record(72, 2, usn_reason::FILE_CREATE, "one");
    bytes.extend(record(72, 2, usn_reason::FILE_CREATE, "two"));
    bytes.resize(4096, 0);
    let mut records = UsnJrnlReader::from(Failing { data: bytes, at: 0 }).into_iter();
    assert_eq!(records.next().unwrap().unwrap().data.filename(), "one");
    assert_eq!(records.next().unwrap().unwrap().data.filename(), "two");
    match records.next() {
        Some(Err(UsnReaderError::IO(failure))) => assert_eq!(failure.message, "read failed"),
        other => panic!("unexpected: {:?}", other),
    }
    assert!(records.is_finished());
    assert!(records.next().is_none());
}

#[test]
fn producer_failure_at_the_start_is_the_only_item() {
    let items = UsnJrnlReader::from(Failing { data: Vec::new(), at: 0 }).into_iter().collect();
    assert_eq!(items.len(), 1);
    assert!(matches!(items[0], Err(UsnReaderError::IO(_))));
}

#[test]
fn two_passes_yield_the_same_items() {
    let mut bytes = record(72, 2, usn_reason::FILE_CREATE, "one");
    bytes.extend(record(72, 9, usn_reason::FILE_CREATE, "bad"));
    bytes.resize(4096, 0);
    bytes.extend(record(4000, 2, usn_reason::CLOSE, "two"));
    bytes.extend(record(300, 2, usn_reason::CLOSE, "straddles"));
    bytes.extend(record(90, 2, usn_reason::CLOSE, "cut"));
    bytes.truncate(bytes.len() - 1);
    let first = scan(bytes.clone());
    for limit in [1usize, 5, 4096, 100_000] {
        let source = MemorySource::with_chunk_limit(bytes.clone(), limit);
        let second = UsnJrnlReader::from(source).into_iter().collect();
        assert_eq!(names(&first), names(&second));
    }
    assert_eq!(UsnJrnlReader::from(MemorySource::new(bytes)).into_iter().count(), first.len());
    // "one", the unknown version, five headers read out of its body, "two", "straddles"
    assert_eq!(first.len(), 9);
    assert_eq!(names(&first)[7..], ["two".to_string(), "straddles".to_string()]);
}

#[test]
fn sequence_from_a_reader_starts_where_it_stands() {
    let mut bytes = vec![0xFFu8; 5];
    bytes.extend(record(72, 2, usn_reason::FILE_CREATE, "one"));
    let mut data = BufStreamReader::new(MemorySource::new(bytes), 16).unwrap();
    data.skip(5).unwrap();
    let items = UsrJrnlIterator::from(data).collect();
    assert_eq!(names(&items), vec!["one"]);
}
