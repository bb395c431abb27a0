use usnjrnl::buf_stream_reader::BufStreamReader;
use usnjrnl::byte_source::MemorySource;
use usnjrnl::conversions::{FileReference, UsnTimestamp};
use usnjrnl::usn_reason;
use usnjrnl::usn_record::{BinaryUsnRecordV2, CurPos, UsnRecordCommonHeader, UsnRecordV2};
use usnjrnl::{CommonUsnRecord, UsnReaderError, UsnReason, UsnRecordData};

const STAMP: [u8; 8] = [0x53, 0xC7, 0x8B, 0x18, 0xC5, 0xCC, 0xCE, 0x01];

struct Fields {
    length: u32,
    major: u16,
    reference: u64,
    parent: u64,
    usn: i64,
    stamp: [u8; 8],
    reason: u32,
    name_offset: u16,
    name: Vec<u16>,
}

fn fields(name: &str) -> Fields {
    let units: Vec<u16> = name.encode_utf16().collect();
    Fields {
        length: 60 + 2 * units.len() as u32,
        major: 2,
        reference: 0x9168_0000_0000_0073,
        parent: 0x0001_0000_0000_0005,
        usn: -2,
        stamp: STAMP,
        reason: usn_reason::FILE_CREATE | usn_reason::CLOSE,
        name_offset: 60,
        name: units,
    }
}

fn encode(f: &Fields) -> Vec<u8> {
    let mut b = Vec::new();
    b.extend_from_slice(&f.length.to_le_bytes());
    b.extend_from_slice(&f.major.to_le_bytes());
    b.extend_from_slice(&0u16.to_le_bytes());
    b.extend_from_slice(&f.reference.to_le_bytes());
    b.extend_from_slice(&f.parent.to_le_bytes());
    b.extend_from_slice(&f.usn.to_le_bytes());
    b.extend_from_slice(&f.stamp);
    b.extend_from_slice(&f.reason.to_le_bytes());
    b.extend_from_slice(&0x11u32.to_le_bytes());
    b.extend_from_slice(&0x22u32.to_le_bytes());
    b.extend_from_slice(&0x33u32.to_le_bytes());
    b.extend_from_slice(&((2 * f.name.len()) as u16).to_le_bytes());
    b.extend_from_slice(&f.name_offset.to_le_bytes());
    if f.name_offset >= 60 {
        while b.len() < f.name_offset as usize {
            b.push(0xEE);
        }
        for unit in &f.name {
            b.extend_from_slice(&unit.to_le_bytes());
        }
    }
    while b.len() < f.length as usize {
        b.push(0);
    }
    b
}

fn reader(bytes: Vec<u8>, capacity: usize) -> BufStreamReader<MemorySource> {
    BufStreamReader::new(MemorySource::new(bytes), capacity).unwrap()
}

fn v2(record: &CommonUsnRecord) -> &UsnRecordV2 {
    match &record.data {
        UsnRecordData::V2(data) => data,
    }
}

#[test]
fn decodes_every_field() {
    let mut f = fields("a.txt");
    f.length = 80;
    let mut data = reader(encode(&f), 4096);
    let record = CommonUsnRecord::from(&mut data).unwrap();
    assert_eq!(record.header.StartingPosition, CurPos(0));
    assert_eq!(record.header.RecordLength, 80);
    assert_eq!(record.header.MajorVersion, 2);
    assert_eq!(record.header.MinorVersion, 0);
    let body = v2(&record);
    assert_eq!(body.FileReferenceNumber, FileReference { entry: 115, sequence: 37224 });
    assert_eq!(body.ParentFileReferenceNumber, FileReference { entry: 5, sequence: 1 });
    assert_eq!(body.Usn, -2);
    assert_eq!(body.TimeStamp, UsnTimestamp { seconds: 1382185013, subsec_nanos: 276_040_000 });
    assert_eq!(body.Reason.bits(), 0x8000_0100);
    assert_eq!(body.SourceInfo, 0x11);
    assert_eq!(body.SecurityId, 0x22);
    assert_eq!(body.FileAttributes, 0x33);
    assert_eq!(body.FileName, "a.txt");
    assert_eq!(body.EndingPosition, 70);
    assert_eq!(record.data.filename(), "a.txt");
    assert_eq!(record.data.ending_position(), 70);
    assert_eq!(*record.data.timestamp(), body.TimeStamp);
    assert_eq!(record.data.reason().names(), vec!["FILE_CREATE", "CLOSE"]);
    // the padding up to the declared length is passed over
    assert_eq!(data.current_offset(), 80);
}

#[test]
fn file_name_is_anchored_at_record_start() {
    let mut f = fields("abcd");
    f.name_offset = 86;
    f.length = 96;
    let bytes = encode(&f);
    assert_eq!(&bytes[86..94], &[b'a', 0, b'b', 0, b'c', 0, b'd', 0]);
    let mut data = reader(bytes, 4096);
    let record = CommonUsnRecord::from(&mut data).unwrap();
    assert_eq!(record.data.filename(), "abcd");
    assert_eq!(record.data.ending_position(), 94);
    assert_eq!(data.current_offset(), 96);
}

#[test]
fn file_name_behind_the_fixed_part_is_read_from_the_buffer() {
    // the name is declared to lie over the two reference numbers
    let mut f = fields("");
    f.name_offset = 8;
    f.reference = 0x0044_0043_0042_0041;
    f.length = 60;
    let mut bytes = encode(&f);
    bytes[56..58].copy_from_slice(&8u16.to_le_bytes());
    let mut data = reader(bytes, 4096);
    let record = CommonUsnRecord::from(&mut data).unwrap();
    assert_eq!(record.data.filename(), "ABCD");
    assert_eq!(record.data.ending_position(), 16);
    assert_eq!(data.current_offset(), 60);
}

#[test]
fn file_name_behind_the_live_buffer_is_unreachable() {
    // the record starts at 40 and its fixed part ends in the second buffer
    let mut f = fields("");
    f.name_offset = 8;
    f.length = 60;
    let mut bytes = vec![0u8; 40];
    let mut first = fields("");
    first.length = 40;
    first.name_offset = 0;
    bytes[..40].copy_from_slice(&encode_prefix(&first)[..40]);
    let mut second = encode(&f);
    second[56..58].copy_from_slice(&4u16.to_le_bytes());
    bytes.extend_from_slice(&second);
    let mut data = reader(bytes, 64);
    data.skip(40).unwrap();
    let outcome = CommonUsnRecord::from(&mut data);
    assert!(matches!(outcome, Err(UsnReaderError::UnreachablePosition)));
    assert_eq!(data.current_offset(), 100);
}

fn encode_prefix(f: &Fields) -> Vec<u8> {
    let mut g = Fields {
        length: 60,
        major: f.major,
        reference: f.reference,
        parent: f.parent,
        usn: f.usn,
        stamp: f.stamp,
        reason: f.reason,
        name_offset: 60,
        name: Vec::new(),
    };
    g.length = 60;
    encode(&g)
}

#[test]
fn odd_name_length_drops_the_last_byte() {
    let f = fields("xy");
    let mut bytes = encode(&f);
    bytes[56..58].copy_from_slice(&3u16.to_le_bytes());
    let mut data = reader(bytes, 4096);
    let record = CommonUsnRecord::from(&mut data).unwrap();
    assert_eq!(record.data.filename(), "x");
    assert_eq!(record.data.ending_position(), 62);
}

#[test]
fn unpaired_surrogate_is_replaced() {
    let mut f = fields("a");
    f.name = vec![0x0061, 0xD800, 0x0062];
    f.length = 72;
    let mut data = reader(encode(&f), 4096);
    let record = CommonUsnRecord::from(&mut data).unwrap();
    assert_eq!(record.data.filename(), "a\u{FFFD}b");
}

#[test]
fn version_three_and_four_are_unsupported() {
    for version in [3u16, 4] {
        let mut f = fields("a");
        f.major = version;
        let mut data = reader(encode(&f), 4096);
        match CommonUsnRecord::from(&mut data) {
            Err(UsnReaderError::UnsupportedVersion(v)) => assert_eq!(v, version),
            other => panic!("unexpected: {:?}", other),
        }
        assert_eq!(data.current_offset(), 8);
    }
}

#[test]
fn other_versions_are_corrupt() {
    for version in [0u16, 1, 5, 0xFFFF] {
        let mut f = fields("a");
        f.major = version;
        let mut data = reader(encode(&f), 4096);
        match CommonUsnRecord::from(&mut data) {
            Err(UsnReaderError::InvalidMajorVersion(v)) => assert_eq!(v, version),
            other => panic!("unexpected: {:?}", other),
        }
    }
}

#[test]
fn declared_length_below_what_was_read_is_corrupt() {
    let f = fields("name");
    let mut bytes = encode(&f);
    bytes[0..4].copy_from_slice(&67u32.to_le_bytes());
    let mut data = reader(bytes, 4096);
    match CommonUsnRecord::from(&mut data) {
        Err(UsnReaderError::InvalidRecordLength(length)) => assert_eq!(length, 67),
        other => panic!("unexpected: {:?}", other),
    }
    assert_eq!(data.current_offset(), 68);
}

#[test]
fn declared_length_below_the_fixed_part_is_corrupt() {
    for length in [1u32, 8, 59] {
        let mut f = fields("");
        f.name_offset = 0;
        let mut bytes = encode(&f);
        bytes[0..4].copy_from_slice(&length.to_le_bytes());
        bytes[56..60].copy_from_slice(&[0, 0, 0, 0]);
        let mut data = reader(bytes, 4096);
        match CommonUsnRecord::from(&mut data) {
            Err(UsnReaderError::InvalidRecordLength(l)) => assert_eq!(l, length),
            other => panic!("unexpected: {:?}", other),
        }
        assert_eq!(data.current_offset(), 8);
    }
}

#[test]
fn truncated_record_is_end_of_data() {
    let mut f = fields("name");
    f.length = 80;
    let whole = encode(&f);
    for cut in [0usize, 5, 8, 30, 59, 60, 67, 68, 79] {
        let bytes = whole[..cut].to_vec();
        if bytes.is_empty() {
            continue;
        }
        let mut data = reader(bytes, 4096);
        assert!(matches!(CommonUsnRecord::from(&mut data), Err(UsnReaderError::NoMoreData)));
        assert_eq!(data.current_offset(), cut as u64);
    }
    let mut data = reader(whole, 4096);
    assert!(CommonUsnRecord::from(&mut data).is_ok());
}

#[test]
fn header_read_reports_position() {
    let f = fields("a");
    let mut bytes = vec![0xAAu8; 3];
    bytes.extend_from_slice(&encode(&f));
    let mut data = reader(bytes, 4096);
    data.skip(3).unwrap();
    let header = UsnRecordCommonHeader::read(&mut data).unwrap();
    assert_eq!(header.StartingPosition, CurPos(3));
    assert_eq!(header.RecordLength, 62);
    assert_eq!(header.MajorVersion, 2);
    let raw = BinaryUsnRecordV2::read(&mut data, 3).unwrap();
    assert_eq!(raw.FileName, vec![0x61u16]);
    assert_eq!(raw.FileNameOffset, 60);
    assert_eq!(raw.FileNameLength, 2);
    assert_eq!(raw.TimeStamp, STAMP);
    assert_eq!(raw.EndingPosition, CurPos(65));
}

#[test]
fn missing_instant_is_the_time_stamp_failure() {
    let f = fields("a");
    let mut data = reader(encode(&f), 4096);
    UsnRecordCommonHeader::read(&mut data).unwrap();
    let raw = BinaryUsnRecordV2::read(&mut data, 0).unwrap();
    let reference = FileReference { entry: 1, sequence: 2 };
    match UsnRecordV2::assemble(raw, reference, reference, None, "a".to_string()) {
        Err(UsnReaderError::FailedToReadWindowsTime(bytes)) => assert_eq!(bytes, STAMP),
        other => panic!("unexpected: {:?}", other),
    }
}

#[test]
fn assembled_record_holds_what_it_was_given() {
    let f = fields("a");
    let mut data = reader(encode(&f), 4096);
    UsnRecordCommonHeader::read(&mut data).unwrap();
    let raw = BinaryUsnRecordV2::read(&mut data, 0).unwrap();
    let a = FileReference { entry: 1, sequence: 2 };
    let b = FileReference { entry: 3, sequence: 4 };
    let instant = UsnTimestamp { seconds: -5, subsec_nanos: 6000 };
    let record = UsnRecordV2::assemble(raw, a, b, Some(instant), "n".to_string()).unwrap();
    assert_eq!(record.FileReferenceNumber, a);
    assert_eq!(record.ParentFileReferenceNumber, b);
    assert_eq!(record.TimeStamp, instant);
    assert_eq!(record.FileName, "n");
    assert_eq!(record.Usn, -2);
    assert_eq!(record.EndingPosition, 62);
}

#[test]
fn extreme_time_stamps_convert() {
    // winstructs takes every eight bytes for a time stamp
    let mut f = fields("a");
    f.stamp = [0xFF; 8];
    let mut data = reader(encode(&f), 4096);
    let record = CommonUsnRecord::from(&mut data).unwrap();
    let ticks = u64::MAX / 10;
    let micros = ticks as i128 - 11_644_473_600_000_000i128;
    let stamp = record.data.timestamp();
    assert_eq!(stamp.seconds as i128, micros.div_euclid(1_000_000));
    assert_eq!(stamp.subsec_nanos as i128, micros.rem_euclid(1_000_000) * 1000);
    let mut g = fields("a");
    g.stamp = [0; 8];
    let mut data = reader(encode(&g), 4096);
    let record = CommonUsnRecord::from(&mut data).unwrap();
    assert_eq!(
        *record.data.timestamp(),
        UsnTimestamp { seconds: -11_644_473_600, subsec_nanos: 0 }
    );
}

#[test]
fn ignore_bytes_ends_with_the_data() {
    let mut data = reader(vec![1u8; 10], 4);
    assert!(CommonUsnRecord::ignore_bytes(&mut data, 10).is_ok());
    assert_eq!(data.current_offset(), 10);
    assert!(CommonUsnRecord::ignore_bytes(&mut data, 0).is_ok());
    assert!(matches!(
        CommonUsnRecord::ignore_bytes(&mut data, 1),
        Err(UsnReaderError::NoMoreData)
    ));
}

#[test]
fn reason_names_follow_the_bits() {
    let reason = UsnReason::from(0x0000_3001);
    assert_eq!(reason.bits(), 0x3001);
    assert_eq!(reason.names(), vec!["DATA_OVERWRITE", "RENAME_OLD_NAME", "RENAME_NEW_NAME"]);
    assert!(reason.contains(usn_reason::RENAME_OLD_NAME | usn_reason::DATA_OVERWRITE));
    assert!(!reason.contains(usn_reason::FILE_DELETE));
    assert!(!reason.is_empty());
    // bits without a name are kept and not named
    let odd = UsnReason::from(0x0100_0008 | usn_reason::SECURITY_CHANGE);
    assert_eq!(odd.bits(), 0x0100_0808);
    assert_eq!(odd.names(), vec!["SECURITY_CHANGE"]);
    assert!(UsnReason::from(0).is_empty());
    assert_eq!(UsnReason::from(0).names(), Vec::<&str>::new());
    assert_eq!(UsnReason::from(u32::MAX).names().len(), 23);
    assert_eq!(usn_reason::flag_name(9), Some("FILE_DELETE"));
    assert_eq!(usn_reason::flag_name(3), None);
}

#[test]
fn errors_have_labels() {
    assert_eq!(UsnReaderError::NoMoreData.description(), "no more data");
    assert_eq!(UsnReaderError::UnsupportedVersion(3).description(), "unsupported version");
    assert_eq!(
        UsnReaderError::InvalidMajorVersion(9).description(),
        "invalid value for MajorVersion"
    );
    assert_eq!(
        UsnReaderError::InvalidRecordLength(1).description(),
        "invalid value for RecordLength"
    );
    assert_eq!(
        UsnReaderError::FailedToReadWindowsTime([0; 8]).description(),
        "failed to read windows time"
    );
    assert_eq!(UsnReaderError::UnreachablePosition.description(), "unreachable position");
}
