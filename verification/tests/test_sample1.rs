use usnjrnl::byte_source::MemorySource;
use usnjrnl::{UsnJrnlReader, UsnReaderError};

fn sample_record(length: u32, reason: u32, name: &str) -> Vec<u8> {
    let units: Vec<u16> = name.encode_utf16().collect();
    let mut b = Vec::new();
    b.extend_from_slice(&length.to_le_bytes());
    b.extend_from_slice(&2u16.to_le_bytes());
    b.extend_from_slice(&0u16.to_le_bytes());
    b.extend_from_slice(&0x0002_0000_0000_002Au64.to_le_bytes());
    b.extend_from_slice(&0x0005_0000_0000_0005u64.to_le_bytes());
    b.extend_from_slice(&4096i64.to_le_bytes());
    b.extend_from_slice(&[0x53, 0xC7, 0x8B, 0x18, 0xC5, 0xCC, 0xCE, 0x01]);
    b.extend_from_slice(&reason.to_le_bytes());
    b.extend_from_slice(&[0u8; 12]);
    b.extend_from_slice(&((2 * units.len()) as u16).to_le_bytes());
    b.extend_from_slice(&60u16.to_le_bytes());
    for unit in &units {
        b.extend_from_slice(&unit.to_le_bytes());
    }
    while b.len() < length as usize {
        b.push(0);
    }
    b
}

fn get_sample(_filename: &str) -> Vec<u8> {
    let mut journal = Vec::new();
    for i in 0..200u32 {
        let name = format!("file{}.txt", i);
        journal.extend(sample_record(88, 0x100 << (i % 3), &name));
        if i % 40 == 39 {
            let fill = 4096 - journal.len() % 4096;
            journal.extend(vec![0u8; fill]);
        }
    }
    // the capture ends in the middle of a record, behind an unknown version
    let mut odd = sample_record(88, 0x1, "odd");
    odd[4] = 7;
    journal.extend(odd);
    let mut last = sample_record(88, 0x1, "last");
    last.truncate(50);
    journal.extend(last);
    journal
}

#[test]
fn test_sample1() -> Result<(), UsnReaderError> {
    let reader1 = UsnJrnlReader::from(MemorySource::new(get_sample("sample1.bin")));
    let reader2 = UsnJrnlReader::from(MemorySource::new(get_sample("sample1.bin")));

    let count1 = reader1.into_iter().count();

    let mut count2 = 0;
    for entry in reader2.into_iter().collect() {
        // this failes because of the last entry
        //assert!(entry.is_ok());
        if let Ok(entry) = entry {
            println!("{}: {}", entry.data.reason().names().join(" | "), entry.data.filename());
        }
        count2 += 1;
    }
    assert_eq!(count1, count2);
    Ok(())
}
