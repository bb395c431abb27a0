//! Conversions of raw record fields that are left to other libraries.
//!
//! Nothing in this file is proved: each function hands its argument to a
//! function of `winstructs` or of the standard library, and its contract
//! states what that function is taken to do.

use vstd::prelude::*;
use winstructs::ntfs::mft_reference::MftReference;
use winstructs::timestamp::WinTimestamp;

verus! {

/// The identifier of a file: the index of its entry in the file table, and
/// the number of times that entry has been used.
#[derive(Debug, Clone, Copy, PartialEq, Eq, Structural)]
pub struct FileReference {
    pub entry: u64,
    pub sequence: u16,
}

/// An instant in universal time: whole seconds since 1970-01-01 00:00:00,
/// and the nanoseconds into that second.
#[derive(Debug, Clone, Copy, PartialEq, Eq, Structural)]
pub struct UsnTimestamp {
    pub seconds: i64,
    pub subsec_nanos: u32,
}

/// 2^48: the lower 48 bits of a raw file reference are the entry index.
pub const ENTRY_RANGE: u64 = 0x1_0000_0000_0000;

/// The microseconds from 1601-01-01 to 1970-01-01.
pub const EPOCH_GAP_MICROS: i64 = 11_644_473_600_000_000;

/// The number that eight bytes stand for, lowest byte first.
pub open spec fn filetime_ticks(raw: Seq<u8>) -> nat {
    (raw[0] as nat) + (raw[1] as nat) * 0x100 + (raw[2] as nat) * 0x1_0000 + (raw[3] as nat)
        * 0x100_0000 + (raw[4] as nat) * 0x1_0000_0000 + (raw[5] as nat) * 0x100_0000_0000 + (
    raw[6] as nat) * 0x1_0000_0000_0000 + (raw[7] as nat) * 0x100_0000_0000_0000
}

/// Whether `t` is the instant that lies the ticks of `raw`, cut down to
/// whole microseconds, after 1601-01-01 00:00:00.
pub open spec fn is_instant_of(t: UsnTimestamp, raw: Seq<u8>) -> bool {
    &&& t.subsec_nanos < 1_000_000_000
    &&& t.subsec_nanos % 1000 == 0
    &&& t.seconds * 1_000_000 + t.subsec_nanos / 1000 == filetime_ticks(raw) / 10
        - EPOCH_GAP_MICROS
}

/// The instant that lies the ticks of `raw`, cut down to whole
/// microseconds, after 1601-01-01 00:00:00.
pub open spec fn instant_of(raw: Seq<u8>) -> UsnTimestamp {
    let micros = filetime_ticks(raw) / 10 - EPOCH_GAP_MICROS;
    UsnTimestamp {
        seconds: (micros / 1_000_000) as i64,
        subsec_nanos: ((micros % 1_000_000) * 1000) as u32,
    }
}

/// There is one instant for a raw time stamp.
pub proof fn lemma_instant_is_one(t: UsnTimestamp, raw: Seq<u8>)
    requires
        is_instant_of(t, raw),
    ensures
        t == instant_of(raw),
{
    let micros = filetime_ticks(raw) / 10 - EPOCH_GAP_MICROS;
    let part = (t.subsec_nanos / 1000) as int;
    assert(0 <= part < 1_000_000);
    assert(t.subsec_nanos == part * 1000);
    assert(micros == t.seconds * 1_000_000 + part);
    assert(micros / 1_000_000 == t.seconds as int && micros % 1_000_000 == part) by {
        vstd::arithmetic::div_mod::lemma_fundamental_div_mod_converse(
            micros,
            1_000_000,
            t.seconds as int,
            part,
        );
    }
}

/// The text that the standard library decodes from 16-bit code units, with a
/// replacement character for what is no valid UTF-16.
pub uninterp spec fn utf16_lossy_text(units: Seq<u16>) -> Seq<char>;

/// Splits a raw file reference with `MftReference::from` of `winstructs`.
///
/// Taken from its source: the upper two bytes of the number are the
/// sequence, and the number with those two bytes cleared is the entry.
#[verifier::external_body]
pub(crate) fn split_file_reference(raw: u64) -> (r: FileReference)
    ensures
        r.entry == raw % ENTRY_RANGE,
        r.sequence == raw / ENTRY_RANGE,
{
    let reference = MftReference::from(raw);
    FileReference { entry: reference.entry, sequence: reference.sequence }
}

/// Converts a raw time stamp with `WinTimestamp::new` and
/// `WinTimestamp::to_datetime` of `winstructs`, and reads the instant off
/// the `chrono` value that comes back.
///
/// Taken from their source: eight bytes are never refused; they are a
/// number of ticks of 100 nanoseconds, lowest byte first, and the instant
/// lies that number of ticks, cut down to whole microseconds, after
/// 1601-01-01 00:00:00.
#[verifier::external_body]
pub(crate) fn convert_filetime(raw: &[u8; 8]) -> (r: Option<UsnTimestamp>)
    ensures
        r is Some,
        r matches Some(t) ==> is_instant_of(t, raw@),
{
    match WinTimestamp::new(&raw[..]) {
        Ok(stamp) => {
            let instant = stamp.to_datetime();
            Some(
                UsnTimestamp {
                    seconds: instant.timestamp(),
                    subsec_nanos: instant.timestamp_subsec_nanos(),
                },
            )
        },
        Err(_) => None,
    }
}

/// Decodes a file name with `String::from_utf16_lossy` of the standard
/// library.
#[verifier::external_body]
pub(crate) fn decode_utf16_lossy(units: &Vec<u16>) -> (text: String)
    ensures
        text@ == utf16_lossy_text(units@),
{
    String::from_utf16_lossy(units)
}

} // verus!
