//! The reasons for which a journal record was written.
//!
//! A record carries its reasons as a mask of 32 flags. The mask is kept
//! whole; the flags that have a name can be listed by that name.

use vstd::prelude::*;
use vstd::std_specs::convert::FromSpecImpl;

verus! {

/// The data of the file was overwritten.
pub const DATA_OVERWRITE: u32 = 0x0000_0001;

/// Data was added to the file.
pub const DATA_EXTEND: u32 = 0x0000_0002;

/// The file was truncated.
pub const DATA_TRUNCATION: u32 = 0x0000_0004;

/// The data of a named stream was overwritten.
pub const NAMED_DATA_OVERWRITE: u32 = 0x0000_0010;

/// Data was added to a named stream.
pub const NAMED_DATA_EXTEND: u32 = 0x0000_0020;

/// A named stream was truncated.
pub const NAMED_DATA_TRUNCATION: u32 = 0x0000_0040;

/// The file or directory was created.
pub const FILE_CREATE: u32 = 0x0000_0100;

/// The file or directory was deleted.
pub const FILE_DELETE: u32 = 0x0000_0200;

/// The extended attributes were changed.
pub const EA_CHANGE: u32 = 0x0000_0400;

/// The access rights were changed.
pub const SECURITY_CHANGE: u32 = 0x0000_0800;

/// The file or directory was renamed; the record holds the old name.
pub const RENAME_OLD_NAME: u32 = 0x0000_1000;

/// The file or directory was renamed; the record holds the new name.
pub const RENAME_NEW_NAME: u32 = 0x0000_2000;

/// The content-indexed attribute was changed.
pub const INDEXABLE_CHANGE: u32 = 0x0000_4000;

/// An attribute or a time stamp was changed.
pub const BASIC_INFO_CHANGE: u32 = 0x0000_8000;

/// A hard link was added or removed.
pub const HARD_LINK_CHANGE: u32 = 0x0001_0000;

/// The compression state was changed.
pub const COMPRESSION_CHANGE: u32 = 0x0002_0000;

/// The file or directory was encrypted or decrypted.
pub const ENCRYPTION_CHANGE: u32 = 0x0004_0000;

/// The object identifier was changed.
pub const OBJECT_ID_CHANGE: u32 = 0x0008_0000;

/// The reparse point was changed.
pub const REPARSE_POINT_CHANGE: u32 = 0x0010_0000;

/// A named stream was added, removed or renamed.
pub const STREAM_CHANGE: u32 = 0x0020_0000;

/// The stream was changed by a transaction.
pub const TRANSACTED_CHANGE: u32 = 0x0040_0000;

/// The integrity attribute was changed.
pub const INTEGRITY_CHANGE: u32 = 0x0080_0000;

/// The file or directory was closed.
pub const CLOSE: u32 = 0x8000_0000;

/// The number of flags in a mask.
pub const FLAG_COUNT: u32 = 32;

/// The name of the flag at `index`, counted from the lowest bit, if it has
/// one.
pub open spec fn flag_label(index: nat) -> Option<Seq<char>> {
    if index == 0 {
        Some("DATA_OVERWRITE"@)
    } else if index == 1 {
        Some("DATA_EXTEND"@)
    } else if index == 2 {
        Some("DATA_TRUNCATION"@)
    } else if index == 4 {
        Some("NAMED_DATA_OVERWRITE"@)
    } else if index == 5 {
        Some("NAMED_DATA_EXTEND"@)
    } else if index == 6 {
        Some("NAMED_DATA_TRUNCATION"@)
    } else if index == 8 {
        Some("FILE_CREATE"@)
    } else if index == 9 {
        Some("FILE_DELETE"@)
    } else if index == 10 {
        Some("EA_CHANGE"@)
    } else if index == 11 {
        Some("SECURITY_CHANGE"@)
    } else if index == 12 {
        Some("RENAME_OLD_NAME"@)
    } else if index == 13 {
        Some("RENAME_NEW_NAME"@)
    } else if index == 14 {
        Some("INDEXABLE_CHANGE"@)
    } else if index == 15 {
        Some("BASIC_INFO_CHANGE"@)
    } else if index == 16 {
        Some("HARD_LINK_CHANGE"@)
    } else if index == 17 {
        Some("COMPRESSION_CHANGE"@)
    } else if index == 18 {
        Some("ENCRYPTION_CHANGE"@)
    } else if index == 19 {
        Some("OBJECT_ID_CHANGE"@)
    } else if index == 20 {
        Some("REPARSE_POINT_CHANGE"@)
    } else if index == 21 {
        Some("STREAM_CHANGE"@)
    } else if index == 22 {
        Some("TRANSACTED_CHANGE"@)
    } else if index == 23 {
        Some("INTEGRITY_CHANGE"@)
    } else if index == 31 {
        Some("CLOSE"@)
    } else {
        None
    }
}

/// Whether the flag at `index` is set in `bits`.
pub open spec fn flag_set(bits: u32, index: nat) -> bool {
    (bits >> (index as u32)) & 1 == 1
}

/// The names of the named flags that are set in `bits` among the lowest
/// `count` flags, lowest flag first.
pub open spec fn labels_below(bits: u32, count: nat) -> Seq<Seq<char>>
    decreases count,
{
    if count == 0 {
        Seq::empty()
    } else {
        let index = (count - 1) as nat;
        let below = labels_below(bits, index);
        if flag_set(bits, index) && flag_label(index) is Some {
            below.push(flag_label(index)->0)
        } else {
            below
        }
    }
}

/// The views of a sequence of names.
pub open spec fn texts(names: Seq<&'static str>) -> Seq<Seq<char>> {
    Seq::new(names.len(), |i: int| names[i]@)
}

/// The name of the flag at `index`, if it has one.
pub fn flag_name(index: u32) -> (name: Option<&'static str>)
    ensures
        match name {
            Some(text) => flag_label(index as nat) == Some(text@),
            None => flag_label(index as nat) is None,
        },
{
    match index {
        0 => Some("DATA_OVERWRITE"),
        1 => Some("DATA_EXTEND"),
        2 => Some("DATA_TRUNCATION"),
        4 => Some("NAMED_DATA_OVERWRITE"),
        5 => Some("NAMED_DATA_EXTEND"),
        6 => Some("NAMED_DATA_TRUNCATION"),
        8 => Some("FILE_CREATE"),
        9 => Some("FILE_DELETE"),
        10 => Some("EA_CHANGE"),
        11 => Some("SECURITY_CHANGE"),
        12 => Some("RENAME_OLD_NAME"),
        13 => Some("RENAME_NEW_NAME"),
        14 => Some("INDEXABLE_CHANGE"),
        15 => Some("BASIC_INFO_CHANGE"),
        16 => Some("HARD_LINK_CHANGE"),
        17 => Some("COMPRESSION_CHANGE"),
        18 => Some("ENCRYPTION_CHANGE"),
        19 => Some("OBJECT_ID_CHANGE"),
        20 => Some("REPARSE_POINT_CHANGE"),
        21 => Some("STREAM_CHANGE"),
        22 => Some("TRANSACTED_CHANGE"),
        23 => Some("INTEGRITY_CHANGE"),
        31 => Some("CLOSE"),
        _ => None,
    }
}

/// The reasons of one record: the mask as the record holds it.
#[derive(Debug, Clone, Copy, PartialEq, Eq, Structural)]
pub struct UsnReason {
    bits: u32,
}

impl View for UsnReason {
    type V = u32;

    closed spec fn view(&self) -> u32 {
        self.bits
    }
}

impl FromSpecImpl<u32> for UsnReason {
    open spec fn obeys_from_spec() -> bool {
        true
    }

    closed spec fn from_spec(v: u32) -> UsnReason {
        UsnReason { bits: v }
    }
}

impl From<u32> for UsnReason {
    /// The reasons that the mask `bits` stands for. Every bit is kept.
    fn from(bits: u32) -> (reason: UsnReason)
        ensures
            reason@ == bits,
    {
        UsnReason { bits }
    }
}

impl UsnReason {
    /// The mask.
    pub fn bits(&self) -> (bits: u32)
        ensures
            bits == self@,
    {
        self.bits
    }

    /// Whether every flag of `flags` is among these reasons.
    pub fn contains(&self, flags: u32) -> (yes: bool)
        ensures
            yes <==> self@ & flags == flags,
    {
        self.bits & flags == flags
    }

    /// Whether no flag is set.
    pub fn is_empty(&self) -> (yes: bool)
        ensures
            yes <==> self@ == 0,
    {
        self.bits == 0
    }

    /// The names of the named flags among these reasons, lowest flag
    /// first.
    pub fn names(&self) -> (names: Vec<&'static str>)
        ensures
            texts(names@) == labels_below(self@, FLAG_COUNT as nat),
    {
        let mut names: Vec<&'static str> = Vec::new();
        let mut index: u32 = 0;
        while index < FLAG_COUNT
            invariant
                index <= FLAG_COUNT,
                texts(names@) == labels_below(self@, index as nat),
            decreases FLAG_COUNT - index,
        {
            if (self.bits >> index) & 1 == 1 {
                if let Some(name) = flag_name(index) {
                    let ghost before = names@;
                    names.push(name);
                    assert(texts(names@) =~= texts(before).push(name@));
                }
            }
            index += 1;
        }
        names
    }
}

} // verus!
