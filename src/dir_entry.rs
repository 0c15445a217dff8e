//! The 512-byte directory record and the entry it describes.

use crate::bytes::{bytes_to_string, le_u16, le_u16_at, le_u32, le_u32_at, nul_terminated_text};
use vstd::prelude::*;
use vstd::string::*;

verus! {

/// Size of a directory record in bytes.
pub const ENTRY_SIZE: usize = 512;

/// Mode bit of a live entry.
pub const EM_EXISTS: u16 = 0x8000;

/// Mode bit of a directory.
pub const EM_DIRECTORY: u16 = 0x0010;

/// A mode word that real cards use for directories without the directory bit.
pub const DIRECTORY_MODE_BUNDLE: u16 = 0x8427;

/// The fields of a directory record, before interpretation. Each timestamp
/// block `[b0, .., b7]` reads as seconds `b1`, minutes `b2`, hours `b3`,
/// day `b4`, month `b5` and a little-endian year in `b6, b7`.
#[derive(Debug, Clone, Copy)]
pub struct RawFSEntry {
    pub mode: u16,
    pub length: u32,
    pub created_sec: u8,
    pub created_min: u8,
    pub created_hour: u8,
    pub created_day: u8,
    pub created_month: u8,
    pub created_year: u16,
    pub cluster: u32,
    pub dir_entry: u32,
    pub modified_sec: u8,
    pub modified_min: u8,
    pub modified_hour: u8,
    pub modified_day: u8,
    pub modified_month: u8,
    pub modified_year: u16,
    pub attr: u32,
    pub name: [u8; 32],
}

/// `raw` holds the fields of the record `b`.
pub open spec fn decodes_raw(b: Seq<u8>, raw: RawFSEntry) -> bool {
    &&& raw.mode == le_u16_at(b, 0x00)
    &&& raw.length == le_u32_at(b, 0x04)
    &&& raw.created_sec == b[0x09]
    &&& raw.created_min == b[0x0A]
    &&& raw.created_hour == b[0x0B]
    &&& raw.created_day == b[0x0C]
    &&& raw.created_month == b[0x0D]
    &&& raw.created_year == le_u16_at(b, 0x0E)
    &&& raw.cluster == le_u32_at(b, 0x10)
    &&& raw.dir_entry == le_u32_at(b, 0x14)
    &&& raw.modified_sec == b[0x19]
    &&& raw.modified_min == b[0x1A]
    &&& raw.modified_hour == b[0x1B]
    &&& raw.modified_day == b[0x1C]
    &&& raw.modified_month == b[0x1D]
    &&& raw.modified_year == le_u16_at(b, 0x1E)
    &&& raw.attr == le_u32_at(b, 0x20)
    &&& raw.name@ == b.subrange(0x40, 0x60)
}

/// Splits the first 512 bytes of `bytes` into the fields of a directory
/// record; `None` where fewer than 512 bytes are given.
pub fn parse_fs_entry_from_bytes(bytes: &[u8]) -> (r: Option<RawFSEntry>)
    ensures
        bytes@.len() < ENTRY_SIZE <==> r is None,
        r matches Some(raw) ==> decodes_raw(bytes@, raw),
{
    if bytes.len() < ENTRY_SIZE {
        return None;
    }
    let mut name: [u8; 32] = [0u8; 32];
    let mut i: usize = 0;
    while i < 32
        invariant
            i <= 32,
            bytes@.len() >= ENTRY_SIZE,
            forall|j: int| 0 <= j < i ==> name[j] == bytes@[0x40 + j],
        decreases 32 - i,
    {
        name[i] = bytes[0x40 + i];
        i = i + 1;
    }
    assert(name@ =~= bytes@.subrange(0x40, 0x60));
    Some(
        RawFSEntry {
            mode: le_u16(bytes, 0x00),
            length: le_u32(bytes, 0x04),
            created_sec: bytes[0x09],
            created_min: bytes[0x0A],
            created_hour: bytes[0x0B],
            created_day: bytes[0x0C],
            created_month: bytes[0x0D],
            created_year: le_u16(bytes, 0x0E),
            cluster: le_u32(bytes, 0x10),
            dir_entry: le_u32(bytes, 0x14),
            modified_sec: bytes[0x19],
            modified_min: bytes[0x1A],
            modified_hour: bytes[0x1B],
            modified_day: bytes[0x1C],
            modified_month: bytes[0x1D],
            modified_year: le_u16(bytes, 0x1E),
            attr: le_u32(bytes, 0x20),
            name,
        },
    )
}

/// The name held in a 32-byte name field (empty where it is not UTF-8).
pub open spec fn name_text(name: Seq<u8>) -> Seq<char> {
    match nul_terminated_text(name) {
        Some(t) => t,
        None => Seq::empty(),
    }
}

/// A mode word that marks a directory.
pub open spec fn is_directory_mode(mode: u16) -> bool {
    mode == DIRECTORY_MODE_BUNDLE || mode & EM_DIRECTORY != 0
}

/// A record describes a live entry: its exists bit is set and its name is
/// not empty.
pub open spec fn is_live(raw: RawFSEntry) -> bool {
    raw.mode & EM_EXISTS != 0 && name_text(raw.name@).len() > 0
}

/// A decoded directory entry.
#[derive(Debug, Clone)]
pub struct FSEntry {
    pub name: String,
    pub mode: u16,
    pub length: u32,
    pub cluster: u32,
    pub is_directory: bool,
    pub created_sec: u8,
    pub created_min: u8,
    pub created_hour: u8,
    pub created_day: u8,
    pub created_month: u8,
    pub created_year: u16,
    pub modified_sec: u8,
    pub modified_min: u8,
    pub modified_hour: u8,
    pub modified_day: u8,
    pub modified_month: u8,
    pub modified_year: u16,
}

/// `e` is the entry that the live record `raw` describes.
pub open spec fn interprets(raw: RawFSEntry, e: FSEntry) -> bool {
    &&& e.name@ == name_text(raw.name@)
    &&& e.mode == raw.mode
    &&& e.length == raw.length
    &&& e.cluster == raw.cluster
    &&& e.is_directory == is_directory_mode(raw.mode)
    &&& e.created_sec == raw.created_sec
    &&& e.created_min == raw.created_min
    &&& e.created_hour == raw.created_hour
    &&& e.created_day == raw.created_day
    &&& e.created_month == raw.created_month
    &&& e.created_year == raw.created_year
    &&& e.modified_sec == raw.modified_sec
    &&& e.modified_min == raw.modified_min
    &&& e.modified_hour == raw.modified_hour
    &&& e.modified_day == raw.modified_day
    &&& e.modified_month == raw.modified_month
    &&& e.modified_year == raw.modified_year
}

/// `e` is the entry held in the 512-byte record `rec`.
pub open spec fn entry_of_record(rec: Seq<u8>, e: FSEntry) -> bool {
    exists|raw: RawFSEntry| decodes_raw(rec, raw) && is_live(raw) && interprets(raw, e)
}

/// The 512-byte record `rec` holds a live entry.
pub open spec fn record_is_live(rec: Seq<u8>) -> bool {
    &&& le_u16_at(rec, 0) & EM_EXISTS != 0
    &&& name_text(rec.subrange(0x40, 0x60)).len() > 0
}

/// Reads the entry of the record held in `bytes`; `None` where the record is
/// not live.
pub fn decode_entry(bytes: &[u8]) -> (r: Option<FSEntry>)
    requires
        bytes@.len() >= ENTRY_SIZE,
    ensures
        r is Some <==> record_is_live(bytes@),
        r matches Some(e) ==> entry_of_record(bytes@, e),
{
    let raw = parse_fs_entry_from_bytes(bytes).unwrap();
    let r = FSEntry::from_raw(&raw);
    if let Some(e) = &r {
        assert(decodes_raw(bytes@, raw) && is_live(raw) && interprets(raw, *e));
    }
    r
}

impl FSEntry {
    /// The entry that `raw` describes, or `None` where the record is not live.
    pub fn from_raw(raw: &RawFSEntry) -> (r: Option<FSEntry>)
        ensures
            r is Some <==> is_live(*raw),
            r matches Some(e) ==> interprets(*raw, e),
    {
        let mode_val = raw.mode;
        if mode_val & EM_EXISTS == 0 {
            return None;
        }
        let name = match bytes_to_string(&raw.name) {
            Some(s) => s,
            None => String::new(),
        };
        if name.unicode_len() == 0 {
            return None;
        }
        let is_directory = mode_val == DIRECTORY_MODE_BUNDLE || mode_val & EM_DIRECTORY != 0;
        Some(
            FSEntry {
                name,
                mode: mode_val,
                length: raw.length,
                cluster: raw.cluster,
                is_directory,
                created_sec: raw.created_sec,
                created_min: raw.created_min,
                created_hour: raw.created_hour,
                created_day: raw.created_day,
                created_month: raw.created_month,
                created_year: raw.created_year,
                modified_sec: raw.modified_sec,
                modified_min: raw.modified_min,
                modified_hour: raw.modified_hour,
                modified_day: raw.modified_day,
                modified_month: raw.modified_month,
                modified_year: raw.modified_year,
            },
        )
    }
}

} // verus!
