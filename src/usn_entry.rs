use vstd::prelude::*;

use crate::utils::{filetime_to_systemtime, unix_time_of, UnixTime};

verus! {

/// Bytes of a version 2 record before its file name: the fixed header.
pub const HEADER_LEN: usize = 60;

/// The only major version of the record format that is decoded.
pub const SUPPORTED_MAJOR_VERSION: u16 = 2;

/// Attribute bit of a directory.
pub const FILE_ATTRIBUTE_DIRECTORY: u32 = 0x10;

/// Attribute bit of a hidden file.
pub const FILE_ATTRIBUTE_HIDDEN: u32 = 0x2;

/// Why a record could not be decoded. Either way the bytes that follow it
/// cannot be trusted to start a record.
#[derive(Debug, Clone, Copy, PartialEq, Eq, Structural)]
pub enum DecodeError {
    /// The record length is zero or the major version is not 2.
    UnsupportedVersion,
    /// The record, or its name, runs past the bytes that hold it.
    Truncated,
}

/// Little-endian value of the two bytes at `i`.
pub open spec fn le16(b: Seq<u8>, i: int) -> int {
    b[i] as int + b[i + 1] as int * 256
}

/// Little-endian value of the four bytes at `i`.
pub open spec fn le32(b: Seq<u8>, i: int) -> int {
    le16(b, i) + le16(b, i + 2) * 65536
}

/// Little-endian value of the eight bytes at `i`.
pub open spec fn le64(b: Seq<u8>, i: int) -> int {
    le32(b, i) + le32(b, i + 4) * 4294967296
}

/// The eight bytes at `i` read as a two's-complement signed value.
pub open spec fn le_i64(b: Seq<u8>, i: int) -> i64 {
    (le64(b, i) as u64) as i64
}

/// The `count` UTF-16 code units stored from byte `start` on.
pub open spec fn utf16_units(b: Seq<u8>, start: int, count: int) -> Seq<u16> {
    Seq::new(count as nat, |j: int| le16(b, start + 2 * j) as u16)
}

/// The record length stored at the start of the record at `off`.
pub open spec fn record_length_at(b: Seq<u8>, off: int) -> int {
    le32(b, off)
}

/// Why the record at `off` cannot be decoded from the first `valid` bytes of
/// `b`, or `None` when it can.
pub open spec fn decode_error(b: Seq<u8>, valid: int, off: int) -> Option<DecodeError> {
    if off + 8 > valid {
        Some(DecodeError::Truncated)
    } else if le32(b, off) == 0 || le16(b, off + 4) != SUPPORTED_MAJOR_VERSION {
        Some(DecodeError::UnsupportedVersion)
    } else if le32(b, off) <= HEADER_LEN || off + le32(b, off) > valid {
        Some(DecodeError::Truncated)
    } else if le16(b, off + 58) + le16(b, off + 56) > le32(b, off) {
        Some(DecodeError::Truncated)
    } else {
        None
    }
}

/// One change-journal or file-table record, decoded.
#[derive(Debug)]
pub struct UsnEntry {
    pub record_length: u32,
    pub major_version: u16,
    pub minor_version: u16,
    pub fid: u64,
    pub parent_fid: u64,
    pub usn: i64,
    /// Ticks of 100 ns since 1601-01-01 UTC, as stored.
    pub timestamp: i64,
    /// `timestamp` as an instant relative to the Unix epoch.
    pub time: UnixTime,
    pub reason: u32,
    pub source_info: u32,
    pub security_id: u32,
    pub file_attributes: u32,
    /// The file name as UTF-16 code units.
    pub file_name: Vec<u16>,
}

/// `e` holds, field by field, the record stored at `off` in `b`. The name is
/// found through the stored name offset, relative to the record's start.
pub open spec fn entry_matches(e: UsnEntry, b: Seq<u8>, off: int) -> bool {
    &&& e.record_length as int == le32(b, off)
    &&& e.major_version as int == le16(b, off + 4)
    &&& e.minor_version as int == le16(b, off + 6)
    &&& e.fid as int == le64(b, off + 8)
    &&& e.parent_fid as int == le64(b, off + 16)
    &&& e.usn == le_i64(b, off + 24)
    &&& e.timestamp == le_i64(b, off + 32)
    &&& e.time == unix_time_of(le_i64(b, off + 32) as int)
    &&& e.reason as int == le32(b, off + 40)
    &&& e.source_info as int == le32(b, off + 44)
    &&& e.security_id as int == le32(b, off + 48)
    &&& e.file_attributes as int == le32(b, off + 52)
    &&& e.file_name@ == utf16_units(b, off + le16(b, off + 58), le16(b, off + 56) / 2)
}

pub(crate) fn read_u16(buf: &[u8], at: usize) -> (r: u16)
    requires
        at + 2 <= buf.len(),
    ensures
        r as int == le16(buf@, at as int),
{
    buf[at] as u16 + (buf[at + 1] as u16) * 256
}

pub(crate) fn read_u32(buf: &[u8], at: usize) -> (r: u32)
    requires
        at + 4 <= buf.len(),
    ensures
        r as int == le32(buf@, at as int),
{
    read_u16(buf, at) as u32 + (read_u16(buf, at + 2) as u32) * 65536
}

/// Reads the little-endian `u64` at `at`.
pub fn read_u64(buf: &[u8], at: usize) -> (r: u64)
    requires
        at + 8 <= buf.len(),
    ensures
        r as int == le64(buf@, at as int),
{
    read_u32(buf, at) as u64 + (read_u32(buf, at + 4) as u64) * 4294967296
}

fn read_i64(buf: &[u8], at: usize) -> (r: i64)
    requires
        at + 8 <= buf.len(),
    ensures
        r == le_i64(buf@, at as int),
{
    read_u64(buf, at) as i64
}

impl UsnEntry {
    /// Decodes the record at `offset` among the first `valid_len` bytes of
    /// `buf`. On success returns the record and the offset just past it.
    pub fn new(buf: &[u8], valid_len: usize, offset: usize) -> (r: Result<
        (UsnEntry, usize),
        DecodeError,
    >)
        requires
            valid_len <= buf@.len(),
        ensures
            match decode_error(buf@, valid_len as int, offset as int) {
                Some(err) => r == Err::<(UsnEntry, usize), DecodeError>(err),
                None => r matches Ok((e, next)) && entry_matches(e, buf@, offset as int)
                    && next == offset + record_length_at(buf@, offset as int),
            },
    {
        if valid_len < 8 || offset > valid_len - 8 {
            return Err(DecodeError::Truncated);
        }
        let record_length = read_u32(buf, offset);
        let major_version = read_u16(buf, offset + 4);
        if record_length == 0 || major_version != SUPPORTED_MAJOR_VERSION {
            return Err(DecodeError::UnsupportedVersion);
        }
        if record_length as usize <= HEADER_LEN || record_length as usize > valid_len - offset {
            return Err(DecodeError::Truncated);
        }
        let name_length = read_u16(buf, offset + 56);
        let name_offset = read_u16(buf, offset + 58);
        if name_offset as u32 + name_length as u32 > record_length {
            return Err(DecodeError::Truncated);
        }
        let name_start: usize = offset + name_offset as usize;
        let units: usize = name_length as usize / 2;
        let mut file_name: Vec<u16> = Vec::new();
        let mut j: usize = 0;
        while j < units
            invariant
                valid_len <= buf@.len(),
                name_start + 2 * units <= valid_len,
                j <= units,
                file_name@ =~= utf16_units(buf@, name_start as int, j as int),
            decreases units - j,
        {
            file_name.push(read_u16(buf, name_start + 2 * j));
            j += 1;
        }
        let timestamp = read_i64(buf, offset + 32);
        let entry = UsnEntry {
            record_length,
            major_version,
            minor_version: read_u16(buf, offset + 6),
            fid: read_u64(buf, offset + 8),
            parent_fid: read_u64(buf, offset + 16),
            usn: read_i64(buf, offset + 24),
            timestamp,
            time: filetime_to_systemtime(timestamp),
            reason: read_u32(buf, offset + 40),
            source_info: read_u32(buf, offset + 44),
            security_id: read_u32(buf, offset + 48),
            file_attributes: read_u32(buf, offset + 52),
            file_name,
        };
        Ok((entry, offset + record_length as usize))
    }

    /// Whether the record describes a directory.
    pub fn is_dir(&self) -> (r: bool)
        ensures
            r == (self.file_attributes & FILE_ATTRIBUTE_DIRECTORY != 0),
    {
        self.file_attributes & FILE_ATTRIBUTE_DIRECTORY != 0
    }

    /// Whether the record describes a hidden file or directory.
    pub fn is_hidden(&self) -> (r: bool)
        ensures
            r == (self.file_attributes & FILE_ATTRIBUTE_HIDDEN != 0),
    {
        self.file_attributes & FILE_ATTRIBUTE_HIDDEN != 0
    }
}

/// The weight of byte `k` of a little-endian integer: 256 to the `k`.
pub open spec fn byte_weight(k: int) -> int {
    if k <= 0 {
        1
    } else if k == 1 {
        256
    } else if k == 2 {
        65536
    } else if k == 3 {
        16777216
    } else if k == 4 {
        4294967296
    } else if k == 5 {
        1099511627776
    } else if k == 6 {
        281474976710656
    } else {
        72057594037927936
    }
}

/// Byte `k` of the little-endian form of `v`.
pub open spec fn le_byte(v: int, k: int) -> u8 {
    ((v / byte_weight(k)) % 256) as u8
}

/// Byte `i` of the version 2 record that `e` describes: its header fields
/// in order, the name at offset 60, then zero padding up to
/// `e.record_length`.
pub open spec fn record_byte(e: UsnEntry, i: int) -> u8 {
    if i < 4 {
        le_byte(e.record_length as int, i)
    } else if i < 6 {
        le_byte(e.major_version as int, i - 4)
    } else if i < 8 {
        le_byte(e.minor_version as int, i - 6)
    } else if i < 16 {
        le_byte64(e.fid as int, i - 8)
    } else if i < 24 {
        le_byte64(e.parent_fid as int, i - 16)
    } else if i < 32 {
        le_byte64(e.usn as u64 as int, i - 24)
    } else if i < 40 {
        le_byte64(e.timestamp as u64 as int, i - 32)
    } else if i < 44 {
        le_byte(e.reason as int, i - 40)
    } else if i < 48 {
        le_byte(e.source_info as int, i - 44)
    } else if i < 52 {
        le_byte(e.security_id as int, i - 48)
    } else if i < 56 {
        le_byte(e.file_attributes as int, i - 52)
    } else if i < 58 {
        le_byte(2 * e.file_name@.len() as int, i - 56)
    } else if i < 60 {
        le_byte(HEADER_LEN as int, i - 58)
    } else if i < 60 + 2 * e.file_name@.len() {
        le_byte(e.file_name@[(i - 60) / 2] as int, (i - 60) % 2)
    } else {
        0
    }
}

/// The bytes of the record that `e` describes.
pub open spec fn record_bytes(e: UsnEntry) -> Seq<u8> {
    Seq::new(e.record_length as nat, |i: int| record_byte(e, i))
}

proof fn lemma_le16_bytes(v: int)
    requires
        0 <= v < 65536,
    ensures
        le_byte(v, 0) as int + le_byte(v, 1) as int * 256 == v,
{
}

proof fn lemma_le32_bytes(v: int)
    requires
        0 <= v < 4294967296,
    ensures
        le_byte(v, 0) as int + le_byte(v, 1) as int * 256 + le_byte(v, 2) as int * 65536
            + le_byte(v, 3) as int * 16777216 == v,
{
}

/// Byte `k` of the little-endian form of the 64-bit value `v`: the low half
/// first, then the high half.
pub open spec fn le_byte64(v: int, k: int) -> u8 {
    if k < 4 {
        le_byte(v % 4294967296, k)
    } else {
        le_byte(v / 4294967296, k - 4)
    }
}

proof fn lemma_le64_bytes(v: int)
    requires
        0 <= v < 18446744073709551616,
    ensures
        le_byte64(v, 0) as int + le_byte64(v, 1) as int * 256 + le_byte64(v, 2) as int * 65536
            + le_byte64(v, 3) as int * 16777216 + (le_byte64(v, 4) as int + le_byte64(v, 5) as int
            * 256 + le_byte64(v, 6) as int * 65536 + le_byte64(v, 7) as int * 16777216)
            * 4294967296 == v,
{
    lemma_le32_bytes(v % 4294967296);
    lemma_le32_bytes(v / 4294967296);
}

/// Decoding the bytes of the record that `e` describes gives `e` back, field
/// by field, name included, and the next record starts just past it. `e`
/// must be one that a version 2 record can hold: a name of fewer than 32768
/// units that fits in the record, a record longer than the fixed header, and
/// a time that is the one of its timestamp.
pub proof fn lemma_decode_round_trip(e: UsnEntry)
    requires
        e.major_version == SUPPORTED_MAJOR_VERSION,
        HEADER_LEN < e.record_length,
        HEADER_LEN + 2 * e.file_name@.len() <= e.record_length,
        2 * e.file_name@.len() < 65536,
        e.time == unix_time_of(e.timestamp as int),
    ensures
        decode_error(record_bytes(e), e.record_length as int, 0) is None,
        record_length_at(record_bytes(e), 0) == e.record_length,
        entry_matches(e, record_bytes(e), 0),
{
    let b = record_bytes(e);
    let n = e.file_name@.len();
    lemma_le32_bytes(e.record_length as int);
    lemma_le16_bytes(e.major_version as int);
    lemma_le16_bytes(e.minor_version as int);
    lemma_le64_bytes(e.fid as int);
    lemma_le64_bytes(e.parent_fid as int);
    lemma_le64_bytes(e.usn as u64 as int);
    lemma_le64_bytes(e.timestamp as u64 as int);
    lemma_le32_bytes(e.reason as int);
    lemma_le32_bytes(e.source_info as int);
    lemma_le32_bytes(e.security_id as int);
    lemma_le32_bytes(e.file_attributes as int);
    lemma_le16_bytes(2 * n as int);
    lemma_le16_bytes(HEADER_LEN as int);
    assert(le32(b, 0) == e.record_length);
    assert(le16(b, 4) == e.major_version);
    assert(le16(b, 6) == e.minor_version);
    assert(le64(b, 8) == e.fid);
    assert(le64(b, 16) == e.parent_fid);
    let usn = e.usn;
    let ts = e.timestamp;
    assert((usn as u64) as i64 == usn) by (bit_vector);
    assert((ts as u64) as i64 == ts) by (bit_vector);
    assert(le64(b, 24) == usn as u64);
    assert(le64(b, 32) == ts as u64);
    assert(le32(b, 40) == e.reason);
    assert(le32(b, 44) == e.source_info);
    assert(le32(b, 48) == e.security_id);
    assert(le32(b, 52) == e.file_attributes);
    assert(le16(b, 56) == 2 * n);
    assert(le16(b, 58) == HEADER_LEN);
    assert forall|j: int| 0 <= j < n implies le16(b, 60 + 2 * j) as u16 == e.file_name@[j] by {
        lemma_le16_bytes(e.file_name@[j] as int);
        assert((60 + 2 * j - 60) / 2 == j && (60 + 2 * j - 60) % 2 == 0);
        assert((60 + 2 * j + 1 - 60) / 2 == j && (60 + 2 * j + 1 - 60) % 2 == 1);
    }
    assert(utf16_units(b, 60, n as int) =~= e.file_name@);
}

} // verus!
