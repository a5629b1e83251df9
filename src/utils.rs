use vstd::prelude::*;

use crate::usn_entry::{le32, read_u16, read_u32, utf16_units};

verus! {

/// Ticks of 100 ns between 1601-01-01 and 1970-01-01 (both UTC).
pub const WINDOWS_TO_UNIX_EPOCH_TICKS: i64 = 116444736000000000;

/// Ticks of 100 ns in one second.
pub const TICKS_PER_SECOND: u64 = 10000000;

/// Whole seconds between 1601-01-01 and 1970-01-01.
pub const WINDOWS_TO_UNIX_EPOCH_SECS: i64 = 11644473600;

/// An instant as seconds since 1970-01-01 UTC plus a sub-second part:
/// the instant is `secs + nanos / 10^9`, with `nanos < 10^9`, so an instant
/// before 1970 has negative `secs` and a non-negative `nanos`.
#[derive(Debug, Clone, Copy, PartialEq, Eq, Structural)]
pub struct UnixTime {
    pub secs: i64,
    pub nanos: u32,
}

/// The instant that a FILETIME value (ticks of 100 ns since 1601-01-01 UTC)
/// denotes: the epoch delta is taken off, then the tick count is split into
/// whole seconds (rounded down) and the remaining ticks as nanoseconds.
pub open spec fn unix_time_of(filetime: int) -> UnixTime {
    let since_unix = filetime - WINDOWS_TO_UNIX_EPOCH_TICKS;
    UnixTime {
        secs: (since_unix / (TICKS_PER_SECOND as int)) as i64,
        nanos: ((since_unix % (TICKS_PER_SECOND as int)) * 100) as u32,
    }
}

/// Converts a FILETIME value to seconds and nanoseconds since the Unix epoch.
pub fn filetime_to_systemtime(filetime: i64) -> (r: UnixTime)
    ensures
        r == unix_time_of(filetime as int),
        r.nanos < 1000000000,
        r.secs as int * 10000000 + r.nanos as int / 100 == filetime as int
            - WINDOWS_TO_UNIX_EPOCH_TICKS,
{
    let d: u64 = TICKS_PER_SECOND;
    let q: i64;
    let rem: u64;
    if filetime >= 0 {
        let u: u64 = filetime as u64;
        q = (u / d) as i64;
        rem = u % d;
        proof {
            vstd::arithmetic::div_mod::lemma_fundamental_div_mod(u as int, d as int);
        }
    } else {
        // -filetime, computed without overflowing at i64::MIN
        let neg: u64 = ((-(filetime + 1)) as u64) + 1;
        let up: u64 = (neg - 1) / d + 1;
        q = -(up as i64);
        rem = up * d - neg;
        proof {
            vstd::arithmetic::div_mod::lemma_fundamental_div_mod((neg - 1) as int, d as int);
        }
    }
    let secs: i64 = q - WINDOWS_TO_UNIX_EPOCH_SECS;
    let nanos: u32 = (rem * 100) as u32;
    proof {
        let ft = filetime as int;
        let dd = TICKS_PER_SECOND as int;
        assert(ft == q as int * dd + rem as int && 0 <= rem < dd);
        vstd::arithmetic::div_mod::lemma_fundamental_div_mod_converse(
            ft - WINDOWS_TO_UNIX_EPOCH_TICKS,
            dd,
            q as int - WINDOWS_TO_UNIX_EPOCH_SECS,
            rem as int,
        );
    }
    UnixTime { secs, nanos }
}

/// Bytes before the name in a name-information buffer: its length field.
pub const NAME_INFO_HEADER_LEN: usize = 4;

/// Size of the first name-information buffer: room for a name of 260 units.
pub const INITIAL_NAME_INFO_LEN: usize = 524;

/// Largest name-information buffer: room for a path of 32767 units, the
/// longest path the file system allows.
pub const MAX_NAME_INFO_LEN: usize = 65538;

/// The size to retry a name lookup with after a buffer of `current` bytes
/// was too small: double it, at least the first size and at most the
/// largest. `None` once the largest size was tried: the lookup gives up.
pub fn grow_name_buffer(current: usize) -> (r: Option<usize>)
    ensures
        current >= MAX_NAME_INFO_LEN ==> r is None,
        current < MAX_NAME_INFO_LEN ==> r == Some(
            if 2 * current > MAX_NAME_INFO_LEN {
                MAX_NAME_INFO_LEN
            } else if 2 * current < INITIAL_NAME_INFO_LEN {
                INITIAL_NAME_INFO_LEN
            } else {
                (2 * current) as usize
            },
        ),
        r matches Some(n) ==> current < n <= MAX_NAME_INFO_LEN,
{
    if current >= MAX_NAME_INFO_LEN {
        None
    } else if current > MAX_NAME_INFO_LEN / 2 {
        Some(MAX_NAME_INFO_LEN)
    } else if 2 * current < INITIAL_NAME_INFO_LEN {
        Some(INITIAL_NAME_INFO_LEN)
    } else {
        Some(2 * current)
    }
}

/// The drive letter `c` in upper case, when it is a lower-case ASCII letter.
pub open spec fn drive_upper(c: u16) -> u16 {
    if 0x61 <= c <= 0x7A {
        (c - 32) as u16
    } else {
        c
    }
}

/// The full path of `sub_path`, a path from the root of the volume of drive
/// `drive_letter`: the upper-cased letter, a colon and the path, with one
/// separator after the colon.
pub open spec fn volume_path_of(drive_letter: u16, sub_path: Seq<u16>) -> Seq<u16> {
    let prefix = seq![drive_upper(drive_letter), 0x3Au16];
    if sub_path.len() > 0 && sub_path[0] == 0x5Cu16 {
        prefix + sub_path
    } else {
        prefix + seq![0x5Cu16] + sub_path
    }
}

/// Builds the full path of `sub_path` on drive `drive_letter`: see
/// `volume_path_of`.
pub fn volume_path(drive_letter: u16, sub_path: &Vec<u16>) -> (r: Vec<u16>)
    ensures
        r@ == volume_path_of(drive_letter, sub_path@),
{
    let mut r: Vec<u16> = Vec::new();
    if 0x61 <= drive_letter && drive_letter <= 0x7A {
        r.push(drive_letter - 32);
    } else {
        r.push(drive_letter);
    }
    r.push(0x3A);
    if sub_path.len() == 0 || sub_path[0] != 0x5C {
        r.push(0x5C);
    }
    let ghost base = r@;
    let mut i: usize = 0;
    while i < sub_path.len()
        invariant
            i <= sub_path@.len(),
            r@ == base + sub_path@.subrange(0, i as int),
        decreases sub_path@.len() - i,
    {
        r.push(sub_path[i]);
        i += 1;
    }
    assert(r@ =~= volume_path_of(drive_letter, sub_path@));
    r
}

/// The name held by a filled name-information buffer: a four-byte length in
/// bytes, then that many bytes of UTF-16 code units. `None` when the buffer
/// is too short for the length it states.
pub fn parse_name_info(info: &[u8]) -> (r: Option<Vec<u16>>)
    ensures
        (info@.len() < NAME_INFO_HEADER_LEN || NAME_INFO_HEADER_LEN + le32(info@, 0) > info@.len())
            ==> r is None,
        (info@.len() >= NAME_INFO_HEADER_LEN && NAME_INFO_HEADER_LEN + le32(info@, 0)
            <= info@.len()) ==> (r matches Some(name) && name@ == utf16_units(
            info@,
            NAME_INFO_HEADER_LEN as int,
            le32(info@, 0) / 2,
        )),
{
    if info.len() < NAME_INFO_HEADER_LEN {
        return None;
    }
    let len = read_u32(info, 0) as usize;
    if len > info.len() - NAME_INFO_HEADER_LEN {
        return None;
    }
    let units: usize = len / 2;
    let mut name: Vec<u16> = Vec::new();
    let mut j: usize = 0;
    while j < units
        invariant
            NAME_INFO_HEADER_LEN + 2 * units <= info.len(),
            j <= units,
            name@ =~= utf16_units(info@, NAME_INFO_HEADER_LEN as int, j as int),
        decreases units - j,
    {
        name.push(read_u16(info, NAME_INFO_HEADER_LEN + 2 * j));
        j += 1;
    }
    Some(name)
}

} // verus!
