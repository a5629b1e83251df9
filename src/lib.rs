//! Decoding of NTFS change-journal records, the paged cursors that walk the
//! live journal and the file table, and an LRU cache that turns file ids into
//! full paths.
use vstd::prelude::*;

pub mod cursor;
pub mod filter;
pub mod mft;
pub mod path_resolver;
pub mod usn_entry;
pub mod usn_journal;
pub mod utils;

verus! {

/// A position in the change journal.
pub type Usn = i64;

/// Size in bytes of the buffer that a cursor fills on each fetch.
pub const DEFAULT_BUFFER_SIZE: usize = 65536;

/// Largest journal size asked for when a journal is created.
pub const DEFAULT_JOURNAL_MAX_SIZE: u64 = 33554432;

/// Allocation step asked for when a journal is created.
pub const DEFAULT_JOURNAL_ALLOCATION_DELTA: u64 = 8388608;

/// Every change reason bit set: the live cursor reports all kinds of change.
pub const USN_REASON_MASK_ALL: u32 = 0xFFFF_FFFF;

} // verus!
