use vstd::prelude::*;

use crate::usn_entry::{UsnEntry, FILE_ATTRIBUTE_DIRECTORY};

verus! {

/// Whether a listing leaves `entry` out: directories when only files are
/// wanted, files when only directories are wanted, and entries whose name
/// the name pattern, if there is one, did not match (`name_matches` is the
/// pattern's verdict on the entry's name, or `None` without a pattern).
pub fn should_skip_entry(
    entry: &UsnEntry,
    file_only: bool,
    directory_only: bool,
    name_matches: Option<bool>,
) -> (r: bool)
    ensures
        r == ((file_only && entry.file_attributes & FILE_ATTRIBUTE_DIRECTORY != 0) || (
        directory_only && entry.file_attributes & FILE_ATTRIBUTE_DIRECTORY == 0) || name_matches
            == Some(false)),
{
    let is_dir = entry.is_dir();
    if file_only && is_dir {
        return true;
    }
    if directory_only && !is_dir {
        return true;
    }
    match name_matches {
        Some(false) => true,
        _ => false,
    }
}

} // verus!
