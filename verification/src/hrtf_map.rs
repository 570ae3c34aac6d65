use vstd::prelude::*;

verus! {

/// Oldest HRTF data format version that can be loaded.
pub const MIN_FILE_FORMAT_VERSION: i32 = 0;

/// Newest HRTF data format version that can be loaded.
pub const MAX_FILE_FORMAT_VERSION: i32 = 1;

/// Whether HRTF data of format version `version` can be loaded.
pub fn is_supported_version(version: i32) -> (supported: bool)
    ensures
        supported == (MIN_FILE_FORMAT_VERSION <= version <= MAX_FILE_FORMAT_VERSION),
{
    !(version < MIN_FILE_FORMAT_VERSION || MAX_FILE_FORMAT_VERSION < version)
}

} // verus!
