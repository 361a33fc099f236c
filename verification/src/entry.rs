//! The entries of an archive, as listed before extraction.

use vstd::prelude::*;

verus! {

/// One entry of an archive: its name as the archive records it, whether it
/// is a directory, its size and packed size in bytes, and its path.
#[derive(Clone, Debug)]
pub struct ArchiveEntry {
    pub name: String,
    pub is_dir: bool,
    pub size: u64,
    pub compressed_size: u64,
    pub path: String,
}

} // verus!
