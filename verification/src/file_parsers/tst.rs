//! Tile set (`.tst`) files.
use vstd::prelude::*;
use super::versioned::VersionedFile;

verus! {

/// Parser for `.tst` files (UTF-16 text, with or without a byte order mark).
pub struct TSTParser;

/// A tile of the set.
pub struct Entry {
    pub weight: Option<u32>,
    pub tdt_file: String,
    pub rotations: Vec<String>,
}

/// A parsed `.tst` file.
pub struct TSTFile {
    pub includes: Vec<String>,
    pub tdt_files: Vec<Entry>,
}

impl VersionedFile for TSTFile {
    /// Tile sets carry no version.
    fn version(&self) -> (r: Option<u32>)
        ensures
            r == None::<u32>,
    {
        None
    }
}

} // verus!
