//! Tile material override (`.tmo`) files.
use vstd::prelude::*;
use super::versioned::VersionedFile;

verus! {

/// Parser for `.tmo` files (UTF-16 text with a byte order mark).
pub struct TMOParser;

/// A material replaced by another.
pub struct Override {
    pub from: String,
    pub to: String,
}

/// A parsed `.tmo` file.
pub struct TMOFile {
    pub version: u32,
    pub overrides: Vec<Override>,
}

impl VersionedFile for TMOFile {
    fn version(&self) -> (r: Option<u32>)
        ensures
            r == Some(self.version),
    {
        Some(self.version)
    }
}

} // verus!
