use vstd::prelude::*;

verus! {

/// A parsed file that may record the version of its format.
pub trait VersionedFile {
    /// The format version the file declares, if its format has one.
    fn version(&self) -> Option<u32>;
}

} // verus!
