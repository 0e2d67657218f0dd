use vstd::prelude::*;
use crate::file_parsers::versioned::VersionedFile;
use super::grammar::{failure_version, sp_tdt_file, Step};
use super::parser::{parse_tdt_bytes, TdtError};
use super::types::{TDTFile, TDTFileModel};

verus! {

/// Parser for `.tdt` files.
pub struct TDTParser;

impl TDTParser {
    /// Parses the bytes of a `.tdt` file.
    pub fn parse(&self, bytes: &[u8]) -> (r: Result<TDTFile, TdtError>)
        requires
            !(sp_tdt_file(bytes@) is Abort),
        ensures
            match r {
                Ok(f) => sp_tdt_file(bytes@) == Step::Done(f.deep_view(), bytes@.len() as int),
                Err(e) => sp_tdt_file(bytes@) == Step::<TDTFileModel>::Fail(e.kind) && e.version
                    == failure_version(bytes@),
            },
    {
        parse_tdt_bytes(bytes)
    }
}

impl VersionedFile for TDTFile {
    fn version(&self) -> (r: Option<u32>)
        ensures
            r == Some(self.version),
    {
        Some(self.version)
    }
}

} // verus!
