//! Parsing tools for Path of Exile game files: the file formats, data tables,
//! CDN bookkeeping and hashing used by the game's virtual file system.
#![allow(unused_imports)]

pub mod arm;
pub mod art;
pub mod bundle;
pub mod bytes;
pub mod file_parsers;
pub mod fs;
pub mod patch;
pub mod text;
pub mod translate;
pub mod utf16;
pub mod dat;
pub mod hasher;
