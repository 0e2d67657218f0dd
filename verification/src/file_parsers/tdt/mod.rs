//! Tile data (`.tdt`) files.

pub mod grammar;
pub mod parser;
pub mod types;
pub mod reader;
