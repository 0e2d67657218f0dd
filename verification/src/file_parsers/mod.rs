//! Parsers for the game's individual file formats.

pub mod sm;
pub mod smd;
pub mod tdt;
pub mod tgm;
pub mod tgt;
pub mod tmo;
pub mod toy;
pub mod trl;
pub mod tst;
pub mod versioned;
