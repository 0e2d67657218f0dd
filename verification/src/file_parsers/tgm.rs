//! Tile geometry (`.tgm`) files.
use vstd::prelude::*;

verus! {

/// Parser for `.tgm` files.
pub struct TGMParser;

} // verus!
