//! Skinned mesh data (`.smd`) files.
use vstd::prelude::*;

verus! {

/// Parser for `.smd` files.
pub struct SMDParser;

} // verus!
