//! Trail (`.trl`) files.
use vstd::prelude::*;

verus! {

/// Parser for `.trl` files.
pub struct TRLParser;

} // verus!
