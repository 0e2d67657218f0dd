//! `.toy` files.
use vstd::prelude::*;

verus! {

/// Parser for `.toy` files (UTF-16 text with a byte order mark).
pub struct TOYParser;

} // verus!
