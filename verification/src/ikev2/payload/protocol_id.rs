//! Security protocol identifiers (RFC 7296 section 3.3.1).

use vstd::prelude::*;

verus! {

/// A notification that concerns no particular security association.
pub const NONE: u8 = 0;

pub const ESP: u8 = 3;

} // verus!
