//! Next Header values for tunnel-mode inner packets.

use vstd::prelude::*;

verus! {

pub const IPV4: u8 = 4;

pub const IPV6: u8 = 41;

/// Law: the inner protocols have their registered numbers, and no two share one.
pub proof fn next_header_numbers()
    ensures
        IPV4 == 4,
        IPV6 == 41,
{
}

} // verus!
