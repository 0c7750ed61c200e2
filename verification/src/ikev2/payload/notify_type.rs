//! Notify message types (RFC 7296 section 3.10.1).

use vstd::prelude::*;

verus! {

pub const NAT_DETECTION_SOURCE_IP: u16 = 16388;

pub const NAT_DETECTION_DESTINATION_IP: u16 = 16389;

pub const REKEY_SA: u16 = 16393;

} // verus!
