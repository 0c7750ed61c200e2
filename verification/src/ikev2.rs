//! IKEv2 (RFC 7296): message framing, the encrypted payload, fragmentation, NAT
//! traversal and CHILD-SA rekey.

pub mod exchange;
pub mod fragment;
pub mod ike_auth;
pub mod message;
pub mod natt;
pub mod payload;
pub mod rekey;
pub mod sa;
pub mod sk;
