//! The message protection and data plane of an IKEv2 endpoint, for both roles:
//! encrypted IKE messages and their fragments, CHILD-SA rekey, NAT traversal, and
//! userspace ESP with AES-256-GCM.
//!
//! Every function states in its contract what it returns, byte for byte; the laws
//! that span several functions (what one side seals the other side opens, fragments
//! reassemble in any order, a rekey leaves both ends with matching associations)
//! are proved beside them. The cipher, the MAC and the hash function come from
//! outside crates, through the trusted functions in [`primitives`].

pub mod addr;
pub mod bytes;
pub mod crypto;
pub mod error;
pub mod esp;
pub mod ikev2;
pub mod primitives;
pub mod role;

pub use crate::crypto::derive_child_keys;
pub use crate::error::IkeError;
pub use crate::esp::{ChildSa, EspSa};
pub use crate::role::Role;
