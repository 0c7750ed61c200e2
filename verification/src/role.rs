//! The role an endpoint plays in an IKEv2 exchange.
//!
//! IKEv2 is peer-to-peer at the protocol level, but deployments split into a
//! client that starts exchanges and a server that answers them. Both sides are
//! implemented, so the role is an explicit value.

use vstd::prelude::*;

verus! {

/// Which side of an IKEv2 exchange this endpoint plays.
#[derive(Debug, Clone, Copy, PartialEq, Eq, Structural)]
pub enum Role {
    /// The client: originates an exchange (sends the first `IKE_SA_INIT`).
    Initiator,
    /// The server: answers exchanges started by an initiator.
    Responder,
}

/// The other side of the exchange.
pub open spec fn peer_of(role: Role) -> Role {
    match role {
        Role::Initiator => Role::Responder,
        Role::Responder => Role::Initiator,
    }
}

impl Role {
    pub fn is_initiator(self) -> (r: bool)
        ensures
            r == (self == Role::Initiator),
    {
        matches!(self, Role::Initiator)
    }

    pub fn is_responder(self) -> (r: bool)
        ensures
            r == (self == Role::Responder),
    {
        matches!(self, Role::Responder)
    }

    /// The peer's role: the other side of the exchange.
    pub fn peer(self) -> (r: Role)
        ensures
            r == peer_of(self),
    {
        match self {
            Role::Initiator => Role::Responder,
            Role::Responder => Role::Initiator,
        }
    }

    /// Value of the IKE header's Initiator (I) flag for messages we originate:
    /// set only by the original initiator (RFC 7296 section 3.1).
    pub fn header_initiator_flag(self) -> (r: bool)
        ensures
            r == (self == Role::Initiator),
    {
        self.is_initiator()
    }
}

/// Law: the two roles face each other. The peer's peer is the role itself, no
/// role is its own peer, and exactly one of the two sides is the initiator.
pub proof fn roles_face_each_other(role: Role)
    ensures
        peer_of(peer_of(role)) == role,
        peer_of(role) != role,
        (role == Role::Initiator) != (peer_of(role) == Role::Initiator),
        (role == Role::Responder) != (peer_of(role) == Role::Responder),
{
}

} // verus!
