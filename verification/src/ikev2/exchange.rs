//! What an `IKE_SA_INIT` exchange leaves behind.

use vstd::prelude::*;

use crate::role::{peer_of, Role};

verus! {

/// The keys of an IKE SA that protect and derive its later exchanges.
pub struct SessionKeys {
    /// Derives the keys of CHILD SAs.
    pub sk_d: Vec<u8>,
    /// Encrypts what the original initiator sends.
    pub sk_ei: Vec<u8>,
    /// Encrypts what the original responder sends.
    pub sk_er: Vec<u8>,
}

/// An established IKE SA, as one endpoint holds it.
pub struct CompletedSaInit {
    /// Our side of the `IKE_SA_INIT` exchange.
    pub role: Role,
    pub spi_i: u64,
    pub spi_r: u64,
    pub keys: SessionKeys,
}

/// An established IKE SA, its keys taken by their views.
#[verifier::ext_equal]
pub struct SaState {
    pub role: Role,
    pub spi_i: u64,
    pub spi_r: u64,
    pub sk_d: Seq<u8>,
    pub sk_ei: Seq<u8>,
    pub sk_er: Seq<u8>,
}

impl View for CompletedSaInit {
    type V = SaState;

    open spec fn view(&self) -> SaState {
        SaState {
            role: self.role,
            spi_i: self.spi_i,
            spi_r: self.spi_r,
            sk_d: self.keys.sk_d@,
            sk_ei: self.keys.sk_ei@,
            sk_er: self.keys.sk_er@,
        }
    }
}

/// The key that encrypts what we send.
pub open spec fn our_key(sa: SaState) -> Seq<u8> {
    match sa.role {
        Role::Initiator => sa.sk_ei,
        Role::Responder => sa.sk_er,
    }
}

/// The key that encrypts what the peer sends.
pub open spec fn peer_key(sa: SaState) -> Seq<u8> {
    match sa.role {
        Role::Initiator => sa.sk_er,
        Role::Responder => sa.sk_ei,
    }
}

/// `a` and `b` are the two ends of one IKE SA.
pub open spec fn sa_ends(a: SaState, b: SaState) -> bool {
    b == (SaState { role: peer_of(a.role), ..a })
}

/// Law: what one end of an IKE SA encrypts with, the other decrypts with.
pub proof fn ends_share_keys(a: SaState, b: SaState)
    requires
        sa_ends(a, b),
    ensures
        our_key(a) == peer_key(b),
        peer_key(a) == our_key(b),
        sa_ends(b, a),
{
}

/// Law: the original initiator sends under `SK_ei` and the original responder under
/// `SK_er`, and each reads what the other sends.
pub proof fn keys_go_with_their_sender(sa: SaState)
    ensures
        sa.role == Role::Initiator ==> our_key(sa) == sa.sk_ei && peer_key(sa) == sa.sk_er,
        sa.role == Role::Responder ==> our_key(sa) == sa.sk_er && peer_key(sa) == sa.sk_ei,
{
}

/// Law: taking an IKE SA by its view keeps role, SPIs and each key under its name.
pub proof fn sa_view(sa: CompletedSaInit)
    ensures
        sa@.role == sa.role,
        sa@.spi_i == sa.spi_i,
        sa@.spi_r == sa.spi_r,
        sa@.sk_d == sa.keys.sk_d@,
        sa@.sk_ei == sa.keys.sk_ei@,
        sa@.sk_er == sa.keys.sk_er@,
{
}

/// Law: two IKE SAs are the ends of one exactly if they agree in SPIs and keys and
/// have opposite roles.
pub proof fn ends_agree_but_in_role(a: SaState, b: SaState)
    ensures
        sa_ends(a, b) <==> {
            &&& a.spi_i == b.spi_i && a.spi_r == b.spi_r
            &&& a.sk_d == b.sk_d && a.sk_ei == b.sk_ei && a.sk_er == b.sk_er
            &&& (a.role == Role::Initiator) != (b.role == Role::Initiator)
        },
{
}

} // verus!
