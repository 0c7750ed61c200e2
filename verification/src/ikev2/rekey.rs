//! CHILD SA rekey with the `CREATE_CHILD_SA` exchange (RFC 7296 sections 1.3.1 and
//! 2.8), without a new key exchange.
//!
//! ```text
//! Initiator -> SK { N(REKEY_SA, old_spi), SA(new_spi), Ni, TSi, TSr }
//! Responder -> SK { SA(new_spi), Nr, TSi, TSr }
//! ```
//!
//! The new CHILD-SA keys come from `prf+(SK_d, Ni | Nr)` with the nonces of this
//! exchange. Both sides end up with matching ESP security associations on freshly
//! chosen SPIs.

use vstd::prelude::*;
use vstd::slice::slice_to_vec;

use crate::addr::Ipv4Addr;
use crate::bytes::{be16, be32, be32_roundtrip, be64, read_u32, u32_at, u32_to_be};
use crate::bytes::{read_in_network_order, written_in_network_order};
use crate::crypto::{prf_admits, prf_plus_bytes};
use crate::error::{bytes_result, IkeError};
use crate::esp::{both_ends_match, child_derived, children_match, directions_have_their_own_keys, keys_complete};
use crate::esp::{ChildSa, ChildState};
use crate::ikev2::exchange::{ends_share_keys, keys_go_with_their_sender, our_key, peer_key, sa_ends, CompletedSaInit, SaState};
use crate::ikev2::ike_auth::{esp_offer, esp_offer_model, offer_layout, offer_length, offer_survives_the_wire};
use crate::ikev2::message::{
    canonical_type, chain_bytes, chain_of, chain_parts_fit, chain_representable,
    chain_survives_the_wire,
};
use crate::ikev2::message::{
    first_type, header_bytes, header_of, header_survives_the_wire, last_of_type, parsed_chain,
    parsed_header,
};
use crate::ikev2::message::{
    exchange_numbers, header_reading, last_payload_counts, last_stands_at, payload_code,
    payload_codes_are_faithful, payload_numbers, received_bodies_are_short, PayloadModel,
};
use crate::ikev2::message::{encode_payload_chain, find_last, first_payload_type, payloads};
use crate::ikev2::message::{ExchangeType, Flags, IkeHeader, PayloadType, GENERIC_HEADER_LEN};
use crate::ikev2::payload::notify_type;
use crate::ikev2::payload::{notify_bytes, single_range_ts, single_selector, NotifyModel};
use crate::ikev2::payload::{Notify, SecurityAssociation, TrafficSelector, TrafficSelectors};
use crate::ikev2::payload::protocol_id;
use crate::ikev2::sa::{parsed_proposals, proposal_reading, proposal_representable, proposals_survive_the_wire};
use crate::ikev2::sa::{sa_bytes, ProposalModel};
use crate::ikev2::sk::{build_encrypted_gcm, open_encrypted_gcm};
use crate::ikev2::sk::{built_message_layout, sk_build, sk_header, sk_open, SK_MAX_INNER};
use crate::primitives::aes256_gcm_sealed;
use crate::role::Role;

verus! {

/// The key that encrypts what we send.
pub fn our_sk_e(sa: &CompletedSaInit) -> (r: &[u8])
    ensures
        r@ == our_key(sa@),
{
    match sa.role {
        Role::Initiator => &sa.keys.sk_ei,
        Role::Responder => &sa.keys.sk_er,
    }
}

/// The key that encrypts what the peer sends.
pub fn peer_sk_e(sa: &CompletedSaInit) -> (r: &[u8])
    ensures
        r@ == peer_key(sa@),
{
    match sa.role {
        Role::Initiator => &sa.keys.sk_er,
        Role::Responder => &sa.keys.sk_ei,
    }
}

/// The Traffic Selector body that selects all IPv4 traffic.
pub open spec fn full_ts() -> Seq<u8> {
    single_range_ts(seq![0u8, 0, 0, 0], seq![255u8, 255, 255, 255])
}

/// The Traffic Selector body that selects the traffic of one host.
pub open spec fn host_ts(ip: Ipv4Addr) -> Seq<u8> {
    single_range_ts(ip.octets@, ip.octets@)
}

/// The Traffic Selector body that selects all IPv4 traffic.
pub fn full_tunnel_ts() -> (r: Vec<u8>)
    ensures
        r@ == full_ts(),
{
    let any = TrafficSelector::ipv4_any();
    let mut selectors: Vec<TrafficSelector> = Vec::new();
    selectors.push(any);
    proof {
        single_selector(selectors@, seq![0u8, 0, 0, 0], seq![255u8, 255, 255, 255]);
    }
    TrafficSelectors { selectors }.to_bytes()
}

/// The Traffic Selector body that selects the traffic of one host.
pub fn host_tunnel_ts(ip: Ipv4Addr) -> (r: Vec<u8>)
    ensures
        r@ == host_ts(ip),
{
    let host = TrafficSelector::ipv4_host(ip);
    let mut selectors: Vec<TrafficSelector> = Vec::new();
    selectors.push(host);
    proof {
        single_selector(selectors@, ip.octets@, ip.octets@);
    }
    TrafficSelectors { selectors }.to_bytes()
}

/// The header of a `CREATE_CHILD_SA` message; Next Payload and length are set when
/// the message is encrypted.
pub open spec fn child_header(sa: SaState, message_id: u32, is_response: bool) -> IkeHeader {
    IkeHeader {
        initiator_spi: sa.spi_i,
        responder_spi: sa.spi_r,
        next_payload: PayloadType::NoNext,
        major_version: 2,
        minor_version: 0,
        exchange_type: ExchangeType::CreateChildSa,
        flags: Flags { initiator: sa.role == Role::Initiator, version: false, response: is_response },
        message_id,
        length: 0,
    }
}

/// The header of a `CREATE_CHILD_SA` message.
pub fn create_child_header(sa: &CompletedSaInit, message_id: u32, is_response: bool) -> (r: IkeHeader)
    ensures
        r == child_header(sa@, message_id, is_response),
{
    IkeHeader {
        initiator_spi: sa.spi_i,
        responder_spi: sa.spi_r,
        next_payload: PayloadType::NoNext,
        major_version: 2,
        minor_version: 0,
        exchange_type: ExchangeType::CreateChildSa,
        flags: Flags { initiator: sa.role == Role::Initiator, version: false, response: is_response },
        message_id,
        length: 0,
    }
}

/// The ESP SPI that a Security Association body proposes: that of its first
/// proposal.
pub open spec fn offered_spi(body: Seq<u8>) -> Result<u32, IkeError> {
    match parsed_proposals(body) {
        Err(e) => Err(e),
        Ok(list) => if list.len() == 0 {
            Err(IkeError::NoProposalChosen)
        } else if list[0].spi.len() != 4 {
            Err(IkeError::Crypto("expected a 4-byte ESP SPI"))
        } else {
            Ok(u32_at(list[0].spi, 0))
        },
    }
}

/// The ESP SPI a peer proposed in its SA payload.
pub fn esp_spi_from_sa(sa_body: &[u8]) -> (r: Result<u32, IkeError>)
    ensures
        r == offered_spi(sa_body@),
{
    let sa = SecurityAssociation::parse(sa_body)?;
    if sa.proposals.len() == 0 {
        return Err(IkeError::NoProposalChosen);
    }
    let spi: &Vec<u8> = &sa.proposals[0].spi;
    assert(sa@[0].spi == spi@);
    if spi.len() != 4 {
        return Err(IkeError::Crypto("expected a 4-byte ESP SPI"));
    }
    Ok(read_u32(spi, 0))
}

/// Law: a peer reads from an ESP offer the SPI that it was made with.
pub proof fn offered_spi_is_read_back(spi: u32)
    ensures
        offered_spi(sa_bytes(esp_offer_model(spi))) == Ok::<u32, IkeError>(spi),
{
    offer_survives_the_wire(spi);
    be32_roundtrip(spi);
}

/// Security Association and Nonce bodies of a decrypted `CREATE_CHILD_SA` chain.
pub open spec fn sa_and_nonce(first: PayloadType, inner: Seq<u8>) -> Result<(Seq<u8>, Seq<u8>), IkeError> {
    match parsed_chain(first, inner) {
        Err(e) => Err(e),
        Ok(chain) => match last_of_type(chain, PayloadType::SecurityAssociation) {
            None => Err(IkeError::MissingPayload("SA")),
            Some(sa) => match last_of_type(chain, PayloadType::Nonce) {
                None => Err(IkeError::MissingPayload("Nonce")),
                Some(nonce) => Ok((sa, nonce)),
            },
        },
    }
}

/// Extracts the Security Association and Nonce bodies from a decrypted
/// `CREATE_CHILD_SA` message. Of several, the last counts.
pub fn find_sa_and_nonce(first: PayloadType, inner: &[u8]) -> (r: Result<(Vec<u8>, Vec<u8>), IkeError>)
    ensures
        r matches Ok((sa, nonce)) ==> sa_and_nonce(first, inner@) == Ok::<(Seq<u8>, Seq<u8>), IkeError>((sa@, nonce@)),
        r matches Err(e) ==> sa_and_nonce(first, inner@) == Err::<(Seq<u8>, Seq<u8>), IkeError>(e),
        r matches Ok((sa, nonce)) ==> nonce@.len() <= 0xffff,
{
    let list = payloads(first, inner)?;
    proof {
        received_bodies_are_short(first, inner@, PayloadType::Nonce);
    }
    match (find_last(&list, PayloadType::SecurityAssociation), find_last(&list, PayloadType::Nonce)) {
        (None, _) => Err(IkeError::MissingPayload("SA")),
        (_, None) => Err(IkeError::MissingPayload("Nonce")),
        (Some(sa), Some(nonce)) => Ok((slice_to_vec(sa), slice_to_vec(nonce))),
    }
}

/// The payloads of a rekey request.
pub open spec fn request_chain(rekeyed_spi: u32, new_spi: u32, ni: Seq<u8>) -> Seq<PayloadModel> {
    seq![
        (
            PayloadType::Notify,
            notify_bytes(
                NotifyModel {
                    protocol_id: protocol_id::ESP,
                    spi: be32(rekeyed_spi),
                    notify_type: notify_type::REKEY_SA,
                    data: Seq::empty(),
                },
            ),
        ),
        (PayloadType::SecurityAssociation, sa_bytes(esp_offer_model(new_spi))),
        (PayloadType::Nonce, ni),
        (PayloadType::TrafficSelectorInitiator, full_ts()),
        (PayloadType::TrafficSelectorResponder, full_ts()),
    ]
}

/// `request` opens, under the key of its sender `sa`, to a chain that offers an ESP
/// association on `new_spi` and brings the nonce `ni`.
pub open spec fn carries_rekey(sa: SaState, request: Seq<u8>, new_spi: u32, ni: Seq<u8>) -> bool {
    sk_open(request, our_key(sa)) matches Ok((first, inner)) && sa_and_nonce(first, inner) matches Ok(
        (sa_body, nonce),
    ) && nonce == ni && offered_spi(sa_body) == Ok::<u32, IkeError>(new_spi)
}

/// The payloads of the response.
pub open spec fn reply_chain(new_spi: u32, nr: Seq<u8>, tsi: Seq<u8>, tsr: Seq<u8>) -> Seq<PayloadModel> {
    seq![
        (PayloadType::SecurityAssociation, sa_bytes(esp_offer_model(new_spi))),
        (PayloadType::Nonce, nr),
        (PayloadType::TrafficSelectorInitiator, tsi),
        (PayloadType::TrafficSelectorResponder, tsr),
    ]
}

/// A chain that fits an SK payload fits the generic payload format.
proof fn small_chain_is_representable(chain: Seq<PayloadModel>)
    requires
        chain_bytes(chain).len() <= SK_MAX_INNER,
        forall|i: int| 0 <= i < chain.len() ==> (#[trigger] chain[i]).0 !is Unknown && chain[i].0 !is NoNext,
    ensures
        chain_representable(chain),
{
    assert forall|i: int| 0 <= i < chain.len() implies {
        &&& canonical_type((#[trigger] chain[i]).0)
        &&& chain[i].0 != PayloadType::NoNext
        &&& chain[i].1.len() + GENERIC_HEADER_LEN <= 0xffff
    } by {
        chain_parts_fit(chain, i);
        payload_codes_are_faithful(0, chain[i].0);
    }
}

/// A chain that fits an SK payload is read back, and with it the Security
/// Association at `at_sa` and the Nonce at `at_nonce`, if they are the last ones.
proof fn small_chain_is_read_back(chain: Seq<PayloadModel>, at_sa: int, at_nonce: int)
    requires
        chain_bytes(chain).len() <= SK_MAX_INNER,
        forall|i: int| 0 <= i < chain.len() ==> (#[trigger] chain[i]).0 !is Unknown && chain[i].0 !is NoNext,
        0 <= at_sa < chain.len(),
        0 <= at_nonce < chain.len(),
        chain[at_sa].0 == PayloadType::SecurityAssociation,
        chain[at_nonce].0 == PayloadType::Nonce,
        forall|i: int| at_sa < i < chain.len() ==> (#[trigger] chain[i]).0 != PayloadType::SecurityAssociation,
        forall|i: int| at_nonce < i < chain.len() ==> (#[trigger] chain[i]).0 != PayloadType::Nonce,
    ensures
        parsed_chain(first_type(chain), chain_bytes(chain)) == Ok::<Seq<PayloadModel>, IkeError>(chain),
        sa_and_nonce(first_type(chain), chain_bytes(chain)) == Ok::<(Seq<u8>, Seq<u8>), IkeError>(
            (chain[at_sa].1, chain[at_nonce].1),
        ),
{
    small_chain_is_representable(chain);
    chain_survives_the_wire(chain, Seq::empty());
    assert(chain_bytes(chain) + Seq::<u8>::empty() =~= chain_bytes(chain));
    last_stands_at(chain, at_sa);
    last_stands_at(chain, at_nonce);
}

/// What the reader of a request gets from its chain, whatever the bodies are.
proof fn request_shape(notify: Seq<u8>, offer: Seq<u8>, ni: Seq<u8>, tsi: Seq<u8>, tsr: Seq<u8>)
    ensures
        ({
            let chain = seq![
                (PayloadType::Notify, notify),
                (PayloadType::SecurityAssociation, offer),
                (PayloadType::Nonce, ni),
                (PayloadType::TrafficSelectorInitiator, tsi),
                (PayloadType::TrafficSelectorResponder, tsr),
            ];
            &&& chain_bytes(chain).len() == notify.len() + offer.len() + ni.len() + tsi.len() + tsr.len() + 20
            &&& last_of_type(chain, PayloadType::TrafficSelectorInitiator) == Some(tsi)
            &&& last_of_type(chain, PayloadType::TrafficSelectorResponder) == Some(tsr)
            &&& chain_bytes(chain).len() <= SK_MAX_INNER ==> {
                &&& parsed_chain(PayloadType::Notify, chain_bytes(chain)) == Ok::<Seq<PayloadModel>, IkeError>(chain)
                &&& sa_and_nonce(PayloadType::Notify, chain_bytes(chain)) == Ok::<(Seq<u8>, Seq<u8>), IkeError>(
                    (offer, ni),
                )
            }
        }),
{
    let chain = seq![
        (PayloadType::Notify, notify),
        (PayloadType::SecurityAssociation, offer),
        (PayloadType::Nonce, ni),
        (PayloadType::TrafficSelectorInitiator, tsi),
        (PayloadType::TrafficSelectorResponder, tsr),
    ];
    assert(chain_bytes(chain).len() == notify.len() + offer.len() + ni.len() + tsi.len() + tsr.len() + 20) by {
        reveal_with_fuel(chain_bytes, 6);
    }
    last_stands_at(chain, 3);
    last_stands_at(chain, 4);
    if chain_bytes(chain).len() <= SK_MAX_INNER {
        small_chain_is_read_back(chain, 1, 2);
    }
}

/// What the reader of a reply gets from its chain, whatever the bodies are.
proof fn reply_shape(offer: Seq<u8>, nr: Seq<u8>, tsi: Seq<u8>, tsr: Seq<u8>)
    ensures
        ({
            let chain = seq![
                (PayloadType::SecurityAssociation, offer),
                (PayloadType::Nonce, nr),
                (PayloadType::TrafficSelectorInitiator, tsi),
                (PayloadType::TrafficSelectorResponder, tsr),
            ];
            &&& chain_bytes(chain).len() == offer.len() + nr.len() + tsi.len() + tsr.len() + 16
            &&& last_of_type(chain, PayloadType::TrafficSelectorInitiator) == Some(tsi)
            &&& last_of_type(chain, PayloadType::TrafficSelectorResponder) == Some(tsr)
            &&& chain_bytes(chain).len() <= SK_MAX_INNER ==> {
                &&& parsed_chain(PayloadType::SecurityAssociation, chain_bytes(chain)) == Ok::<
                    Seq<PayloadModel>,
                    IkeError,
                >(chain)
                &&& sa_and_nonce(PayloadType::SecurityAssociation, chain_bytes(chain)) == Ok::<
                    (Seq<u8>, Seq<u8>),
                    IkeError,
                >((offer, nr))
            }
        }),
{
    let chain = seq![
        (PayloadType::SecurityAssociation, offer),
        (PayloadType::Nonce, nr),
        (PayloadType::TrafficSelectorInitiator, tsi),
        (PayloadType::TrafficSelectorResponder, tsr),
    ];
    assert(chain_bytes(chain).len() == offer.len() + nr.len() + tsi.len() + tsr.len() + 16) by {
        reveal_with_fuel(chain_bytes, 5);
    }
    last_stands_at(chain, 2);
    last_stands_at(chain, 3);
    if chain_bytes(chain).len() <= SK_MAX_INNER {
        small_chain_is_read_back(chain, 0, 1);
    }
}

/// Law: how long a request is. One with a nonce of up to 65406 bytes fits one SK
/// payload.
pub proof fn request_length(rekeyed_spi: u32, new_spi: u32, ni: Seq<u8>)
    ensures
        chain_bytes(request_chain(rekeyed_spi, new_spi, ni)).len() == ni.len() + 100,
{
    let chain = request_chain(rekeyed_spi, new_spi, ni);
    request_shape(chain[0].1, chain[1].1, ni, chain[3].1, chain[4].1);
    offer_length(new_spi);
}

/// Law: how long a reply is, apart from its nonce and its selectors.
pub proof fn reply_length(new_spi: u32, nr: Seq<u8>, tsi: Seq<u8>, tsr: Seq<u8>)
    ensures
        chain_bytes(reply_chain(new_spi, nr, tsi, tsr)).len() == nr.len() + tsi.len() + tsr.len() + 48,
{
    reply_shape(sa_bytes(esp_offer_model(new_spi)), nr, tsi, tsr);
    offer_length(new_spi);
}

/// Law: from the bytes of a rekey request its reader gets the payloads, and with
/// them the offered SPI and the nonce.
pub proof fn request_is_read_back(rekeyed_spi: u32, new_spi: u32, ni: Seq<u8>)
    requires
        chain_bytes(request_chain(rekeyed_spi, new_spi, ni)).len() <= SK_MAX_INNER,
    ensures
        ({
            let chain = request_chain(rekeyed_spi, new_spi, ni);
            &&& parsed_chain(PayloadType::Notify, chain_bytes(chain)) == Ok::<Seq<PayloadModel>, IkeError>(chain)
            &&& sa_and_nonce(PayloadType::Notify, chain_bytes(chain)) == Ok::<(Seq<u8>, Seq<u8>), IkeError>(
                (sa_bytes(esp_offer_model(new_spi)), ni),
            )
            &&& offered_spi(sa_bytes(esp_offer_model(new_spi))) == Ok::<u32, IkeError>(new_spi)
        }),
{
    let chain = request_chain(rekeyed_spi, new_spi, ni);
    request_shape(chain[0].1, chain[1].1, ni, chain[3].1, chain[4].1);
    offered_spi_is_read_back(new_spi);
}

/// Law: from the bytes of a reply its reader gets the payloads, and with them the
/// offered SPI, the nonce and the selectors.
pub proof fn reply_is_read_back(new_spi: u32, nr: Seq<u8>, tsi: Seq<u8>, tsr: Seq<u8>)
    requires
        chain_bytes(reply_chain(new_spi, nr, tsi, tsr)).len() <= SK_MAX_INNER,
    ensures
        ({
            let chain = reply_chain(new_spi, nr, tsi, tsr);
            &&& parsed_chain(PayloadType::SecurityAssociation, chain_bytes(chain)) == Ok::<
                Seq<PayloadModel>,
                IkeError,
            >(chain)
            &&& sa_and_nonce(PayloadType::SecurityAssociation, chain_bytes(chain)) == Ok::<
                (Seq<u8>, Seq<u8>),
                IkeError,
            >((sa_bytes(esp_offer_model(new_spi)), nr))
            &&& offered_spi(sa_bytes(esp_offer_model(new_spi))) == Ok::<u32, IkeError>(new_spi)
            &&& last_of_type(chain, PayloadType::TrafficSelectorInitiator) == Some(tsi)
            &&& last_of_type(chain, PayloadType::TrafficSelectorResponder) == Some(tsr)
        }),
{
    reply_shape(sa_bytes(esp_offer_model(new_spi)), nr, tsi, tsr);
    offered_spi_is_read_back(new_spi);
}

/// Initiator: builds a CHILD-SA rekey request for the CHILD SA `rekeyed_spi`,
/// proposing a new one on `new_spi` with the fresh nonce `ni`.
///
/// The peer that opens the request finds its payloads in it, as long as they fit
/// one SK payload.
pub fn build_rekey_request(
    sa: &CompletedSaInit,
    message_id: u32,
    rekeyed_spi: u32,
    new_spi: u32,
    ni: &[u8],
    iv: &[u8; 8],
) -> (r: Result<Vec<u8>, IkeError>)
    ensures
        bytes_result(r) == sk_build(
            child_header(sa@, message_id, false),
            PayloadType::Notify,
            chain_bytes(request_chain(rekeyed_spi, new_spi, ni@)),
            our_key(sa@),
            iv@,
        ),
        r matches Ok(request) ==> chain_bytes(request_chain(rekeyed_spi, new_spi, ni@)).len() <= SK_MAX_INNER ==> sk_open(
            request@,
            our_key(sa@),
        ) == Ok::<(PayloadType, Seq<u8>), IkeError>(
            (PayloadType::Notify, chain_bytes(request_chain(rekeyed_spi, new_spi, ni@))),
        ),
        r matches Ok(request) ==> chain_bytes(request_chain(rekeyed_spi, new_spi, ni@)).len() <= SK_MAX_INNER
            ==> carries_rekey(sa@, request@, new_spi, ni@),
{
    let old_spi = u32_to_be(rekeyed_spi);
    let rekey_notify = Notify {
        protocol_id: protocol_id::ESP,
        spi: slice_to_vec(&old_spi),
        notify_type: notify_type::REKEY_SA,
        data: Vec::new(),
    };
    let mut inner: Vec<(PayloadType, Vec<u8>)> = Vec::new();
    inner.push((PayloadType::Notify, rekey_notify.to_bytes()));
    inner.push((PayloadType::SecurityAssociation, esp_offer(new_spi).to_bytes()));
    inner.push((PayloadType::Nonce, slice_to_vec(ni)));
    inner.push((PayloadType::TrafficSelectorInitiator, full_tunnel_ts()));
    inner.push((PayloadType::TrafficSelectorResponder, full_tunnel_ts()));
    let ghost chain = request_chain(rekeyed_spi, new_spi, ni@);
    proof {
        assert(rekey_notify@ =~= NotifyModel {
            protocol_id: protocol_id::ESP,
            spi: be32(rekeyed_spi),
            notify_type: notify_type::REKEY_SA,
            data: Seq::empty(),
        });
        assert(chain_of(inner@) =~= chain);
        if chain_bytes(chain).len() <= SK_MAX_INNER {
            request_is_read_back(rekeyed_spi, new_spi, ni@);
        }
    }
    let header = create_child_header(sa, message_id, false);
    let first = first_payload_type(&inner);
    let bytes = encode_payload_chain(&inner);
    build_encrypted_gcm(header, first, &bytes, our_sk_e(sa), iv)
}

/// Traffic selectors of the response. With an assigned address the initiator's
/// side is narrowed to that host and the responder's side is everything, as when
/// the tunnel was set up; without one, what the initiator proposed is echoed, and
/// everything stands for what it left out.
pub open spec fn reply_selectors(
    chain: Seq<PayloadModel>,
    assigned_ip: Option<Ipv4Addr>,
) -> (Seq<u8>, Seq<u8>) {
    match assigned_ip {
        Some(ip) => (host_ts(ip), full_ts()),
        None => (
            match last_of_type(chain, PayloadType::TrafficSelectorInitiator) {
                Some(tsi) => tsi,
                None => full_ts(),
            },
            match last_of_type(chain, PayloadType::TrafficSelectorResponder) {
                Some(tsr) => tsr,
                None => full_ts(),
            },
        ),
    }
}

/// What the responder makes of a decrypted request: the payload chain of its
/// response, and its end of the new CHILD SA.
pub open spec fn rekey_reply(
    sa: SaState,
    first: PayloadType,
    inner: Seq<u8>,
    new_spi: u32,
    nr: Seq<u8>,
    assigned_ip: Option<Ipv4Addr>,
) -> Result<(Seq<u8>, ChildState), IkeError> {
    match sa_and_nonce(first, inner) {
        Err(e) => Err(e),
        Ok((sa_body, ni)) => match offered_spi(sa_body) {
            Err(e) => Err(e),
            Ok(peer_spi) => {
                let (tsi, tsr) = reply_selectors(parsed_chain(first, inner)->Ok_0, assigned_ip);
                Ok(
                    (
                        chain_bytes(reply_chain(new_spi, nr, tsi, tsr)),
                        child_derived(sa.sk_d, ni, nr, Role::Responder, new_spi, peer_spi),
                    ),
                )
            },
        },
    }
}

/// What processing a rekey request gives: the encrypted response and the
/// responder's end of the new CHILD SA.
pub open spec fn rekey_answer(
    sa: SaState,
    request: Seq<u8>,
    new_spi: u32,
    nr: Seq<u8>,
    iv: Seq<u8>,
    assigned_ip: Option<Ipv4Addr>,
) -> Result<(Seq<u8>, ChildState), IkeError> {
    match parsed_header(request) {
        Err(e) => Err(e),
        Ok(header) => match sk_open(request, peer_key(sa)) {
            Err(e) => Err(e),
            Ok((first, inner)) => match rekey_reply(sa, first, inner, new_spi, nr, assigned_ip) {
                Err(e) => Err(e),
                Ok((reply, child)) => match sk_build(
                    child_header(sa, header.message_id, true),
                    PayloadType::SecurityAssociation,
                    reply,
                    our_key(sa),
                    iv,
                ) {
                    Err(e) => Err(e),
                    Ok(response) => Ok((response, child)),
                },
            },
        },
    }
}

/// What completing a rekey gives: the initiator's end of the new CHILD SA.
pub open spec fn rekey_completed(
    sa: SaState,
    ni: Seq<u8>,
    new_spi: u32,
    response: Seq<u8>,
) -> Result<ChildState, IkeError> {
    match sk_open(response, peer_key(sa)) {
        Err(e) => Err(e),
        Ok((first, inner)) => match sa_and_nonce(first, inner) {
            Err(e) => Err(e),
            Ok((sa_body, nr)) => match offered_spi(sa_body) {
                Err(e) => Err(e),
                Ok(peer_spi) => Ok(child_derived(sa.sk_d, ni, nr, Role::Initiator, new_spi, peer_spi)),
            },
        },
    }
}

/// `SK_d` and our nonce, with the longest nonce that a payload can bring, are
/// within what the hash function's length field can count.
pub open spec fn rekey_admits(sa: SaState, our_nonce: Seq<u8>) -> bool {
    prf_admits(sa.sk_d.len(), our_nonce.len() + 0xffff)
}

/// Responder: from a decrypted request, the payload chain of the response and our
/// end of the new CHILD SA.
pub fn reply_to_rekey(
    sa: &CompletedSaInit,
    first: PayloadType,
    inner: &[u8],
    new_spi: u32,
    nr: &[u8],
    assigned_ip: Option<Ipv4Addr>,
) -> (r: Result<(Vec<u8>, ChildSa), IkeError>)
    requires
        rekey_admits(sa@, nr@),
    ensures
        r matches Ok((reply, child)) ==> rekey_reply(sa@, first, inner@, new_spi, nr@, assigned_ip) == Ok::<
            (Seq<u8>, ChildState),
            IkeError,
        >((reply@, child@)),
        r matches Err(e) ==> rekey_reply(sa@, first, inner@, new_spi, nr@, assigned_ip) == Err::<
            (Seq<u8>, ChildState),
            IkeError,
        >(e),
        r matches Ok((reply, child)) ==> keys_complete(child@),
{
    let (sa_body, ni) = find_sa_and_nonce(first, inner)?;
    let peer_spi: u32 = esp_spi_from_sa(&sa_body)?;
    let list = payloads(first, inner)?;
    let (tsi, tsr) = match assigned_ip {
        Some(ip) => (host_tunnel_ts(ip), full_tunnel_ts()),
        None => (
            match find_last(&list, PayloadType::TrafficSelectorInitiator) {
                Some(body) => slice_to_vec(body),
                None => full_tunnel_ts(),
            },
            match find_last(&list, PayloadType::TrafficSelectorResponder) {
                Some(body) => slice_to_vec(body),
                None => full_tunnel_ts(),
            },
        ),
    };
    let child = ChildSa::derive(&sa.keys.sk_d, &ni, nr, Role::Responder, new_spi, peer_spi);
    let ghost chain = reply_chain(new_spi, nr@, tsi@, tsr@);
    let mut inner_out: Vec<(PayloadType, Vec<u8>)> = Vec::new();
    inner_out.push((PayloadType::SecurityAssociation, esp_offer(new_spi).to_bytes()));
    inner_out.push((PayloadType::Nonce, slice_to_vec(nr)));
    inner_out.push((PayloadType::TrafficSelectorInitiator, tsi));
    inner_out.push((PayloadType::TrafficSelectorResponder, tsr));
    assert(chain_of(inner_out@) =~= chain);
    Ok((encode_payload_chain(&inner_out), child))
}

/// Responder: processes a rekey request, derives the new CHILD SA, and builds the
/// response. Returns the response and our end of the new CHILD SA.
///
/// The initiator that opens the response finds its payloads in it, as long as they
/// fit one SK payload.
pub fn responder_process_rekey(
    sa: &CompletedSaInit,
    request: &[u8],
    new_spi: u32,
    nr: &[u8],
    iv: &[u8; 8],
    assigned_ip: Option<Ipv4Addr>,
) -> (r: Result<(Vec<u8>, ChildSa), IkeError>)
    requires
        rekey_admits(sa@, nr@),
    ensures
        r matches Ok((response, child)) ==> rekey_answer(sa@, request@, new_spi, nr@, iv@, assigned_ip) == Ok::<
            (Seq<u8>, ChildState),
            IkeError,
        >((response@, child@)),
        r matches Err(e) ==> rekey_answer(sa@, request@, new_spi, nr@, iv@, assigned_ip) == Err::<
            (Seq<u8>, ChildState),
            IkeError,
        >(e),
        r matches Ok((response, child)) ==> keys_complete(child@),
        r matches Ok((response, child)) ==> reply_delivered(sa@, request@, new_spi, nr@, assigned_ip, response@),
        r matches Ok((response, child)) ==> forall|peer: SaState, peer_spi: u32, ni: Seq<u8>|
            sa_ends(peer, sa@) && carries_rekey(peer, request@, peer_spi, ni) && reply_fits(
                sa@,
                request@,
                new_spi,
                nr@,
                assigned_ip,
            ) ==> (#[trigger] rekey_completed(peer, ni, peer_spi, response@) matches Ok(c) && children_match(c, child@)),
{
    let message_id: u32 = IkeHeader::parse(request)?.message_id;
    let (first, inner) = open_encrypted_gcm(request, peer_sk_e(sa))?;
    let (reply, child) = reply_to_rekey(sa, first, &inner, new_spi, nr, assigned_ip)?;
    let header = create_child_header(sa, message_id, true);
    let response = build_encrypted_gcm(header, PayloadType::SecurityAssociation, &reply, our_sk_e(sa), iv)?;
    proof {
        assert forall|peer: SaState, peer_spi: u32, ni: Seq<u8>|
            sa_ends(peer, sa@) && carries_rekey(peer, request@, peer_spi, ni) && reply_fits(
                sa@,
                request@,
                new_spi,
                nr@,
                assigned_ip,
            ) implies (#[trigger] rekey_completed(peer, ni, peer_spi, response@) matches Ok(c) && children_match(
            c,
            child@,
        )) by {
            rekey_yields_matching_ends(peer, sa@, request@, peer_spi, ni, new_spi, nr@, assigned_ip, response@);
        }
    }
    Ok((response, child))
}

/// The reply that the request calls for fits one SK payload.
pub open spec fn reply_fits(
    sa: SaState,
    request: Seq<u8>,
    new_spi: u32,
    nr: Seq<u8>,
    assigned_ip: Option<Ipv4Addr>,
) -> bool {
    sk_open(request, peer_key(sa)) matches Ok((first, inner)) ==> (rekey_reply(
        sa,
        first,
        inner,
        new_spi,
        nr,
        assigned_ip,
    ) matches Ok((reply, child)) ==> reply.len() <= SK_MAX_INNER)
}

/// The response opens to the reply that the request calls for, if the reply fits
/// one SK payload.
pub open spec fn reply_delivered(
    sa: SaState,
    request: Seq<u8>,
    new_spi: u32,
    nr: Seq<u8>,
    assigned_ip: Option<Ipv4Addr>,
    response: Seq<u8>,
) -> bool {
    sk_open(request, peer_key(sa)) matches Ok((first, inner)) ==> (rekey_reply(
        sa,
        first,
        inner,
        new_spi,
        nr,
        assigned_ip,
    ) matches Ok((reply, child)) ==> reply.len() <= SK_MAX_INNER ==> sk_open(response, our_key(sa)) == Ok::<
        (PayloadType, Seq<u8>),
        IkeError,
    >((PayloadType::SecurityAssociation, reply)))
}

/// Initiator: completes the rekey from the response, deriving our end of the new
/// CHILD SA. `ni` and `new_spi` are the values that went into the request.
pub fn initiator_complete_rekey(
    sa: &CompletedSaInit,
    ni: &[u8],
    new_spi: u32,
    response: &[u8],
) -> (r: Result<ChildSa, IkeError>)
    requires
        rekey_admits(sa@, ni@),
    ensures
        r matches Ok(child) ==> rekey_completed(sa@, ni@, new_spi, response@) == Ok::<ChildState, IkeError>(child@),
        r matches Err(e) ==> rekey_completed(sa@, ni@, new_spi, response@) == Err::<ChildState, IkeError>(e),
        r matches Ok(child) ==> keys_complete(child@),
{
    let (first, inner) = open_encrypted_gcm(response, peer_sk_e(sa))?;
    let (sa_body, nr) = find_sa_and_nonce(first, &inner)?;
    let peer_spi: u32 = esp_spi_from_sa(&sa_body)?;
    Ok(ChildSa::derive(&sa.keys.sk_d, ni, &nr, Role::Initiator, new_spi, peer_spi))
}

/// Law: a rekey gives both sides matching ESP security associations. Whatever the
/// roles in the IKE SA: if the request of one end carries its SPI and nonce, then
/// that end completes the rekey from the other end's response, and what each side
/// seals outbound the other side opens inbound.
pub proof fn rekey_yields_matching_ends(
    a: SaState,
    b: SaState,
    request: Seq<u8>,
    new_a: u32,
    ni: Seq<u8>,
    new_b: u32,
    nr: Seq<u8>,
    assigned_ip: Option<Ipv4Addr>,
    response: Seq<u8>,
)
    requires
        sa_ends(a, b),
        carries_rekey(a, request, new_a, ni),
        reply_fits(b, request, new_b, nr, assigned_ip),
        reply_delivered(b, request, new_b, nr, assigned_ip, response),
    ensures
        ({
            let (first, inner) = sk_open(request, peer_key(b))->Ok_0;
            let (reply, child_b) = rekey_reply(b, first, inner, new_b, nr, assigned_ip)->Ok_0;
            &&& rekey_reply(b, first, inner, new_b, nr, assigned_ip) is Ok
            &&& child_b == child_derived(b.sk_d, ni, nr, Role::Responder, new_b, new_a)
            &&& rekey_completed(a, ni, new_a, response) matches Ok(child_a) && children_match(child_a, child_b)
        }),
{
    ends_share_keys(a, b);
    let (first, inner) = sk_open(request, peer_key(b))->Ok_0;
    let (tsi, tsr) = reply_selectors(parsed_chain(first, inner)->Ok_0, assigned_ip);
    reply_is_read_back(new_b, nr, tsi, tsr);
    both_ends_match(a.sk_d, ni, nr, Role::Initiator, new_a, new_b);
}

/// The longest nonce with which a request fits one SK payload.
pub const REQUEST_MAX_NONCE: usize = 65406;

/// The longest nonce with which the reply to such a request fits one SK payload.
pub const REPLY_MAX_NONCE: usize = 65418;

/// Law: a rekey that `build_rekey_request` starts is completed from its response.
/// Who starts the rekey fixes the role in the CHILD SA, not who started the IKE SA:
/// `a` may have either role there. Both ends then hold fresh, matching
/// associations, each of them receiving on the SPI that it chose, with or without
/// an assigned address.
pub proof fn built_request_completes(
    a: SaState,
    b: SaState,
    rekeyed_spi: u32,
    request: Seq<u8>,
    new_a: u32,
    ni: Seq<u8>,
    new_b: u32,
    nr: Seq<u8>,
    assigned_ip: Option<Ipv4Addr>,
    response: Seq<u8>,
)
    requires
        sa_ends(a, b),
        sk_open(request, our_key(a)) == Ok::<(PayloadType, Seq<u8>), IkeError>(
            (PayloadType::Notify, chain_bytes(request_chain(rekeyed_spi, new_a, ni))),
        ),
        ni.len() <= REQUEST_MAX_NONCE,
        nr.len() <= REPLY_MAX_NONCE,
        reply_delivered(b, request, new_b, nr, assigned_ip, response),
    ensures
        carries_rekey(a, request, new_a, ni),
        reply_fits(b, request, new_b, nr, assigned_ip),
        rekey_completed(a, ni, new_a, response) matches Ok(child_a) && {
            let child_b = child_derived(b.sk_d, ni, nr, Role::Responder, new_b, new_a);
            &&& rekey_reply(
                b,
                PayloadType::Notify,
                chain_bytes(request_chain(rekeyed_spi, new_a, ni)),
                new_b,
                nr,
                assigned_ip,
            ) matches Ok((reply, child)) && child == child_b
            &&& children_match(child_a, child_b)
            &&& child_a.outbound.spi == new_b && child_b.inbound.spi == new_b
            &&& child_a.inbound.spi == new_a && child_b.outbound.spi == new_a
            &&& child_a.outbound.seq == 0 && child_a.inbound.seq == 0
            &&& child_b.outbound.seq == 0 && child_b.inbound.seq == 0
        },
{
    ends_share_keys(a, b);
    built_request_is_replied_to(b, rekeyed_spi, new_a, ni, new_b, nr, assigned_ip);
    rekey_yields_matching_ends(a, b, request, new_a, ni, new_b, nr, assigned_ip, response);
}

/// What a request that `build_rekey_request` made is replied to with.
proof fn built_request_is_replied_to(
    sa: SaState,
    rekeyed_spi: u32,
    peer_spi: u32,
    ni: Seq<u8>,
    new_spi: u32,
    nr: Seq<u8>,
    assigned_ip: Option<Ipv4Addr>,
)
    requires
        ni.len() <= REQUEST_MAX_NONCE,
        nr.len() <= REPLY_MAX_NONCE,
    ensures
        ({
            let inner = chain_bytes(request_chain(rekeyed_spi, peer_spi, ni));
            &&& sa_and_nonce(PayloadType::Notify, inner) == Ok::<(Seq<u8>, Seq<u8>), IkeError>(
                (sa_bytes(esp_offer_model(peer_spi)), ni),
            )
            &&& offered_spi(sa_bytes(esp_offer_model(peer_spi))) == Ok::<u32, IkeError>(peer_spi)
            &&& rekey_reply(sa, PayloadType::Notify, inner, new_spi, nr, assigned_ip) matches Ok((reply, child)) && {
                &&& reply.len() <= SK_MAX_INNER
                &&& child == child_derived(sa.sk_d, ni, nr, Role::Responder, new_spi, peer_spi)
            }
        }),
{
    request_length(rekeyed_spi, peer_spi, ni);
    request_is_read_back(rekeyed_spi, peer_spi, ni);
    request_selectors(rekeyed_spi, peer_spi, ni, assigned_ip);
    let (tsi, tsr) = reply_selectors(request_chain(rekeyed_spi, peer_spi, ni), assigned_ip);
    reply_length(new_spi, nr, tsi, tsr);
}

/// The selectors that answer such a request are single ranges.
proof fn request_selectors(rekeyed_spi: u32, new_spi: u32, ni: Seq<u8>, assigned_ip: Option<Ipv4Addr>)
    ensures
        reply_selectors(request_chain(rekeyed_spi, new_spi, ni), assigned_ip).0.len() == 20,
        reply_selectors(request_chain(rekeyed_spi, new_spi, ni), assigned_ip).1.len() == 20,
{
    let chain = request_chain(rekeyed_spi, new_spi, ni);
    request_shape(chain[0].1, chain[1].1, ni, full_ts(), full_ts());
    assert(full_ts().len() == 20);
    if let Some(ip) = assigned_ip {
        assert(host_ts(ip).len() == 20);
    }
}

/// Law: with an assigned address the response narrows the initiator's selector to
/// that one host, whatever the request proposed, and never to all traffic.
pub proof fn assigned_address_narrows(
    sa: SaState,
    first: PayloadType,
    inner: Seq<u8>,
    new_spi: u32,
    nr: Seq<u8>,
    ip: Ipv4Addr,
)
    requires
        rekey_reply(sa, first, inner, new_spi, nr, Some(ip)) matches Ok((reply, child)) && reply.len() <= SK_MAX_INNER,
    ensures
        ({
            let reply = rekey_reply(sa, first, inner, new_spi, nr, Some(ip))->Ok_0.0;
            parsed_chain(PayloadType::SecurityAssociation, reply) matches Ok(chain) && {
                &&& last_of_type(chain, PayloadType::TrafficSelectorInitiator) == Some(host_ts(ip))
                &&& last_of_type(chain, PayloadType::TrafficSelectorResponder) == Some(full_ts())
            }
        }),
        host_ts(ip) != full_ts(),
{
    reply_is_read_back(new_spi, nr, host_ts(ip), full_ts());
    one_host_is_not_all(ip);
}

/// One host is not all traffic.
proof fn one_host_is_not_all(ip: Ipv4Addr)
    ensures
        host_ts(ip) != full_ts(),
{
    // The range of a single selector starts at byte 12 and ends at byte 16.
    assert(full_ts()[12] == 0 && full_ts()[16] == 255);
    assert(host_ts(ip)[12] == ip.octets@[0] && host_ts(ip)[16] == ip.octets@[0]);
}

/// Law: without an assigned address the response echoes the selectors that the
/// request proposed.
pub proof fn unassigned_selectors_echo(
    sa: SaState,
    first: PayloadType,
    inner: Seq<u8>,
    new_spi: u32,
    nr: Seq<u8>,
    t: PayloadType,
    proposed: Seq<u8>,
)
    requires
        rekey_reply(sa, first, inner, new_spi, nr, None) matches Ok((reply, child)) && reply.len() <= SK_MAX_INNER,
        t == PayloadType::TrafficSelectorInitiator || t == PayloadType::TrafficSelectorResponder,
        last_of_type(parsed_chain(first, inner)->Ok_0, t) == Some(proposed),
    ensures
        ({
            let reply = rekey_reply(sa, first, inner, new_spi, nr, None)->Ok_0.0;
            parsed_chain(PayloadType::SecurityAssociation, reply) matches Ok(chain) && last_of_type(chain, t) == Some(
                proposed,
            )
        }),
{
    let (tsi, tsr) = reply_selectors(parsed_chain(first, inner)->Ok_0, None);
    reply_is_read_back(new_spi, nr, tsi, tsr);
}

/// Law: the response answers its request: a `CREATE_CHILD_SA` response of the same
/// IKE SA, under the message ID of the request.
pub proof fn answer_header_matches(
    sa: SaState,
    request: Seq<u8>,
    new_spi: u32,
    nr: Seq<u8>,
    iv: Seq<u8>,
    assigned_ip: Option<Ipv4Addr>,
)
    requires
        rekey_answer(sa, request, new_spi, nr, iv, assigned_ip) is Ok,
    ensures
        ({
            let response = rekey_answer(sa, request, new_spi, nr, iv, assigned_ip)->Ok_0.0;
            parsed_header(response) matches Ok(header) && {
                &&& header.message_id == header_of(request).message_id
                &&& header.initiator_spi == sa.spi_i
                &&& header.responder_spi == sa.spi_r
                &&& header.exchange_type == ExchangeType::CreateChildSa
                &&& header.flags.response
                &&& header.flags.initiator == (sa.role == Role::Initiator)
                &&& header.next_payload == PayloadType::Encrypted
            }
        }),
{
    let message_id = header_of(request).message_id;
    let response = rekey_answer(sa, request, new_spi, nr, iv, assigned_ip)->Ok_0.0;
    let (first, inner) = sk_open(request, peer_key(sa))->Ok_0;
    let reply = rekey_reply(sa, first, inner, new_spi, nr, assigned_ip)->Ok_0.0;
    let sent = sk_header(child_header(sa, message_id, true), reply.len());
    let rest = response.skip(IkeHeader::LEN as int);
    header_survives_the_wire(sent, rest);
    payload_codes_are_faithful(0, PayloadType::Encrypted);
    assert(response =~= header_bytes(sent) + rest);
}

/// Law: which SPI a Security Association body offers, for any bytes. It stands
/// behind the eight fixed bytes of the first proposal, most significant byte first,
/// whatever proposals follow; a first proposal with an SPI of another size, an empty
/// body, and one that does not parse are errors.
pub proof fn offered_spi_reading(body: Seq<u8>)
    ensures
        parsed_proposals(body) matches Err(e) ==> offered_spi(body) == Err::<u32, IkeError>(e),
        body.len() == 0 ==> offered_spi(body) == Err::<u32, IkeError>(IkeError::NoProposalChosen),
        parsed_proposals(body) is Ok && body.len() > 0 && body[6] == 4 ==> (offered_spi(body) matches Ok(spi) && spi
            == body[8] * 0x100_0000 + body[9] * 0x1_0000 + body[10] * 0x100 + body[11]),
        parsed_proposals(body) is Ok && body.len() > 0 && body[6] != 4 ==> offered_spi(body) == Err::<u32, IkeError>(
            IkeError::Crypto("expected a 4-byte ESP SPI"),
        ),
{
    proposal_reading(body);
    if parsed_proposals(body) is Ok && body.len() > 0 {
        let spi = parsed_proposals(body)->Ok_0[0].spi;
        read_in_network_order(spi, 0);
    }
}

/// Law: the SPI of the first proposal is taken, however many proposals follow.
pub proof fn offered_spi_is_the_first(list: Seq<ProposalModel>)
    requires
        list.len() > 0,
        list[0].spi.len() == 4,
        forall|i: int| 0 <= i < list.len() ==> proposal_representable(#[trigger] list[i]),
    ensures
        offered_spi(sa_bytes(list)) matches Ok(spi) && spi == list[0].spi[0] * 0x100_0000 + list[0].spi[1] * 0x1_0000
            + list[0].spi[2] * 0x100 + list[0].spi[3],
{
    proposals_survive_the_wire(list);
    read_in_network_order(list[0].spi, 0);
}

/// Law: what is taken from a decrypted chain, for any bytes: the bodies of the last
/// Security Association and of the last Nonce. Without the one, and then without
/// the other, the chain is refused; one that does not parse is refused as such.
pub proof fn sa_and_nonce_reading(first: PayloadType, inner: Seq<u8>, i: int, j: int)
    ensures
        parsed_chain(first, inner) matches Err(e) ==> sa_and_nonce(first, inner) == Err::<
            (Seq<u8>, Seq<u8>),
            IkeError,
        >(e),
        parsed_chain(first, inner) matches Ok(chain) ==> {
            &&& (forall|k: int| 0 <= k < chain.len() ==> (#[trigger] chain[k]).0 != PayloadType::SecurityAssociation)
                ==> sa_and_nonce(first, inner) == Err::<(Seq<u8>, Seq<u8>), IkeError>(IkeError::MissingPayload("SA"))
            &&& 0 <= i < chain.len() && chain[i].0 == PayloadType::SecurityAssociation && (forall|k: int|
                0 <= k < chain.len() ==> (#[trigger] chain[k]).0 != PayloadType::Nonce) ==> sa_and_nonce(first, inner)
                == Err::<(Seq<u8>, Seq<u8>), IkeError>(IkeError::MissingPayload("Nonce"))
            &&& last_at(chain, PayloadType::SecurityAssociation, i) && last_at(chain, PayloadType::Nonce, j)
                ==> sa_and_nonce(first, inner) == Ok::<(Seq<u8>, Seq<u8>), IkeError>((chain[i].1, chain[j].1))
        },
{
    if let Ok(chain) = parsed_chain(first, inner) {
        last_payload_counts(chain, PayloadType::SecurityAssociation);
        last_payload_counts(chain, PayloadType::Nonce);
    }
}

/// The payload at `i` is the last one of type `t`.
pub open spec fn last_at(chain: Seq<PayloadModel>, t: PayloadType, i: int) -> bool {
    &&& 0 <= i < chain.len()
    &&& chain[i].0 == t
    &&& forall|k: int| i < k < chain.len() ==> (#[trigger] chain[k]).0 != t
}

/// Law: the selector bodies, byte for byte: all traffic, and the traffic of one
/// host, whose address is both ends of the range.
pub proof fn selector_bodies(ip: Ipv4Addr)
    ensures
        full_ts() == seq![1u8, 0, 0, 0, 7, 0, 0, 16, 0, 0, 0xff, 0xff, 0, 0, 0, 0, 0xff, 0xff, 0xff, 0xff],
        host_ts(ip) == seq![1u8, 0, 0, 0, 7, 0, 0, 16, 0, 0, 0xff, 0xff] + ip.octets@ + ip.octets@,
{
    small_numbers();
    assert(full_ts() =~= seq![1u8, 0, 0, 0, 7, 0, 0, 16, 0, 0, 0xff, 0xff, 0, 0, 0, 0, 0xff, 0xff, 0xff, 0xff]);
    assert(host_ts(ip) =~= seq![1u8, 0, 0, 0, 7, 0, 0, 16, 0, 0, 0xff, 0xff] + ip.octets@ + ip.octets@);
}

proof fn all_traffic_body()
    ensures
        full_ts() == seq![1u8, 0, 0, 0, 7, 0, 0, 16, 0, 0, 0xff, 0xff, 0, 0, 0, 0, 0xff, 0xff, 0xff, 0xff],
{
    small_numbers();
    assert(full_ts() =~= seq![1u8, 0, 0, 0, 7, 0, 0, 16, 0, 0, 0xff, 0xff, 0, 0, 0, 0, 0xff, 0xff, 0xff, 0xff]);
}

proof fn small_numbers()
    ensures
        be16(16) == seq![0u8, 16],
        be16(0) == seq![0u8, 0],
        be16(0xffff) == seq![0xffu8, 0xff],
{
    assert((16u16 >> 8) as u8 == 0 && 16u16 as u8 == 16 && (0u16 >> 8) as u8 == 0 && 0u16 as u8 == 0 && (0xffffu16 >> 8)
        as u8 == 0xff && 0xffffu16 as u8 == 0xff) by (bit_vector);
}

/// Law: what a request carries, payload by payload: the notification that names the
/// association to be replaced, the offer on the new SPI, the nonce, and selectors for
/// all traffic.
pub proof fn request_payloads(rekeyed_spi: u32, new_spi: u32, ni: Seq<u8>)
    ensures
        request_chain(rekeyed_spi, new_spi, ni) == seq![
            (PayloadType::Notify, seq![3u8, 4, 0x40, 0x09] + be32(rekeyed_spi)),
            (
                PayloadType::SecurityAssociation,
                seq![0u8, 0, 0, 32, 1, 3, 4, 2] + be32(new_spi) + seq![
                    3u8, 0, 0, 12, 1, 0, 0, 20, 0x80, 0x0e, 0x01, 0x00,
                ] + seq![0u8, 0, 0, 8, 5, 0, 0, 0],
            ),
            (PayloadType::Nonce, ni),
            (PayloadType::TrafficSelectorInitiator,
                seq![1u8, 0, 0, 0, 7, 0, 0, 16, 0, 0, 0xff, 0xff, 0, 0, 0, 0, 0xff, 0xff, 0xff, 0xff]),
            (PayloadType::TrafficSelectorResponder,
                seq![1u8, 0, 0, 0, 7, 0, 0, 16, 0, 0, 0xff, 0xff, 0, 0, 0, 0, 0xff, 0xff, 0xff, 0xff]),
        ],
{
    let chain = request_chain(rekeyed_spi, new_spi, ni);
    offer_layout(new_spi);
    all_traffic_body();
    assert((0x4009u16 >> 8) as u8 == 0x40 && 0x4009u16 as u8 == 0x09) by (bit_vector);
    assert(chain[0].1 =~= seq![3u8, 4, 0x40, 0x09] + be32(rekeyed_spi));
}

/// Law: how a decrypted request is replied to. If its last Security Association
/// offers an SPI and its last Nonce brings `Ni`, the reply carries the offer on our
/// SPI, our nonce and selectors: those of the assigned host and everything, or what
/// the request proposed last, or everything. Our end of the new CHILD SA has the
/// responder's part of the keys of both nonces, sends to the offered SPI and
/// receives on ours.
pub proof fn reply_contents(
    sa: SaState,
    first: PayloadType,
    inner: Seq<u8>,
    new_spi: u32,
    nr: Seq<u8>,
    assigned_ip: Option<Ipv4Addr>,
    chain: Seq<PayloadModel>,
    i: int,
    j: int,
    peer_spi: u32,
)
    requires
        parsed_chain(first, inner) == Ok::<Seq<PayloadModel>, IkeError>(chain),
        last_at(chain, PayloadType::SecurityAssociation, i),
        last_at(chain, PayloadType::Nonce, j),
        offered_spi(chain[i].1) == Ok::<u32, IkeError>(peer_spi),
    ensures
        rekey_reply(sa, first, inner, new_spi, nr, assigned_ip) matches Ok((reply, child)) && {
            let keymat = prf_plus_bytes(sa.sk_d, chain[j].1 + nr, 72);
            &&& exists|tsi: Seq<u8>, tsr: Seq<u8>|
                #![trigger selectors_answer(chain, assigned_ip, tsi, tsr)]
                selectors_answer(chain, assigned_ip, tsi, tsr) && reply == chain_bytes(
                    seq![
                        (
                            PayloadType::SecurityAssociation,
                            seq![0u8, 0, 0, 32, 1, 3, 4, 2] + be32(new_spi) + seq![
                                3u8, 0, 0, 12, 1, 0, 0, 20, 0x80, 0x0e, 0x01, 0x00,
                            ] + seq![0u8, 0, 0, 8, 5, 0, 0, 0],
                        ),
                        (PayloadType::Nonce, nr),
                        (PayloadType::TrafficSelectorInitiator, tsi),
                        (PayloadType::TrafficSelectorResponder, tsr),
                    ],
                )
            &&& child.outbound.spi == peer_spi && child.inbound.spi == new_spi
            &&& child.outbound.seq == 0 && child.inbound.seq == 0
            &&& keymat.len() == 72 ==> {
                &&& child.outbound.key == keymat.subrange(36, 68) && child.outbound.salt == keymat.subrange(68, 72)
                &&& child.inbound.key == keymat.subrange(0, 32) && child.inbound.salt == keymat.subrange(32, 36)
            }
        },
{
    sa_and_nonce_reading(first, inner, i, j);
    let (tsi, tsr) = reply_selectors(chain, assigned_ip);
    selectors_do_answer(chain, assigned_ip);
    reply_payloads(new_spi, nr, tsi, tsr);
    directions_have_their_own_keys(sa.sk_d, chain[j].1, nr, peer_spi, new_spi);
}

/// Law: what a reply carries, payload by payload: the offer on the new SPI, the
/// nonce, and the selectors.
pub proof fn reply_payloads(new_spi: u32, nr: Seq<u8>, tsi: Seq<u8>, tsr: Seq<u8>)
    ensures
        reply_chain(new_spi, nr, tsi, tsr) == seq![
            (
                PayloadType::SecurityAssociation,
                seq![0u8, 0, 0, 32, 1, 3, 4, 2] + be32(new_spi) + seq![
                    3u8, 0, 0, 12, 1, 0, 0, 20, 0x80, 0x0e, 0x01, 0x00,
                ] + seq![0u8, 0, 0, 8, 5, 0, 0, 0],
            ),
            (PayloadType::Nonce, nr),
            (PayloadType::TrafficSelectorInitiator, tsi),
            (PayloadType::TrafficSelectorResponder, tsr),
        ],
{
    offer_layout(new_spi);
}

proof fn selectors_do_answer(chain: Seq<PayloadModel>, assigned_ip: Option<Ipv4Addr>)
    ensures
        ({
            let (tsi, tsr) = reply_selectors(chain, assigned_ip);
            selectors_answer(chain, assigned_ip, tsi, tsr)
        }),
{
    match assigned_ip {
        Some(ip) => {
            selector_bodies(ip);
        },
        None => {
            all_traffic_body();
            last_payload_counts(chain, PayloadType::TrafficSelectorInitiator);
            last_payload_counts(chain, PayloadType::TrafficSelectorResponder);
        },
    }
}

/// `tsi` and `tsr` are the selectors that answer a request of these payloads.
pub open spec fn selectors_answer(
    chain: Seq<PayloadModel>,
    assigned_ip: Option<Ipv4Addr>,
    tsi: Seq<u8>,
    tsr: Seq<u8>,
) -> bool {
    match assigned_ip {
        Some(ip) => {
            &&& tsi == seq![1u8, 0, 0, 0, 7, 0, 0, 16, 0, 0, 0xff, 0xff] + ip.octets@ + ip.octets@
            &&& tsr == seq![1u8, 0, 0, 0, 7, 0, 0, 16, 0, 0, 0xff, 0xff, 0, 0, 0, 0, 0xff, 0xff, 0xff, 0xff]
        },
        None => {
            &&& echoes(chain, PayloadType::TrafficSelectorInitiator, tsi)
            &&& echoes(chain, PayloadType::TrafficSelectorResponder, tsr)
        },
    }
}

/// `ts` is what the last payload of type `t` holds, or everything if there is none.
pub open spec fn echoes(chain: Seq<PayloadModel>, t: PayloadType, ts: Seq<u8>) -> bool {
    &&& forall|i: int| #[trigger] last_at(chain, t, i) ==> ts == chain[i].1
    &&& (forall|i: int| 0 <= i < chain.len() ==> (#[trigger] chain[i]).0 != t) ==> ts ==
        seq![1u8, 0, 0, 0, 7, 0, 0, 16, 0, 0, 0xff, 0xff, 0, 0, 0, 0, 0xff, 0xff, 0xff, 0xff]
}

/// Law: a request that offers several suites is answered like one that offers one:
/// from its first proposal.
pub proof fn several_proposals_are_answered(
    sa: SaState,
    first: PayloadType,
    inner: Seq<u8>,
    new_spi: u32,
    nr: Seq<u8>,
    assigned_ip: Option<Ipv4Addr>,
    chain: Seq<PayloadModel>,
    i: int,
    j: int,
    list: Seq<ProposalModel>,
)
    requires
        parsed_chain(first, inner) == Ok::<Seq<PayloadModel>, IkeError>(chain),
        last_at(chain, PayloadType::SecurityAssociation, i),
        last_at(chain, PayloadType::Nonce, j),
        chain[i].1 == sa_bytes(list),
        list.len() > 0,
        list[0].spi.len() == 4,
        forall|k: int| 0 <= k < list.len() ==> proposal_representable(#[trigger] list[k]),
    ensures
        rekey_reply(sa, first, inner, new_spi, nr, assigned_ip) matches Ok((reply, child)) && {
            &&& be32(child.outbound.spi) == list[0].spi
            &&& child.inbound.spi == new_spi
        },
{
    sa_and_nonce_reading(first, inner, i, j);
    first_spi_is_taken_whole(list);
}

proof fn first_spi_is_taken_whole(list: Seq<ProposalModel>)
    requires
        list.len() > 0,
        list[0].spi.len() == 4,
        forall|i: int| 0 <= i < list.len() ==> proposal_representable(#[trigger] list[i]),
    ensures
        offered_spi(sa_bytes(list)) matches Ok(spi) && be32(spi) == list[0].spi,
{
    offered_spi_is_the_first(list);
    let spi = offered_spi(sa_bytes(list))->Ok_0;
    written_in_network_order(0, spi, 0);
    assert(be32(spi) =~= list[0].spi);
}

/// Law: what a refused request is answered: the error of whatever failed first, the
/// chain or what it lacks, and then its offer.
pub proof fn refused_requests(
    sa: SaState,
    first: PayloadType,
    inner: Seq<u8>,
    new_spi: u32,
    nr: Seq<u8>,
    assigned_ip: Option<Ipv4Addr>,
)
    ensures
        sa_and_nonce(first, inner) matches Err(e) ==> rekey_reply(sa, first, inner, new_spi, nr, assigned_ip) == Err::<
            (Seq<u8>, ChildState),
            IkeError,
        >(e),
        sa_and_nonce(first, inner) matches Ok((body, ni)) ==> (offered_spi(body) matches Err(e) ==> rekey_reply(
            sa,
            first,
            inner,
            new_spi,
            nr,
            assigned_ip,
        ) == Err::<(Seq<u8>, ChildState), IkeError>(e)),
{
}

/// Law: the header of a `CREATE_CHILD_SA` message, field by field.
pub proof fn child_header_fields(sa: SaState, message_id: u32, is_response: bool)
    ensures
        child_header(sa, message_id, is_response).initiator_spi == sa.spi_i,
        child_header(sa, message_id, is_response).responder_spi == sa.spi_r,
        child_header(sa, message_id, is_response).major_version == 2,
        child_header(sa, message_id, is_response).minor_version == 0,
        child_header(sa, message_id, is_response).exchange_type == ExchangeType::CreateChildSa,
        child_header(sa, message_id, is_response).message_id == message_id,
        child_header(sa, message_id, is_response).flags.response == is_response,
        child_header(sa, message_id, is_response).flags.initiator == (sa.role == Role::Initiator),
        !child_header(sa, message_id, is_response).flags.version,
{
}

/// Law: a request and the response to it, on the wire: the SPIs of the IKE SA,
/// version 2.0, exchange 36, flags for role and direction, the message ID, and the
/// key of its sender.
pub proof fn child_message_layout(
    sa: SaState,
    message_id: u32,
    is_response: bool,
    first_inner: PayloadType,
    inner: Seq<u8>,
    iv: Seq<u8>,
)
    requires
        iv.len() == 8,
    ensures
        ({
            let key = if sa.role == Role::Initiator { sa.sk_ei } else { sa.sk_er };
            sk_build(child_header(sa, message_id, is_response), first_inner, inner, our_key(sa), iv) matches Ok(m) ==> {
                &&& m.subrange(0, 8) == be64(sa.spi_i)
                &&& m.subrange(8, 16) == be64(sa.spi_r)
                &&& m[16] == 46 && m[17] == 0x20 && m[18] == 36
                &&& m[19] == (if sa.role == Role::Initiator { 8int } else { 0 }) + (if is_response { 32int } else { 0 })
                &&& m.subrange(20, 24) == be32(message_id)
                &&& m[28] == payload_code(first_inner)
                &&& m.subrange(32, 40) == iv
                &&& m.skip(40) == aes256_gcm_sealed(key.take(32), key.skip(32) + iv, m.take(32), inner + seq![0u8])
            }
        }),
        ({
            let key = if sa.role == Role::Initiator { sa.sk_ei } else { sa.sk_er };
            sk_build(child_header(sa, message_id, is_response), first_inner, inner, our_key(sa), iv) is Ok <==> key.len()
                == 36 && inner.len() < 0x10_0000_0000
        }),
{
    child_header_fields(sa, message_id, is_response);
    keys_go_with_their_sender(sa);
    exchange_numbers(0);
    built_message_layout(child_header(sa, message_id, is_response), first_inner, inner, our_key(sa), iv);
}

/// Law: how a request is processed, for any bytes. A short one is refused; one that
/// does not open under the peer's key, or calls for no reply, gives that error;
/// otherwise the reply goes out under our key, in a response that repeats the
/// request's message ID.
pub proof fn request_processing(
    sa: SaState,
    request: Seq<u8>,
    new_spi: u32,
    nr: Seq<u8>,
    iv: Seq<u8>,
    assigned_ip: Option<Ipv4Addr>,
)
    requires
        iv.len() == 8,
    ensures
        ({
            let (ours, peers) = if sa.role == Role::Initiator { (sa.sk_ei, sa.sk_er) } else { (sa.sk_er, sa.sk_ei) };
            let opened = sk_open(request, peers);
            let r = rekey_answer(sa, request, new_spi, nr, iv, assigned_ip);
            &&& request.len() < 28 ==> r == Err::<(Seq<u8>, ChildState), IkeError>(
                IkeError::Truncated { need: 28, have: request.len() as usize },
            )
            &&& request.len() >= 28 ==> (opened matches Err(e) ==> r == Err::<(Seq<u8>, ChildState), IkeError>(e))
            &&& opened matches Ok((first, inner)) ==> {
                let made = rekey_reply(sa, first, inner, new_spi, nr, assigned_ip);
                &&& made matches Err(e) ==> r == Err::<(Seq<u8>, ChildState), IkeError>(e)
                &&& made matches Ok((reply, child)) ==> {
                    &&& r is Ok <==> ours.len() == 36 && reply.len() < 0x10_0000_0000
                    &&& r matches Ok((response, c)) ==> {
                        &&& c == child
                        &&& response.subrange(0, 8) == be64(sa.spi_i)
                        &&& response.subrange(8, 16) == be64(sa.spi_r)
                        &&& response[16] == 46 && response[17] == 0x20 && response[18] == 36
                        &&& response[19] == (if sa.role == Role::Initiator { 40int } else { 32 })
                        &&& response.subrange(20, 24) == request.subrange(20, 24)
                        &&& response[28] == 33
                        &&& response.subrange(32, 40) == iv
                        &&& response.skip(40) == aes256_gcm_sealed(
                            ours.take(32),
                            ours.skip(32) + iv,
                            response.take(32),
                            reply + seq![0u8],
                        )
                    }
                }
            }
        }),
{
    keys_go_with_their_sender(sa);
    header_reading(request);
    payload_numbers(0);
    if let Ok((first, inner)) = sk_open(request, peer_key(sa)) {
        let message_id = header_of(request).message_id;
        if let Ok((reply, child)) = rekey_reply(sa, first, inner, new_spi, nr, assigned_ip) {
            child_message_layout(sa, message_id, true, PayloadType::SecurityAssociation, reply, iv);
        }
    }
}

/// Law: how a response completes a rekey, for any bytes. It is opened under the
/// peer's key; our end of the new CHILD SA then has the initiator's part of the keys
/// of both nonces, sends to the SPI that the response offers and receives on ours.
/// What fails first gives the error.
pub proof fn response_processing(sa: SaState, ni: Seq<u8>, new_spi: u32, response: Seq<u8>)
    ensures
        ({
            let opened = sk_open(response, if sa.role == Role::Initiator { sa.sk_er } else { sa.sk_ei });
            let r = rekey_completed(sa, ni, new_spi, response);
            &&& opened matches Err(e) ==> r == Err::<ChildState, IkeError>(e)
            &&& opened matches Ok((first, inner)) ==> {
                let found = sa_and_nonce(first, inner);
                &&& found matches Err(e) ==> r == Err::<ChildState, IkeError>(e)
                &&& found matches Ok((body, nr)) ==> {
                    let keymat = prf_plus_bytes(sa.sk_d, ni + nr, 72);
                    &&& offered_spi(body) matches Err(e) ==> r == Err::<ChildState, IkeError>(e)
                    &&& offered_spi(body) matches Ok(spi) ==> (r matches Ok(child) && {
                        &&& child.outbound.spi == spi && child.inbound.spi == new_spi
                        &&& child.outbound.seq == 0 && child.inbound.seq == 0
                        &&& keymat.len() == 72 ==> {
                            &&& child.outbound.key == keymat.subrange(0, 32)
                            &&& child.outbound.salt == keymat.subrange(32, 36)
                            &&& child.inbound.key == keymat.subrange(36, 68)
                            &&& child.inbound.salt == keymat.subrange(68, 72)
                        }
                    })
                }
            }
        }),
{
    keys_go_with_their_sender(sa);
    if let Ok((first, inner)) = sk_open(response, peer_key(sa)) {
        if let Ok((body, nr)) = sa_and_nonce(first, inner) {
            if let Ok(spi) = offered_spi(body) {
                directions_have_their_own_keys(sa.sk_d, ni, nr, new_spi, spi);
            }
        }
    }
}

} // verus!
