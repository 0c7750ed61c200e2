use ryke::addr::Ipv4Addr;
use ryke::error::IkeError;
use ryke::esp::next_header;
use ryke::ikev2::exchange::{CompletedSaInit, SessionKeys};
use ryke::ikev2::ike_auth::esp_offer;
use ryke::ikev2::message::{
    encode_payload_chain, first_payload_type, payloads, ExchangeType, IkeHeader, PayloadType,
};
use ryke::ikev2::payload::notify_type;
use ryke::ikev2::payload::{Notify, TrafficSelector, TrafficSelectors};
use ryke::ikev2::payload::protocol_id;
use ryke::ikev2::rekey::{
    build_rekey_request, create_child_header, esp_spi_from_sa, find_sa_and_nonce, full_tunnel_ts, host_tunnel_ts,
    initiator_complete_rekey, our_sk_e, peer_sk_e, reply_to_rekey, responder_process_rekey,
    REPLY_MAX_NONCE, REQUEST_MAX_NONCE,
};
use ryke::ikev2::sa::{Proposal, SecurityAssociation};
use ryke::ikev2::sk::{build_encrypted_gcm, open_encrypted_gcm};
use ryke::role::Role;

fn sa_of(role: Role) -> CompletedSaInit {
    CompletedSaInit {
        role,
        spi_i: 0xA1,
        spi_r: 0xB2,
        keys: SessionKeys { sk_d: vec![0x70; 32], sk_ei: vec![0x71; 36], sk_er: vec![0x72; 36] },
    }
}

fn sa_pair() -> (CompletedSaInit, CompletedSaInit) {
    (sa_of(Role::Initiator), sa_of(Role::Responder))
}

#[test]
fn child_rekey_yields_matching_esp_sas() {
    let (init_sa, resp_sa) = sa_pair();
    let ni = [0x33u8; 32];
    let nr = [0x44u8; 32];
    let init_new_spi = 0x1111_1111;
    let resp_new_spi = 0x2222_2222;

    let old_child_spi = 0xDEAD_BEEF;
    let req = build_rekey_request(&init_sa, 2, old_child_spi, init_new_spi, &ni, &[1u8; 8]).unwrap();
    let (resp, mut resp_child) =
        responder_process_rekey(&resp_sa, &req, resp_new_spi, &nr, &[2u8; 8], None).unwrap();
    let mut init_child = initiator_complete_rekey(&init_sa, &ni, init_new_spi, &resp).unwrap();

    // The rekeyed SAs interoperate: initiator seals, responder opens, and back.
    let pkt = init_child.outbound.seal(b"after rekey A->B", next_header::IPV4).unwrap();
    assert_eq!(resp_child.inbound.open(&pkt).unwrap().0, b"after rekey A->B");
    let pkt2 = resp_child.outbound.seal(b"after rekey B->A", next_header::IPV4).unwrap();
    assert_eq!(init_child.inbound.open(&pkt2).unwrap().0, b"after rekey B->A");
}

fn extract_tsi(resp: &[u8], init_sa: &CompletedSaInit) -> Vec<u8> {
    let (first, dec) = open_encrypted_gcm(resp, peer_sk_e(init_sa)).unwrap();
    for p in payloads(first, &dec).unwrap() {
        if p.payload_type == PayloadType::TrafficSelectorInitiator {
            return p.data.to_vec();
        }
    }
    panic!("no TSi in the rekey response");
}

/// A client narrows TSi to its assigned `/32` when the tunnel is set up, then
/// proposes a wide `0.0.0.0/0` at rekey and expects the responder to narrow it
/// again. With no assignment the proposal is echoed.
#[test]
fn responder_renarrows_tsi_to_assigned_at_rekey() {
    let (init_sa, resp_sa) = sa_pair();
    let assigned = Ipv4Addr::new(10, 8, 0, 7);
    let narrow = TrafficSelectors { selectors: vec![TrafficSelector::ipv4_host(assigned)] }.to_bytes();
    let wide_tsi = full_tunnel_ts();
    assert_ne!(narrow, wide_tsi, "the narrowed /32 must differ from full-tunnel");

    // The initiator proposes a WIDE TSi.
    let inner = vec![
        (
            PayloadType::Notify,
            Notify {
                protocol_id: protocol_id::ESP,
                spi: 0xDEAD_BEEFu32.to_be_bytes().to_vec(),
                notify_type: notify_type::REKEY_SA,
                data: Vec::new(),
            }
            .to_bytes(),
        ),
        (PayloadType::SecurityAssociation, esp_offer(0xAAAA_AAAA).to_bytes()),
        (PayloadType::Nonce, vec![0x55u8; 32]),
        (PayloadType::TrafficSelectorInitiator, wide_tsi.clone()),
        (PayloadType::TrafficSelectorResponder, full_tunnel_ts()),
    ];
    let header = create_child_header(&init_sa, 2, false);
    let req = build_encrypted_gcm(
        header,
        first_payload_type(&inner),
        &encode_payload_chain(&inner),
        our_sk_e(&init_sa),
        &[1u8; 8],
    )
    .unwrap();

    // With an assignment: TSi comes back as the /32, NOT the wide proposal.
    let (resp, _child) =
        responder_process_rekey(&resp_sa, &req, 0xBBBB_BBBB, &[0x66u8; 32], &[2u8; 8], Some(assigned)).unwrap();
    assert_eq!(
        extract_tsi(&resp, &init_sa),
        narrow,
        "responder must re-narrow TSi to the assigned /32 at rekey"
    );

    // With no assignment (local egress): the initiator's TSi is echoed verbatim.
    let (resp_echo, _c) =
        responder_process_rekey(&resp_sa, &req, 0xCCCC_CCCC, &[0x77u8; 32], &[3u8; 8], None).unwrap();
    assert_eq!(
        extract_tsi(&resp_echo, &init_sa),
        wide_tsi,
        "with no assignment the responder echoes the initiator's TSi"
    );
}

#[test]
fn either_end_can_start_a_rekey() {
    // The original responder asks, the original initiator answers.
    let (asked, asking) = sa_pair();
    let req = build_rekey_request(&asking, 0, 1, 0x1111_1111, &[3; 16], &[1; 8]).unwrap();
    assert!(!IkeHeader::parse(&req).unwrap().flags.initiator);
    let (resp, mut b) = responder_process_rekey(&asked, &req, 0x2222_2222, &[4; 16], &[2; 8], None).unwrap();
    let mut a = initiator_complete_rekey(&asking, &[3; 16], 0x1111_1111, &resp).unwrap();
    assert_eq!((a.outbound.spi(), a.inbound.spi()), (0x2222_2222, 0x1111_1111));
    assert_eq!((b.outbound.spi(), b.inbound.spi()), (0x1111_1111, 0x2222_2222));
    let p = a.outbound.seal(b"x", 4).unwrap();
    assert_eq!(b.inbound.open(&p).unwrap(), (b"x".to_vec(), 4));
    let p = b.outbound.seal(b"y", 4).unwrap();
    assert_eq!(a.inbound.open(&p).unwrap(), (b"y".to_vec(), 4));
}

#[test]
fn response_answers_its_request() {
    let (init_sa, resp_sa) = sa_pair();
    let req = build_rekey_request(&init_sa, 77, 1, 2, &[3; 16], &[1; 8]).unwrap();
    let h = IkeHeader::parse(&req).unwrap();
    assert_eq!((h.initiator_spi, h.responder_spi, h.message_id), (0xA1, 0xB2, 77));
    assert_eq!(h.exchange_type, ExchangeType::CreateChildSa);
    assert!(h.flags.initiator && !h.flags.response && !h.flags.version);
    let (resp, _) = responder_process_rekey(&resp_sa, &req, 9, &[4; 16], &[2; 8], None).unwrap();
    let h = IkeHeader::parse(&resp).unwrap();
    assert_eq!((h.initiator_spi, h.responder_spi, h.message_id), (0xA1, 0xB2, 77));
    assert_eq!(h.exchange_type, ExchangeType::CreateChildSa);
    assert!(!h.flags.initiator && h.flags.response);
    assert_eq!(h.next_payload, PayloadType::Encrypted);
}

#[test]
fn request_carries_its_payloads() {
    let (init_sa, resp_sa) = sa_pair();
    let req = build_rekey_request(&init_sa, 2, 0xDEAD_BEEF, 0x1111_1111, &[3; 16], &[1; 8]).unwrap();
    let (first, inner) = open_encrypted_gcm(&req, peer_sk_e(&resp_sa)).unwrap();
    let list = payloads(first, &inner).unwrap();
    let types: Vec<PayloadType> = list.iter().map(|p| p.payload_type).collect();
    assert_eq!(
        types,
        [
            PayloadType::Notify,
            PayloadType::SecurityAssociation,
            PayloadType::Nonce,
            PayloadType::TrafficSelectorInitiator,
            PayloadType::TrafficSelectorResponder,
        ],
    );
    assert_eq!(list[0].data, [3, 4, 0x40, 0x09, 0xDE, 0xAD, 0xBE, 0xEF]);
    assert_eq!(esp_spi_from_sa(list[1].data).unwrap(), 0x1111_1111);
    assert_eq!(list[2].data, [3; 16]);
    assert_eq!(list[3].data, full_tunnel_ts());
    assert_eq!(list[4].data, full_tunnel_ts());
    let (sa_body, nonce) = find_sa_and_nonce(first, &inner).unwrap();
    assert_eq!(sa_body, esp_offer(0x1111_1111).to_bytes());
    assert_eq!(nonce, [3; 16]);
}

#[test]
fn selectors_have_exact_bytes() {
    assert_eq!(
        full_tunnel_ts(),
        [1, 0, 0, 0, 7, 0, 0, 16, 0, 0, 0xff, 0xff, 0, 0, 0, 0, 255, 255, 255, 255],
    );
    assert_eq!(
        host_tunnel_ts(Ipv4Addr::new(10, 8, 0, 7)),
        [1, 0, 0, 0, 7, 0, 0, 16, 0, 0, 0xff, 0xff, 10, 8, 0, 7, 10, 8, 0, 7],
    );
}

#[test]
fn missing_selectors_are_full_tunnel() {
    let (_, resp_sa) = sa_pair();
    let request = vec![
        (PayloadType::SecurityAssociation, esp_offer(5).to_bytes()),
        (PayloadType::Nonce, vec![1; 16]),
    ];
    let bytes = encode_payload_chain(&request);
    let (reply, child) =
        reply_to_rekey(&resp_sa, PayloadType::SecurityAssociation, &bytes, 6, &[2; 16], None).unwrap();
    assert_eq!((child.outbound.spi(), child.inbound.spi()), (5, 6));
    let expected = vec![
        (PayloadType::SecurityAssociation, esp_offer(6).to_bytes()),
        (PayloadType::Nonce, vec![2; 16]),
        (PayloadType::TrafficSelectorInitiator, full_tunnel_ts()),
        (PayloadType::TrafficSelectorResponder, full_tunnel_ts()),
    ];
    assert_eq!(reply, encode_payload_chain(&expected));
}

#[test]
fn the_last_of_repeated_payloads_counts() {
    let (_, resp_sa) = sa_pair();
    let request = vec![
        (PayloadType::SecurityAssociation, esp_offer(1).to_bytes()),
        (PayloadType::Nonce, vec![1; 16]),
        (PayloadType::TrafficSelectorInitiator, vec![1]),
        (PayloadType::SecurityAssociation, esp_offer(2).to_bytes()),
        (PayloadType::Nonce, vec![2; 16]),
        (PayloadType::TrafficSelectorInitiator, vec![2]),
        (PayloadType::TrafficSelectorResponder, vec![3]),
    ];
    let bytes = encode_payload_chain(&request);
    assert_eq!(
        find_sa_and_nonce(PayloadType::SecurityAssociation, &bytes).unwrap(),
        (esp_offer(2).to_bytes(), vec![2; 16]),
    );
    let (reply, child) =
        reply_to_rekey(&resp_sa, PayloadType::SecurityAssociation, &bytes, 6, &[9; 16], None).unwrap();
    assert_eq!(child.outbound.spi(), 2);
    let list = payloads(PayloadType::SecurityAssociation, &reply).unwrap();
    assert_eq!(list[2].data, [2]);
    assert_eq!(list[3].data, [3]);
}

#[test]
fn incomplete_chains_are_refused() {
    let only_nonce = encode_payload_chain(&[(PayloadType::Nonce, vec![1; 16])]);
    assert_eq!(
        find_sa_and_nonce(PayloadType::Nonce, &only_nonce).unwrap_err(),
        IkeError::MissingPayload("SA"),
    );
    let only_sa = encode_payload_chain(&[(PayloadType::SecurityAssociation, vec![])]);
    assert_eq!(
        find_sa_and_nonce(PayloadType::SecurityAssociation, &only_sa).unwrap_err(),
        IkeError::MissingPayload("Nonce"),
    );
    assert_eq!(find_sa_and_nonce(PayloadType::NoNext, &[]).unwrap_err(), IkeError::MissingPayload("SA"));
    assert_eq!(
        find_sa_and_nonce(PayloadType::Nonce, &[0, 0, 0]).unwrap_err(),
        IkeError::Truncated { need: 4, have: 3 },
    );
}

#[test]
fn offers_without_a_usable_spi_are_refused() {
    assert_eq!(esp_spi_from_sa(&[]).unwrap_err(), IkeError::NoProposalChosen);
    let long = SecurityAssociation {
        proposals: vec![Proposal { number: 1, protocol_id: protocol_id::ESP, spi: vec![1; 8], transforms: vec![] }],
    };
    assert_eq!(
        esp_spi_from_sa(&long.to_bytes()).unwrap_err(),
        IkeError::Crypto("expected a 4-byte ESP SPI"),
    );
    assert_eq!(esp_spi_from_sa(&[0, 0]).unwrap_err(), IkeError::Truncated { need: 8, have: 2 });
    assert_eq!(esp_spi_from_sa(&esp_offer(0x0102_0304).to_bytes()).unwrap(), 0x0102_0304);
}

#[test]
fn rekeys_under_the_wrong_key_are_refused() {
    let (init_sa, resp_sa) = sa_pair();
    let req = build_rekey_request(&init_sa, 2, 1, 2, &[3; 16], &[1; 8]).unwrap();
    // Our own request is not a request of the peer's.
    assert!(matches!(
        responder_process_rekey(&init_sa, &req, 9, &[4; 16], &[2; 8], None),
        Err(IkeError::BadIntegrity)
    ));
    assert!(matches!(
        responder_process_rekey(&resp_sa, &req[..27], 9, &[4; 16], &[2; 8], None),
        Err(IkeError::Truncated { need: 28, have: 27 })
    ));
    let (resp, _) = responder_process_rekey(&resp_sa, &req, 9, &[4; 16], &[2; 8], None).unwrap();
    let mut forged = resp;
    let last = forged.len() - 1;
    forged[last] ^= 1;
    assert!(matches!(
        initiator_complete_rekey(&init_sa, &[3; 16], 2, &forged),
        Err(IkeError::BadIntegrity)
    ));
}

#[test]
fn keys_of_another_length_build_nothing() {
    let mut sa = sa_of(Role::Initiator);
    sa.keys.sk_ei = vec![0; 32];
    assert!(matches!(build_rekey_request(&sa, 2, 1, 2, &[3; 16], &[1; 8]), Err(IkeError::Crypto(_))));
}

#[test]
fn what_one_end_encrypts_with_the_other_decrypts_with() {
    let (init_sa, resp_sa) = sa_pair();
    assert_eq!(our_sk_e(&init_sa), peer_sk_e(&resp_sa));
    assert_eq!(peer_sk_e(&init_sa), our_sk_e(&resp_sa));
    assert_ne!(our_sk_e(&init_sa), our_sk_e(&resp_sa));
}

#[test]
fn request_and_reply_have_their_lengths() {
    let (init_sa, resp_sa) = sa_pair();
    let req = build_rekey_request(&init_sa, 2, 1, 2, &[3; 16], &[1; 8]).unwrap();
    let (_, inner) = open_encrypted_gcm(&req, our_sk_e(&init_sa)).unwrap();
    assert_eq!(inner.len(), 16 + 100);
    let (resp, _) = responder_process_rekey(&resp_sa, &req, 9, &[4; 24], &[2; 8], None).unwrap();
    let (first, inner) = open_encrypted_gcm(&resp, our_sk_e(&resp_sa)).unwrap();
    assert_eq!(first, PayloadType::SecurityAssociation);
    assert_eq!(inner.len(), 24 + 20 + 20 + 48);
}

#[test]
fn a_rekey_completes_for_either_role_and_with_any_assignment() {
    for role in [Role::Initiator, Role::Responder] {
        for assigned in [None, Some(Ipv4Addr::new(10, 8, 0, 7))] {
            for len in [0usize, 16, 256] {
                let (a, b) = (sa_of(role), sa_of(role.peer()));
                let (ni, nr) = (vec![5u8; len], vec![6u8; len]);
                let req = build_rekey_request(&a, 3, 9, 0x0A, &ni, &[1; 8]).unwrap();
                let (resp, mut rc) = responder_process_rekey(&b, &req, 0x0B, &nr, &[2; 8], assigned).unwrap();
                let mut ic = initiator_complete_rekey(&a, &ni, 0x0A, &resp).unwrap();
                assert_eq!((ic.outbound.spi(), ic.inbound.spi()), (0x0B, 0x0A));
                assert_eq!((rc.outbound.spi(), rc.inbound.spi()), (0x0A, 0x0B));
                let p = ic.outbound.seal(b"a", 4).unwrap();
                assert_eq!(p[4..8], [0, 0, 0, 1]); // fresh: the first packet
                assert_eq!(rc.inbound.open(&p).unwrap(), (b"a".to_vec(), 4));
                let q = rc.outbound.seal(b"b", 4).unwrap();
                assert_eq!(q[4..8], [0, 0, 0, 1]);
                assert_eq!(ic.inbound.open(&q).unwrap(), (b"b".to_vec(), 4));
            }
        }
    }
}

#[test]
fn the_longest_nonces_complete() {
    let (a, b) = sa_pair();
    let (ni, nr) = (vec![5u8; REQUEST_MAX_NONCE], vec![6u8; REPLY_MAX_NONCE]);
    let req = build_rekey_request(&a, 3, 9, 1, &ni, &[1; 8]).unwrap();
    let (resp, _) = responder_process_rekey(&b, &req, 2, &nr, &[2; 8], None).unwrap();
    assert!(initiator_complete_rekey(&a, &ni, 1, &resp).is_ok());
    // One byte more no longer fits the length field.
    let longer = vec![6u8; REPLY_MAX_NONCE + 1];
    let (resp, _) = responder_process_rekey(&b, &req, 2, &longer, &[2; 8], None).unwrap();
    assert!(matches!(initiator_complete_rekey(&a, &ni, 1, &resp), Err(IkeError::BadLength { .. })));
}
