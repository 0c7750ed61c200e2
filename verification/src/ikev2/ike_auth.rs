//! The ESP proposal that this library makes.

use vstd::prelude::*;
use vstd::slice::slice_to_vec;

use crate::bytes::{be16, be32, u32_to_be};
use crate::error::IkeError;
use crate::ikev2::payload::protocol_id;
use crate::ikev2::payload::{Proposal, SecurityAssociation, Transform};
use crate::ikev2::sa::{parsed_proposals, proposal_bytes, proposal_len, proposal_representable};
use crate::ikev2::sa::{proposals_survive_the_wire, sa_bytes, transform_bytes, transform_representable};
use crate::ikev2::sa::{ transforms_bytes, ProposalModel, TransformModel};

verus! {

/// Transform type: encryption algorithm.
pub const TRANSFORM_ENCR: u8 = 1;

/// Transform type: extended sequence numbers.
pub const TRANSFORM_ESN: u8 = 5;

/// AES-GCM with a 16-byte tag.
pub const ENCR_AES_GCM_16: u16 = 20;

/// No extended sequence numbers.
pub const ESN_NONE: u16 = 0;

/// The one proposal: ESP on `spi`, AES-GCM with a 256-bit key and a 16-byte tag,
/// 32-bit sequence numbers.
pub open spec fn esp_offer_model(spi: u32) -> Seq<ProposalModel> {
    seq![
        ProposalModel {
            number: 1,
            protocol_id: protocol_id::ESP,
            spi: be32(spi),
            transforms: seq![
                TransformModel {
                    transform_type: TRANSFORM_ENCR,
                    transform_id: ENCR_AES_GCM_16,
                    attributes: seq![0x80u8, 0x0e, 0x01, 0x00],
                },
                TransformModel {
                    transform_type: TRANSFORM_ESN,
                    transform_id: ESN_NONE,
                    attributes: Seq::empty(),
                },
            ],
        },
    ]
}

/// The Security Association payload that offers ESP with AES-GCM-256 on `spi`.
pub fn esp_offer(spi: u32) -> (r: SecurityAssociation)
    ensures
        r@ == esp_offer_model(spi),
{
    // Key Length attribute: 256 bits.
    let key_length: [u8; 4] = [0x80, 0x0e, 0x01, 0x00];
    let encr = Transform {
        transform_type: TRANSFORM_ENCR,
        transform_id: ENCR_AES_GCM_16,
        attributes: slice_to_vec(&key_length),
    };
    let esn = Transform { transform_type: TRANSFORM_ESN, transform_id: ESN_NONE, attributes: Vec::new() };
    let mut transforms: Vec<Transform> = Vec::new();
    transforms.push(encr);
    transforms.push(esn);
    let spi_bytes = u32_to_be(spi);
    let proposal = Proposal {
        number: 1,
        protocol_id: protocol_id::ESP,
        spi: slice_to_vec(&spi_bytes),
        transforms,
    };
    let ghost expected = esp_offer_model(spi)[0];
    assert(proposal@ == expected) by {
        assert(proposal@.transforms[0] =~= expected.transforms[0]);
        assert(proposal@.transforms[1] =~= expected.transforms[1]);
        assert(proposal@.transforms =~= expected.transforms);
        assert(proposal@ =~= expected);
    }
    let mut proposals: Vec<Proposal> = Vec::new();
    proposals.push(proposal);
    let r = SecurityAssociation { proposals };
    assert(r@ =~= esp_offer_model(spi));
    r
}

/// How long the payload is.
pub proof fn offer_length(spi: u32)
    ensures
        sa_bytes(esp_offer_model(spi)).len() == 32,
{
    let p = esp_offer_model(spi)[0];
    reveal_with_fuel(transforms_bytes, 3);
    reveal_with_fuel(sa_bytes, 2);
    assert(p.transforms.drop_first().drop_first().len() == 0);
    assert(transforms_bytes(p.transforms).len() == 20);
    assert(esp_offer_model(spi).drop_first().len() == 0);
}

/// Law: the proposal is read back from its payload as it was made.
pub proof fn offer_survives_the_wire(spi: u32)
    ensures
        parsed_proposals(sa_bytes(esp_offer_model(spi))) == Ok::<Seq<ProposalModel>, IkeError>(esp_offer_model(spi)),
{
    let offer = esp_offer_model(spi);
    let p = offer[0];
    reveal_with_fuel(transforms_bytes, 3);
    assert(transforms_bytes(p.transforms).len() == 20) by {
        assert(p.transforms.drop_first().drop_first().len() == 0);
    }
    assert forall|i: int| 0 <= i < p.transforms.len() implies transform_representable(#[trigger] p.transforms[i]) by {}
    assert(proposal_representable(p));
    proposals_survive_the_wire(offer);
}

/// Law: the offer on the wire. One proposal, number 1, for ESP with a 4-byte SPI and
/// two transforms: encryption with AES-GCM, 16-byte tag and a 256-bit key, and no
/// extended sequence numbers.
pub proof fn offer_layout(spi: u32)
    ensures
        sa_bytes(esp_offer_model(spi)) == seq![0u8, 0, 0, 32, 1, 3, 4, 2] + be32(spi) + seq![
            3u8, 0, 0, 12, 1, 0, 0, 20, 0x80, 0x0e, 0x01, 0x00,
        ] + seq![0u8, 0, 0, 8, 5, 0, 0, 0],
{
    let offer = esp_offer_model(spi);
    let p = offer[0];
    let (encr, esn) = (p.transforms[0], p.transforms[1]);
    assert(be16(32) =~= seq![0u8, 32] && be16(12) =~= seq![0u8, 12] && be16(20) =~= seq![0u8, 20] && be16(8) =~= seq![
        0u8,
        8,
    ] && be16(0) =~= seq![0u8, 0]) by {
        assert((32u16 >> 8) as u8 == 0 && 32u16 as u8 == 32 && (12u16 >> 8) as u8 == 0 && 12u16 as u8 == 12 && (20u16
            >> 8) as u8 == 0 && 20u16 as u8 == 20 && (8u16 >> 8) as u8 == 0 && 8u16 as u8 == 8 && (0u16 >> 8) as u8 == 0
            && 0u16 as u8 == 0) by (bit_vector);
    }
    let encr_bytes = seq![3u8, 0, 0, 12, 1, 0, 0, 20, 0x80, 0x0e, 0x01, 0x00];
    let esn_bytes = seq![0u8, 0, 0, 8, 5, 0, 0, 0];
    assert(transform_bytes(encr, false) =~= encr_bytes);
    assert(transform_bytes(esn, true) =~= esn_bytes);
    assert(transforms_bytes(p.transforms) =~= encr_bytes + esn_bytes) by {
        reveal_with_fuel(transforms_bytes, 3);
        assert(p.transforms.drop_first() =~= seq![esn]);
        assert(p.transforms.drop_first().drop_first().len() == 0);
    }
    assert(proposal_len(p) == 32);
    assert(proposal_bytes(p, true) =~= seq![0u8, 0, 0, 32, 1, 3, 4, 2] + be32(spi) + encr_bytes + esn_bytes);
    assert(offer.drop_first().len() == 0);
    assert(sa_bytes(offer.drop_first()) =~= Seq::<u8>::empty());
    assert(sa_bytes(offer) =~= proposal_bytes(p, true));
}

} // verus!
