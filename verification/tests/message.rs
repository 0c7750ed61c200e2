use ryke::error::IkeError;
use ryke::ikev2::ike_auth::esp_offer;
use ryke::ikev2::message::{
    encode_payload_chain, find_last, first_payload_type, payloads, ExchangeType, Flags, IkeHeader, PayloadType,
};
use ryke::ikev2::payload::{Notify, TrafficSelectors};
use ryke::ikev2::sa::SecurityAssociation;

fn header() -> IkeHeader {
    IkeHeader {
        initiator_spi: 0x0102_0304_0506_0708,
        responder_spi: 0x1112_1314_1516_1718,
        next_payload: PayloadType::SecurityAssociation,
        major_version: 2,
        minor_version: 0,
        exchange_type: ExchangeType::IkeSaInit,
        flags: Flags { initiator: true, version: false, response: true },
        message_id: 0x2122_2324,
        length: 0x3132_3334,
    }
}

#[test]
fn header_has_exact_bytes_and_is_read_back() {
    let bytes = header().to_bytes();
    assert_eq!(
        bytes,
        [
            1, 2, 3, 4, 5, 6, 7, 8, 0x11, 0x12, 0x13, 0x14, 0x15, 0x16, 0x17, 0x18, 33, 0x20, 34, 0x28, 0x21, 0x22,
            0x23, 0x24, 0x31, 0x32, 0x33, 0x34,
        ],
    );
    assert_eq!(IkeHeader::parse(&bytes).unwrap(), header());
    let mut longer = bytes.clone();
    longer.extend_from_slice(b"rest");
    assert_eq!(IkeHeader::parse(&longer).unwrap(), header());
    assert_eq!(IkeHeader::parse(&bytes[..27]).unwrap_err(), IkeError::Truncated { need: 28, have: 27 });
}

#[test]
fn payload_numbers_are_faithful() {
    for code in 0..=255u8 {
        assert_eq!(PayloadType::from_u8(code).to_u8(), code);
        assert_eq!(ExchangeType::from_u8(code).to_u8(), code);
    }
    assert_eq!(PayloadType::from_u8(46), PayloadType::Encrypted);
    assert_eq!(PayloadType::from_u8(53), PayloadType::EncryptedFragment);
    assert_eq!(PayloadType::from_u8(200), PayloadType::Unknown(200));
    assert_eq!(ExchangeType::from_u8(36), ExchangeType::CreateChildSa);
}

#[test]
fn chains_are_read_back() {
    let chain = vec![(PayloadType::Nonce, vec![1, 2, 3]), (PayloadType::Notify, vec![]), (PayloadType::Nonce, vec![4])];
    let bytes = encode_payload_chain(&chain);
    assert_eq!(bytes, [41, 0, 0, 7, 1, 2, 3, 40, 0, 0, 4, 0, 0, 0, 5, 4]);
    assert_eq!(first_payload_type(&chain), PayloadType::Nonce);
    let list = payloads(PayloadType::Nonce, &bytes).unwrap();
    let read: Vec<(PayloadType, Vec<u8>)> = list.iter().map(|p| (p.payload_type, p.data.to_vec())).collect();
    assert_eq!(read, chain);
    assert_eq!(find_last(&list, PayloadType::Nonce).unwrap(), [4]);
    assert!(find_last(&list, PayloadType::Delete).is_none());
    assert_eq!(first_payload_type(&[]), PayloadType::NoNext);
    assert_eq!(encode_payload_chain(&[]), Vec::<u8>::new());
    assert_eq!(payloads(PayloadType::NoNext, &[1, 2]).unwrap().len(), 0);
}

#[test]
fn malformed_chains_are_refused() {
    assert!(matches!(payloads(PayloadType::Nonce, &[0, 0]), Err(IkeError::Truncated { need: 4, have: 2 })));
    assert!(matches!(
        payloads(PayloadType::Nonce, &[0, 0, 0, 3]),
        Err(IkeError::BadLength { declared: 3, available: 4 })
    ));
    assert!(matches!(
        payloads(PayloadType::Nonce, &[0, 0, 0, 9, 1]),
        Err(IkeError::BadLength { declared: 9, available: 5 })
    ));
    // The second payload is announced and not there.
    assert!(matches!(payloads(PayloadType::Nonce, &[41, 0, 0, 4]), Err(IkeError::Truncated { need: 4, have: 0 })));
}

#[test]
fn esp_offer_has_exact_bytes_and_is_read_back() {
    let bytes = esp_offer(0x0102_0304).to_bytes();
    assert_eq!(
        bytes,
        [
            0, 0, 0, 32, 1, 3, 4, 2, 1, 2, 3, 4, // proposal, SPI
            3, 0, 0, 12, 1, 0, 0, 20, 0x80, 0x0e, 0x01, 0x00, // AES-GCM-16, 256-bit key
            0, 0, 0, 8, 5, 0, 0, 0, // no extended sequence numbers
        ],
    );
    let sa = SecurityAssociation::parse(&bytes).unwrap();
    assert_eq!(sa.proposals.len(), 1);
    let p = &sa.proposals[0];
    assert_eq!((p.number, p.protocol_id, &p.spi[..]), (1, 3, &[1u8, 2, 3, 4][..]));
    assert_eq!(p.transforms.len(), 2);
    assert_eq!((p.transforms[0].transform_type, p.transforms[0].transform_id), (1, 20));
    assert_eq!(p.transforms[0].attributes, [0x80, 0x0e, 0x01, 0x00]);
    assert_eq!((p.transforms[1].transform_type, p.transforms[1].transform_id), (5, 0));
    assert_eq!(sa.to_bytes(), bytes);
}

#[test]
fn malformed_offers_are_refused() {
    let bytes = esp_offer(1).to_bytes();
    assert!(matches!(
        SecurityAssociation::parse(&bytes[..7]),
        Err(IkeError::Truncated { need: 8, have: 7 })
    ));
    assert!(matches!(
        SecurityAssociation::parse(&bytes[..31]),
        Err(IkeError::BadLength { declared: 32, available: 31 })
    ));
    assert_eq!(SecurityAssociation::parse(&[]).unwrap().proposals.len(), 0);
}

#[test]
fn notifications_and_selectors_have_exact_bytes() {
    let n = Notify { protocol_id: 3, spi: vec![1, 2, 3, 4], notify_type: 16393, data: vec![9] };
    assert_eq!(n.to_bytes(), [3, 4, 0x40, 0x09, 1, 2, 3, 4, 9]);
    assert_eq!(Notify::status(16388, vec![7]).to_bytes(), [0, 0, 0x40, 0x04, 7]);
    assert_eq!(TrafficSelectors { selectors: vec![] }.to_bytes(), [0, 0, 0, 0]);
}
