use ryke::error::IkeError;
use ryke::ikev2::message::{ExchangeType, Flags, IkeHeader, PayloadType};
use ryke::ikev2::sk::{build_encrypted_gcm, gcm_nonce, open_encrypted_gcm, split_key, strip_padding, SK_MAX_INNER};

fn hex(s: &str) -> Vec<u8> {
    (0..s.len()).step_by(2).map(|i| u8::from_str_radix(&s[i..i + 2], 16).unwrap()).collect()
}

fn header() -> IkeHeader {
    IkeHeader {
        initiator_spi: 0x1111_2222_3333_4444,
        responder_spi: 0x5555_6666_7777_8888,
        next_payload: PayloadType::NoNext,
        major_version: 2,
        minor_version: 0,
        exchange_type: ExchangeType::IkeAuth,
        flags: Flags { initiator: true, version: false, response: false },
        message_id: 1,
        length: 0,
    }
}

#[test]
fn sk_seal_open_roundtrip() {
    let sk_e = [0x42u8; 36];
    let iv = [1u8, 2, 3, 4, 5, 6, 7, 8];
    let inner = vec![0xABu8; 40];
    let msg = build_encrypted_gcm(header(), PayloadType::IdInitiator, &inner, &sk_e, &iv).unwrap();

    let h = IkeHeader::parse(&msg).unwrap();
    assert_eq!(h.next_payload, PayloadType::Encrypted);
    assert_eq!(h.length as usize, msg.len());

    let (first, out) = open_encrypted_gcm(&msg, &sk_e).unwrap();
    assert_eq!(first, PayloadType::IdInitiator);
    assert_eq!(out, inner);
}

#[test]
fn empty_inner_roundtrips() {
    let sk_e = [5u8; 36];
    let msg = build_encrypted_gcm(header(), PayloadType::NoNext, &[], &sk_e, &[0u8; 8]).unwrap();
    let (first, out) = open_encrypted_gcm(&msg, &sk_e).unwrap();
    assert_eq!(first, PayloadType::NoNext);
    assert!(out.is_empty());
}

#[test]
fn wrong_key_fails_authentication() {
    let sk_e = [0x42u8; 36];
    let msg = build_encrypted_gcm(header(), PayloadType::Nonce, &[1, 2, 3, 4], &sk_e, &[9u8; 8]).unwrap();
    let mut bad = sk_e;
    bad[0] ^= 0xff;
    assert_eq!(open_encrypted_gcm(&msg, &bad).unwrap_err(), IkeError::BadIntegrity);
}

#[test]
fn tampering_fails_authentication() {
    let sk_e = [7u8; 36];
    let mut msg = build_encrypted_gcm(header(), PayloadType::Nonce, &[9, 9, 9, 9], &sk_e, &[3u8; 8]).unwrap();
    let last = msg.len() - 1;
    msg[last] ^= 0x01; // flip a tag byte
    assert_eq!(open_encrypted_gcm(&msg, &sk_e).unwrap_err(), IkeError::BadIntegrity);
}

#[test]
fn rejects_wrong_key_length() {
    let short = [0u8; 32]; // missing the 4-byte salt
    assert!(matches!(
        build_encrypted_gcm(header(), PayloadType::Nonce, &[], &short, &[0u8; 8]),
        Err(IkeError::Crypto(_))
    ));
}

#[test]
fn encrypted_message_has_exact_bytes() {
    let msg = build_encrypted_gcm(header(), PayloadType::Nonce, &[1, 2, 3, 4], &[0x42; 36], &[9; 8]).unwrap();
    assert_eq!(
        msg,
        hex("111122223333444455556666777788882e202308000000010000003d2800002109090909090909095bd6158fe0a3a49cd9c5bb94acce185c08862c5a25"),
    );
}

#[test]
fn associated_data_is_authenticated() {
    let sk_e = [7u8; 36];
    let msg = build_encrypted_gcm(header(), PayloadType::Nonce, &[9; 4], &sk_e, &[3; 8]).unwrap();
    let kept = [16usize, 30, 31];
    for at in (0..32).filter(|at| !kept.contains(at)) {
        for bit in 0..8 {
            let mut bad = msg.clone();
            bad[at] ^= 1 << bit;
            assert_eq!(open_encrypted_gcm(&bad, &sk_e).unwrap_err(), IkeError::BadIntegrity);
        }
    }
}

#[test]
fn malformed_messages_are_refused() {
    let sk_e = [7u8; 36];
    let msg = build_encrypted_gcm(header(), PayloadType::Nonce, &[9; 4], &sk_e, &[3; 8]).unwrap();
    assert_eq!(
        open_encrypted_gcm(&msg, &[0; 35]).unwrap_err(),
        IkeError::Crypto("SK_e must be 36 bytes (32-byte AES-256 key + 4-byte GCM salt)"),
    );
    assert_eq!(open_encrypted_gcm(&msg[..27], &sk_e).unwrap_err(), IkeError::Truncated { need: 28, have: 27 });
    assert_eq!(open_encrypted_gcm(&msg[..31], &sk_e).unwrap_err(), IkeError::Truncated { need: 4, have: 3 });
    assert_eq!(
        open_encrypted_gcm(&msg[..msg.len() - 1], &sk_e).unwrap_err(),
        IkeError::BadLength { declared: 33, available: 32 },
    );
    let mut short = msg.clone();
    short[30] = 0;
    short[31] = 27;
    assert_eq!(open_encrypted_gcm(&short, &sk_e).unwrap_err(), IkeError::BadLength { declared: 27, available: 33 });
    let mut other = msg.clone();
    other[16] = 41;
    assert_eq!(open_encrypted_gcm(&other, &sk_e).unwrap_err(), IkeError::MissingPayload("SK"));
    // Bytes after the SK payload do not matter.
    let mut longer = msg;
    longer.push(0xff);
    assert_eq!(open_encrypted_gcm(&longer, &sk_e).unwrap(), (PayloadType::Nonce, vec![9; 4]));
}

#[test]
fn longest_inner_chain_roundtrips_and_a_longer_one_does_not() {
    let sk_e = [7u8; 36];
    let inner = vec![1u8; SK_MAX_INNER];
    let msg = build_encrypted_gcm(header(), PayloadType::Nonce, &inner, &sk_e, &[3; 8]).unwrap();
    assert_eq!(open_encrypted_gcm(&msg, &sk_e).unwrap(), (PayloadType::Nonce, inner.clone()));
    let inner = vec![1u8; SK_MAX_INNER + 1];
    let msg = build_encrypted_gcm(header(), PayloadType::Nonce, &inner, &sk_e, &[3; 8]).unwrap();
    assert_eq!(
        open_encrypted_gcm(&msg, &sk_e).unwrap_err(),
        IkeError::BadLength { declared: 0, available: 65536 },
    );
}

#[test]
fn padding_comes_off() {
    assert_eq!(strip_padding(&[1, 2, 0], "empty", "excess").unwrap(), [1, 2]);
    assert_eq!(strip_padding(&[1, 2, 9, 1], "empty", "excess").unwrap(), [1, 2]);
    assert_eq!(strip_padding(&[0], "empty", "excess").unwrap(), Vec::<u8>::new());
    assert_eq!(strip_padding(&[], "empty", "excess").unwrap_err(), IkeError::Crypto("empty"));
    assert_eq!(strip_padding(&[9, 2], "empty", "excess").unwrap_err(), IkeError::Crypto("excess"));
}

#[test]
fn keys_split_and_nonces_join() {
    let sk_e: Vec<u8> = (0..36).collect();
    let (key, salt) = split_key(&sk_e).unwrap();
    assert_eq!(key, &sk_e[..32]);
    assert_eq!(salt, [32, 33, 34, 35]);
    assert_eq!(gcm_nonce(salt, &[1; 8]), [32, 33, 34, 35, 1, 1, 1, 1, 1, 1, 1, 1]);
}
