use ryke::error::IkeError;
use ryke::esp::{add_trailer, next_header, strip_trailer, ChildSa, EspSa, ESP_HEADER_LEN, IV_LEN};
use ryke::primitives::GCM_TAG_LEN;
use ryke::role::Role;

fn hex(s: &str) -> Vec<u8> {
    (0..s.len()).step_by(2).map(|i| u8::from_str_radix(&s[i..i + 2], 16).unwrap()).collect()
}

#[test]
fn esp_seal_open_roundtrip() {
    let km = [0x42u8; 36];
    let mut tx = EspSa::new(0xCAFE_BABE, &km).unwrap();
    let rx = EspSa::new(0xCAFE_BABE, &km).unwrap();

    let inner = b"a pretend inner IP packet with some length".to_vec();
    let packet = tx.seal(&inner, next_header::IPV4).unwrap();
    assert_eq!(&packet[0..4], &0xCAFE_BABEu32.to_be_bytes()); // SPI on the wire

    let (out, nh) = rx.open(&packet).unwrap();
    assert_eq!(out, inner);
    assert_eq!(nh, next_header::IPV4);
}

#[test]
fn various_lengths_roundtrip_with_correct_padding() {
    let km = [9u8; 36];
    for len in 0..40 {
        let mut tx = EspSa::new(1, &km).unwrap();
        let rx = EspSa::new(1, &km).unwrap();
        let inner: Vec<u8> = (0..len as u8).collect();
        let packet = tx.seal(&inner, next_header::IPV6).unwrap();
        // ciphertext (after SPI|Seq|IV, before the 16-byte tag) is 4-aligned.
        let ct_len = packet.len() - ESP_HEADER_LEN - IV_LEN - GCM_TAG_LEN;
        assert_eq!(ct_len % 4, 0, "len {len}");
        let (out, nh) = rx.open(&packet).unwrap();
        assert_eq!(out, inner);
        assert_eq!(nh, next_header::IPV6);
    }
}

#[test]
fn sequence_increments_and_nonces_differ() {
    let mut tx = EspSa::new(1, &[1u8; 36]).unwrap();
    let p1 = tx.seal(b"x", 4).unwrap();
    let p2 = tx.seal(b"x", 4).unwrap();
    assert_ne!(&p1[4..8], &p2[4..8]); // sequence number advanced
    assert_ne!(p1, p2); // distinct ciphertext (distinct nonce)
}

#[test]
fn wrong_spi_is_rejected() {
    let mut tx = EspSa::new(10, &[2u8; 36]).unwrap();
    let rx = EspSa::new(11, &[2u8; 36]).unwrap();
    let packet = tx.seal(b"hello", 4).unwrap();
    assert!(matches!(rx.open(&packet), Err(IkeError::Crypto(_))));
}

#[test]
fn tampering_and_wrong_key_are_rejected() {
    let mut tx = EspSa::new(5, &[3u8; 36]).unwrap();
    let rx = EspSa::new(5, &[3u8; 36]).unwrap();
    let mut packet = tx.seal(b"hello world", 4).unwrap();
    let last = packet.len() - 1;
    packet[last] ^= 1;
    assert_eq!(rx.open(&packet).unwrap_err(), IkeError::BadIntegrity);

    let mut tx2 = EspSa::new(5, &[7u8; 36]).unwrap();
    let rx2 = EspSa::new(5, &[8u8; 36]).unwrap();
    let good = tx2.seal(b"y", 4).unwrap();
    assert_eq!(rx2.open(&good).unwrap_err(), IkeError::BadIntegrity);
}

#[test]
fn packets_have_exact_bytes() {
    let km: Vec<u8> = (0..36).collect();
    let mut tx = EspSa::new(0x0102_0304, &km).unwrap();
    assert_eq!(tx.spi(), 0x0102_0304);
    assert_eq!(
        tx.seal(b"hello", next_header::IPV4).unwrap(),
        hex("0102030400000001000000000000000101ea57da396004defb232a40347de57f70655444a8587910"),
    );
    assert_eq!(
        tx.seal(b"hello", next_header::IPV4).unwrap(),
        hex("0102030400000002000000000000000252061e2fd1762cd22d41758de6d3beadf6cc09e67ca7f887"),
    );
}

#[test]
fn received_packets_are_decrypted() {
    let km: Vec<u8> = (0..36).collect();
    let rx = EspSa::new(0x0102_0304, &km).unwrap();
    let packet = hex("0102030400000001000000000000000101ea57da396004defb232a40347de57f70655444a8587910");
    assert_eq!(rx.open(&packet).unwrap(), (b"hello".to_vec(), 4));
    // A receiver keeps no window: the same packet opens again.
    assert_eq!(rx.open(&packet).unwrap(), (b"hello".to_vec(), 4));
}

#[test]
fn tampered_sequence_number_is_refused() {
    let mut tx = EspSa::new(5, &[3u8; 36]).unwrap();
    let rx = EspSa::new(5, &[3u8; 36]).unwrap();
    let mut packet = tx.seal(b"hello world", 4).unwrap();
    packet[7] ^= 1;
    assert_eq!(rx.open(&packet).unwrap_err(), IkeError::BadIntegrity);
}

#[test]
fn any_other_tag_is_refused() {
    let mut tx = EspSa::new(5, &[3u8; 36]).unwrap();
    let rx = EspSa::new(5, &[3u8; 36]).unwrap();
    let packet = tx.seal(b"hello world", 4).unwrap();
    for at in packet.len() - GCM_TAG_LEN..packet.len() {
        let mut forged = packet.clone();
        forged[at] ^= 0x80;
        assert_eq!(rx.open(&forged).unwrap_err(), IkeError::BadIntegrity);
    }
}

#[test]
fn altered_ciphertext_is_refused() {
    let mut tx = EspSa::new(5, &[3u8; 36]).unwrap();
    let rx = EspSa::new(5, &[3u8; 36]).unwrap();
    let packet = tx.seal(b"hello world", 4).unwrap();
    for at in 4..packet.len() {
        let mut bad = packet.clone();
        bad[at] ^= 1;
        assert_eq!(rx.open(&bad).unwrap_err(), IkeError::BadIntegrity);
    }
}

#[test]
fn short_packets_are_truncated() {
    let rx = EspSa::new(5, &[3u8; 36]).unwrap();
    assert_eq!(rx.open(&[0u8; 31]).unwrap_err(), IkeError::Truncated { need: 32, have: 31 });
    assert_eq!(rx.open(&[]).unwrap_err(), IkeError::Truncated { need: 32, have: 0 });
    // Long enough, but for another SPI; and for this one, but not authentic.
    assert_eq!(rx.open(&[0u8; 32]).unwrap_err(), IkeError::Crypto("ESP SPI does not match this SA"));
    let mut packet = vec![0u8; 32];
    packet[3] = 5;
    assert_eq!(rx.open(&packet).unwrap_err(), IkeError::BadIntegrity);
}

#[test]
fn key_material_of_another_length_is_refused() {
    for len in [0usize, 32, 35, 37] {
        assert!(matches!(
            EspSa::new(1, &vec![0u8; len]),
            Err(IkeError::Crypto("ESP key material must be 36 bytes (32-byte key + 4-byte salt)"))
        ));
    }
}

#[test]
fn trailers_pad_with_one_two_three() {
    assert_eq!(add_trailer(&[], 4), [1, 2, 2, 4]);
    assert_eq!(add_trailer(&[9], 4), [9, 1, 1, 4]);
    assert_eq!(add_trailer(&[9, 9], 41), [9, 9, 0, 41]);
    assert_eq!(add_trailer(&[9, 9, 9], 4), [9, 9, 9, 1, 2, 3, 3, 4]);
}

#[test]
fn trailers_come_off() {
    assert_eq!(strip_trailer(&[9, 1, 1, 4]).unwrap(), (vec![9], 4));
    assert_eq!(strip_trailer(&[0, 4]).unwrap(), (vec![], 4));
    // Padding bytes are not looked at.
    assert_eq!(strip_trailer(&[7, 7, 7, 2, 4]).unwrap(), (vec![7], 4));
    assert_eq!(strip_trailer(&[4]).unwrap_err(), IkeError::Crypto("ESP plaintext shorter than its trailer"));
    assert_eq!(strip_trailer(&[]).unwrap_err(), IkeError::Crypto("ESP plaintext shorter than its trailer"));
    assert_eq!(strip_trailer(&[1, 2, 3, 4]).unwrap_err(), IkeError::Crypto("ESP pad length exceeds plaintext"));
}

#[test]
fn both_ends_of_a_child_sa_interoperate() {
    let (sk_d, ni, nr) = ([7u8; 32], [0x33u8; 32], [0x44u8; 32]);
    let mut a = ChildSa::derive(&sk_d, &ni, &nr, Role::Initiator, 0x1111_1111, 0x2222_2222);
    let mut b = ChildSa::derive(&sk_d, &ni, &nr, Role::Responder, 0x2222_2222, 0x1111_1111);
    assert_eq!(a.outbound.spi(), 0x2222_2222);
    assert_eq!(a.inbound.spi(), 0x1111_1111);
    let p = a.outbound.seal(b"to b", 4).unwrap();
    assert_eq!(b.inbound.open(&p).unwrap(), (b"to b".to_vec(), 4));
    let q = b.outbound.seal(b"to a", 41).unwrap();
    assert_eq!(a.inbound.open(&q).unwrap(), (b"to a".to_vec(), 41));
    // The two directions have different keys.
    let c = EspSa::new(0x2222_2222, &hex("3ed3126ec5c6f920eb1c2af599e61eaeeb2991037b2839346ca92c6c04257c5208ed651c")).unwrap();
    assert_eq!(c.open(&p).unwrap_err(), IkeError::BadIntegrity);
}

#[test]
fn child_keys_have_exact_bytes() {
    let mut a = ChildSa::derive(&[7u8; 32], &[0x33u8; 32], &[0x44u8; 32], Role::Initiator, 0x1111_1111, 0x2222_2222);
    assert_eq!(
        a.outbound.seal(b"after rekey A->B", next_header::IPV4).unwrap(),
        hex("2222222200000001000000000000000112d7ad4f43cb4884dec3a9033b369d5f3f0c306d4484e0f6668d1ccdd45e8237471b9e12"),
    );
}
