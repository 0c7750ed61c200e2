use ryke::error::IkeError;
use ryke::ikev2::fragment::{
    assemble, build_fragment, build_fragments, open_fragment, reassemble, split_chunks, Fragment,
};
use ryke::ikev2::message::{ExchangeType, Flags, IkeHeader, PayloadType};

fn hex(s: &str) -> Vec<u8> {
    (0..s.len()).step_by(2).map(|i| u8::from_str_radix(&s[i..i + 2], 16).unwrap()).collect()
}

fn header() -> IkeHeader {
    IkeHeader {
        initiator_spi: 0x1111_2222_3333_4444,
        responder_spi: 0x5555_6666_7777_8888,
        next_payload: PayloadType::NoNext,
        major_version: 2,
        minor_version: 0,
        exchange_type: ExchangeType::IkeAuth,
        flags: Flags { initiator: true, version: false, response: false },
        message_id: 1,
        length: 0,
    }
}

fn fragment(frag_num: u16, total: u16, next_payload: u8, content: &[u8]) -> Fragment {
    Fragment { frag_num, total, next_payload, content: content.to_vec() }
}

#[test]
fn fragment_and_reassemble_roundtrip_any_order() {
    let sk_e = [0x33u8; 36];
    let inner: Vec<u8> = (0..=200u8).collect(); // 201 bytes
    let frags = build_fragments(&header(), PayloadType::IdInitiator, &inner, &sk_e, 1000, 30).unwrap();
    assert_eq!(frags.len(), 7); // ceil(201/30)

    for f in &frags {
        assert_eq!(IkeHeader::parse(f).unwrap().next_payload, PayloadType::EncryptedFragment);
    }

    // Reassemble from a shuffled order.
    let mut shuffled = frags.clone();
    shuffled.reverse();
    let (first, out) = reassemble(&shuffled, &sk_e).unwrap();
    assert_eq!(first, PayloadType::IdInitiator);
    assert_eq!(out, inner);
}

#[test]
fn single_fragment_when_it_fits() {
    let sk_e = [1u8; 36];
    let inner = vec![9u8; 10];
    let frags = build_fragments(&header(), PayloadType::Nonce, &inner, &sk_e, 5, 1000).unwrap();
    assert_eq!(frags.len(), 1);
    let (first, out) = reassemble(&frags, &sk_e).unwrap();
    assert_eq!(first, PayloadType::Nonce);
    assert_eq!(out, inner);
}

#[test]
fn missing_fragment_is_rejected() {
    let sk_e = [2u8; 36];
    let inner = vec![7u8; 100];
    let mut frags = build_fragments(&header(), PayloadType::IdInitiator, &inner, &sk_e, 1, 30).unwrap();
    frags.pop(); // drop the last fragment
    assert!(reassemble(&frags, &sk_e).is_err());
}

#[test]
fn tampered_fragment_fails_authentication() {
    let sk_e = [4u8; 36];
    let inner = vec![3u8; 80];
    let mut frags = build_fragments(&header(), PayloadType::IdInitiator, &inner, &sk_e, 1, 30).unwrap();
    let last = frags[0].len() - 1;
    frags[0][last] ^= 1; // corrupt a tag byte in the first fragment
    assert_eq!(reassemble(&frags, &sk_e).unwrap_err(), IkeError::BadIntegrity);
}

#[test]
fn fragments_have_exact_bytes() {
    let frags = build_fragments(&header(), PayloadType::IdInitiator, b"abcde", &[0x33; 36], 1000, 3).unwrap();
    assert_eq!(
        frags,
        [
            hex("11112222333344445555666677778888352023080000000100000040230000240001000200000000000003e96fcaedc2a063d990c92130bc716d8decb5ebbe4d"),
            hex("1111222233334444555566667777888835202308000000010000003f000000230002000200000000000003eabf26e957b7a82b16e2b53f607d86392303115a"),
        ],
    );
    let f = open_fragment(&frags[0], &[0x33; 36]).unwrap();
    assert_eq!((f.frag_num, f.total, f.next_payload, f.content), (1, 2, 35, b"abc".to_vec()));
    let f = open_fragment(&frags[1], &[0x33; 36]).unwrap();
    assert_eq!((f.frag_num, f.total, f.next_payload, f.content), (2, 2, 0, b"de".to_vec()));
}

#[test]
fn empty_message_is_one_fragment() {
    let frags = build_fragments(&header(), PayloadType::Nonce, &[], &[1; 36], 5, 10).unwrap();
    assert_eq!(frags.len(), 1);
    assert_eq!(reassemble(&frags, &[1; 36]).unwrap(), (PayloadType::Nonce, vec![]));
}

#[test]
fn every_arrival_order_gives_the_message() {
    let sk_e = [1u8; 36];
    let inner: Vec<u8> = (0..10).collect();
    let frags = build_fragments(&header(), PayloadType::Nonce, &inner, &sk_e, u64::MAX, 4).unwrap();
    assert_eq!(frags.len(), 3);
    for order in [[0usize, 1, 2], [0, 2, 1], [1, 0, 2], [1, 2, 0], [2, 0, 1], [2, 1, 0]] {
        let arrived: Vec<Vec<u8>> = order.iter().map(|&i| frags[i].clone()).collect();
        assert_eq!(reassemble(&arrived, &sk_e).unwrap(), (PayloadType::Nonce, inner.clone()));
    }
}

#[test]
fn initialization_vectors_of_fragments_differ() {
    let frags = build_fragments(&header(), PayloadType::Nonce, &[0; 9], &[1; 36], u64::MAX, 3).unwrap();
    let ivs: Vec<&[u8]> = frags.iter().map(|f| &f[36..44]).collect();
    // The counter wraps around.
    assert_eq!(ivs[0], [0, 0, 0, 0, 0, 0, 0, 0]);
    assert_eq!(ivs[1], [0, 0, 0, 0, 0, 0, 0, 1]);
    assert_eq!(ivs[2], [0, 0, 0, 0, 0, 0, 0, 2]);
}

#[test]
fn incomplete_and_repeated_sets_are_refused() {
    let sk_e = [2u8; 36];
    let frags = build_fragments(&header(), PayloadType::Nonce, &[7; 100], &sk_e, 1, 30).unwrap();
    assert_eq!(reassemble(&[], &sk_e).unwrap_err(), IkeError::Crypto("no fragments"));
    assert_eq!(reassemble(&frags[1..], &sk_e).unwrap_err(), IkeError::Crypto("wrong number of fragments"));
    let mut repeated = frags.clone();
    repeated[3] = repeated[0].clone();
    assert_eq!(
        reassemble(&repeated, &sk_e).unwrap_err(),
        IkeError::Crypto("duplicate or missing fragment number"),
    );
    let other = build_fragments(&header(), PayloadType::Nonce, &[7; 50], &sk_e, 1, 30).unwrap();
    let mut mixed = frags;
    mixed[1] = other[1].clone();
    assert_eq!(reassemble(&mixed, &sk_e).unwrap_err(), IkeError::Crypto("inconsistent Total Fragments"));
}

#[test]
fn opened_fragments_are_put_in_order() {
    let (t, inner) = assemble(&[
        fragment(3, 3, 0, b"c"),
        fragment(1, 3, 40, b"a"),
        fragment(2, 3, 0, b"b"),
    ])
    .unwrap();
    assert_eq!((t, inner), (PayloadType::Nonce, b"abc".to_vec()));
}

#[test]
fn bad_fragment_numbers_are_refused() {
    assert_eq!(
        assemble(&[fragment(0, 1, 40, b"a")]).unwrap_err(),
        IkeError::Crypto("duplicate or missing fragment number"),
    );
    assert_eq!(
        assemble(&[fragment(1, 2, 40, b"a"), fragment(3, 2, 0, b"b")]).unwrap_err(),
        IkeError::Crypto("duplicate or missing fragment number"),
    );
    assert_eq!(
        assemble(&[fragment(1, 0, 40, b"a")]).unwrap_err(),
        IkeError::Crypto("inconsistent Total Fragments"),
    );
    assert_eq!(
        assemble(&[fragment(1, 2, 40, b"a")]).unwrap_err(),
        IkeError::Crypto("wrong number of fragments"),
    );
    assert_eq!(assemble(&[]).unwrap_err(), IkeError::Crypto("no fragments"));
}

#[test]
fn malformed_fragments_are_refused() {
    let sk_e = [2u8; 36];
    let msg = build_fragment(&header(), PayloadType::Nonce, b"abc", 0, 1, &sk_e, 0).unwrap();
    assert!(matches!(open_fragment(&msg[..20], &sk_e), Err(IkeError::Truncated { need: 28, have: 20 })));
    assert!(matches!(open_fragment(&msg[..59], &sk_e), Err(IkeError::Truncated { need: 32, have: 31 })));
    assert!(matches!(
        open_fragment(&msg[..msg.len() - 1], &sk_e),
        Err(IkeError::BadLength { declared: 36, available: 35 })
    ));
    assert!(matches!(open_fragment(&msg, &[2; 32]), Err(IkeError::Crypto(_))));
    let mut other = msg.clone();
    other[16] = 46;
    assert!(matches!(open_fragment(&other, &sk_e), Err(IkeError::MissingPayload("SKF"))));
    // Fragment number and total are authenticated.
    let mut renumbered = msg;
    renumbered[33] = 2;
    assert!(matches!(open_fragment(&renumbered, &sk_e), Err(IkeError::BadIntegrity)));
}

#[test]
fn fragments_need_content_and_a_key() {
    assert_eq!(
        build_fragments(&header(), PayloadType::Nonce, &[1], &[1; 36], 0, 0).unwrap_err(),
        IkeError::Crypto("fragment content size must be > 0"),
    );
    assert!(matches!(
        build_fragments(&header(), PayloadType::Nonce, &[1], &[1; 32], 0, 1),
        Err(IkeError::Crypto("SK_e must be 36 bytes (32-byte AES-256 key + 4-byte GCM salt)"))
    ));
}

#[test]
fn chunks_cover_their_input() {
    assert_eq!(split_chunks(&[1, 2, 3, 4, 5], 2), [&[1u8, 2][..], &[3, 4][..], &[5][..]]);
    assert_eq!(split_chunks(&[1, 2], 2), [&[1u8, 2][..]]);
    assert_eq!(split_chunks(&[], 2), [&[0u8; 0][..]]);
}

#[test]
fn initialization_vectors_stay_unique_past_sixteen_bits() {
    // One more fragment than the 16-bit number field can count.
    let inner = vec![0u8; 65537];
    let base = u64::MAX - 2;
    let frags = build_fragments(&header(), PayloadType::Nonce, &inner, &[1; 36], base, 1).unwrap();
    assert_eq!(frags.len(), 65537);
    let mut ivs: Vec<Vec<u8>> = Vec::new();
    for (i, f) in frags.iter().enumerate() {
        assert_eq!(f[36..44], base.wrapping_add(i as u64 + 1).to_be_bytes());
        ivs.push(f[36..44].to_vec());
    }
    ivs.sort();
    ivs.dedup();
    assert_eq!(ivs.len(), 65537);
    // The number wraps around; the first inner type is recorded once.
    assert_eq!(frags[65536][32..34], [0, 1]);
    assert_eq!(frags.iter().filter(|f| f[28] != 0).count(), 1);
    assert_eq!(frags[0][28], 40);
}

#[test]
fn fragment_messages_have_their_lengths() {
    let frags = build_fragments(&header(), PayloadType::Nonce, &[0; 70], &[1; 36], 0, 30).unwrap();
    let lens: Vec<usize> = frags.iter().map(|f| f.len()).collect();
    assert_eq!(lens, [28 + 33 + 30, 28 + 33 + 30, 28 + 33 + 10]);
}

#[test]
fn fragment_headers_are_part_of_what_is_authenticated() {
    let sk_e = [4u8; 36];
    let frags = build_fragments(&header(), PayloadType::IdInitiator, &[3; 80], &sk_e, 1, 30).unwrap();
    assert!(reassemble(&frags, &sk_e).is_ok());
    for which in 0..frags.len() {
        for at in [0usize, 15, 17, 18, 19, 20, 23, 27, 28, 29, 32, 33, 34, 35] {
            for bit in 0..8 {
                let mut arrived = frags.clone();
                arrived[which][at] ^= 1 << bit;
                assert_eq!(reassemble(&arrived, &sk_e).unwrap_err(), IkeError::BadIntegrity);
            }
        }
    }
}
