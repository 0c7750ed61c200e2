use ryke::addr::{IpAddr, Ipv4Addr, Ipv6Addr};
use ryke::ikev2::natt::{
    destination_ip_notify, hash_mismatch, is_ike_on_4500, nat_detection_hash, nat_detection_input, peer_is_behind_nat,
    source_ip_notify, unwrap_ike_4500, we_are_behind_nat, wrap_ike_4500, NON_ESP_MARKER,
};

fn hex(s: &str) -> Vec<u8> {
    (0..s.len()).step_by(2).map(|i| u8::from_str_radix(&s[i..i + 2], 16).unwrap()).collect()
}

const SPI_I: u64 = 0x1122_3344_5566_7788;
const SPI_R: u64 = 0x99AA_BBCC_DDEE_FF00;

#[test]
fn no_nat_when_addresses_match() {
    let ip = IpAddr::V4(Ipv4Addr::new(203, 0, 113, 5));
    let port = 4500;
    let src = source_ip_notify(SPI_I, SPI_R, ip, port);
    // The peer observes us at exactly the address we hashed: no NAT.
    assert!(!peer_is_behind_nat(&src.data, SPI_I, SPI_R, ip, port));
}

#[test]
fn nat_detected_when_address_translated() {
    let claimed = IpAddr::V4(Ipv4Addr::new(10, 0, 0, 7)); // private, as the sender sees itself
    let observed = IpAddr::V4(Ipv4Addr::new(203, 0, 113, 5)); // public, after NAT
    let src = source_ip_notify(SPI_I, SPI_R, claimed, 500);
    assert!(peer_is_behind_nat(&src.data, SPI_I, SPI_R, observed, 500));
}

#[test]
fn non_esp_marker_roundtrips_and_distinguishes_esp() {
    let ike = b"\x11\x22an IKE message";
    let wrapped = wrap_ike_4500(ike);
    assert!(is_ike_on_4500(&wrapped));
    assert_eq!(unwrap_ike_4500(&wrapped).unwrap(), ike);

    // An ESP packet begins with a non-zero SPI, so it's not mistaken for IKE.
    let esp = [0xCA, 0xFE, 0xBA, 0xBE, 0x00];
    assert!(!is_ike_on_4500(&esp));
    assert!(unwrap_ike_4500(&esp).is_none());
}

#[test]
fn detection_hashes_have_exact_bytes() {
    let v4 = IpAddr::V4(Ipv4Addr::new(203, 0, 113, 5));
    assert_eq!(nat_detection_hash(SPI_I, SPI_R, v4, 4500), hex("eada888c42d9c3eaacb3c6e0fced8b796aa63cb3")[..]);
    let mut octets = [0u8; 16];
    octets[..4].copy_from_slice(&[0x20, 0x01, 0x0d, 0xb8]);
    octets[15] = 1;
    let v6 = IpAddr::V6(Ipv6Addr { octets });
    assert_eq!(nat_detection_hash(SPI_I, SPI_R, v6, 500), hex("e6636f2ec10936923f720265815e37f3ee1cc66d")[..]);
}

#[test]
fn detection_inputs_have_exact_bytes() {
    let v4 = IpAddr::V4(Ipv4Addr::new(203, 0, 113, 5));
    assert_eq!(nat_detection_input(SPI_I, SPI_R, v4, 4500), hex("112233445566778899aabbccddeeff00cb0071051194"));
    let v6 = IpAddr::V6(Ipv6Addr { octets: [0xab; 16] });
    assert_eq!(nat_detection_input(0, 1, v6, 500).len(), 34);
}

#[test]
fn detection_notifies_have_their_types() {
    let ip = IpAddr::V4(Ipv4Addr::new(203, 0, 113, 5));
    let src = source_ip_notify(SPI_I, SPI_R, ip, 4500);
    assert_eq!((src.protocol_id, src.notify_type), (0, 16388));
    assert!(src.spi.is_empty());
    assert_eq!(src.data, hex("eada888c42d9c3eaacb3c6e0fced8b796aa63cb3"));
    let dst = destination_ip_notify(SPI_I, SPI_R, ip, 4500);
    assert_eq!((dst.protocol_id, dst.notify_type), (0, 16389));
    assert_eq!(dst.data, src.data);
    assert_eq!(dst.to_bytes(), hex("00004005eada888c42d9c3eaacb3c6e0fced8b796aa63cb3"));
}

#[test]
fn translation_of_our_own_address_is_detected() {
    let ours = IpAddr::V4(Ipv4Addr::new(192, 0, 2, 1));
    let seen = IpAddr::V4(Ipv4Addr::new(198, 51, 100, 9));
    let dst = destination_ip_notify(SPI_I, SPI_R, ours, 500);
    assert!(!we_are_behind_nat(&dst.data, SPI_I, SPI_R, ours, 500));
    assert!(we_are_behind_nat(&dst.data, SPI_I, SPI_R, seen, 500));
    assert!(we_are_behind_nat(&dst.data, SPI_I, SPI_R, ours, 501));
    assert!(we_are_behind_nat(&dst.data[..19], SPI_I, SPI_R, ours, 500));
    assert!(we_are_behind_nat(&[], SPI_I, SPI_R, ours, 500));
}

#[test]
fn hashes_match_only_as_a_whole() {
    let h = [5u8; 20];
    assert!(!hash_mismatch(&h, &h));
    assert!(hash_mismatch(&[5; 21], &h));
    let mut other = h;
    other[19] = 6;
    assert!(hash_mismatch(&other, &h));
}

#[test]
fn markers_need_four_zero_bytes() {
    assert_eq!(NON_ESP_MARKER, [0, 0, 0, 0]);
    assert!(!is_ike_on_4500(&[0, 0, 0]));
    assert!(!is_ike_on_4500(&[0, 0, 0, 1]));
    assert!(is_ike_on_4500(&[0, 0, 0, 0]));
    assert_eq!(unwrap_ike_4500(&[0, 0, 0, 0]).unwrap(), [0u8; 0]);
    assert_eq!(wrap_ike_4500(&[]), [0, 0, 0, 0]);
    assert_eq!(wrap_ike_4500(&[7, 8]), [0, 0, 0, 0, 7, 8]);
    // NAT keepalives are a single 0xff byte.
    assert!(unwrap_ike_4500(&[0xff]).is_none());
}
