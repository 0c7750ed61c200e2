//! NAT traversal (RFC 7296 section 2.23 and RFC 3948).
//!
//! - NAT detection: in `IKE_SA_INIT` each peer sends `NAT_DETECTION_SOURCE_IP` and
//!   `NAT_DETECTION_DESTINATION_IP` notifications whose data is
//!   `SHA1(SPIi | SPIr | IP | Port)`. If a received hash is not what the receiver
//!   computes from the addresses it observes, a NAT sits on that side, and both
//!   peers move IKE (and ESP) to UDP port 4500.
//! - UDP encapsulation: on port 4500, IKE messages carry a 4-byte zero "non-ESP
//!   marker" that tells them apart from ESP packets, whose first 4 bytes are a
//!   nonzero SPI.

use vstd::prelude::*;
use vstd::slice::{slice_subrange, slice_to_vec};

use crate::addr::{ip_octets, IpAddr, Ipv4Addr, Ipv6Addr};
use crate::bytes::{append, same_bytes, u16_to_be, u64_to_be};
use crate::bytes::{be16, be16_roundtrip, be32, be32_roundtrip, be64, be64_roundtrip};
use crate::ikev2::payload::notify_type;
use crate::ikev2::payload::{notify_bytes, status_layout, status_notify, Notify};
use crate::primitives::{sha1, sha1_digest};

verus! {

/// The 4-byte non-ESP marker in front of IKE messages on UDP 4500 (RFC 3948
/// section 2.2).
pub const NON_ESP_MARKER: [u8; 4] = [0, 0, 0, 0];

/// Length of the non-ESP marker.
pub const MARKER_LEN: usize = 4;

/// What is hashed: both SPIs, the address, the port.
pub open spec fn nat_detection_input_bytes(spi_i: u64, spi_r: u64, ip: IpAddr, port: u16) -> Seq<u8> {
    be64(spi_i) + be64(spi_r) + ip_octets(ip) + be16(port)
}

/// The NAT-detection hash of an address.
pub open spec fn nat_hash(spi_i: u64, spi_r: u64, ip: IpAddr, port: u16) -> Seq<u8> {
    sha1_digest(nat_detection_input_bytes(spi_i, spi_r, ip, port))
}

/// A NAT sits between an address as its owner announced it and as it is seen: the
/// announced hash is not that of the address seen.
pub open spec fn behind_nat(announced: Seq<u8>, spi_i: u64, spi_r: u64, ip: IpAddr, port: u16) -> bool {
    announced != nat_hash(spi_i, spi_r, ip, port)
}

/// What is hashed for NAT detection: both SPIs, the address, the port.
pub fn nat_detection_input(spi_i: u64, spi_r: u64, ip: IpAddr, port: u16) -> (r: Vec<u8>)
    ensures
        r@ == nat_detection_input_bytes(spi_i, spi_r, ip, port),
        r@.len() <= 34,
{
    let mut out: Vec<u8> = Vec::new();
    append(&mut out, &u64_to_be(spi_i));
    append(&mut out, &u64_to_be(spi_r));
    match ip {
        IpAddr::V4(a) => append(&mut out, &a.octets),
        IpAddr::V6(a) => append(&mut out, &a.octets),
    }
    append(&mut out, &u16_to_be(port));
    assert(out@ =~= nat_detection_input_bytes(spi_i, spi_r, ip, port));
    out
}

/// `SHA1(SPIi | SPIr | IP | Port)`: the NAT-detection hash (RFC 7296 section 2.23).
pub fn nat_detection_hash(spi_i: u64, spi_r: u64, ip: IpAddr, port: u16) -> (r: [u8; 20])
    ensures
        r@ == nat_hash(spi_i, spi_r, ip, port),
{
    sha1(&nat_detection_input(spi_i, spi_r, ip, port))
}

/// The `NAT_DETECTION_SOURCE_IP` notification for our own address as we see it.
pub fn source_ip_notify(spi_i: u64, spi_r: u64, our_ip: IpAddr, our_port: u16) -> (r: Notify)
    ensures
        r@ == status_notify(notify_type::NAT_DETECTION_SOURCE_IP, nat_hash(spi_i, spi_r, our_ip, our_port)),
{
    let hash = nat_detection_hash(spi_i, spi_r, our_ip, our_port);
    Notify::status(notify_type::NAT_DETECTION_SOURCE_IP, slice_to_vec(&hash))
}

/// The `NAT_DETECTION_DESTINATION_IP` notification for the peer's address.
pub fn destination_ip_notify(spi_i: u64, spi_r: u64, peer_ip: IpAddr, peer_port: u16) -> (r: Notify)
    ensures
        r@ == status_notify(notify_type::NAT_DETECTION_DESTINATION_IP, nat_hash(spi_i, spi_r, peer_ip, peer_port)),
{
    let hash = nat_detection_hash(spi_i, spi_r, peer_ip, peer_port);
    Notify::status(notify_type::NAT_DETECTION_DESTINATION_IP, slice_to_vec(&hash))
}

/// Whether the hash that a peer announced differs from the one expected of the
/// address that is seen.
pub fn hash_mismatch(announced: &[u8], expected: &[u8; 20]) -> (r: bool)
    ensures
        r == (announced@ != expected@),
{
    !same_bytes(announced, expected)
}

/// From the peer's `NAT_DETECTION_SOURCE_IP` data and the address that the packet
/// was seen to come from: whether the peer is behind a NAT (its source address was
/// translated).
pub fn peer_is_behind_nat(
    source_notify_data: &[u8],
    spi_i: u64,
    spi_r: u64,
    observed_peer_ip: IpAddr,
    observed_peer_port: u16,
) -> (r: bool)
    ensures
        r == behind_nat(source_notify_data@, spi_i, spi_r, observed_peer_ip, observed_peer_port),
{
    hash_mismatch(source_notify_data, &nat_detection_hash(spi_i, spi_r, observed_peer_ip, observed_peer_port))
}

/// From the peer's `NAT_DETECTION_DESTINATION_IP` data and our own address as the
/// packet arrived to it: whether we are behind a NAT (our address was translated
/// in transit).
pub fn we_are_behind_nat(
    dest_notify_data: &[u8],
    spi_i: u64,
    spi_r: u64,
    our_ip: IpAddr,
    our_port: u16,
) -> (r: bool)
    ensures
        r == behind_nat(dest_notify_data@, spi_i, spi_r, our_ip, our_port),
{
    hash_mismatch(dest_notify_data, &nat_detection_hash(spi_i, spi_r, our_ip, our_port))
}

/// Law: no NAT is reported where none translates. A notification that announces
/// the very address the receiver sees never tells of a NAT, on either side.
pub proof fn untranslated_address_is_clear(spi_i: u64, spi_r: u64, ip: IpAddr, port: u16)
    ensures
        !behind_nat(
            status_notify(notify_type::NAT_DETECTION_SOURCE_IP, nat_hash(spi_i, spi_r, ip, port)).data,
            spi_i,
            spi_r,
            ip,
            port,
        ),
        !behind_nat(
            status_notify(notify_type::NAT_DETECTION_DESTINATION_IP, nat_hash(spi_i, spi_r, ip, port)).data,
            spi_i,
            spi_r,
            ip,
            port,
        ),
{
}

/// Law: what is hashed determines what it was made from. Two inputs are the same
/// only if SPIs, address and port are the same.
pub proof fn nat_inputs_are_distinct(
    spi_i: u64,
    spi_r: u64,
    ip: IpAddr,
    port: u16,
    spi_i2: u64,
    spi_r2: u64,
    ip2: IpAddr,
    port2: u16,
)
    requires
        nat_detection_input_bytes(spi_i, spi_r, ip, port) == nat_detection_input_bytes(spi_i2, spi_r2, ip2, port2),
    ensures
        spi_i == spi_i2,
        spi_r == spi_r2,
        ip == ip2,
        port == port2,
{
    let a = nat_detection_input_bytes(spi_i, spi_r, ip, port);
    let b = nat_detection_input_bytes(spi_i2, spi_r2, ip2, port2);
    be64_roundtrip(spi_i);
    be64_roundtrip(spi_i2);
    be64_roundtrip(spi_r);
    be64_roundtrip(spi_r2);
    be16_roundtrip(port);
    be16_roundtrip(port2);
    assert(a.subrange(0, 8) =~= be64(spi_i) && b.subrange(0, 8) =~= be64(spi_i2));
    assert(a.subrange(8, 16) =~= be64(spi_r) && b.subrange(8, 16) =~= be64(spi_r2));
    assert(a.len() == 18 + ip_octets(ip).len() && b.len() == 18 + ip_octets(ip2).len());
    let n = a.len() as int;
    assert(a.subrange(16, n - 2) =~= ip_octets(ip) && b.subrange(16, n - 2) =~= ip_octets(ip2));
    assert(a.subrange(n - 2, n) =~= be16(port) && b.subrange(n - 2, n) =~= be16(port2));
    match (ip, ip2) {
        (IpAddr::V4(x), IpAddr::V4(y)) => {
            assert(x.octets =~= y.octets);
        },
        (IpAddr::V6(x), IpAddr::V6(y)) => {
            assert(x.octets =~= y.octets);
        },
        _ => {},
    }
}

/// A datagram that starts with the non-ESP marker.
pub open spec fn has_marker(datagram: Seq<u8>) -> bool {
    datagram.len() >= MARKER_LEN && datagram.take(MARKER_LEN as int) == seq![0u8, 0, 0, 0]
}

/// Whether a datagram received on UDP 4500 is an IKE message (has the non-ESP
/// marker) rather than an ESP packet.
pub fn is_ike_on_4500(datagram: &[u8]) -> (r: bool)
    ensures
        r == has_marker(datagram@),
{
    if datagram.len() < MARKER_LEN {
        return false;
    }
    let head = slice_subrange(datagram, 0, MARKER_LEN);
    assert(head@ =~= datagram@.take(MARKER_LEN as int));
    assert(NON_ESP_MARKER@ =~= seq![0u8, 0, 0, 0]);
    same_bytes(head, &NON_ESP_MARKER)
}

/// Puts the non-ESP marker in front of an IKE message, for sending on UDP 4500.
pub fn wrap_ike_4500(message: &[u8]) -> (r: Vec<u8>)
    ensures
        r@ == seq![0u8, 0, 0, 0] + message@,
{
    let mut out: Vec<u8> = Vec::new();
    append(&mut out, &NON_ESP_MARKER);
    append(&mut out, message);
    assert(out@ =~= seq![0u8, 0, 0, 0] + message@);
    out
}

/// Removes the non-ESP marker from an IKE datagram received on UDP 4500; `None`
/// for any other datagram.
pub fn unwrap_ike_4500(datagram: &[u8]) -> (r: Option<&[u8]>)
    ensures
        r is Some <==> has_marker(datagram@),
        r matches Some(message) ==> message@ == datagram@.skip(MARKER_LEN as int),
{
    if is_ike_on_4500(datagram) {
        let message = slice_subrange(datagram, MARKER_LEN, datagram.len());
        assert(message@ =~= datagram@.skip(MARKER_LEN as int));
        Some(message)
    } else {
        None
    }
}

/// Law: a wrapped IKE message is recognized and unwraps to itself, and a datagram
/// that begins with a nonzero SPI, as every ESP packet does, is not mistaken for
/// IKE.
pub proof fn marker_tells_ike_from_esp(message: Seq<u8>, spi: u32, rest: Seq<u8>)
    requires
        spi != 0,
    ensures
        has_marker(seq![0u8, 0, 0, 0] + message),
        (seq![0u8, 0, 0, 0] + message).skip(MARKER_LEN as int) == message,
        !has_marker(be32(spi) + rest),
{
    let wrapped = seq![0u8, 0, 0, 0] + message;
    assert(wrapped.take(MARKER_LEN as int) =~= seq![0u8, 0, 0, 0]);
    assert(wrapped.skip(MARKER_LEN as int) =~= message);
    be32_roundtrip(spi);
    be32_roundtrip(0);
    assert((be32(spi) + rest).take(MARKER_LEN as int) =~= be32(spi));
    assert(be32(0) =~= seq![0u8, 0, 0, 0]) by {
        assert((0u32 >> 24) as u8 == 0 && (0u32 >> 16) as u8 == 0 && (0u32 >> 8) as u8 == 0 && 0u32 as u8 == 0)
            by (bit_vector);
    }
}

/// Law: a NAT is reported exactly when the announced bytes are not the SHA-1 digest
/// of both SPIs, the address as seen and the port, in network order: for every SPI,
/// zero ones included, for both address families, and for announcements of any
/// length.
pub proof fn nat_is_a_wrong_digest(
    announced: Seq<u8>,
    spi_i: u64,
    spi_r: u64,
    octets4: [u8; 4],
    octets6: [u8; 16],
    port: u16,
)
    ensures
        behind_nat(announced, spi_i, spi_r, IpAddr::V4(Ipv4Addr { octets: octets4 }), port) <==> announced
            != sha1_digest(be64(spi_i) + be64(spi_r) + octets4@ + be16(port)),
        behind_nat(announced, spi_i, spi_r, IpAddr::V6(Ipv6Addr { octets: octets6 }), port) <==> announced
            != sha1_digest(be64(spi_i) + be64(spi_r) + octets6@ + be16(port)),
{
}

/// Law: the two detection notifications concern no particular association, have
/// their registered types, and carry the hash and nothing else on the wire.
pub proof fn detection_notifications(hash: Seq<u8>)
    ensures
        notify_bytes(status_notify(notify_type::NAT_DETECTION_SOURCE_IP, hash)) == seq![0u8, 0, 0x40, 0x04] + hash,
        notify_bytes(status_notify(notify_type::NAT_DETECTION_DESTINATION_IP, hash)) == seq![0u8, 0, 0x40, 0x05] + hash,
        status_notify(notify_type::NAT_DETECTION_SOURCE_IP, hash).data == hash,
        status_notify(notify_type::NAT_DETECTION_DESTINATION_IP, hash).data == hash,
{
    status_layout(notify_type::NAT_DETECTION_SOURCE_IP, hash);
    status_layout(notify_type::NAT_DETECTION_DESTINATION_IP, hash);
    assert((0x4004u16 >> 8) as u8 == 0x40 && 0x4004u16 as u8 == 0x04 && (0x4005u16 >> 8) as u8 == 0x40 && 0x4005u16
        as u8 == 0x05) by (bit_vector);
    assert(notify_bytes(status_notify(notify_type::NAT_DETECTION_SOURCE_IP, hash)) =~= seq![0u8, 0, 0x40, 0x04] + hash);
    assert(notify_bytes(status_notify(notify_type::NAT_DETECTION_DESTINATION_IP, hash)) =~= seq![0u8, 0, 0x40, 0x05]
        + hash);
}

/// Law: the marker is four zero bytes in front; nothing else counts, and nothing
/// after them does.
pub proof fn marker_is_four_zeros(datagram: Seq<u8>)
    ensures
        has_marker(datagram) <==> datagram.len() >= 4 && datagram[0] == 0 && datagram[1] == 0 && datagram[2] == 0
            && datagram[3] == 0,
        has_marker(datagram) ==> seq![0u8, 0, 0, 0] + datagram.skip(MARKER_LEN as int) == datagram,
{
    if datagram.len() >= 4 {
        let head = datagram.take(4);
        if datagram[0] == 0 && datagram[1] == 0 && datagram[2] == 0 && datagram[3] == 0 {
            assert(head =~= seq![0u8, 0, 0, 0]);
        }
        if has_marker(datagram) {
            assert(head[0] == 0 && head[1] == 0 && head[2] == 0 && head[3] == 0);
            assert(seq![0u8, 0, 0, 0] + datagram.skip(4) =~= datagram);
        }
    }
}

/// Law: what is announced of an address is the SHA-1 digest of both SPIs, the
/// address and the port, in network order.
pub proof fn announced_digest(spi_i: u64, spi_r: u64, octets4: [u8; 4], octets6: [u8; 16], port: u16)
    ensures
        nat_hash(spi_i, spi_r, IpAddr::V4(Ipv4Addr { octets: octets4 }), port) == sha1_digest(
            be64(spi_i) + be64(spi_r) + octets4@ + be16(port),
        ),
        nat_hash(spi_i, spi_r, IpAddr::V6(Ipv6Addr { octets: octets6 }), port) == sha1_digest(
            be64(spi_i) + be64(spi_r) + octets6@ + be16(port),
        ),
{
}

} // verus!
