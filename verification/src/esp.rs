//! Userspace ESP (RFC 4303) in tunnel mode with AES-256-GCM (RFC 4106).
//!
//! The tunneled IP packets are encrypted and decrypted here, not by the operating
//! system. An ESP packet on the wire is
//!
//! ```text
//! SPI(4) | SeqNum(4) | IV(8) | ciphertext | ICV(16)
//! ```
//!
//! where the ciphertext covers inner packet, padding, pad length and next header,
//! and the associated data is `SPI | SeqNum`. The GCM nonce is salt(4) and IV(8);
//! the salt comes from the CHILD-SA key material (the last 4 bytes of the 36-byte
//! AES-GCM key), and the IV is the packet's sequence number, which never repeats
//! under one key, as GCM requires.

use vstd::prelude::*;
use vstd::slice::{slice_subrange, slice_to_vec};

use crate::bytes::{append, read_u32, u32_to_be, u64_to_be};
use crate::bytes::{be32, be32_roundtrip, be64, be64_roundtrip, read_in_network_order, u32_at, u64_at};
use crate::crypto::{derive_child_keys, ChildKeys};
use crate::crypto::{prf_admits, prf_plus_bytes};
use crate::error::{bytes_result, IkeError};
use crate::primitives::{aes256_gcm_decrypt, aes256_gcm_encrypt, AES_KEY_LEN, GCM_MAX_LEN, GCM_TAG_LEN};
use crate::primitives::{aes256_gcm_opened, aes256_gcm_sealed, forgery_splits, only_tag_differs};
use crate::role::{peer_of, Role};

pub mod next_header;

verus! {

/// Length of the GCM salt.
pub const SALT_LEN: usize = 4;

/// Length of the explicit IV.
pub const IV_LEN: usize = 8;

/// Length of SPI and sequence number.
pub const ESP_HEADER_LEN: usize = 8;

/// Key material per direction: AES-256 key and salt.
pub const KEY_MATERIAL_LEN: usize = 36;

/// Shortest ESP packet: header, IV, tag.
pub const ESP_MIN_LEN: usize = 32;

/// One direction of an ESP security association: AES-256-GCM, tunnel mode,
/// 32-bit sequence numbers. Holds the SPI to stamp on outbound packets, the key
/// and salt, and the outbound sequence counter.
pub struct EspSa {
    spi: u32,
    key: [u8; 32],
    salt: [u8; 4],
    seq: u32,
}

/// What an ESP security association holds.
#[verifier::ext_equal]
pub struct EspState {
    pub spi: u32,
    pub key: Seq<u8>,
    pub salt: Seq<u8>,
    /// The sequence number of the last packet that was sealed.
    pub seq: u32,
}

impl View for EspSa {
    type V = EspState;

    closed spec fn view(&self) -> EspState {
        EspState { spi: self.spi, key: self.key@, salt: self.salt@, seq: self.seq }
    }
}

/// Law: an ESP security association holds a 32-byte AES-256 key and a 4-byte salt.
pub proof fn key_lengths(sa: EspSa)
    ensures
        sa@.key.len() == AES_KEY_LEN,
        sa@.salt.len() == SALT_LEN,
{
}

/// Padding after `inner_len` bytes, so that inner packet, padding and the two
/// trailer bytes fill a multiple of 4 (RFC 4303 section 2.4).
pub open spec fn esp_pad_len(inner_len: nat) -> int {
    (4 - (inner_len + 2) % 4) % 4
}

/// What is encrypted: inner packet, padding bytes 1, 2, 3, pad length, next header.
pub open spec fn esp_plaintext(inner: Seq<u8>, next_header: u8) -> Seq<u8> {
    let pad = esp_pad_len(inner.len());
    inner + Seq::new(pad as nat, |i: int| (i + 1) as u8) + seq![pad as u8, next_header]
}

/// The trailer removed: inner packet and next header.
pub open spec fn esp_stripped(plaintext: Seq<u8>) -> Result<(Seq<u8>, u8), IkeError> {
    let n = plaintext.len();
    if n < 2 {
        Err(IkeError::Crypto("ESP plaintext shorter than its trailer"))
    } else if n < 2 + plaintext[n - 2] {
        Err(IkeError::Crypto("ESP pad length exceeds plaintext"))
    } else {
        Ok((plaintext.take(n - 2 - plaintext[n - 2]), plaintext[n - 1]))
    }
}

/// Law: what is encrypted fills a multiple of 4 bytes, and removing its trailer
/// gives inner packet and next header back.
pub proof fn trailer_roundtrip(inner: Seq<u8>, next_header: u8)
    ensures
        esp_plaintext(inner, next_header).len() % 4 == 0,
        esp_plaintext(inner, next_header).len() == inner.len() + esp_pad_len(inner.len()) + 2,
        esp_stripped(esp_plaintext(inner, next_header)) == Ok::<(Seq<u8>, u8), IkeError>((inner, next_header)),
{
    let plaintext = esp_plaintext(inner, next_header);
    let n = plaintext.len();
    let pad = esp_pad_len(inner.len());
    assert(0 <= pad < 4);
    assert(plaintext[n - 2] == pad as u8);
    assert(plaintext.take(n - 2 - pad) =~= inner);
}

/// The associated data of packet `seq`: SPI and sequence number.
pub open spec fn esp_header(spi: u32, seq: u32) -> Seq<u8> {
    be32(spi) + be32(seq)
}

/// The nonce of packet `seq`: salt, then the sequence number as the IV.
pub open spec fn esp_nonce(salt: Seq<u8>, seq: u32) -> Seq<u8> {
    salt + be64(seq as u64)
}

/// Packet `seq` of a security association.
pub open spec fn esp_packet(sa: EspState, seq: u32, inner: Seq<u8>, next_header: u8) -> Seq<u8> {
    esp_header(sa.spi, seq) + be64(seq as u64) + aes256_gcm_sealed(
        sa.key,
        esp_nonce(sa.salt, seq),
        esp_header(sa.spi, seq),
        esp_plaintext(inner, next_header),
    )
}

/// What sealing the next packet gives: the packet with the next sequence number,
/// unless the numbers are used up or the plaintext exceeds what AES-GCM takes.
pub open spec fn esp_seal(sa: EspState, inner: Seq<u8>, next_header: u8) -> Result<Seq<u8>, IkeError> {
    if sa.seq == u32::MAX {
        Err(IkeError::Crypto("ESP sequence number exhausted; rekey required"))
    } else if esp_plaintext(inner, next_header).len() > GCM_MAX_LEN {
        Err(IkeError::Crypto("ESP encryption failed"))
    } else {
        Ok(esp_packet(sa, (sa.seq + 1) as u32, inner, next_header))
    }
}

/// The security association after an attempt to seal: the sequence number is used
/// up even if the encryption then fails, unless there was none left.
pub open spec fn esp_after_seal(sa: EspState) -> EspState {
    EspState { seq: if sa.seq == u32::MAX { sa.seq } else { (sa.seq + 1) as u32 }, ..sa }
}

/// What opening a packet gives: inner packet and next header.
pub open spec fn esp_open(sa: EspState, packet: Seq<u8>) -> Result<(Seq<u8>, u8), IkeError> {
    if packet.len() < ESP_MIN_LEN {
        Err(IkeError::Truncated { need: ESP_MIN_LEN, have: packet.len() as usize })
    } else if u32_at(packet, 0) != sa.spi {
        Err(IkeError::Crypto("ESP SPI does not match this SA"))
    } else {
        match aes256_gcm_opened(sa.key, sa.salt + packet.subrange(8, 16), packet.take(8), packet.skip(16)) {
            None => Err(IkeError::BadIntegrity),
            Some(plaintext) => esp_stripped(plaintext),
        }
    }
}

/// `rx` can open what `tx` seals: same SPI, key and salt.
pub open spec fn esp_paired(tx: EspState, rx: EspState) -> bool {
    tx.spi == rx.spi && tx.key == rx.key && tx.salt == rx.salt
}

/// Law: sealing changes nothing but the sequence number, which goes up by one until
/// the numbers are used up; after that nothing is sealed any more. Whoever could
/// open what the association sealed before can open what it seals after.
pub proof fn sealing_only_advances(tx: EspState, rx: EspState, inner: Seq<u8>, next_header: u8)
    ensures
        esp_after_seal(tx) == (EspState { seq: esp_after_seal(tx).seq, ..tx }),
        tx.seq < u32::MAX ==> esp_after_seal(tx).seq == tx.seq + 1,
        tx.seq == u32::MAX ==> esp_after_seal(tx) == tx && esp_seal(tx, inner, next_header) is Err,
        esp_paired(tx, rx) ==> esp_paired(esp_after_seal(tx), rx),
{
}

/// An opened packet with its bytes taken by their view.
pub open spec fn esp_result(r: Result<(Vec<u8>, u8), IkeError>) -> Result<(Seq<u8>, u8), IkeError> {
    match r {
        Ok((inner, next_header)) => Ok((inner@, next_header)),
        Err(e) => Err(e),
    }
}

/// Law: packets of one security association never share a nonce: different
/// sequence numbers give different nonces and different packet headers.
pub proof fn nonces_never_repeat(
    sa: EspState,
    a: u32,
    b: u32,
    inner_a: Seq<u8>,
    inner_b: Seq<u8>,
    next_a: u8,
    next_b: u8,
)
    requires
        a != b,
    ensures
        esp_nonce(sa.salt, a) != esp_nonce(sa.salt, b),
        esp_packet(sa, a, inner_a, next_a).subrange(4, 8) != esp_packet(sa, b, inner_b, next_b).subrange(4, 8),
        esp_packet(sa, a, inner_a, next_a) != esp_packet(sa, b, inner_b, next_b),
{
    be64_roundtrip(a as u64);
    be64_roundtrip(b as u64);
    be32_roundtrip(a);
    be32_roundtrip(b);
    assert(esp_nonce(sa.salt, a).skip(sa.salt.len() as int) =~= be64(a as u64));
    assert(esp_nonce(sa.salt, b).skip(sa.salt.len() as int) =~= be64(b as u64));
    assert(esp_packet(sa, a, inner_a, next_a).subrange(4, 8) =~= be32(a));
    assert(esp_packet(sa, b, inner_b, next_b).subrange(4, 8) =~= be32(b));
}

/// Law: the sequence number is authenticated although it is not encrypted. If it is
/// altered in a packet that opens, then the cipher is asked about the same nonce,
/// ciphertext and tag under other associated data, and the packet is refused as
/// not authentic exactly when the cipher refuses that.
///
/// Not said: that the cipher does refuse it. AES-GCM does so with overwhelming
/// probability, not with certainty.
pub proof fn sequence_number_is_authenticated(rx: EspState, packet: Seq<u8>, altered: Seq<u8>)
    requires
        esp_open(rx, packet) is Ok,
        altered.len() == packet.len(),
        altered.take(4) == packet.take(4),
        altered.skip(8) == packet.skip(8),
        altered != packet,
    ensures
        altered.take(8) != packet.take(8),
        (esp_open(rx, altered) == Err::<(Seq<u8>, u8), IkeError>(IkeError::BadIntegrity)) == (aes256_gcm_opened(
            rx.key,
            rx.salt + packet.subrange(8, 16),
            altered.take(8),
            packet.skip(16),
        ) is None),
{
    assert forall|i: int| 8 <= i < packet.len() implies altered[i] == packet[i] by {
        assert(altered.skip(8)[i - 8] == packet.skip(8)[i - 8]);
    }
    assert(u32_at(altered, 0) == u32_at(altered.take(4), 0));
    assert(u32_at(packet, 0) == u32_at(packet.take(4), 0));
    if altered.take(8) == packet.take(8) {
        assert(altered =~= altered.take(8) + altered.skip(8));
        assert(packet =~= packet.take(8) + packet.skip(8));
    }
    assert(altered.subrange(8, 16) =~= packet.subrange(8, 16));
    assert(altered.skip(16) =~= packet.skip(16));
}

/// Removes the trailer of a decrypted packet.
pub fn strip_trailer(plaintext: &[u8]) -> (r: Result<(Vec<u8>, u8), IkeError>)
    ensures
        esp_result(r) == esp_stripped(plaintext@),
{
    let n: usize = plaintext.len();
    if n < 2 {
        return Err(IkeError::Crypto("ESP plaintext shorter than its trailer"));
    }
    let next_header: u8 = plaintext[n - 1];
    let pad_len: usize = plaintext[n - 2] as usize;
    if n - 2 < pad_len {
        return Err(IkeError::Crypto("ESP pad length exceeds plaintext"));
    }
    let inner = slice_to_vec(slice_subrange(plaintext, 0, n - 2 - pad_len));
    assert(inner@ =~= plaintext@.take(n - 2 - pad_len));
    Ok((inner, next_header))
}

/// Appends the trailer to an inner packet: padding, pad length, next header.
pub fn add_trailer(inner: &[u8], next_header: u8) -> (r: Vec<u8>)
    ensures
        r@ == esp_plaintext(inner@, next_header),
{
    let pad: usize = (4 - (inner.len() % 4 + 2) % 4) % 4;
    let mut out: Vec<u8> = slice_to_vec(inner);
    for i in 0..pad
        invariant
            pad < 4,
            out@ == inner@ + Seq::new(i as nat, |k: int| (k + 1) as u8),
    {
        out.push((i + 1) as u8);
        assert(out@ =~= inner@ + Seq::new((i + 1) as nat, |k: int| (k + 1) as u8));
    }
    out.push(pad as u8);
    out.push(next_header);
    assert(out@ =~= esp_plaintext(inner@, next_header));
    out
}

impl EspSa {
    /// `key_material` is 36 bytes: a 32-byte AES-256 key and a 4-byte salt, as
    /// `derive_child_keys` gives it for AES-GCM.
    pub fn new(spi: u32, key_material: &[u8]) -> (r: Result<EspSa, IkeError>)
        ensures
            key_material@.len() != KEY_MATERIAL_LEN ==> r == Err::<EspSa, IkeError>(
                IkeError::Crypto("ESP key material must be 36 bytes (32-byte key + 4-byte salt)"),
            ),
            key_material@.len() == KEY_MATERIAL_LEN ==> (r matches Ok(sa) && sa@ == esp_fresh(spi, key_material@)),
            r is Ok <==> key_material@.len() == 36,
            r matches Ok(sa) ==> {
                &&& sa@.spi == spi
                &&& sa@.key == key_material@.take(32)
                &&& sa@.salt == key_material@.skip(32)
                &&& sa@.seq == 0
            },
    {
        if key_material.len() != KEY_MATERIAL_LEN {
            return Err(IkeError::Crypto("ESP key material must be 36 bytes (32-byte key + 4-byte salt)"));
        }
        proof {
            fresh_holds_its_material(spi, key_material@.take(32), key_material@.skip(32));
            assert(key_material@.take(32) + key_material@.skip(32) =~= key_material@);
        }
        Ok(EspSa::from_material(spi, key_material))
    }

    /// A fresh security association from key material of the right length.
    fn from_material(spi: u32, key_material: &[u8]) -> (sa: EspSa)
        requires
            key_material@.len() == KEY_MATERIAL_LEN,
        ensures
            sa@ == esp_fresh(spi, key_material@),
    {
        let mut key: [u8; 32] = [0; 32];
        for i in 0..AES_KEY_LEN
            invariant
                key_material@.len() == KEY_MATERIAL_LEN,
                forall|j: int| 0 <= j < i ==> key@[j] == key_material@[j],
        {
            key[i] = key_material[i];
        }
        let salt: [u8; 4] = [key_material[32], key_material[33], key_material[34], key_material[35]];
        let sa = EspSa { spi, key, salt, seq: 0 };
        assert(sa@ =~= esp_fresh(spi, key_material@));
        sa
    }

    pub fn spi(&self) -> (r: u32)
        ensures
            r == self@.spi,
    {
        self.spi
    }

    /// The GCM nonce for an IV.
    fn nonce(&self, iv: &[u8]) -> (r: Vec<u8>)
        ensures
            r@ == self@.salt + iv@,
            r@.len() == SALT_LEN + iv@.len(),
    {
        let mut nonce: Vec<u8> = Vec::new();
        append(&mut nonce, &self.salt);
        append(&mut nonce, iv);
        nonce
    }

    /// Encrypts an inner IP packet into an ESP packet (tunnel mode). Advances the
    /// sequence number, which never repeats under one key.
    ///
    /// A security association with the same SPI, key and salt opens the packet to
    /// `inner` and `next_header`, and refuses it under any other tag. One with
    /// another SPI refuses it.
    pub fn seal(&mut self, inner: &[u8], next_header: u8) -> (r: Result<Vec<u8>, IkeError>)
        ensures
            bytes_result(r) == esp_seal(old(self)@, inner@, next_header),
            final(self)@ == esp_after_seal(old(self)@),
            r matches Ok(packet) ==> {
                &&& packet@.len() == ESP_MIN_LEN + esp_plaintext(inner@, next_header).len()
                &&& forall|rx: EspState|
                    esp_paired(old(self)@, rx) ==> #[trigger] esp_open(rx, packet@) == Ok::<(Seq<u8>, u8), IkeError>(
                        (inner@, next_header),
                    )
                &&& forall|rx: EspState|
                    rx.spi != old(self)@.spi ==> #[trigger] esp_open(rx, packet@) == Err::<(Seq<u8>, u8), IkeError>(
                        IkeError::Crypto("ESP SPI does not match this SA"),
                    )
                &&& forall|rx: EspState, forged: Seq<u8>|
                    esp_paired(old(self)@, rx) && only_tag_differs(packet@, forged) ==> #[trigger] esp_open(
                        rx,
                        forged,
                    ) == Err::<(Seq<u8>, u8), IkeError>(IkeError::BadIntegrity)
            },
    {
        let ghost before = self@;
        if self.seq == u32::MAX {
            return Err(IkeError::Crypto("ESP sequence number exhausted; rekey required"));
        }
        self.seq = self.seq + 1;
        let seq: u32 = self.seq;
        assert(self@ =~= esp_after_seal(before));
        let iv = u64_to_be(seq as u64);
        let plaintext = add_trailer(inner, next_header);

        let mut aad: Vec<u8> = Vec::new();
        append(&mut aad, &u32_to_be(self.spi));
        append(&mut aad, &u32_to_be(seq));
        assert(aad@ =~= esp_header(before.spi, seq));

        let nonce = self.nonce(&iv);
        let sealed = match aes256_gcm_encrypt(&self.key, &nonce, &aad, &plaintext) {
            Ok(sealed) => sealed,
            Err(_) => {
                return Err(IkeError::Crypto("ESP encryption failed"));
            },
        };

        let mut out: Vec<u8> = aad.clone();
        assert(out@ =~= aad@);
        append(&mut out, &iv);
        append(&mut out, &sealed);
        proof {
            trailer_roundtrip(inner@, next_header);
            assert forall|rx: EspState| esp_paired(before, rx) implies #[trigger] esp_open(rx, out@) == Ok::<
                (Seq<u8>, u8),
                IkeError,
            >((inner@, next_header)) by {
                esp_framing_roundtrip(rx, seq, sealed@);
            }
            be32_roundtrip(before.spi);
            assert(u32_at(out@, 0) == u32_at(be32(before.spi), 0));
            assert forall|rx: EspState, forged: Seq<u8>| esp_paired(before, rx) && only_tag_differs(out@, forged) implies
                #[trigger] esp_open(rx, forged) == Err::<(Seq<u8>, u8), IkeError>(IkeError::BadIntegrity) by {
                forgery_splits(aad@ + iv@, sealed@, forged);
                esp_framing_roundtrip(rx, seq, forged.skip((aad@ + iv@).len() as int));
            }
        }
        Ok(out)
    }

    /// Decrypts an ESP packet: the inner IP packet and its Next Header. The
    /// packet's SPI must be that of this security association.
    pub fn open(&self, packet: &[u8]) -> (r: Result<(Vec<u8>, u8), IkeError>)
        ensures
            esp_result(r) == esp_open(self@, packet@),
    {
        if packet.len() < ESP_MIN_LEN {
            return Err(IkeError::Truncated { need: ESP_MIN_LEN, have: packet.len() });
        }
        if read_u32(packet, 0) != self.spi {
            return Err(IkeError::Crypto("ESP SPI does not match this SA"));
        }
        let iv = slice_subrange(packet, ESP_HEADER_LEN, ESP_HEADER_LEN + IV_LEN);
        let sealed = slice_subrange(packet, ESP_HEADER_LEN + IV_LEN, packet.len());
        let aad = slice_subrange(packet, 0, ESP_HEADER_LEN);
        assert(sealed@ =~= packet@.skip(16));
        assert(aad@ =~= packet@.take(8));
        let nonce = self.nonce(iv);
        match aes256_gcm_decrypt(&self.key, &nonce, aad, sealed) {
            Ok(plaintext) => strip_trailer(&plaintext),
            Err(_) => Err(IkeError::BadIntegrity),
        }
    }
}

/// A security association that has sealed nothing yet.
pub open spec fn esp_fresh(spi: u32, key_material: Seq<u8>) -> EspState {
    EspState { spi, key: key_material.subrange(0, 32), salt: key_material.subrange(32, 36), seq: 0 }
}

/// How the framing of an ESP packet comes apart on receipt.
proof fn esp_framing_roundtrip(rx: EspState, seq: u32, sealed: Seq<u8>)
    requires
        sealed.len() >= GCM_TAG_LEN,
    ensures
        ({
            let packet = esp_header(rx.spi, seq) + be64(seq as u64) + sealed;
            esp_open(rx, packet) == (match aes256_gcm_opened(
                rx.key,
                esp_nonce(rx.salt, seq),
                esp_header(rx.spi, seq),
                sealed,
            ) {
                None => Err(IkeError::BadIntegrity),
                Some(plaintext) => esp_stripped(plaintext),
            })
        }),
{
    let packet = esp_header(rx.spi, seq) + be64(seq as u64) + sealed;
    be32_roundtrip(rx.spi);
    assert(u32_at(packet, 0) == u32_at(be32(rx.spi), 0));
    assert(packet.subrange(8, 16) =~= be64(seq as u64));
    assert(packet.take(8) =~= esp_header(rx.spi, seq));
    assert(packet.skip(16) =~= sealed);
}

/// Both ESP directions for one endpoint of a CHILD SA (AES-GCM-256).
pub struct ChildSa {
    /// What we encrypt outbound traffic on (stamped with the peer's SPI).
    pub outbound: EspSa,
    /// What we decrypt inbound traffic on (our own SPI).
    pub inbound: EspSa,
}

/// What both directions of a CHILD SA hold.
#[verifier::ext_equal]
pub struct ChildState {
    pub outbound: EspState,
    pub inbound: EspState,
}

impl View for ChildSa {
    type V = ChildState;

    open spec fn view(&self) -> ChildState {
        ChildState { outbound: self.outbound@, inbound: self.inbound@ }
    }
}

/// Both directions hold a whole AES-256 key and a whole salt.
pub open spec fn keys_complete(child: ChildState) -> bool {
    &&& child.outbound.key.len() == AES_KEY_LEN
    &&& child.outbound.salt.len() == SALT_LEN
    &&& child.inbound.key.len() == AES_KEY_LEN
    &&& child.inbound.salt.len() == SALT_LEN
}

/// Law: a CHILD SA holds a whole key and a whole salt for each direction.
pub proof fn child_key_lengths(child: ChildSa)
    ensures
        keys_complete(child@),
{
    key_lengths(child.outbound);
    key_lengths(child.inbound);
}

/// The CHILD SA of one endpoint, from the key material of the initiator's and the
/// responder's outbound direction. A packet carries the SPI of the association
/// that receives it.
pub open spec fn child_from_material(
    material_i: Seq<u8>,
    material_r: Seq<u8>,
    role: Role,
    local_spi: u32,
    peer_spi: u32,
) -> ChildState {
    match role {
        Role::Initiator => ChildState {
            outbound: esp_fresh(peer_spi, material_i),
            inbound: esp_fresh(local_spi, material_r),
        },
        Role::Responder => ChildState {
            outbound: esp_fresh(peer_spi, material_r),
            inbound: esp_fresh(local_spi, material_i),
        },
    }
}

/// The CHILD SA that one endpoint derives from `SK_d`, the two nonces, its role
/// and the two SPIs.
pub open spec fn child_derived(
    sk_d: Seq<u8>,
    ni: Seq<u8>,
    nr: Seq<u8>,
    role: Role,
    local_spi: u32,
    peer_spi: u32,
) -> ChildState {
    let keymat = prf_plus_bytes(sk_d, ni + nr, 72);
    child_from_material(keymat.subrange(0, 36), keymat.subrange(36, 72), role, local_spi, peer_spi)
}

/// The two ends of a CHILD SA match: what one seals outbound the other opens
/// inbound, both ways.
pub open spec fn children_match(a: ChildState, b: ChildState) -> bool {
    a.outbound == b.inbound && a.inbound == b.outbound
}

/// Law: the two endpoints derive matching security associations. With the same
/// `SK_d` and nonces, opposite roles and exchanged SPIs, each side's outbound
/// association is the other side's inbound one.
pub proof fn both_ends_match(
    sk_d: Seq<u8>,
    ni: Seq<u8>,
    nr: Seq<u8>,
    role: Role,
    local_spi: u32,
    peer_spi: u32,
)
    ensures
        children_match(
            child_derived(sk_d, ni, nr, role, local_spi, peer_spi),
            child_derived(sk_d, ni, nr, peer_of(role), peer_spi, local_spi),
        ),
{
}

impl ChildSa {
    /// Builds both directions from derived AES-GCM keys, 36 bytes each.
    pub fn from_keys(keys: &ChildKeys, role: Role, local_spi: u32, peer_spi: u32) -> (r: ChildSa)
        requires
            keys.encr_i@.len() == KEY_MATERIAL_LEN,
            keys.encr_r@.len() == KEY_MATERIAL_LEN,
        ensures
            r@ == child_from_material(keys.encr_i@, keys.encr_r@, role, local_spi, peer_spi),
    {
        match role {
            Role::Initiator => ChildSa {
                outbound: EspSa::from_material(peer_spi, &keys.encr_i),
                inbound: EspSa::from_material(local_spi, &keys.encr_r),
            },
            Role::Responder => ChildSa {
                outbound: EspSa::from_material(peer_spi, &keys.encr_r),
                inbound: EspSa::from_material(local_spi, &keys.encr_i),
            },
        }
    }

    /// Derives both ESP directions from the IKE SA's `SK_d`, the two nonces, our
    /// role, and the two ESP SPIs (`local_spi` is the one we chose, `peer_spi` the
    /// one the peer chose). RFC 7296 section 2.17: `encr_i` is the initiator's
    /// outbound key, `encr_r` the responder's.
    pub fn derive(
        sk_d: &[u8],
        ni: &[u8],
        nr: &[u8],
        role: Role,
        local_spi: u32,
        peer_spi: u32,
    ) -> (r: ChildSa)
        requires
            prf_admits(sk_d@.len(), ni@.len() + nr@.len()),
        ensures
            r@ == child_derived(sk_d@, ni@, nr@, role, local_spi, peer_spi),
            prf_plus_bytes(sk_d@, ni@ + nr@, 72).len() == 72,
            ({
                let keymat = prf_plus_bytes(sk_d@, ni@ + nr@, 72);
                let (sent, received) = match role {
                    Role::Initiator => (keymat.take(36), keymat.skip(36)),
                    Role::Responder => (keymat.skip(36), keymat.take(36)),
                };
                &&& r@.outbound.key + r@.outbound.salt == sent
                &&& r@.inbound.key + r@.inbound.salt == received
                &&& r@.outbound.spi == peer_spi
                &&& r@.inbound.spi == local_spi
            }),
            keys_complete(r@),
    {
        let keys = derive_child_keys(sk_d, ni, nr, KEY_MATERIAL_LEN, 0);
        let child = ChildSa::from_keys(&keys, role, local_spi, peer_spi);
        proof {
            child_key_lengths(child);
            let keymat = prf_plus_bytes(sk_d@, ni@ + nr@, 72);
            directions_have_their_own_keys(sk_d@, ni@, nr@, local_spi, peer_spi);
            directions_have_their_own_keys(sk_d@, ni@, nr@, peer_spi, local_spi);
            assert(keymat.subrange(0, 32) + keymat.subrange(32, 36) =~= keymat.take(36));
            assert(keymat.subrange(36, 68) + keymat.subrange(68, 72) =~= keymat.skip(36));
        }
        child
    }
}

/// Law: what is encrypted, byte for byte: the inner packet, `pad` bytes 1, 2, 3,
/// their number, and the next header, where `pad` is what is missing to a multiple
/// of 4.
pub proof fn trailer_layout(inner: Seq<u8>, next_header: u8, pad: int)
    requires
        0 <= pad < 4,
        (inner.len() + pad + 2) % 4 == 0,
    ensures
        ({
            let p = esp_plaintext(inner, next_header);
            let n = inner.len() as int;
            &&& p.len() == n + pad + 2
            &&& p.take(n) == inner
            &&& forall|k: int| 0 <= k < pad ==> #[trigger] p[n + k] == k + 1
            &&& p[n + pad] == pad
            &&& p[n + pad + 1] == next_header
        }),
{
    let p = esp_plaintext(inner, next_header);
    assert(esp_pad_len(inner.len()) == pad);
    assert(p.take(inner.len() as int) =~= inner);
}

/// Law: trailers come off whatever the padding bytes are: an inner packet, any
/// padding of up to 255 bytes, its length and the next header give packet and next
/// header back. Plaintexts without a whole trailer, or shorter than their padding,
/// are errors.
pub proof fn trailer_reading(inner: Seq<u8>, padding: Seq<u8>, next_header: u8, plaintext: Seq<u8>)
    ensures
        padding.len() <= 255 ==> esp_stripped(inner + padding + seq![padding.len() as u8, next_header]) == Ok::<
            (Seq<u8>, u8),
            IkeError,
        >((inner, next_header)),
        plaintext.len() < 2 ==> esp_stripped(plaintext) == Err::<(Seq<u8>, u8), IkeError>(
            IkeError::Crypto("ESP plaintext shorter than its trailer"),
        ),
        plaintext.len() >= 2 && plaintext[plaintext.len() - 2] + 2 > plaintext.len() ==> esp_stripped(plaintext)
            == Err::<(Seq<u8>, u8), IkeError>(IkeError::Crypto("ESP pad length exceeds plaintext")),
{
    if padding.len() <= 255 {
        let p = inner + padding + seq![padding.len() as u8, next_header];
        assert(p.take(inner.len() as int) =~= inner);
    }
}

/// Law: when a packet is sealed, and every byte of it: the association's SPI, the
/// next sequence number, the same number as the IV; and what the cipher is asked to
/// seal under which key, nonce and associated data. The association moves on by one
/// number and keeps the rest.
pub proof fn sealed_packet_layout(sa: EspState, inner: Seq<u8>, next_header: u8, pad: int)
    requires
        0 <= pad < 4,
        (inner.len() + pad + 2) % 4 == 0,
    ensures
        sa.seq == 0xffff_ffff ==> esp_seal(sa, inner, next_header) == Err::<Seq<u8>, IkeError>(
            IkeError::Crypto("ESP sequence number exhausted; rekey required"),
        ),
        sa.seq != 0xffff_ffff && inner.len() + pad + 2 > 0x10_0000_0000 ==> esp_seal(sa, inner, next_header) == Err::<
            Seq<u8>,
            IkeError,
        >(IkeError::Crypto("ESP encryption failed")),
        sa.seq != 0xffff_ffff && inner.len() + pad + 2 <= 0x10_0000_0000 ==> (esp_seal(sa, inner, next_header) matches Ok(
            packet,
        ) && {
            &&& packet.len() >= 16
            &&& u32_at(packet, 0) == sa.spi
            &&& u32_at(packet, 4) == sa.seq + 1
            &&& u64_at(packet, 8) == sa.seq + 1
            &&& packet.skip(16) == aes256_gcm_sealed(
                sa.key,
                sa.salt + packet.subrange(8, 16),
                packet.take(8),
                inner + Seq::new(pad as nat, |k: int| (k + 1) as u8) + seq![pad as u8, next_header],
            )
        }),
        esp_after_seal(sa).spi == sa.spi,
        esp_after_seal(sa).key == sa.key,
        esp_after_seal(sa).salt == sa.salt,
        esp_after_seal(sa).seq == (if sa.seq == 0xffff_ffff { sa.seq as int } else { sa.seq + 1 }),
{
    trailer_layout(inner, next_header, pad);
    let plain = inner + Seq::new(pad as nat, |k: int| (k + 1) as u8) + seq![pad as u8, next_header];
    assert(plain =~= esp_plaintext(inner, next_header)) by {
        assert(esp_pad_len(inner.len()) == pad);
    }
    if sa.seq != u32::MAX && inner.len() + pad + 2 <= GCM_MAX_LEN {
        let packet = esp_seal(sa, inner, next_header)->Ok_0;
        let seq = (sa.seq + 1) as u32;
        be32_roundtrip(sa.spi);
        be32_roundtrip(seq);
        be64_roundtrip(seq as u64);
        assert(u32_at(packet, 0) == u32_at(be32(sa.spi), 0));
        assert(u32_at(packet, 4) == u32_at(be32(seq), 0));
        assert(u64_at(packet, 8) == u64_at(be64(seq as u64), 0));
        assert(packet.subrange(8, 16) =~= be64(seq as u64));
        assert(packet.take(8) =~= esp_header(sa.spi, seq));
        assert(packet.skip(16) =~= aes256_gcm_sealed(
            sa.key,
            esp_nonce(sa.salt, seq),
            esp_header(sa.spi, seq),
            esp_plaintext(inner, next_header),
        ));
    }
}

/// Law: how every packet is opened, whatever its bytes: which lengths and SPIs are
/// refused and how; what the cipher is asked under which key, nonce and associated
/// data; and what is made of its answer.
pub proof fn opened_packet_reading(
    rx: EspState,
    packet: Seq<u8>,
    inner: Seq<u8>,
    padding: Seq<u8>,
    next_header: u8,
)
    ensures
        ({
            let spi = packet[0] * 0x100_0000 + packet[1] * 0x1_0000 + packet[2] * 0x100 + packet[3];
            let answer = aes256_gcm_opened(rx.key, rx.salt + packet.subrange(8, 16), packet.take(8), packet.skip(16));
            let r = esp_open(rx, packet);
            &&& packet.len() < 32 ==> r == Err::<(Seq<u8>, u8), IkeError>(
                IkeError::Truncated { need: 32, have: packet.len() as usize },
            )
            &&& packet.len() >= 32 && spi != rx.spi ==> r == Err::<(Seq<u8>, u8), IkeError>(
                IkeError::Crypto("ESP SPI does not match this SA"),
            )
            &&& packet.len() >= 32 && spi == rx.spi ==> {
                &&& answer is None ==> r == Err::<(Seq<u8>, u8), IkeError>(IkeError::BadIntegrity)
                &&& answer == Some(inner + padding + seq![padding.len() as u8, next_header]) && padding.len() <= 255
                    ==> r == Ok::<(Seq<u8>, u8), IkeError>((inner, next_header))
                &&& answer matches Some(p) ==> p.len() < 2 ==> r == Err::<(Seq<u8>, u8), IkeError>(
                    IkeError::Crypto("ESP plaintext shorter than its trailer"),
                )
                &&& answer matches Some(p) ==> p.len() >= 2 && p[p.len() - 2] + 2 > p.len() ==> r == Err::<
                    (Seq<u8>, u8),
                    IkeError,
                >(IkeError::Crypto("ESP pad length exceeds plaintext"))
            }
        }),
{
    read_in_network_order(packet, 0);
    trailer_reading(inner, padding, next_header, Seq::empty());
    if let Some(p) = aes256_gcm_opened(rx.key, rx.salt + packet.subrange(8, 16), packet.take(8), packet.skip(16)) {
        trailer_reading(inner, padding, next_header, p);
    }
}

/// Law: a fresh association holds what it is made from: the SPI, the first 32 bytes
/// of the material as its key, the other 4 as its salt; it has sealed nothing.
pub proof fn fresh_holds_its_material(spi: u32, key: Seq<u8>, salt: Seq<u8>)
    requires
        key.len() == 32,
        salt.len() == 4,
    ensures
        esp_fresh(spi, key + salt).spi == spi,
        esp_fresh(spi, key + salt).key == key,
        esp_fresh(spi, key + salt).salt == salt,
        esp_fresh(spi, key + salt).seq == 0,
{
    assert(esp_fresh(spi, key + salt).key =~= key);
    assert(esp_fresh(spi, key + salt).salt =~= salt);
}

/// Law: each direction of a CHILD SA has its own keys. What the initiator sends is
/// protected by bytes 0 to 36 of the key material, what the responder sends by
/// bytes 36 to 72, at both ends; a packet carries the SPI that its receiver chose.
pub proof fn directions_have_their_own_keys(
    sk_d: Seq<u8>,
    ni: Seq<u8>,
    nr: Seq<u8>,
    initiator_spi: u32,
    responder_spi: u32,
)
    ensures
        ({
            let keymat = prf_plus_bytes(sk_d, ni + nr, 72);
            let initiator = child_derived(sk_d, ni, nr, Role::Initiator, initiator_spi, responder_spi);
            let responder = child_derived(sk_d, ni, nr, Role::Responder, responder_spi, initiator_spi);
            keymat.len() == 72 ==> {
                &&& initiator.outbound.key == keymat.subrange(0, 32)
                &&& initiator.outbound.salt == keymat.subrange(32, 36)
                &&& initiator.inbound.key == keymat.subrange(36, 68)
                &&& initiator.inbound.salt == keymat.subrange(68, 72)
                &&& responder.outbound.key == keymat.subrange(36, 68)
                &&& responder.outbound.salt == keymat.subrange(68, 72)
                &&& responder.inbound.key == keymat.subrange(0, 32)
                &&& responder.inbound.salt == keymat.subrange(32, 36)
                &&& initiator.outbound.spi == responder_spi && responder.inbound.spi == responder_spi
                &&& initiator.inbound.spi == initiator_spi && responder.outbound.spi == initiator_spi
                &&& initiator.outbound.seq == 0 && initiator.inbound.seq == 0
                &&& responder.outbound.seq == 0 && responder.inbound.seq == 0
            }
        }),
{
    let keymat = prf_plus_bytes(sk_d, ni + nr, 72);
    if keymat.len() == 72 {
        let (i, r) = (keymat.subrange(0, 36), keymat.subrange(36, 72));
        assert(i.subrange(0, 32) =~= keymat.subrange(0, 32));
        assert(i.subrange(32, 36) =~= keymat.subrange(32, 36));
        assert(r.subrange(0, 32) =~= keymat.subrange(36, 68));
        assert(r.subrange(32, 36) =~= keymat.subrange(68, 72));
    }
}

/// Law: a CHILD SA that is made from given key material uses the initiator's
/// material for what the initiator sends and the responder's for what the responder
/// sends, in either role.
pub proof fn material_goes_with_its_sender(
    key_i: Seq<u8>,
    salt_i: Seq<u8>,
    key_r: Seq<u8>,
    salt_r: Seq<u8>,
    role: Role,
    local_spi: u32,
    peer_spi: u32,
)
    requires
        key_i.len() == 32 && key_r.len() == 32,
        salt_i.len() == 4 && salt_r.len() == 4,
    ensures
        ({
            let child = child_from_material(key_i + salt_i, key_r + salt_r, role, local_spi, peer_spi);
            let (sent, received) = match role {
                Role::Initiator => (child.outbound, child.inbound),
                Role::Responder => (child.inbound, child.outbound),
            };
            &&& sent.key == key_i && sent.salt == salt_i
            &&& received.key == key_r && received.salt == salt_r
            &&& child.outbound.spi == peer_spi && child.inbound.spi == local_spi
            &&& child.outbound.seq == 0 && child.inbound.seq == 0
        }),
{
    fresh_holds_its_material(local_spi, key_i, salt_i);
    fresh_holds_its_material(local_spi, key_r, salt_r);
    fresh_holds_its_material(peer_spi, key_i, salt_i);
    fresh_holds_its_material(peer_spi, key_r, salt_r);
}

/// Law: taking a CHILD SA or an opened packet by its view keeps directions, bytes,
/// next header and error.
pub proof fn esp_views(child: ChildSa, inner: Vec<u8>, next_header: u8, e: IkeError)
    ensures
        child@.outbound == child.outbound@,
        child@.inbound == child.inbound@,
        esp_result(Ok((inner, next_header))) == Ok::<(Seq<u8>, u8), IkeError>((inner@, next_header)),
        esp_result(Err(e)) == Err::<(Seq<u8>, u8), IkeError>(e),
{
}

} // verus!
