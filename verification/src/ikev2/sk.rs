//! The Encrypted (`SK{}`) payload for AES-GCM (RFC 7296 section 3.14, RFC 5282).
//!
//! From `IKE_AUTH` onward every payload travels inside an SK payload, encrypted
//! and authenticated under the keys that `IKE_SA_INIT` derived. This is the AEAD
//! construction for AES-256-GCM with a 16-byte tag:
//!
//! - `SK_e{i,r}` is 36 bytes: a 32-byte AES-256 key and a 4-byte salt.
//! - The GCM nonce (12 bytes) is the salt (4) and the explicit IV (8), which is
//!   sent in the payload.
//! - The associated data is the IKE header and the SK generic payload header:
//!   everything before the IV (RFC 5282 section 5.1).
//! - The SK body on the wire is IV(8), ciphertext, tag(16).

use vstd::prelude::*;
use vstd::slice::{slice_subrange, slice_to_vec};

use crate::bytes::{append, low16_of_sum, low32_of_sum, read_u16, u16_to_be};
use crate::bytes::{be16, be16_roundtrip, be32, be32_roundtrip, be64, low16, low32};
use crate::bytes::{read_in_network_order, u16_at, u32_at};
use crate::error::{bytes_result, IkeError};
use crate::ikev2::message::{IkeHeader, PayloadType, GENERIC_HEADER_LEN};
use crate::ikev2::message::{
    canonical_type, exchange_code, generic_header, header_bytes, header_fields_survive, header_layout,
    header_reading, header_survives_the_wire, parsed_header, payload_code, payload_codes_are_faithful,
    payload_numbers, payload_type_of,
};
use crate::primitives::{aes256_gcm_decrypt, aes256_gcm_encrypt, AES_KEY_LEN, GCM_MAX_LEN, GCM_TAG_LEN};
use crate::primitives::{aes256_gcm_opened, aes256_gcm_sealed, forgery_splits, only_tag_differs};

verus! {

/// Length of the explicit IV.
pub const IV_LEN: usize = 8;

/// Length of the GCM salt.
pub const SALT_LEN: usize = 4;

/// Length of an `SK_e` key: AES-256 key and salt.
pub const SK_E_LEN: usize = 36;

/// Length of everything before the IV: IKE header and SK generic header.
pub const SK_AAD_LEN: usize = 32;

/// The longest inner chain whose SK payload length still fits 16 bits.
pub const SK_MAX_INNER: usize = 65506;

/// What is wrong with an `SK_e` of another length.
pub open spec fn bad_sk_e() -> IkeError {
    IkeError::Crypto("SK_e must be 36 bytes (32-byte AES-256 key + 4-byte GCM salt)")
}

/// The AES-256 key in an `SK_e`.
pub open spec fn key_part(sk_e: Seq<u8>) -> Seq<u8> {
    sk_e.subrange(0, AES_KEY_LEN as int)
}

/// The GCM salt in an `SK_e`.
pub open spec fn salt_part(sk_e: Seq<u8>) -> Seq<u8> {
    sk_e.subrange(AES_KEY_LEN as int, SK_E_LEN as int)
}

/// Splits a 36-byte `SK_e` into AES key and salt.
pub fn split_key(sk_e: &[u8]) -> (r: Result<(&[u8], &[u8]), IkeError>)
    ensures
        sk_e@.len() != SK_E_LEN ==> r == Err::<(&[u8], &[u8]), IkeError>(bad_sk_e()),
        sk_e@.len() == SK_E_LEN ==> (r matches Ok((key, salt)) && key@ == key_part(sk_e@) && salt@ == salt_part(sk_e@)),
{
    if sk_e.len() != SK_E_LEN {
        return Err(IkeError::Crypto("SK_e must be 36 bytes (32-byte AES-256 key + 4-byte GCM salt)"));
    }
    Ok((slice_subrange(sk_e, 0, AES_KEY_LEN), slice_subrange(sk_e, AES_KEY_LEN, SK_E_LEN)))
}

/// The GCM nonce: salt, then IV.
pub fn gcm_nonce(salt: &[u8], iv: &[u8]) -> (r: Vec<u8>)
    ensures
        r@ == salt@ + iv@,
{
    let mut nonce: Vec<u8> = Vec::new();
    append(&mut nonce, salt);
    append(&mut nonce, iv);
    nonce
}

/// The ciphertext and tag of `plaintext` under an `SK_e`.
pub open spec fn sk_sealed(sk_e: Seq<u8>, iv: Seq<u8>, aad: Seq<u8>, plaintext: Seq<u8>) -> Seq<u8> {
    aes256_gcm_sealed(key_part(sk_e), salt_part(sk_e) + iv, aad, plaintext)
}

/// The plaintext of a ciphertext and tag under an `SK_e`, if the tag verifies.
pub open spec fn sk_opened(sk_e: Seq<u8>, iv: Seq<u8>, aad: Seq<u8>, sealed: Seq<u8>) -> Option<Seq<u8>> {
    aes256_gcm_opened(key_part(sk_e), salt_part(sk_e) + iv, aad, sealed)
}

/// Encrypts under an `SK_e`: ciphertext and tag. Shared by the SK payload and by
/// SKF fragments.
pub(crate) fn gcm_seal(sk_e: &[u8], iv: &[u8], aad: &[u8], plaintext: &[u8]) -> (r: Result<Vec<u8>, IkeError>)
    requires
        iv@.len() == IV_LEN,
    ensures
        sk_e@.len() != SK_E_LEN ==> r == Err::<Vec<u8>, IkeError>(bad_sk_e()),
        sk_e@.len() == SK_E_LEN && (plaintext@.len() > GCM_MAX_LEN || aad@.len() > GCM_MAX_LEN) ==> r == Err::<
            Vec<u8>,
            IkeError,
        >(IkeError::Crypto("GCM encryption failed")),
        sk_e@.len() == SK_E_LEN && plaintext@.len() <= GCM_MAX_LEN && aad@.len() <= GCM_MAX_LEN ==> r is Ok,
        r matches Ok(sealed) ==> {
            &&& sealed@ == sk_sealed(sk_e@, iv@, aad@, plaintext@)
            &&& sealed@.len() == plaintext@.len() + GCM_TAG_LEN
            &&& sk_opened(sk_e@, iv@, aad@, sealed@) == Some(plaintext@)
            &&& forall|forged: Seq<u8>|
                only_tag_differs(sealed@, forged) ==> #[trigger] sk_opened(sk_e@, iv@, aad@, forged) is None
        },
{
    let (key, salt) = split_key(sk_e)?;
    let nonce = gcm_nonce(salt, iv);
    match aes256_gcm_encrypt(key, &nonce, aad, plaintext) {
        Ok(sealed) => Ok(sealed),
        Err(_) => Err(IkeError::Crypto("GCM encryption failed")),
    }
}

/// Decrypts under an `SK_e` and verifies the tag.
pub(crate) fn gcm_open(sk_e: &[u8], iv: &[u8], aad: &[u8], sealed: &[u8]) -> (r: Result<Vec<u8>, IkeError>)
    requires
        iv@.len() == IV_LEN,
    ensures
        bytes_result(r) == (if sk_e@.len() != SK_E_LEN {
            Err::<Seq<u8>, IkeError>(bad_sk_e())
        } else {
            match sk_opened(sk_e@, iv@, aad@, sealed@) {
                Some(plaintext) => Ok(plaintext),
                None => Err(IkeError::BadIntegrity),
            }
        }),
{
    let (key, salt) = split_key(sk_e)?;
    let nonce = gcm_nonce(salt, iv);
    match aes256_gcm_decrypt(key, &nonce, aad, sealed) {
        Ok(plaintext) => Ok(plaintext),
        Err(_) => Err(IkeError::BadIntegrity),
    }
}

/// Padding removed from a decrypted payload: the last byte is the Pad Length, and
/// that many bytes before it are padding. `empty` and `excess` are the errors for
/// a plaintext without a Pad Length and for one shorter than its padding.
pub open spec fn unpadded(
    plaintext: Seq<u8>,
    empty: IkeError,
    excess: IkeError,
) -> Result<Seq<u8>, IkeError> {
    if plaintext.len() == 0 {
        Err(empty)
    } else if plaintext.last() + 1 > plaintext.len() {
        Err(excess)
    } else {
        Ok(plaintext.take(plaintext.len() - 1 - plaintext.last()))
    }
}

/// Removes the padding of a decrypted payload, its Pad Length byte included.
pub fn strip_padding(
    plaintext: &[u8],
    empty: &'static str,
    excess: &'static str,
) -> (r: Result<Vec<u8>, IkeError>)
    ensures
        bytes_result(r) == unpadded(plaintext@, IkeError::Crypto(empty), IkeError::Crypto(excess)),
{
    let n: usize = plaintext.len();
    if n == 0 {
        return Err(IkeError::Crypto(empty));
    }
    let pad_len: usize = plaintext[n - 1] as usize;
    if pad_len + 1 > n {
        return Err(IkeError::Crypto(excess));
    }
    let inner = slice_to_vec(slice_subrange(plaintext, 0, n - 1 - pad_len));
    assert(inner@ =~= plaintext@.take(n - 1 - pad_len));
    Ok(inner)
}

/// Law: removing the padding of a payload that was padded with nothing but a zero
/// Pad Length gives the payload back.
pub proof fn zero_padding_strips(inner: Seq<u8>, empty: IkeError, excess: IkeError)
    ensures
        unpadded(inner.push(0), empty, excess) == Ok::<Seq<u8>, IkeError>(inner),
{
    assert(inner.push(0).take(inner.len() as int) =~= inner);
}

/// Length of the SK payload that wraps `inner_len` bytes: generic header, IV,
/// the bytes and their Pad Length, tag.
pub open spec fn sk_payload_len(inner_len: nat) -> int {
    GENERIC_HEADER_LEN + IV_LEN + inner_len + 1 + GCM_TAG_LEN
}

/// The header of the message that wraps `inner_len` bytes.
pub open spec fn sk_header(header: IkeHeader, inner_len: nat) -> IkeHeader {
    IkeHeader {
        next_payload: PayloadType::Encrypted,
        length: low32(IkeHeader::LEN + sk_payload_len(inner_len)),
        ..header
    }
}

/// Everything before the IV: IKE header and SK generic header.
pub open spec fn sk_aad(header: IkeHeader, first_inner: PayloadType, inner_len: nat) -> Seq<u8> {
    header_bytes(sk_header(header, inner_len)) + generic_header(
        payload_code(first_inner),
        sk_payload_len(inner_len),
    )
}

/// The encrypted message that wraps `inner`.
pub open spec fn sk_message(
    header: IkeHeader,
    first_inner: PayloadType,
    inner: Seq<u8>,
    sk_e: Seq<u8>,
    iv: Seq<u8>,
) -> Seq<u8> {
    let aad = sk_aad(header, first_inner, inner.len());
    aad + iv + sk_sealed(sk_e, iv, aad, inner.push(0))
}

/// What building the encrypted message gives: the message, unless the key has a
/// wrong length or the plaintext exceeds what AES-GCM takes.
pub open spec fn sk_build(
    header: IkeHeader,
    first_inner: PayloadType,
    inner: Seq<u8>,
    sk_e: Seq<u8>,
    iv: Seq<u8>,
) -> Result<Seq<u8>, IkeError> {
    if sk_e.len() != SK_E_LEN {
        Err(bad_sk_e())
    } else if inner.len() + 1 > GCM_MAX_LEN {
        Err(IkeError::Crypto("GCM encryption failed"))
    } else {
        Ok(sk_message(header, first_inner, inner, sk_e, iv))
    }
}

/// What opening an encrypted message gives: the type of its first inner payload
/// and its inner chain.
pub open spec fn sk_open(message: Seq<u8>, sk_e: Seq<u8>) -> Result<(PayloadType, Seq<u8>), IkeError> {
    if sk_e.len() != SK_E_LEN {
        Err(bad_sk_e())
    } else {
        match parsed_header(message) {
            Err(e) => Err(e),
            Ok(header) => if header.next_payload != PayloadType::Encrypted {
                Err(IkeError::MissingPayload("SK"))
            } else {
                let body = message.skip(IkeHeader::LEN as int);
                let len = u16_at(body, 2);
                if body.len() < GENERIC_HEADER_LEN {
                    Err(IkeError::Truncated { need: GENERIC_HEADER_LEN, have: body.len() as usize })
                } else if len < GENERIC_HEADER_LEN + IV_LEN + GCM_TAG_LEN || len > body.len() {
                    Err(IkeError::BadLength { declared: len as usize, available: body.len() as usize })
                } else {
                    match sk_opened(
                        sk_e,
                        body.subrange(4, 12),
                        message.take(IkeHeader::LEN + GENERIC_HEADER_LEN),
                        body.subrange(12, len as int),
                    ) {
                        None => Err(IkeError::BadIntegrity),
                        Some(plaintext) => match unpadded(
                            plaintext,
                            IkeError::Crypto("empty plaintext"),
                            IkeError::Crypto("pad length exceeds plaintext"),
                        ) {
                            Err(e) => Err(e),
                            Ok(inner) => Ok((payload_type_of(body[0]), inner)),
                        },
                    }
                }
            },
        }
    }
}

/// What the cipher answers on an SK message: IV, everything before it as the
/// associated data, and the ciphertext and tag up to the payload's length.
pub open spec fn sk_payload_opened(message: Seq<u8>, sk_e: Seq<u8>) -> Option<Seq<u8>> {
    sk_opened(
        sk_e,
        message.subrange(SK_AAD_LEN as int, SK_AAD_LEN + IV_LEN),
        message.take(SK_AAD_LEN as int),
        message.subrange(SK_AAD_LEN + IV_LEN, IkeHeader::LEN + u16_at(message, 30)),
    )
}

/// `altered` is `message` with something changed in its first `aad_len` bytes, the
/// headers before the IV: SPIs, version, exchange type, flags, message ID, lengths,
/// Next Payload and whatever else stands there. Left as they are: what makes it
/// this kind of message (the IKE header's Next Payload), and the payload's length.
pub open spec fn header_altered(message: Seq<u8>, altered: Seq<u8>, aad_len: int) -> bool {
    &&& altered.len() == message.len()
    &&& altered.skip(aad_len) == message.skip(aad_len)
    &&& altered[16] == message[16]
    &&& altered.subrange(30, 32) == message.subrange(30, 32)
    &&& altered != message
}

/// Law: the headers of an SK message are authenticated although they are not
/// encrypted. If they are altered in a message that opens, then the cipher is asked
/// about the same IV, ciphertext and tag under other associated data, and the
/// message is refused as not authentic exactly when the cipher refuses that.
///
/// Not said: that the cipher does refuse it. AES-GCM does so with overwhelming
/// probability, not with certainty.
pub proof fn headers_are_authenticated(message: Seq<u8>, altered: Seq<u8>, sk_e: Seq<u8>)
    requires
        sk_open(message, sk_e) is Ok,
        header_altered(message, altered, SK_AAD_LEN as int),
    ensures
        altered.take(SK_AAD_LEN as int) != message.take(SK_AAD_LEN as int),
        sk_payload_opened(altered, sk_e) == sk_opened(
            sk_e,
            message.subrange(SK_AAD_LEN as int, SK_AAD_LEN + IV_LEN),
            altered.take(SK_AAD_LEN as int),
            message.subrange(SK_AAD_LEN + IV_LEN, IkeHeader::LEN + u16_at(message, 30)),
        ),
        (sk_open(altered, sk_e) == Err::<(PayloadType, Seq<u8>), IkeError>(IkeError::BadIntegrity)) == (
        sk_payload_opened(altered, sk_e) is None),
{
    let aad_len = SK_AAD_LEN as int;
    let body = message.skip(IkeHeader::LEN as int);
    let other = altered.skip(IkeHeader::LEN as int);
    let len = u16_at(body, 2);
    headers_stand_apart(message, altered, aad_len);
    assert(len == u16_at(message, 30));
    assert(u16_at(other, 2) == u16_at(altered, 30));
    assert(other.subrange(4, 12) =~= altered.subrange(aad_len, aad_len + IV_LEN));
    assert(other.subrange(12, len as int) =~= altered.subrange(aad_len + IV_LEN, IkeHeader::LEN + len));
    assert(message.subrange(aad_len, aad_len + IV_LEN) =~= altered.subrange(aad_len, aad_len + IV_LEN));
    assert(message.subrange(aad_len + IV_LEN, IkeHeader::LEN + len) =~= altered.subrange(
        aad_len + IV_LEN,
        IkeHeader::LEN + len,
    ));
}

/// A message whose headers were altered differs in them and nowhere else, and
/// keeps its kind and its payload length.
pub proof fn headers_stand_apart(message: Seq<u8>, altered: Seq<u8>, aad_len: int)
    requires
        header_altered(message, altered, aad_len),
        SK_AAD_LEN <= aad_len <= message.len(),
    ensures
        altered.take(aad_len) != message.take(aad_len),
        forall|i: int| aad_len <= i < message.len() ==> #[trigger] altered[i] == message[i],
        u16_at(altered, 30) == u16_at(message, 30),
        parsed_header(altered) matches Ok(header) && header.next_payload == payload_type_of(message[16]),
{
    assert forall|i: int| aad_len <= i < message.len() implies #[trigger] altered[i] == message[i] by {
        assert(altered.skip(aad_len)[i - aad_len] == message.skip(aad_len)[i - aad_len]);
    }
    if altered.take(aad_len) == message.take(aad_len) {
        assert(altered =~= altered.take(aad_len) + altered.skip(aad_len));
        assert(message =~= message.take(aad_len) + message.skip(aad_len));
    }
    assert(altered[30] == altered.subrange(30, 32)[0] && altered[31] == altered.subrange(30, 32)[1]);
    assert(message[30] == message.subrange(30, 32)[0] && message[31] == message.subrange(30, 32)[1]);
}

/// An opened message with its bytes taken by their view.
pub open spec fn opened_result(
    r: Result<(PayloadType, Vec<u8>), IkeError>,
) -> Result<(PayloadType, Seq<u8>), IkeError> {
    match r {
        Ok((t, inner)) => Ok((t, inner@)),
        Err(e) => Err(e),
    }
}

/// What the framing of an SK message gives back on receipt, once the cipher has
/// given its plaintext back.
proof fn sk_framing_roundtrip(
    header: IkeHeader,
    first_inner: PayloadType,
    inner: Seq<u8>,
    sk_e: Seq<u8>,
    iv: Seq<u8>,
    sealed: Seq<u8>,
)
    requires
        sk_e.len() == SK_E_LEN,
        iv.len() == IV_LEN,
        inner.len() <= SK_MAX_INNER,
        sealed.len() == inner.len() + 1 + GCM_TAG_LEN,
    ensures
        ({
            let aad = sk_aad(header, first_inner, inner.len());
            let message = aad + iv + sealed;
            &&& sk_opened(sk_e, iv, aad, sealed) is None ==> sk_open(message, sk_e) == Err::<
                (PayloadType, Seq<u8>),
                IkeError,
            >(IkeError::BadIntegrity)
            &&& sk_opened(sk_e, iv, aad, sealed) == Some(inner.push(0)) ==> sk_open(message, sk_e) == Ok::<
                (PayloadType, Seq<u8>),
                IkeError,
            >((payload_type_of(payload_code(first_inner)), inner))
        }),
{
    let aad = sk_aad(header, first_inner, inner.len());
    let message = aad + iv + sealed;
    let sent = sk_header(header, inner.len());
    let len = sk_payload_len(inner.len());
    header_survives_the_wire(sent, generic_header(payload_code(first_inner), len) + iv + sealed);
    assert(message =~= header_bytes(sent) + (generic_header(payload_code(first_inner), len) + iv + sealed));
    let body = message.skip(IkeHeader::LEN as int);
    assert(body =~= generic_header(payload_code(first_inner), len) + iv + sealed);
    be16_roundtrip(low16(len));
    assert(u16_at(body, 2) == u16_at(be16(low16(len)), 0));
    assert(body.subrange(4, 12) =~= iv);
    assert(body.subrange(12, len) =~= sealed);
    assert(message.take(IkeHeader::LEN + GENERIC_HEADER_LEN) =~= aad);
    zero_padding_strips(inner, IkeError::Crypto("empty plaintext"), IkeError::Crypto("pad length exceeds plaintext"));
}

/// Builds a complete encrypted IKEv2 message: IKE header and an SK payload that
/// wraps `inner`, an already serialized payload chain.
///
/// `first_inner` is the SK payload's Next Payload, the type of the first inner
/// payload. `sk_e` is the 36-byte key for our direction; `iv` must be fresh and
/// unique under this key.
///
/// The receiver gets the chain back, and refuses the message under any other tag,
/// as long as the payload length fits its 16-bit field.
pub fn build_encrypted_gcm(
    header: IkeHeader,
    first_inner: PayloadType,
    inner: &[u8],
    sk_e: &[u8],
    iv: &[u8; 8],
) -> (r: Result<Vec<u8>, IkeError>)
    ensures
        bytes_result(r) == sk_build(header, first_inner, inner@, sk_e@, iv@),
        r matches Ok(message) ==> {
            &&& message@.len() == IkeHeader::LEN + sk_payload_len(inner@.len())
            &&& message@.len() == inner@.len() + 57
            &&& message@.len() <= 0xffff_ffff ==> (parsed_header(message@) matches Ok(h) && h.length == message@.len())
            &&& inner@.len() <= SK_MAX_INNER ==> sk_open(message@, sk_e@) == Ok::<(PayloadType, Seq<u8>), IkeError>(
                (payload_type_of(payload_code(first_inner)), inner@),
            )
            &&& inner@.len() <= SK_MAX_INNER ==> forall|forged: Seq<u8>|
                only_tag_differs(message@, forged) ==> #[trigger] sk_open(forged, sk_e@) == Err::<
                    (PayloadType, Seq<u8>),
                    IkeError,
                >(IkeError::BadIntegrity)
        },
{
    let mut plaintext: Vec<u8> = slice_to_vec(inner);
    plaintext.push(0);
    assert(plaintext@ =~= inner@.push(0));

    let mut sent: IkeHeader = header;
    sent.next_payload = PayloadType::Encrypted;
    sent.length = low32_of_sum(IkeHeader::LEN + GENERIC_HEADER_LEN + IV_LEN + 1 + GCM_TAG_LEN, inner.len());

    let sk_gen: [u8; 2] = [first_inner.to_u8(), 0];
    let len16: u16 = low16_of_sum(GENERIC_HEADER_LEN + IV_LEN + 1 + GCM_TAG_LEN, inner.len());
    let mut aad: Vec<u8> = sent.to_bytes();
    append(&mut aad, &sk_gen);
    append(&mut aad, &u16_to_be(len16));
    assert(sk_gen@ =~= seq![payload_code(first_inner), 0u8]);
    assert(aad@ =~= sk_aad(header, first_inner, inner@.len()));

    let sealed = gcm_seal(sk_e, iv, &aad, &plaintext)?;
    let mut out: Vec<u8> = aad.clone();
    assert(out@ =~= aad@);
    append(&mut out, iv);
    append(&mut out, &sealed);
    proof {
        built_header_is_the_given_one(header, first_inner, inner@, sk_e@, iv@);
        if inner@.len() <= SK_MAX_INNER {
            sk_framing_roundtrip(header, first_inner, inner@, sk_e@, iv@, sealed@);
            assert forall|forged: Seq<u8>| only_tag_differs(out@, forged) implies #[trigger] sk_open(forged, sk_e@)
                == Err::<(PayloadType, Seq<u8>), IkeError>(IkeError::BadIntegrity) by {
                let other = forged.skip((aad@.len() + iv@.len()) as int);
                forgery_splits(aad@ + iv@, sealed@, forged);
                sk_framing_roundtrip(header, first_inner, inner@, sk_e@, iv@, other);
            }
        }
    }
    Ok(out)
}

/// Decrypts the SK payload of a full message: the type of the first inner payload
/// and the inner payload chain, padding removed. `sk_e` is the 36-byte key of the
/// sender's direction.
pub fn open_encrypted_gcm(message: &[u8], sk_e: &[u8]) -> (r: Result<(PayloadType, Vec<u8>), IkeError>)
    ensures
        opened_result(r) == sk_open(message@, sk_e@),
{
    split_key(sk_e)?;
    let header = IkeHeader::parse(message)?;
    if header.next_payload != PayloadType::Encrypted {
        return Err(IkeError::MissingPayload("SK"));
    }
    let body = slice_subrange(message, IkeHeader::LEN, message.len());
    assert(body@ =~= message@.skip(IkeHeader::LEN as int));
    if body.len() < GENERIC_HEADER_LEN {
        return Err(IkeError::Truncated { need: GENERIC_HEADER_LEN, have: body.len() });
    }
    let first_inner = PayloadType::from_u8(body[0]);
    let len: usize = read_u16(body, 2) as usize;
    if len < GENERIC_HEADER_LEN + IV_LEN + GCM_TAG_LEN || len > body.len() {
        return Err(IkeError::BadLength { declared: len, available: body.len() });
    }
    let iv = slice_subrange(body, GENERIC_HEADER_LEN, GENERIC_HEADER_LEN + IV_LEN);
    let sealed = slice_subrange(body, GENERIC_HEADER_LEN + IV_LEN, len);
    let aad = slice_subrange(message, 0, IkeHeader::LEN + GENERIC_HEADER_LEN);
    assert(aad@ =~= message@.take(IkeHeader::LEN + GENERIC_HEADER_LEN));
    let plaintext = gcm_open(sk_e, iv, aad, sealed)?;
    let inner = strip_padding(&plaintext, "empty plaintext", "pad length exceeds plaintext")?;
    Ok((first_inner, inner))
}

/// Law: an `SK_e` is 32 bytes of AES-256 key and then 4 bytes of salt.
pub proof fn key_then_salt(key: Seq<u8>, salt: Seq<u8>)
    requires
        key.len() == 32,
        salt.len() == 4,
    ensures
        key_part(key + salt) == key,
        salt_part(key + salt) == salt,
{
    assert(key_part(key + salt) =~= key);
    assert(salt_part(key + salt) =~= salt);
}

/// Law: padding comes off whatever its bytes are: a payload, any padding of up to
/// 255 bytes and the number of those bytes give the payload back. Nothing else is
/// accepted: an empty plaintext and one shorter than its padding are errors.
pub proof fn padding_strips(
    inner: Seq<u8>,
    padding: Seq<u8>,
    plaintext: Seq<u8>,
    empty: IkeError,
    excess: IkeError,
)
    ensures
        padding.len() <= 255 ==> unpadded(inner + padding + seq![padding.len() as u8], empty, excess) == Ok::<
            Seq<u8>,
            IkeError,
        >(inner),
        plaintext.len() == 0 ==> unpadded(plaintext, empty, excess) == Err::<Seq<u8>, IkeError>(empty),
        plaintext.len() > 0 && plaintext[plaintext.len() - 1] >= plaintext.len() ==> unpadded(plaintext, empty, excess)
            == Err::<Seq<u8>, IkeError>(excess),
{
    let padded = inner + padding + seq![padding.len() as u8];
    if padding.len() <= 255 {
        assert(padded.take(inner.len() as int) =~= inner);
    }
}

/// Law: when an encrypted message is built, and every byte of it before the
/// ciphertext: the given header with Next Payload 46 and the message's length, the
/// announced first payload, the length of the SK payload, the IV; and what the
/// cipher is asked to seal under which key, nonce and associated data.
pub proof fn built_message_layout(
    header: IkeHeader,
    first_inner: PayloadType,
    inner: Seq<u8>,
    sk_e: Seq<u8>,
    iv: Seq<u8>,
)
    requires
        iv.len() == 8,
    ensures
        sk_e.len() != 36 ==> sk_build(header, first_inner, inner, sk_e, iv) == Err::<Seq<u8>, IkeError>(
            IkeError::Crypto("SK_e must be 36 bytes (32-byte AES-256 key + 4-byte GCM salt)"),
        ),
        sk_e.len() == 36 && inner.len() >= 0x10_0000_0000 ==> sk_build(header, first_inner, inner, sk_e, iv) == Err::<
            Seq<u8>,
            IkeError,
        >(IkeError::Crypto("GCM encryption failed")),
        sk_e.len() == 36 && inner.len() < 0x10_0000_0000 ==> (sk_build(header, first_inner, inner, sk_e, iv) matches Ok(
            m,
        ) && {
            &&& m.len() >= 40
            &&& m.subrange(0, 8) == be64(header.initiator_spi)
            &&& m.subrange(8, 16) == be64(header.responder_spi)
            &&& m[16] == 46
            &&& m[17] == (header.major_version % 16) * 16 + header.minor_version % 16
            &&& m[18] == exchange_code(header.exchange_type)
            &&& m[19] == (if header.flags.initiator { 8int } else { 0 }) + (if header.flags.version { 16int } else { 0 })
                + (if header.flags.response { 32int } else { 0 })
            &&& m.subrange(20, 24) == be32(header.message_id)
            &&& (inner.len() + 57 - u32_at(m, 24)) % 0x1_0000_0000 == 0
            &&& m[28] == payload_code(first_inner)
            &&& m[29] == 0
            &&& (inner.len() + 29 - u16_at(m, 30)) % 0x1_0000 == 0
            &&& m.subrange(32, 40) == iv
            &&& m.skip(40) == aes256_gcm_sealed(
                sk_e.take(32),
                sk_e.skip(32) + iv,
                m.take(32),
                inner + seq![0u8],
            )
        }),
{
    if sk_e.len() == 36 && inner.len() < 0x10_0000_0000 {
        let m = sk_build(header, first_inner, inner, sk_e, iv)->Ok_0;
        let sent = sk_header(header, inner.len());
        let len = sk_payload_len(inner.len());
        let aad = sk_aad(header, first_inner, inner.len());
        header_layout(sent);
        assert(m.subrange(0, 8) =~= header_bytes(sent).subrange(0, 8));
        assert(m.subrange(8, 16) =~= header_bytes(sent).subrange(8, 16));
        assert(m.subrange(20, 24) =~= header_bytes(sent).subrange(20, 24));
        assert(m.subrange(24, 28) =~= header_bytes(sent).subrange(24, 28));
        be32_roundtrip(sent.length);
        assert(u32_at(m, 24) == u32_at(m.subrange(24, 28), 0));
        be16_roundtrip(low16(len));
        assert(u16_at(m, 30) == u16_at(be16(low16(len)), 0));
        assert(m.subrange(32, 40) =~= iv);
        assert(m.take(32) =~= aad);
        assert(sk_e.take(32) =~= key_part(sk_e));
        assert(sk_e.skip(32) =~= salt_part(sk_e));
        assert(inner + seq![0u8] =~= inner.push(0));
        assert(m.skip(40) =~= sk_sealed(sk_e, iv, aad, inner.push(0)));
    }
}

/// Law: the header that is read from a built message is the given one, but for its
/// Next Payload, which says that the message is encrypted, and its length, which is
/// that of the message.
pub proof fn built_header_is_the_given_one(
    header: IkeHeader,
    first_inner: PayloadType,
    inner: Seq<u8>,
    sk_e: Seq<u8>,
    iv: Seq<u8>,
)
    ensures
        sk_build(header, first_inner, inner, sk_e, iv) matches Ok(m) ==> (parsed_header(m) matches Ok(h) && {
            &&& h.initiator_spi == header.initiator_spi
            &&& h.responder_spi == header.responder_spi
            &&& h.next_payload == PayloadType::Encrypted
            &&& header.major_version < 16 ==> h.major_version == header.major_version
            &&& header.minor_version < 16 ==> h.minor_version == header.minor_version
            &&& header.exchange_type !is Unknown ==> h.exchange_type == header.exchange_type
            &&& h.flags == header.flags
            &&& h.message_id == header.message_id
            &&& inner.len() + 57 <= 0xffff_ffff ==> h.length == inner.len() + 57
        }),
{
    if let Ok(m) = sk_build(header, first_inner, inner, sk_e, iv) {
        let sent = sk_header(header, inner.len());
        let rest = m.skip(28);
        header_survives_the_wire(sent, rest);
        header_fields_survive(sent, rest);
        assert(m =~= header_bytes(sent) + rest);
    }
}

/// Law: how every message is opened, whatever its bytes: which key, header and
/// lengths are refused and how; what the cipher is asked under which key, nonce and
/// associated data; and what is made of its answer.
pub proof fn opened_message_reading(m: Seq<u8>, sk_e: Seq<u8>, inner: Seq<u8>, padding: Seq<u8>)
    ensures
        ({
            let n = m[30] * 0x100 + m[31];
            let answer = aes256_gcm_opened(
                sk_e.take(32),
                sk_e.skip(32) + m.subrange(32, 40),
                m.take(32),
                m.subrange(40, 28 + n),
            );
            let r = sk_open(m, sk_e);
            &&& sk_e.len() != 36 ==> r == Err::<(PayloadType, Seq<u8>), IkeError>(
                IkeError::Crypto("SK_e must be 36 bytes (32-byte AES-256 key + 4-byte GCM salt)"),
            )
            &&& sk_e.len() == 36 && m.len() < 28 ==> r == Err::<(PayloadType, Seq<u8>), IkeError>(
                IkeError::Truncated { need: 28, have: m.len() as usize },
            )
            &&& sk_e.len() == 36 && m.len() >= 28 && m[16] != 46 ==> r == Err::<(PayloadType, Seq<u8>), IkeError>(
                IkeError::MissingPayload("SK"),
            )
            &&& sk_e.len() == 36 && 28 <= m.len() < 32 && m[16] == 46 ==> r == Err::<(PayloadType, Seq<u8>), IkeError>(
                IkeError::Truncated { need: 4, have: (m.len() - 28) as usize },
            )
            &&& sk_e.len() == 36 && m.len() >= 32 && m[16] == 46 && (n < 28 || 28 + n > m.len()) ==> r == Err::<
                (PayloadType, Seq<u8>),
                IkeError,
            >(IkeError::BadLength { declared: n as usize, available: (m.len() - 28) as usize })
            &&& sk_e.len() == 36 && m[16] == 46 && 28 <= n && 28 + n <= m.len() ==> {
                &&& answer is None ==> r == Err::<(PayloadType, Seq<u8>), IkeError>(IkeError::BadIntegrity)
                &&& answer == Some(inner + padding + seq![padding.len() as u8]) && padding.len() <= 255 ==> (r matches Ok(
                    (first, opened),
                ) && opened == inner && payload_code(first) == m[28] && canonical_type(first))
                &&& answer matches Some(p) ==> p.len() == 0 ==> r == Err::<(PayloadType, Seq<u8>), IkeError>(
                    IkeError::Crypto("empty plaintext"),
                )
                &&& answer matches Some(p) ==> p.len() > 0 && p[p.len() - 1] >= p.len() ==> r == Err::<
                    (PayloadType, Seq<u8>),
                    IkeError,
                >(IkeError::Crypto("pad length exceeds plaintext"))
            }
        }),
{
    let n = m[30] * 0x100 + m[31];
    read_in_network_order(m, 30);
    header_reading(m);
    payload_numbers(m[16]);
    payload_codes_are_faithful(m[16], PayloadType::Encrypted);
    if sk_e.len() == 36 {
        assert(sk_e.take(32) =~= key_part(sk_e));
        assert(sk_e.skip(32) =~= salt_part(sk_e));
    }
    if m.len() >= 32 {
        let body = m.skip(28);
        assert(body[0] == m[28]);
        assert(u16_at(body, 2) == u16_at(m, 30));
        payload_codes_are_faithful(m[28], PayloadType::NoNext);
        if 28 <= n && 28 + n <= m.len() {
            assert(body.subrange(4, 12) =~= m.subrange(32, 40));
            assert(body.subrange(12, n) =~= m.subrange(40, 28 + n));
            let empty = IkeError::Crypto("empty plaintext");
            let excess = IkeError::Crypto("pad length exceeds plaintext");
            padding_strips(inner, padding, Seq::empty(), empty, excess);
            if let Some(p) = sk_opened(sk_e, m.subrange(32, 40), m.take(32), m.subrange(40, 28 + n)) {
                padding_strips(inner, padding, p, empty, excess);
            }
        }
    }
}

/// Law: taking an opened message by its view keeps type, bytes and error.
pub proof fn opened_view(t: PayloadType, inner: Vec<u8>, e: IkeError)
    ensures
        opened_result(Ok((t, inner))) == Ok::<(PayloadType, Seq<u8>), IkeError>((t, inner@)),
        opened_result(Err(e)) == Err::<(PayloadType, Seq<u8>), IkeError>(e),
{
}

} // verus!
