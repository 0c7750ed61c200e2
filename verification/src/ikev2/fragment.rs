//! IKE message fragmentation (RFC 7383) for AES-GCM.
//!
//! A too-large encrypted message is sent as several IKE messages, each carrying
//! one SKF (Encrypted and Authenticated Fragment) payload instead of `SK`. Each
//! fragment is sealed on its own, with the fragment header (Fragment Number and
//! Total Fragments) folded into the associated data. The first fragment records
//! the Next Payload of the reassembled inner payloads; the rest carry 0.
//!
//! An SKF payload body is FragNum(2), Total(2), IV(8), ciphertext, tag(16).

use vstd::prelude::*;
use vstd::slice::{slice_subrange, slice_to_vec};

use crate::bytes::{append, low16_of_sum, low32_of_sum, read_u16, u16_to_be, u64_to_be};
use crate::bytes::{be16, be16_roundtrip, be32, be32_roundtrip, be64, be64_roundtrip};
use crate::bytes::{low16, low32, low64, read_in_network_order, u16_at, u32_at, u64_at};
use crate::error::{bytes_result, IkeError};
use crate::ikev2::message::{IkeHeader, PayloadType, GENERIC_HEADER_LEN};
use crate::ikev2::message::{
    canonical_type, exchange_code, generic_header, header_bytes, header_fields_survive, header_layout,
    header_reading, header_survives_the_wire, parsed_header, payload_code, payload_codes_are_faithful,
    payload_numbers, payload_type_of,
};
use crate::ikev2::sk::{gcm_open, gcm_seal, strip_padding, IV_LEN, SK_E_LEN};
use crate::ikev2::sk::{bad_sk_e, header_altered, headers_stand_apart, key_part, opened_result};
use crate::ikev2::sk::{padding_strips, salt_part, sk_opened, sk_sealed, unpadded, zero_padding_strips};
use crate::primitives::{aes256_gcm_opened, aes256_gcm_sealed, forgery_splits, only_tag_differs};
use crate::primitives::{GCM_MAX_LEN, GCM_TAG_LEN};

verus! {

/// Length of the fragment header: Fragment Number and Total Fragments.
pub const SKF_EXTRA: usize = 4;

/// Length of everything before the IV: IKE header, SKF generic header, fragment
/// header.
pub const SKF_AAD_LEN: usize = 36;

/// Shortest SKF payload: generic header, fragment header, IV, tag.
pub const SKF_MIN_LEN: usize = 32;

/// The most content a fragment can carry so that its payload length fits 16 bits.
pub const SKF_MAX_CONTENT: usize = 65502;

/// An opened fragment.
pub struct Fragment {
    pub frag_num: u16,
    pub total: u16,
    pub next_payload: u8,
    pub content: Vec<u8>,
}

/// An opened fragment, its content taken by its view.
#[verifier::ext_equal]
pub struct FragmentModel {
    pub frag_num: u16,
    pub total: u16,
    pub next_payload: u8,
    pub content: Seq<u8>,
}

impl View for Fragment {
    type V = FragmentModel;

    open spec fn view(&self) -> FragmentModel {
        FragmentModel {
            frag_num: self.frag_num,
            total: self.total,
            next_payload: self.next_payload,
            content: self.content@,
        }
    }
}

/// Opened fragments by their views.
pub open spec fn models(frags: Seq<Fragment>) -> Seq<FragmentModel> {
    frags.map_values(|f: Fragment| f@)
}

/// Messages by their views.
pub open spec fn messages_view(messages: Seq<Vec<u8>>) -> Seq<Seq<u8>> {
    messages.map_values(|m: Vec<u8>| m@)
}

/// `inner` cut into pieces of `size` bytes, the last one possibly shorter; an
/// empty string is one empty piece.
pub open spec fn chunks_of(inner: Seq<u8>, size: nat) -> Seq<Seq<u8>>
    decreases inner.len(),
{
    if size == 0 || inner.len() <= size {
        seq![inner]
    } else {
        seq![inner.take(size as int)] + chunks_of(inner.skip(size as int), size)
    }
}

/// The pieces put together again, in order.
pub open spec fn joined(parts: Seq<Seq<u8>>) -> Seq<u8>
    decreases parts.len(),
{
    if parts.len() == 0 {
        Seq::empty()
    } else {
        joined(parts.drop_last()) + parts.last()
    }
}

proof fn joined_from_front(head: Seq<u8>, tail: Seq<Seq<u8>>)
    ensures
        joined(seq![head] + tail) == head + joined(tail),
    decreases tail.len(),
{
    let all = seq![head] + tail;
    if tail.len() == 0 {
        reveal_with_fuel(joined, 2);
        assert(all.drop_last() =~= Seq::<Seq<u8>>::empty());
        assert(joined(all) =~= head + joined(tail));
    } else {
        joined_from_front(head, tail.drop_last());
        assert(all.drop_last() =~= seq![head] + tail.drop_last());
        assert(joined(all) =~= head + joined(tail));
    }
}

/// Law: cutting loses nothing. The pieces join to the original string, there is
/// at least one, none is longer than the first, and none exceeds `size`.
pub proof fn chunks_cover(inner: Seq<u8>, size: nat)
    requires
        size > 0,
    ensures
        joined(chunks_of(inner, size)) == inner,
        chunks_of(inner, size).len() >= 1,
        chunks_of(inner, size)[0].len() <= size,
        forall|i: int|
            0 <= i < chunks_of(inner, size).len() ==> (#[trigger] chunks_of(inner, size)[i]).len() <= chunks_of(
                inner,
                size,
            )[0].len(),
    decreases inner.len(),
{
    let all = chunks_of(inner, size);
    if inner.len() <= size {
        assert(all =~= seq![inner]);
        joined_from_front(inner, Seq::empty());
        assert(seq![inner] + Seq::<Seq<u8>>::empty() =~= all);
        assert(inner + Seq::<u8>::empty() =~= inner);
    } else {
        let head = inner.take(size as int);
        let rest = inner.skip(size as int);
        chunks_cover(rest, size);
        joined_from_front(head, chunks_of(rest, size));
        assert(head + rest =~= inner);
        assert forall|i: int| 0 <= i < all.len() implies (#[trigger] all[i]).len() <= all[0].len() by {
            if i > 0 {
                assert(all[i] == chunks_of(rest, size)[i - 1]);
            }
        }
    }
}

/// Law: the number of pieces is the length divided by the size, rounded up, and
/// one for the empty string.
pub proof fn chunk_count(inner: Seq<u8>, size: nat)
    requires
        size > 0,
    ensures
        chunks_of(inner, size).len() == (if inner.len() == 0 {
            1
        } else {
            (inner.len() - 1) / (size as int) + 1
        }),
    decreases inner.len(),
{
    if inner.len() <= size {
        if inner.len() > 0 {
            vstd::arithmetic::div_mod::lemma_basic_div(inner.len() - 1, size as int);
        }
    } else {
        let rest = inner.skip(size as int);
        chunk_count(rest, size);
        vstd::arithmetic::div_mod::lemma_div_plus_one(rest.len() - 1, size as int);
    }
}

/// Cuts `inner` into pieces of `size` bytes.
pub fn split_chunks<'a>(inner: &'a [u8], size: usize) -> (r: Vec<&'a [u8]>)
    requires
        size > 0,
    ensures
        r@.len() == chunks_of(inner@, size as nat).len(),
        forall|i: int| 0 <= i < r@.len() ==> (#[trigger] r@[i])@ == chunks_of(inner@, size as nat)[i],
{
    let mut out: Vec<&'a [u8]> = Vec::new();
    let mut rest: &'a [u8] = inner;
    let ghost all = chunks_of(inner@, size as nat);
    assert(all.skip(0) =~= all);
    while rest.len() > size
        invariant
            size > 0,
            all == chunks_of(inner@, size as nat),
            out@.len() <= all.len(),
            chunks_of(rest@, size as nat) == all.skip(out@.len() as int),
            forall|i: int| 0 <= i < out@.len() ==> (#[trigger] out@[i])@ == all[i],
        decreases rest@.len(),
    {
        let ghost before = rest@;
        let ghost done = out@.len();
        let head = slice_subrange(rest, 0, size);
        out.push(head);
        rest = slice_subrange(rest, size, rest.len());
        proof {
            assert(head@ =~= before.take(size as int));
            assert(rest@ =~= before.skip(size as int));
            let here = chunks_of(before, size as nat);
            assert(here == seq![head@] + chunks_of(rest@, size as nat));
            assert(all.skip(done as int)[0] == head@);
            assert(chunks_of(rest@, size as nat) =~= here.skip(1));
            assert(here.skip(1) =~= all.skip((done + 1) as int));
        }
    }
    assert(chunks_of(rest@, size as nat) =~= seq![rest@]);
    assert(all.skip(out@.len() as int)[0] == rest@);
    out.push(rest);
    out
}

/// Length of the SKF payload that carries `content_len` bytes: generic header,
/// fragment header, IV, the bytes and their Pad Length, tag.
pub open spec fn skf_payload_len(content_len: nat) -> int {
    GENERIC_HEADER_LEN + SKF_EXTRA + IV_LEN + content_len + 1 + GCM_TAG_LEN
}

/// The header of the message that carries a fragment.
pub open spec fn skf_header(header: IkeHeader, content_len: nat) -> IkeHeader {
    IkeHeader {
        next_payload: PayloadType::EncryptedFragment,
        length: low32(IkeHeader::LEN + skf_payload_len(content_len)),
        ..header
    }
}

/// The number of the fragment at `index`. Fragments count from 1; the field holds
/// the low 16 bits of the count.
pub open spec fn skf_number(index: int) -> u16 {
    low16(index + 1)
}

/// The Next Payload of the fragment at `index`: the first inner type in the first
/// fragment, 0 in the others.
pub open spec fn skf_next(first_inner: PayloadType, index: int) -> u8 {
    if index == 0 {
        payload_code(first_inner)
    } else {
        0
    }
}

/// Everything before the IV: IKE header, SKF generic header, fragment header.
pub open spec fn skf_aad(
    header: IkeHeader,
    next: u8,
    frag_num: u16,
    total: u16,
    content_len: nat,
) -> Seq<u8> {
    header_bytes(skf_header(header, content_len)) + generic_header(next, skf_payload_len(content_len)) + be16(frag_num)
        + be16(total)
}

/// The IV of the fragment at `index`: the base plus the full count, modulo 2 to
/// the 64.
pub open spec fn skf_iv(iv_base: u64, index: int) -> Seq<u8> {
    be64(low64(iv_base + index + 1))
}

/// The message that carries the fragment at `index`.
pub open spec fn skf_message(
    header: IkeHeader,
    first_inner: PayloadType,
    content: Seq<u8>,
    index: int,
    total: u16,
    sk_e: Seq<u8>,
    iv_base: u64,
) -> Seq<u8> {
    let aad = skf_aad(header, skf_next(first_inner, index), skf_number(index), total, content.len());
    aad + skf_iv(iv_base, index) + sk_sealed(sk_e, skf_iv(iv_base, index), aad, content.push(0))
}

/// What opening one fragment message gives.
pub open spec fn skf_open(message: Seq<u8>, sk_e: Seq<u8>) -> Result<FragmentModel, IkeError> {
    match parsed_header(message) {
        Err(e) => Err(e),
        Ok(header) => if header.next_payload != PayloadType::EncryptedFragment {
            Err(IkeError::MissingPayload("SKF"))
        } else {
            let body = message.skip(IkeHeader::LEN as int);
            let len = u16_at(body, 2);
            if body.len() < SKF_MIN_LEN {
                Err(IkeError::Truncated { need: SKF_MIN_LEN, have: body.len() as usize })
            } else if len < SKF_MIN_LEN || len > body.len() {
                Err(IkeError::BadLength { declared: len as usize, available: body.len() as usize })
            } else if sk_e.len() != SK_E_LEN {
                Err(bad_sk_e())
            } else {
                match sk_opened(
                    sk_e,
                    body.subrange(8, 16),
                    message.take(IkeHeader::LEN + GENERIC_HEADER_LEN + SKF_EXTRA),
                    body.subrange(16, len as int),
                ) {
                    None => Err(IkeError::BadIntegrity),
                    Some(plaintext) => match unpadded(
                        plaintext,
                        IkeError::Crypto("empty fragment"),
                        IkeError::Crypto("pad length exceeds fragment"),
                    ) {
                        Err(e) => Err(e),
                        Ok(content) => Ok(
                            FragmentModel {
                                frag_num: u16_at(body, 4),
                                total: u16_at(body, 6),
                                next_payload: body[0],
                                content,
                            },
                        ),
                    },
                }
            }
        },
    }
}

/// What the cipher answers on a fragment message: IV, everything before it as the
/// associated data, and the ciphertext and tag up to the payload's length.
pub open spec fn skf_payload_opened(message: Seq<u8>, sk_e: Seq<u8>) -> Option<Seq<u8>> {
    sk_opened(
        sk_e,
        message.subrange(SKF_AAD_LEN as int, SKF_AAD_LEN + IV_LEN),
        message.take(SKF_AAD_LEN as int),
        message.subrange(SKF_AAD_LEN + IV_LEN, IkeHeader::LEN + u16_at(message, 30)),
    )
}

/// Law: the headers of a fragment message, its Fragment Number and Total Fragments
/// among them, are authenticated although they are not encrypted. If they are
/// altered in a message that opens, then the cipher is asked about the same IV,
/// ciphertext and tag under other associated data, and the fragment is refused as
/// not authentic exactly when the cipher refuses that.
///
/// Not said: that the cipher does refuse it. AES-GCM does so with overwhelming
/// probability, not with certainty.
pub proof fn fragment_headers_are_authenticated(message: Seq<u8>, altered: Seq<u8>, sk_e: Seq<u8>)
    requires
        skf_open(message, sk_e) is Ok,
        header_altered(message, altered, SKF_AAD_LEN as int),
    ensures
        altered.take(SKF_AAD_LEN as int) != message.take(SKF_AAD_LEN as int),
        skf_payload_opened(altered, sk_e) == sk_opened(
            sk_e,
            message.subrange(SKF_AAD_LEN as int, SKF_AAD_LEN + IV_LEN),
            altered.take(SKF_AAD_LEN as int),
            message.subrange(SKF_AAD_LEN + IV_LEN, IkeHeader::LEN + u16_at(message, 30)),
        ),
        (skf_open(altered, sk_e) == Err::<FragmentModel, IkeError>(IkeError::BadIntegrity)) == (skf_payload_opened(
            altered,
            sk_e,
        ) is None),
{
    let aad_len = SKF_AAD_LEN as int;
    let body = message.skip(IkeHeader::LEN as int);
    let other = altered.skip(IkeHeader::LEN as int);
    let len = u16_at(body, 2);
    headers_stand_apart(message, altered, aad_len);
    assert(len == u16_at(message, 30));
    assert(u16_at(other, 2) == u16_at(altered, 30));
    assert(other.subrange(8, 16) =~= altered.subrange(aad_len, aad_len + IV_LEN));
    assert(other.subrange(16, len as int) =~= altered.subrange(aad_len + IV_LEN, IkeHeader::LEN + len));
    assert(message.subrange(aad_len, aad_len + IV_LEN) =~= altered.subrange(aad_len, aad_len + IV_LEN));
    assert(message.subrange(aad_len + IV_LEN, IkeHeader::LEN + len) =~= altered.subrange(
        aad_len + IV_LEN,
        IkeHeader::LEN + len,
    ));
}

/// An opened fragment by its view.
pub open spec fn fragment_result(r: Result<Fragment, IkeError>) -> Result<FragmentModel, IkeError> {
    match r {
        Ok(f) => Ok(f@),
        Err(e) => Err(e),
    }
}

/// What the framing of a fragment gives back on receipt, once the cipher has
/// given its plaintext back.
proof fn skf_framing_roundtrip(
    header: IkeHeader,
    next: u8,
    content: Seq<u8>,
    frag_num: u16,
    total: u16,
    sk_e: Seq<u8>,
    iv: Seq<u8>,
    sealed: Seq<u8>,
)
    requires
        sk_e.len() == SK_E_LEN,
        iv.len() == IV_LEN,
        content.len() <= SKF_MAX_CONTENT,
        sealed.len() == content.len() + 1 + GCM_TAG_LEN,
    ensures
        ({
            let aad = skf_aad(header, next, frag_num, total, content.len());
            let message = aad + iv + sealed;
            &&& sk_opened(sk_e, iv, aad, sealed) is None ==> skf_open(message, sk_e) == Err::<FragmentModel, IkeError>(
                IkeError::BadIntegrity,
            )
            &&& sk_opened(sk_e, iv, aad, sealed) == Some(content.push(0)) ==> skf_open(message, sk_e) == Ok::<
                FragmentModel,
                IkeError,
            >(FragmentModel { frag_num, total, next_payload: next, content })
        }),
{
    let aad = skf_aad(header, next, frag_num, total, content.len());
    let message = aad + iv + sealed;
    let sent = skf_header(header, content.len());
    let len = skf_payload_len(content.len());
    let tail = generic_header(next, len) + be16(frag_num) + be16(total) + iv + sealed;
    header_survives_the_wire(sent, tail);
    assert(message =~= header_bytes(sent) + tail);
    let body = message.skip(IkeHeader::LEN as int);
    assert(body =~= tail);
    be16_roundtrip(low16(len));
    be16_roundtrip(frag_num);
    be16_roundtrip(total);
    assert(u16_at(body, 2) == u16_at(be16(low16(len)), 0));
    assert(u16_at(body, 4) == u16_at(be16(frag_num), 0));
    assert(u16_at(body, 6) == u16_at(be16(total), 0));
    assert(body.subrange(8, 16) =~= iv);
    assert(body.subrange(16, len) =~= sealed);
    assert(message.take(IkeHeader::LEN + GENERIC_HEADER_LEN + SKF_EXTRA) =~= aad);
    zero_padding_strips(content, IkeError::Crypto("empty fragment"), IkeError::Crypto("pad length exceeds fragment"));
}

/// Everything before the IV of a fragment message.
fn fragment_aad(header: &IkeHeader, next: u8, frag_num: u16, total: u16, content_len: usize) -> (r: Vec<u8>)
    ensures
        r@ == skf_aad(*header, next, frag_num, total, content_len as nat),
        r@.len() == IkeHeader::LEN + GENERIC_HEADER_LEN + SKF_EXTRA,
{
    let mut sent: IkeHeader = *header;
    sent.next_payload = PayloadType::EncryptedFragment;
    sent.length = low32_of_sum(
        IkeHeader::LEN + GENERIC_HEADER_LEN + SKF_EXTRA + IV_LEN + 1 + GCM_TAG_LEN,
        content_len,
    );
    let skf_gen: [u8; 2] = [next, 0];
    let len16: u16 = low16_of_sum(GENERIC_HEADER_LEN + SKF_EXTRA + IV_LEN + 1 + GCM_TAG_LEN, content_len);
    let mut aad: Vec<u8> = sent.to_bytes();
    append(&mut aad, &skf_gen);
    append(&mut aad, &u16_to_be(len16));
    append(&mut aad, &u16_to_be(frag_num));
    append(&mut aad, &u16_to_be(total));
    assert(skf_gen@ =~= seq![next, 0u8]);
    assert(aad@ =~= skf_aad(*header, next, frag_num, total, content_len as nat));
    aad
}

/// Seals the fragment at `index`, counted from 0, into its message.
pub fn build_fragment(
    header: &IkeHeader,
    first_inner: PayloadType,
    content: &[u8],
    index: usize,
    total: u16,
    sk_e: &[u8],
    iv_base: u64,
) -> (r: Result<Vec<u8>, IkeError>)
    ensures
        bytes_result(r) == (if sk_e@.len() != SK_E_LEN {
            Err::<Seq<u8>, IkeError>(bad_sk_e())
        } else if content@.len() + 1 > GCM_MAX_LEN {
            Err(IkeError::Crypto("GCM encryption failed"))
        } else {
            Ok(skf_message(*header, first_inner, content@, index as int, total, sk_e@, iv_base))
        }),
        r matches Ok(message) ==> {
            &&& message@.len() == IkeHeader::LEN + skf_payload_len(content@.len())
            &&& content@.len() <= SKF_MAX_CONTENT ==> skf_open(message@, sk_e@) == Ok::<FragmentModel, IkeError>(
                FragmentModel {
                    frag_num: skf_number(index as int),
                    total,
                    next_payload: skf_next(first_inner, index as int),
                    content: content@,
                },
            )
            &&& content@.len() <= SKF_MAX_CONTENT ==> forall|forged: Seq<u8>|
                only_tag_differs(message@, forged) ==> #[trigger] skf_open(forged, sk_e@) == Err::<
                    FragmentModel,
                    IkeError,
                >(IkeError::BadIntegrity)
        },
{
    let frag_num: u16 = low16_of_sum(index, 1);
    let iv = u64_to_be(iv_base.wrapping_add(index as u64).wrapping_add(1));
    assert(iv@ == skf_iv(iv_base, index as int));
    let mut plaintext: Vec<u8> = slice_to_vec(content);
    plaintext.push(0);
    assert(plaintext@ =~= content@.push(0));

    let next: u8 = if index == 0 {
        first_inner.to_u8()
    } else {
        0
    };
    let aad = fragment_aad(header, next, frag_num, total, content.len());
    let sealed = gcm_seal(sk_e, &iv, &aad, &plaintext)?;
    let mut out: Vec<u8> = aad.clone();
    assert(out@ =~= aad@);
    append(&mut out, &iv);
    append(&mut out, &sealed);
    proof {
        if content@.len() <= SKF_MAX_CONTENT {
            skf_framing_roundtrip(*header, next, content@, frag_num, total, sk_e@, iv@, sealed@);
            assert forall|forged: Seq<u8>| only_tag_differs(out@, forged) implies #[trigger] skf_open(forged, sk_e@)
                == Err::<FragmentModel, IkeError>(IkeError::BadIntegrity) by {
                let other = forged.skip((aad@.len() + iv@.len()) as int);
                forgery_splits(aad@ + iv@, sealed@, forged);
                skf_framing_roundtrip(*header, next, content@, frag_num, total, sk_e@, iv@, other);
            }
        }
    }
    Ok(out)
}

/// Opens one fragment message.
pub fn open_fragment(message: &[u8], sk_e: &[u8]) -> (r: Result<Fragment, IkeError>)
    ensures
        fragment_result(r) == skf_open(message@, sk_e@),
{
    let header = IkeHeader::parse(message)?;
    if header.next_payload != PayloadType::EncryptedFragment {
        return Err(IkeError::MissingPayload("SKF"));
    }
    let body = slice_subrange(message, IkeHeader::LEN, message.len());
    assert(body@ =~= message@.skip(IkeHeader::LEN as int));
    if body.len() < SKF_MIN_LEN {
        return Err(IkeError::Truncated { need: SKF_MIN_LEN, have: body.len() });
    }
    let next_payload: u8 = body[0];
    let len: usize = read_u16(body, 2) as usize;
    if len < SKF_MIN_LEN || len > body.len() {
        return Err(IkeError::BadLength { declared: len, available: body.len() });
    }
    let frag_num: u16 = read_u16(body, 4);
    let total: u16 = read_u16(body, 6);
    let iv = slice_subrange(body, 8, 16);
    let sealed = slice_subrange(body, 16, len);
    let aad = slice_subrange(message, 0, IkeHeader::LEN + GENERIC_HEADER_LEN + SKF_EXTRA);
    assert(aad@ =~= message@.take(IkeHeader::LEN + GENERIC_HEADER_LEN + SKF_EXTRA));
    let plaintext = gcm_open(sk_e, iv, aad, sealed)?;
    let content = strip_padding(&plaintext, "empty fragment", "pad length exceeds fragment")?;
    Ok(Fragment { frag_num, total, next_payload, content })
}

/// Some fragment carries the number `k`.
pub open spec fn has_number(frags: Seq<FragmentModel>, k: int) -> bool {
    exists|i: int| 0 <= i < frags.len() && (#[trigger] frags[i]).frag_num == k
}

/// The fragment that carries the number `k`.
pub open spec fn numbered(frags: Seq<FragmentModel>, k: int) -> FragmentModel {
    frags[choose|i: int| 0 <= i < frags.len() && (#[trigger] frags[i]).frag_num == k]
}

/// All fragments announce the same, nonzero, total.
pub open spec fn totals_agree(frags: Seq<FragmentModel>) -> bool {
    &&& frags[0].total != 0
    &&& forall|i: int| 0 <= i < frags.len() ==> (#[trigger] frags[i]).total == frags[0].total
}

/// Every number from 1 to the number of fragments is carried by some fragment.
pub open spec fn all_numbers(frags: Seq<FragmentModel>) -> bool {
    forall|k: int| 1 <= k <= frags.len() ==> #[trigger] has_number(frags, k)
}

/// The contents in the order of their fragment numbers.
pub open spec fn ordered_contents(frags: Seq<FragmentModel>) -> Seq<Seq<u8>> {
    Seq::new(frags.len(), |k: int| numbered(frags, k + 1).content)
}

/// What a set of opened fragments assembles to: the type of the first inner
/// payload and the inner bytes.
pub open spec fn assembled(frags: Seq<FragmentModel>) -> Result<(PayloadType, Seq<u8>), IkeError> {
    if frags.len() == 0 {
        Err(IkeError::Crypto("no fragments"))
    } else if !totals_agree(frags) {
        Err(IkeError::Crypto("inconsistent Total Fragments"))
    } else if frags.len() != frags[0].total {
        Err(IkeError::Crypto("wrong number of fragments"))
    } else if !all_numbers(frags) {
        Err(IkeError::Crypto("duplicate or missing fragment number"))
    } else {
        Ok((payload_type_of(numbered(frags, 1).next_payload), joined(ordered_contents(frags))))
    }
}

/// The fragments that the messages open to; the error of the first message that
/// does not open.
pub open spec fn all_opened(messages: Seq<Seq<u8>>, sk_e: Seq<u8>) -> Result<Seq<FragmentModel>, IkeError>
    decreases messages.len(),
{
    if messages.len() == 0 {
        Ok(Seq::empty())
    } else {
        match all_opened(messages.drop_last(), sk_e) {
            Err(e) => Err(e),
            Ok(before) => match skf_open(messages.last(), sk_e) {
                Err(e) => Err(e),
                Ok(f) => Ok(before.push(f)),
            },
        }
    }
}

/// What a set of fragment messages reassembles to.
pub open spec fn reassembled(
    messages: Seq<Seq<u8>>,
    sk_e: Seq<u8>,
) -> Result<(PayloadType, Seq<u8>), IkeError> {
    match all_opened(messages, sk_e) {
        Err(e) => Err(e),
        Ok(frags) => assembled(frags),
    }
}

/// Law: in a set that assembles, every number from 1 to the total is carried
/// exactly once.
pub proof fn each_number_once(frags: Seq<FragmentModel>)
    requires
        all_numbers(frags),
    ensures
        forall|i: int, j: int|
            0 <= i < frags.len() && 0 <= j < frags.len() && i != j ==> (#[trigger] frags[i]).frag_num != (
            #[trigger] frags[j]).frag_num,
        forall|i: int| 0 <= i < frags.len() ==> 1 <= (#[trigger] frags[i]).frag_num <= frags.len(),
{
    let n = frags.len() as int;
    let nums = frags.map_values(|f: FragmentModel| f.frag_num as int);
    let range = vstd::set_lib::set_int_range(1, n + 1);
    vstd::set_lib::lemma_int_range(1, n + 1);
    nums.lemma_cardinality_of_set();
    assert forall|k: int| range.contains(k) implies nums.to_set().contains(k) by {
        assert(has_number(frags, k));
        let i = choose|i: int| 0 <= i < frags.len() && (#[trigger] frags[i]).frag_num == k;
        assert(nums[i] == k);
    }
    vstd::set_lib::lemma_len_subset(range, nums.to_set());
    nums.lemma_no_dup_set_cardinality();
    vstd::set_lib::lemma_subset_equality(range, nums.to_set());
    assert forall|i: int, j: int| 0 <= i < frags.len() && 0 <= j < frags.len() && i != j implies (
    #[trigger] frags[i]).frag_num != (#[trigger] frags[j]).frag_num by {
        assert(nums[i] != nums[j]);
    }
    assert forall|i: int| 0 <= i < frags.len() implies 1 <= (#[trigger] frags[i]).frag_num <= frags.len() by {
        assert(nums[i] == frags[i].frag_num);
        assert(nums.to_set().contains(nums[i]));
    }
}

/// Law: the order in which fragments arrive does not matter. Two arrangements of
/// the same fragments assemble to the same result, be it bytes or an error.
pub proof fn arrival_order_is_irrelevant(a: Seq<FragmentModel>, b: Seq<FragmentModel>)
    requires
        a.to_multiset() == b.to_multiset(),
    ensures
        assembled(a) == assembled(b),
{
    broadcast use vstd::seq_lib::group_to_multiset_ensures;

    assert(a.to_multiset().len() == a.len() && b.to_multiset().len() == b.len());
    assert forall|x: FragmentModel| a.contains(x) == b.contains(x) by {
        assert(a.contains(x) == (a.to_multiset().count(x) > 0));
        assert(b.contains(x) == (b.to_multiset().count(x) > 0));
    }
    if a.len() > 0 {
        assert forall|i: int| 0 <= i < a.len() implies b.contains(#[trigger] a[i]) by {
            assert(a.contains(a[i]));
        }
        assert forall|i: int| 0 <= i < b.len() implies a.contains(#[trigger] b[i]) by {
            assert(b.contains(b[i]));
        }
        same_numbers(a, b);
        same_numbers(b, a);
        assert(b.contains(a[0]) && a.contains(b[0]));
        if totals_agree(a) {
            assert forall|i: int| 0 <= i < b.len() implies (#[trigger] b[i]).total == b[0].total by {
                assert(a.contains(b[i]) && a.contains(b[0]));
            }
            assert(totals_agree(b));
        }
        if totals_agree(b) {
            assert forall|i: int| 0 <= i < a.len() implies (#[trigger] a[i]).total == a[0].total by {
                assert(b.contains(a[i]) && b.contains(a[0]));
            }
            assert(totals_agree(a));
        }
        if totals_agree(a) && all_numbers(a) {
            each_number_once(a);
            assert forall|k: int| 1 <= k <= a.len() implies numbered(a, k) == numbered(b, k) by {
                assert(has_number(a, k) && has_number(b, k));
                let j = choose|j: int| 0 <= j < b.len() && (#[trigger] b[j]).frag_num == k;
                let i = choose|i: int| 0 <= i < a.len() && (#[trigger] a[i]).frag_num == k;
                assert(a.contains(b[j]));
                let m = choose|m: int| 0 <= m < a.len() && a[m] == b[j];
                assert(a[m].frag_num == a[i].frag_num);
            }
            assert(ordered_contents(a) =~= ordered_contents(b));
        }
    }
}

/// Numbers that one set of fragments carries are carried by every set that
/// contains it.
proof fn same_numbers(a: Seq<FragmentModel>, b: Seq<FragmentModel>)
    requires
        a.len() == b.len(),
        forall|i: int| 0 <= i < a.len() ==> b.contains(#[trigger] a[i]),
    ensures
        all_numbers(a) ==> all_numbers(b),
{
    if all_numbers(a) {
        assert forall|k: int| 1 <= k <= b.len() implies #[trigger] has_number(b, k) by {
            assert(has_number(a, k));
            let i = choose|i: int| 0 <= i < a.len() && (#[trigger] a[i]).frag_num == k;
            assert(b.contains(a[i]));
            let j = choose|j: int| 0 <= j < b.len() && b[j] == a[i];
            assert(b[j].frag_num == k);
        }
    }
}

/// Puts opened fragments together.
pub fn assemble(frags: &[Fragment]) -> (r: Result<(PayloadType, Vec<u8>), IkeError>)
    ensures
        opened_result(r) == assembled(models(frags@)),
{
    let n: usize = frags.len();
    let ghost model = models(frags@);
    if n == 0 {
        return Err(IkeError::Crypto("no fragments"));
    }
    let total: u16 = frags[0].total;
    assert(model[0] == frags@[0]@);
    if total == 0 {
        return Err(IkeError::Crypto("inconsistent Total Fragments"));
    }
    for i in 0..n
        invariant
            n == frags@.len(),
            n > 0,
            model == models(frags@),
            total == model[0].total,
            forall|j: int| 0 <= j < i ==> (#[trigger] model[j]).total == total,
    {
        assert(model[i as int] == frags@[i as int]@);
        if frags[i].total != total {
            return Err(IkeError::Crypto("inconsistent Total Fragments"));
        }
    }
    assert(totals_agree(model));
    if n != total as usize {
        return Err(IkeError::Crypto("wrong number of fragments"));
    }
    let slots = match place_by_number(frags) {
        None => {
            return Err(IkeError::Crypto("duplicate or missing fragment number"));
        },
        Some(slots) => slots,
    };
    proof {
        each_number_once(model);
    }
    let first_inner = PayloadType::from_u8(frags[slots[0]].next_payload);
    assert(first_inner == payload_type_of(numbered(model, 1).next_payload)) by {
        assert(has_number(model, 1));
        assert(model[slots@[0] as int] == frags@[slots@[0] as int]@);
    }
    let mut inner: Vec<u8> = Vec::new();
    let ghost parts = ordered_contents(model);
    assert(parts.take(0) =~= Seq::<Seq<u8>>::empty());
    for k in 0..n
        invariant
            n == frags@.len(),
            model == models(frags@),
            parts == ordered_contents(model),
            all_numbers(model),
            forall|i: int, j: int|
                0 <= i < model.len() && 0 <= j < model.len() && i != j ==> (#[trigger] model[i]).frag_num != (
                #[trigger] model[j]).frag_num,
            slots@.len() == n,
            forall|j: int| 0 <= j < n ==> #[trigger] slots@[j] < n && model[slots@[j] as int].frag_num == j + 1,
            inner@ == joined(parts.take(k as int)),
    {
        let ghost before = inner@;
        let at: usize = slots[k];
        append(&mut inner, &frags[at].content);
        proof {
            assert(has_number(model, k + 1));
            assert(model[at as int] == frags@[at as int]@);
            assert(numbered(model, k + 1) == model[at as int]);
            assert(parts.take(k + 1).drop_last() =~= parts.take(k as int));
            assert(parts.take(k + 1).last() == frags@[at as int].content@);
        }
    }
    assert(parts.take(n as int) =~= parts);
    Ok((first_inner, inner))
}

/// Where each fragment number stands: entry `k` is the index of the fragment that
/// carries the number `k + 1`. `None` if a number from 1 to the number of
/// fragments is not carried.
fn place_by_number(frags: &[Fragment]) -> (r: Option<Vec<usize>>)
    ensures
        r is Some <==> all_numbers(models(frags@)),
        r matches Some(slots) ==> {
            &&& slots@.len() == frags@.len()
            &&& forall|k: int|
                0 <= k < slots@.len() ==> #[trigger] slots@[k] < frags@.len() && models(
                    frags@,
                )[slots@[k] as int].frag_num == k + 1
        },
{
    let n: usize = frags.len();
    let ghost model = models(frags@);
    // An entry equal to `n` is still open.
    let mut slots: Vec<usize> = Vec::new();
    for i in 0..n
        invariant
            slots@.len() == i,
            forall|k: int| 0 <= k < i ==> #[trigger] slots@[k] == n,
    {
        slots.push(n);
    }
    for i in 0..n
        invariant
            n == frags@.len(),
            model == models(frags@),
            slots@.len() == n,
            forall|k: int|
                0 <= k < n && #[trigger] slots@[k] != n ==> slots@[k] < n && model[slots@[k] as int].frag_num == k + 1,
            forall|k: int, j: int|
                0 <= k < n && 0 <= j < i && (#[trigger] model[j]).frag_num == k + 1 ==> #[trigger] slots@[k] != n,
    {
        assert(model[i as int] == frags@[i as int]@);
        let num: usize = frags[i].frag_num as usize;
        if 1 <= num && num <= n {
            slots.set(num - 1, i);
        }
    }
    for k in 0..n
        invariant
            n == frags@.len(),
            model == models(frags@),
            slots@.len() == n,
            forall|k: int|
                0 <= k < n && #[trigger] slots@[k] != n ==> slots@[k] < n && model[slots@[k] as int].frag_num == k + 1,
            forall|k: int, j: int|
                0 <= k < n && 0 <= j < n && (#[trigger] model[j]).frag_num == k + 1 ==> #[trigger] slots@[k] != n,
            forall|m: int| 0 <= m < k ==> #[trigger] slots@[m] != n,
    {
        if slots[k] == n {
            assert(!has_number(model, k + 1));
            return None;
        }
    }
    assert forall|k: int| 1 <= k <= model.len() implies #[trigger] has_number(model, k) by {
        assert(slots@[k - 1] != n);
        assert(model[slots@[k - 1] as int].frag_num == k);
    }
    Some(slots)
}

/// Reassembles a set of SKF messages into the type of the first inner payload and
/// the inner bytes.
///
/// Fragments may arrive in any order; all of 1 to the total must be there exactly
/// once, and every fragment's tag must verify.
pub fn reassemble(messages: &[Vec<u8>], sk_e: &[u8]) -> (r: Result<(PayloadType, Vec<u8>), IkeError>)
    ensures
        opened_result(r) == reassembled(messages_view(messages@), sk_e@),
{
    let mut frags: Vec<Fragment> = Vec::new();
    let n: usize = messages.len();
    let ghost views = messages_view(messages@);
    assert(models(frags@) =~= Seq::<FragmentModel>::empty());
    assert(views.take(0) =~= Seq::<Seq<u8>>::empty());
    for i in 0..n
        invariant
            n == messages@.len(),
            views == messages_view(messages@),
            all_opened(views.take(i as int), sk_e@) == Ok::<Seq<FragmentModel>, IkeError>(models(frags@)),
    {
        let ghost before = models(frags@);
        assert(views.take(i + 1).drop_last() =~= views.take(i as int));
        assert(views.take(i + 1).last() == messages@[i as int]@);
        match open_fragment(&messages[i], sk_e) {
            Err(e) => {
                proof {
                    first_error_wins(views, sk_e@, i + 1);
                }
                return Err(e);
            },
            Ok(f) => {
                let ghost f_model = f@;
                frags.push(f);
                assert(models(frags@) =~= before.push(f_model));
            },
        }
    }
    assert(views.take(n as int) =~= views);
    assemble(&frags)
}

/// An error among the first messages is the error of the whole.
proof fn first_error_wins(messages: Seq<Seq<u8>>, sk_e: Seq<u8>, upto: int)
    requires
        0 <= upto <= messages.len(),
        all_opened(messages.take(upto), sk_e) is Err,
    ensures
        all_opened(messages, sk_e) == all_opened(messages.take(upto), sk_e),
    decreases messages.len() - upto,
{
    if upto < messages.len() {
        assert(messages.take(upto + 1).drop_last() =~= messages.take(upto));
        first_error_wins(messages, sk_e, upto + 1);
    } else {
        assert(messages.take(upto) =~= messages);
    }
}

/// The fragment at `i` as the receiver opens it.
pub open spec fn sent_fragment(first_inner: PayloadType, chunks: Seq<Seq<u8>>, i: int) -> FragmentModel {
    FragmentModel {
        frag_num: skf_number(i),
        total: low16(chunks.len() as int),
        next_payload: skf_next(first_inner, i),
        content: chunks[i],
    }
}

/// What splitting `inner` into fragment messages gives. Fragment numbers and the
/// total are the low 16 bits of the counts; the IVs go by the full count.
pub open spec fn fragments_built(
    header: IkeHeader,
    first_inner: PayloadType,
    inner: Seq<u8>,
    sk_e: Seq<u8>,
    iv_base: u64,
    size: nat,
) -> Result<Seq<Seq<u8>>, IkeError> {
    let chunks = chunks_of(inner, size);
    if size == 0 {
        Err(IkeError::Crypto("fragment content size must be > 0"))
    } else if sk_e.len() != SK_E_LEN {
        Err(bad_sk_e())
    } else if chunks[0].len() + 1 > GCM_MAX_LEN {
        Err(IkeError::Crypto("GCM encryption failed"))
    } else {
        Ok(
            Seq::new(
                chunks.len(),
                |i: int|
                    skf_message(header, first_inner, chunks[i], i, low16(chunks.len() as int), sk_e, iv_base),
            ),
        )
    }
}

/// Built fragment messages by their views.
pub open spec fn messages_result(r: Result<Vec<Vec<u8>>, IkeError>) -> Result<Seq<Seq<u8>>, IkeError> {
    match r {
        Ok(list) => Ok(messages_view(list@)),
        Err(e) => Err(e),
    }
}

/// Splitting `inner` by `size` stays within the 16-bit fields of the format:
/// fragment numbers, total, and payload lengths.
pub open spec fn fragments_fit(inner: Seq<u8>, size: nat) -> bool {
    &&& chunks_of(inner, size).len() <= 0xffff
    &&& chunks_of(inner, size)[0].len() <= SKF_MAX_CONTENT
}

/// Every arrangement of the messages reassembles to `inner`.
pub open spec fn reassembles_in_any_order(
    sent: Seq<Seq<u8>>,
    sk_e: Seq<u8>,
    first_inner: PayloadType,
    inner: Seq<u8>,
) -> bool {
    forall|arrived: Seq<Seq<u8>>|
        arrived.to_multiset() == sent.to_multiset() ==> #[trigger] reassembled(arrived, sk_e) == Ok::<
            (PayloadType, Seq<u8>),
            IkeError,
        >((payload_type_of(payload_code(first_inner)), inner))
}

/// A set of messages in which one of those sent is missing does not reassemble,
/// even if others are there more than once.
pub open spec fn incomplete_set_is_rejected(sent: Seq<Seq<u8>>, sk_e: Seq<u8>) -> bool {
    forall|arrived: Seq<Seq<u8>>, missing: int|
        (forall|i: int| 0 <= i < arrived.len() ==> sent.contains(#[trigger] arrived[i])) && 0 <= missing < sent.len()
            && !arrived.contains(#[trigger] sent[missing]) ==> #[trigger] reassembled(arrived, sk_e) is Err
}

/// One message with another tag makes the set fail authentication.
pub open spec fn forged_tag_is_rejected(sent: Seq<Seq<u8>>, sk_e: Seq<u8>) -> bool {
    forall|at: int, forged: Seq<u8>|
        0 <= at < sent.len() && only_tag_differs(sent[at], forged) ==> #[trigger] reassembled(
            sent.update(at, forged),
            sk_e,
        ) == Err::<(PayloadType, Seq<u8>), IkeError>(IkeError::BadIntegrity)
}

/// Opening messages that all open gives their fragments, one for one.
proof fn opened_one_by_one(messages: Seq<Seq<u8>>, sk_e: Seq<u8>)
    requires
        forall|i: int| 0 <= i < messages.len() ==> skf_open(#[trigger] messages[i], sk_e) is Ok,
    ensures
        all_opened(messages, sk_e) matches Ok(frags) && {
            &&& frags.len() == messages.len()
            &&& forall|i: int| 0 <= i < messages.len() ==> Ok::<FragmentModel, IkeError>(frags[i]) == #[trigger] skf_open(
                messages[i],
                sk_e,
            )
        },
    decreases messages.len(),
{
    if messages.len() > 0 {
        let before = messages.drop_last();
        assert forall|i: int| 0 <= i < before.len() implies skf_open(#[trigger] before[i], sk_e) is Ok by {
            assert(before[i] == messages[i]);
        }
        opened_one_by_one(before, sk_e);
        let frags = all_opened(messages, sk_e)->Ok_0;
        assert(skf_open(messages[messages.len() - 1], sk_e) is Ok);
        assert forall|i: int| 0 <= i < messages.len() implies Ok::<FragmentModel, IkeError>(frags[i])
            == #[trigger] skf_open(messages[i], sk_e) by {
            if i < before.len() {
                assert(before[i] == messages[i]);
                assert(Ok::<FragmentModel, IkeError>(all_opened(before, sk_e)->Ok_0[i]) == skf_open(before[i], sk_e));
            }
        }
    }
}

/// What arrived opens to fragments that were sent.
proof fn arrivals_open(
    sent: Seq<Seq<u8>>,
    sk_e: Seq<u8>,
    first_inner: PayloadType,
    chunks: Seq<Seq<u8>>,
    arrived: Seq<Seq<u8>>,
)
    requires
        sent.len() == chunks.len(),
        forall|i: int|
            0 <= i < sent.len() ==> skf_open(#[trigger] sent[i], sk_e) == Ok::<FragmentModel, IkeError>(
                sent_fragment(first_inner, chunks, i),
            ),
        forall|i: int| 0 <= i < arrived.len() ==> sent.contains(#[trigger] arrived[i]),
    ensures
        all_opened(arrived, sk_e) matches Ok(frags) && {
            &&& frags.len() == arrived.len()
            &&& forall|j: int|
                0 <= j < arrived.len() ==> exists|i: int|
                    0 <= i < sent.len() && arrived[j] == #[trigger] sent[i] && #[trigger] frags[j] == sent_fragment(
                        first_inner,
                        chunks,
                        i,
                    )
        },
{
    assert forall|j: int| 0 <= j < arrived.len() implies skf_open(#[trigger] arrived[j], sk_e) is Ok by {
        assert(sent.contains(arrived[j]));
        let i = choose|i: int| 0 <= i < sent.len() && sent[i] == arrived[j];
        assert(skf_open(sent[i], sk_e) is Ok);
    }
    opened_one_by_one(arrived, sk_e);
    let frags = all_opened(arrived, sk_e)->Ok_0;
    assert forall|j: int| 0 <= j < arrived.len() implies exists|i: int|
        0 <= i < sent.len() && arrived[j] == #[trigger] sent[i] && #[trigger] frags[j] == sent_fragment(
            first_inner,
            chunks,
            i,
        ) by {
        assert(sent.contains(arrived[j]));
        let i = choose|i: int| 0 <= i < sent.len() && sent[i] == arrived[j];
        assert(Ok::<FragmentModel, IkeError>(frags[j]) == skf_open(arrived[j], sk_e));
        assert(arrived[j] == sent[i] && frags[j] == sent_fragment(first_inner, chunks, i));
    }
}

proof fn any_order_reassembles(
    sent: Seq<Seq<u8>>,
    sk_e: Seq<u8>,
    first_inner: PayloadType,
    inner: Seq<u8>,
    size: nat,
)
    requires
        size > 0,
        fragments_fit(inner, size),
        sent.len() == chunks_of(inner, size).len(),
        forall|i: int|
            0 <= i < sent.len() ==> skf_open(#[trigger] sent[i], sk_e) == Ok::<FragmentModel, IkeError>(
                sent_fragment(first_inner, chunks_of(inner, size), i),
            ),
    ensures
        reassembles_in_any_order(sent, sk_e, first_inner, inner),
{
    broadcast use vstd::seq_lib::group_to_multiset_ensures;

    let chunks = chunks_of(inner, size);
    chunks_cover(inner, size);
    assert forall|arrived: Seq<Seq<u8>>| arrived.to_multiset() == sent.to_multiset() implies #[trigger] reassembled(
        arrived,
        sk_e,
    ) == Ok::<(PayloadType, Seq<u8>), IkeError>((payload_type_of(payload_code(first_inner)), inner)) by {
        assert(arrived.to_multiset().len() == arrived.len() && sent.to_multiset().len() == sent.len());
        assert forall|x: Seq<u8>| arrived.contains(x) == sent.contains(x) by {
            assert(arrived.contains(x) == (arrived.to_multiset().count(x) > 0));
            assert(sent.contains(x) == (sent.to_multiset().count(x) > 0));
        }
        assert forall|i: int| 0 <= i < arrived.len() implies sent.contains(#[trigger] arrived[i]) by {
            assert(arrived.contains(arrived[i]));
        }
        arrivals_open(sent, sk_e, first_inner, chunks, arrived);
        let frags = all_opened(arrived, sk_e)->Ok_0;
        opened_one_by_one(arrived, sk_e);
        assert forall|i: int| 0 <= i < chunks.len() implies frags.contains(
            #[trigger] sent_fragment(first_inner, chunks, i),
        ) by {
            assert(sent.contains(sent[i]));
            assert(arrived.contains(sent[i]));
            let j = choose|j: int| 0 <= j < arrived.len() && arrived[j] == sent[i];
            assert(Ok::<FragmentModel, IkeError>(frags[j]) == skf_open(arrived[j], sk_e));
            assert(frags.contains(frags[j]));
        }
        sent_set_assembles(first_inner, chunks, frags);
    }
}

/// The fragments that were sent, in any arrangement, assemble to their contents.
proof fn sent_set_assembles(first_inner: PayloadType, chunks: Seq<Seq<u8>>, frags: Seq<FragmentModel>)
    requires
        1 <= chunks.len() <= 0xffff,
        frags.len() == chunks.len(),
        forall|j: int|
            0 <= j < frags.len() ==> exists|i: int|
                0 <= i < chunks.len() && #[trigger] frags[j] == #[trigger] sent_fragment(first_inner, chunks, i),
        forall|i: int| 0 <= i < chunks.len() ==> frags.contains(#[trigger] sent_fragment(first_inner, chunks, i)),
    ensures
        assembled(frags) == Ok::<(PayloadType, Seq<u8>), IkeError>(
            (payload_type_of(payload_code(first_inner)), joined(chunks)),
        ),
{
    assert(totals_agree(frags));
    assert forall|k: int| 1 <= k <= frags.len() implies #[trigger] has_number(frags, k) by {
        let f = sent_fragment(first_inner, chunks, k - 1);
        assert(frags.contains(f));
        let j = choose|j: int| 0 <= j < frags.len() && frags[j] == f;
        assert(frags[j].frag_num == k);
    }
    assert forall|k: int| 0 <= k < frags.len() implies #[trigger] numbered(frags, k + 1) == sent_fragment(
        first_inner,
        chunks,
        k,
    ) by {
        assert(has_number(frags, k + 1));
        let j = choose|j: int| 0 <= j < frags.len() && (#[trigger] frags[j]).frag_num == k + 1;
        let i = choose|i: int| 0 <= i < chunks.len() && frags[j] == #[trigger] sent_fragment(first_inner, chunks, i);
        assert(i == k);
    }
    assert(ordered_contents(frags) =~= chunks) by {
        assert forall|k: int| 0 <= k < frags.len() implies ordered_contents(frags)[k] == chunks[k] by {
            assert(numbered(frags, k + 1) == sent_fragment(first_inner, chunks, k));
        }
    }
    assert(numbered(frags, 0int + 1) == sent_fragment(first_inner, chunks, 0));
}

proof fn incomplete_set_fails(
    sent: Seq<Seq<u8>>,
    sk_e: Seq<u8>,
    first_inner: PayloadType,
    chunks: Seq<Seq<u8>>,
)
    requires
        chunks.len() <= 0xffff,
        sent.len() == chunks.len(),
        forall|i: int|
            0 <= i < sent.len() ==> skf_open(#[trigger] sent[i], sk_e) == Ok::<FragmentModel, IkeError>(
                sent_fragment(first_inner, chunks, i),
            ),
    ensures
        incomplete_set_is_rejected(sent, sk_e),
{
    assert forall|arrived: Seq<Seq<u8>>, missing: int|
        (forall|i: int| 0 <= i < arrived.len() ==> sent.contains(#[trigger] arrived[i])) && 0 <= missing < sent.len()
            && !arrived.contains(#[trigger] sent[missing]) implies #[trigger] reassembled(arrived, sk_e) is Err by {
        arrivals_open(sent, sk_e, first_inner, chunks, arrived);
        let frags = all_opened(arrived, sk_e)->Ok_0;
        if assembled(frags) is Ok {
            assert(has_number(frags, missing + 1));
            let j = choose|j: int| 0 <= j < frags.len() && (#[trigger] frags[j]).frag_num == missing + 1;
            let i = choose|i: int|
                0 <= i < sent.len() && arrived[j] == #[trigger] sent[i] && frags[j] == sent_fragment(
                    first_inner,
                    chunks,
                    i,
                );
            assert(i == missing);
            assert(arrived.contains(arrived[j]));
        }
    }
}

proof fn forged_tag_fails(sent: Seq<Seq<u8>>, sk_e: Seq<u8>)
    requires
        forall|i: int| 0 <= i < sent.len() ==> skf_open(#[trigger] sent[i], sk_e) is Ok,
        forall|i: int, forged: Seq<u8>|
            0 <= i < sent.len() && only_tag_differs(#[trigger] sent[i], forged) ==> #[trigger] skf_open(forged, sk_e)
                == Err::<FragmentModel, IkeError>(IkeError::BadIntegrity),
    ensures
        forged_tag_is_rejected(sent, sk_e),
{
    assert forall|at: int, forged: Seq<u8>| 0 <= at < sent.len() && only_tag_differs(sent[at], forged) implies
        #[trigger] reassembled(sent.update(at, forged), sk_e) == Err::<(PayloadType, Seq<u8>), IkeError>(
        IkeError::BadIntegrity,
    ) by {
        let arrived = sent.update(at, forged);
        let before = arrived.take(at);
        assert forall|i: int| 0 <= i < before.len() implies skf_open(#[trigger] before[i], sk_e) is Ok by {
            assert(before[i] == sent[i]);
        }
        opened_one_by_one(before, sk_e);
        assert(arrived.take(at + 1).drop_last() =~= before);
        assert(arrived.take(at + 1).last() == forged);
        assert(only_tag_differs(sent[at], forged));
        assert(skf_open(forged, sk_e) == Err::<FragmentModel, IkeError>(IkeError::BadIntegrity));
        first_error_wins(arrived, sk_e, at + 1);
    }
}

/// Law: altering the headers of one fragment makes the whole set fail
/// authentication, whatever number or total the fragment then claims. Take a set
/// whose messages all open, as a set does that reassembles, and alter the headers
/// of one: if the cipher refuses the altered message, the set is refused as not
/// authentic, and not for an inconsistent total or a wrong fragment number.
pub proof fn altered_fragment_header_fails_the_set(
    sent: Seq<Seq<u8>>,
    at: int,
    altered: Seq<u8>,
    sk_e: Seq<u8>,
)
    requires
        reassembled(sent, sk_e) is Ok,
        0 <= at < sent.len(),
        header_altered(sent[at], altered, SKF_AAD_LEN as int),
        skf_payload_opened(altered, sk_e) is None,
    ensures
        reassembled(sent.update(at, altered), sk_e) == Err::<(PayloadType, Seq<u8>), IkeError>(IkeError::BadIntegrity),
{
    let arrived = sent.update(at, altered);
    if all_opened(sent.take(at + 1), sk_e) is Err {
        first_error_wins(sent, sk_e, at + 1);
    }
    assert(sent.take(at + 1).drop_last() =~= sent.take(at));
    assert(sent.take(at + 1).last() == sent[at]);
    fragment_headers_are_authenticated(sent[at], altered, sk_e);
    assert(arrived.take(at + 1).drop_last() =~= sent.take(at));
    assert(arrived.take(at + 1).last() == altered);
    first_error_wins(arrived, sk_e, at + 1);
}

/// Splits a full inner-payload byte string into SKF-payload IKE messages.
///
/// `header` supplies the SPIs, exchange type and message id; its Next Payload and
/// length are set per fragment. `first_inner` is the type of the first inner
/// payload, recorded only in the first fragment. `iv_base` seeds a unique 8-byte IV
/// per fragment: no two messages of one call share one, and the caller ensures
/// that different calls under one key do not. `content_per_fragment` is the most
/// plaintext bytes per fragment.
///
/// Where the 16-bit fields of the format suffice, the messages reassemble to
/// `inner` in every order, do not reassemble if one is missing, and fail
/// authentication if one carries another tag.
pub fn build_fragments(
    header: &IkeHeader,
    first_inner: PayloadType,
    inner: &[u8],
    sk_e: &[u8],
    iv_base: u64,
    content_per_fragment: usize,
) -> (r: Result<Vec<Vec<u8>>, IkeError>)
    ensures
        messages_result(r) == fragments_built(
            *header,
            first_inner,
            inner@,
            sk_e@,
            iv_base,
            content_per_fragment as nat,
        ),
        r matches Ok(list) ==> list@.len() == chunks_of(inner@, content_per_fragment as nat).len(),
        r matches Ok(list) ==> forall|i: int|
            0 <= i < list@.len() ==> (#[trigger] list@[i])@.len() == IkeHeader::LEN + skf_payload_len(
                chunks_of(inner@, content_per_fragment as nat)[i].len(),
            ),
        r matches Ok(list) ==> forall|i: int|
            0 <= i < list@.len() && (#[trigger] list@[i])@.len() <= 0xffff_ffff ==> (parsed_header(list@[i]@) matches Ok(
                h,
            ) && h.length == list@[i]@.len()),
        r matches Ok(list) ==> forall|i: int|
            0 <= i < list@.len() ==> (#[trigger] list@[i])@.subrange(36, 44) == skf_iv(iv_base, i),
        r matches Ok(list) ==> forall|i: int, j: int|
            0 <= i < j < list@.len() ==> (#[trigger] list@[i])@.subrange(36, 44) != (#[trigger] list@[j])@.subrange(
                36,
                44,
            ),
        r matches Ok(list) ==> fragments_fit(inner@, content_per_fragment as nat) ==> {
            &&& reassembles_in_any_order(messages_view(list@), sk_e@, first_inner, inner@)
            &&& incomplete_set_is_rejected(messages_view(list@), sk_e@)
            &&& forged_tag_is_rejected(messages_view(list@), sk_e@)
        },
{
    if content_per_fragment == 0 {
        return Err(IkeError::Crypto("fragment content size must be > 0"));
    }
    let ghost pieces = chunks_of(inner@, content_per_fragment as nat);
    proof {
        chunks_cover(inner@, content_per_fragment as nat);
    }
    let chunks = split_chunks(inner, content_per_fragment);
    let n: usize = chunks.len();
    let total: u16 = low16_of_sum(n, 0);
    let mut out: Vec<Vec<u8>> = Vec::new();
    for i in 0..n
        invariant
            content_per_fragment > 0,
            pieces == chunks_of(inner@, content_per_fragment as nat),
            n == chunks@.len(),
            n == pieces.len(),
            total == low16(n as int),
            forall|j: int| 0 <= j < n ==> (#[trigger] chunks@[j])@ == pieces[j],
            forall|j: int| 0 <= j < n ==> (#[trigger] pieces[j]).len() <= pieces[0].len(),
            out@.len() == i,
            i > 0 ==> sk_e@.len() == SK_E_LEN && pieces[0].len() + 1 <= GCM_MAX_LEN,
            forall|j: int|
                0 <= j < i ==> (#[trigger] out@[j])@ == skf_message(
                    *header,
                    first_inner,
                    pieces[j],
                    j,
                    total,
                    sk_e@,
                    iv_base,
                ),
            forall|j: int|
                0 <= j < i ==> (#[trigger] out@[j])@.len() == IkeHeader::LEN + skf_payload_len(pieces[j].len()),
            forall|j: int|
                0 <= j < i && pieces[j].len() <= SKF_MAX_CONTENT ==> skf_open((#[trigger] out@[j])@, sk_e@) == Ok::<
                    FragmentModel,
                    IkeError,
                >(sent_fragment(first_inner, pieces, j)),
            forall|j: int, forged: Seq<u8>|
                0 <= j < i && pieces[j].len() <= SKF_MAX_CONTENT && only_tag_differs((#[trigger] out@[j])@, forged)
                    ==> #[trigger] skf_open(forged, sk_e@) == Err::<FragmentModel, IkeError>(IkeError::BadIntegrity),
    {
        assert(chunks@[i as int]@ == pieces[i as int]);
        assert(pieces[i as int].len() <= pieces[0].len());
        let message = build_fragment(header, first_inner, chunks[i], i, total, sk_e, iv_base)?;
        out.push(message);
    }
    proof {
        let views = messages_view(out@);
        assert(views =~= fragments_built(*header, first_inner, inner@, sk_e@, iv_base, content_per_fragment as nat)->Ok_0);
        assert forall|i: int| 0 <= i < out@.len() && (#[trigger] out@[i])@.len() <= 0xffff_ffff implies (parsed_header(
            out@[i]@,
        ) matches Ok(h) && h.length == out@[i]@.len()) by {
            fragment_header_is_the_given_one(*header, first_inner, pieces[i], i, total, sk_e@, iv_base);
        }
        assert forall|i: int| 0 <= i < out@.len() implies (#[trigger] out@[i])@.subrange(36, 44) == skf_iv(iv_base, i) by {
            iv_stands_at(*header, first_inner, pieces[i], i, total, sk_e@, iv_base);
        }
        assert forall|i: int, j: int| 0 <= i < j < out@.len() implies (#[trigger] out@[i])@.subrange(36, 44) != (
        #[trigger] out@[j])@.subrange(36, 44) by {
            ivs_differ(iv_base, i, j);
        }
        if fragments_fit(inner@, content_per_fragment as nat) {
            assert forall|i: int| 0 <= i < views.len() implies skf_open(#[trigger] views[i], sk_e@) == Ok::<
                FragmentModel,
                IkeError,
            >(sent_fragment(first_inner, pieces, i)) by {
                assert(views[i] == out@[i]@);
                assert(pieces[i].len() <= pieces[0].len());
            }
            assert forall|i: int, forged: Seq<u8>|
                0 <= i < views.len() && only_tag_differs(#[trigger] views[i], forged) implies #[trigger] skf_open(
                forged,
                sk_e@,
            ) == Err::<FragmentModel, IkeError>(IkeError::BadIntegrity) by {
                assert(views[i] == out@[i]@);
                assert(pieces[i].len() <= pieces[0].len());
            }
            any_order_reassembles(views, sk_e@, first_inner, inner@, content_per_fragment as nat);
            incomplete_set_fails(views, sk_e@, first_inner, pieces);
            forged_tag_fails(views, sk_e@);
        }
    }
    Ok(out)
}

/// Law: the fragments of one message use different IVs: no two messages of one
/// call carry the same, however many there are. (Counts from 2 to the 64 on, which
/// no memory can hold, are left out.)
pub proof fn fragment_ivs_differ(
    header: IkeHeader,
    first_inner: PayloadType,
    inner: Seq<u8>,
    sk_e: Seq<u8>,
    iv_base: u64,
    size: nat,
    i: int,
    j: int,
)
    requires
        fragments_built(header, first_inner, inner, sk_e, iv_base, size) matches Ok(list) && 0 <= i < j < list.len(),
        j < 0x1_0000_0000_0000_0000,
    ensures
        ({
            let list = fragments_built(header, first_inner, inner, sk_e, iv_base, size)->Ok_0;
            &&& list[i].subrange(36, 44) == skf_iv(iv_base, i)
            &&& list[j].subrange(36, 44) == skf_iv(iv_base, j)
            &&& list[i].subrange(36, 44) != list[j].subrange(36, 44)
        }),
{
    let chunks = chunks_of(inner, size);
    let total = low16(chunks.len() as int);
    iv_stands_at(header, first_inner, chunks[i], i, total, sk_e, iv_base);
    iv_stands_at(header, first_inner, chunks[j], j, total, sk_e, iv_base);
    ivs_differ(iv_base, i, j);
}

/// The IV stands in the message after IKE header, generic header and fragment
/// header.
proof fn iv_stands_at(
    header: IkeHeader,
    first_inner: PayloadType,
    content: Seq<u8>,
    index: int,
    total: u16,
    sk_e: Seq<u8>,
    iv_base: u64,
)
    ensures
        skf_message(header, first_inner, content, index, total, sk_e, iv_base).subrange(36, 44) == skf_iv(
            iv_base,
            index,
        ),
{
    let message = skf_message(header, first_inner, content, index, total, sk_e, iv_base);
    header_survives_the_wire(skf_header(header, content.len()), Seq::empty());
    assert(message.subrange(36, 44) =~= skf_iv(iv_base, index));
}

/// Different places give different IVs.
proof fn ivs_differ(iv_base: u64, i: int, j: int)
    requires
        0 <= i < j < 0x1_0000_0000_0000_0000,
    ensures
        skf_iv(iv_base, i) != skf_iv(iv_base, j),
{
    be64_roundtrip(low64(iv_base + i + 1));
    be64_roundtrip(low64(iv_base + j + 1));
}

/// Law: piece `i` is what stands in the string from `i * size` on, `size` bytes or
/// what is left.
pub proof fn chunk_positions(inner: Seq<u8>, size: nat, i: int)
    requires
        size > 0,
        0 <= i < chunks_of(inner, size).len(),
    ensures
        0 <= i * size <= inner.len(),
        i > 0 ==> i * size < inner.len(),
        chunks_of(inner, size)[i] == inner.subrange(
            i * size,
            if (i + 1) * size <= inner.len() {
                (i + 1) * size
            } else {
                inner.len() as int
            },
        ),
        i + 1 == chunks_of(inner, size).len() ==> inner.len() <= (i + 1) * size,
    decreases inner.len(),
{
    let all = chunks_of(inner, size);
    let n = size as int;
    if i == 0 {
        assert(0 * n == 0 && 1 * n == n);
        if inner.len() <= size {
            assert(all[0] =~= inner.subrange(0, inner.len() as int));
        } else {
            assert(all[0] =~= inner.subrange(0, n));
            chunks_cover(inner.skip(n), size);
        }
    } else {
        let rest = inner.skip(n);
        chunk_positions(rest, size, i - 1);
        assert((i - 1) * n + n == i * n && (i + 1) * n == i * n + n) by (nonlinear_arith);
        assert(all[i] == chunks_of(rest, size)[i - 1]);
        assert(chunks_of(rest, size).len() == all.len() - 1);
        if (i + 1) * n <= inner.len() {
            assert(rest.subrange((i - 1) * n, i * n) =~= inner.subrange(i * n, (i + 1) * n));
        } else {
            assert(rest.subrange((i - 1) * n, rest.len() as int) =~= inner.subrange(i * n, inner.len() as int));
        }
    }
}

/// Law: pieces are put together in order, with nothing between them.
pub proof fn joined_is_flattened(parts: Seq<Seq<u8>>)
    ensures
        joined(parts) == parts.flatten(),
    decreases parts.len(),
{
    if parts.len() > 0 {
        joined_is_flattened(parts.drop_last());
        parts.drop_last().lemma_flatten_and_flatten_alt_are_equivalent();
    }
    parts.lemma_flatten_and_flatten_alt_are_equivalent();
}

/// The header that is read from a fragment message.
proof fn fragment_header_is_the_given_one(
    header: IkeHeader,
    first_inner: PayloadType,
    content: Seq<u8>,
    index: int,
    total: u16,
    sk_e: Seq<u8>,
    iv_base: u64,
)
    ensures
        parsed_header(skf_message(header, first_inner, content, index, total, sk_e, iv_base)) matches Ok(h) && {
            &&& h.initiator_spi == header.initiator_spi
            &&& h.responder_spi == header.responder_spi
            &&& h.next_payload == PayloadType::EncryptedFragment
            &&& header.major_version < 16 ==> h.major_version == header.major_version
            &&& header.minor_version < 16 ==> h.minor_version == header.minor_version
            &&& header.exchange_type !is Unknown ==> h.exchange_type == header.exchange_type
            &&& h.flags == header.flags
            &&& h.message_id == header.message_id
            &&& content.len() + 61 <= 0xffff_ffff ==> h.length == content.len() + 61
        },
{
    let m = skf_message(header, first_inner, content, index, total, sk_e, iv_base);
    let sent = skf_header(header, content.len());
    let rest = m.skip(28);
    header_survives_the_wire(sent, rest);
    header_fields_survive(sent, rest);
    assert(m =~= header_bytes(sent) + rest);
}

/// Law: the header that is read from each fragment message is the given one, in
/// SPIs, version, exchange type, all flags and message ID. Only its Next Payload
/// says that a fragment follows, and its length is that of the message.
pub proof fn fragment_headers_are_the_given_one(
    header: IkeHeader,
    first_inner: PayloadType,
    inner: Seq<u8>,
    sk_e: Seq<u8>,
    iv_base: u64,
    size: nat,
    i: int,
)
    requires
        fragments_built(header, first_inner, inner, sk_e, iv_base, size) matches Ok(list) && 0 <= i < list.len(),
    ensures
        ({
            let m = fragments_built(header, first_inner, inner, sk_e, iv_base, size)->Ok_0[i];
            let left = if inner.len() - i * size <= size { inner.len() - i * size } else { size as int };
            parsed_header(m) matches Ok(h) && {
                &&& h.initiator_spi == header.initiator_spi
                &&& h.responder_spi == header.responder_spi
                &&& h.next_payload == PayloadType::EncryptedFragment
                &&& header.major_version < 16 ==> h.major_version == header.major_version
                &&& header.minor_version < 16 ==> h.minor_version == header.minor_version
                &&& header.exchange_type !is Unknown ==> h.exchange_type == header.exchange_type
                &&& h.flags == header.flags
                &&& h.message_id == header.message_id
                &&& left + 61 <= 0xffff_ffff ==> h.length == left + 61
            }
        }),
{
    let chunks = chunks_of(inner, size);
    chunk_positions(inner, size, i);
    assert((i + 1) * size == i * size + size) by (nonlinear_arith);
    fragment_header_is_the_given_one(
        header,
        first_inner,
        chunks[i],
        i,
        low16(chunks.len() as int),
        sk_e,
        iv_base,
    );
}

/// Law: when fragments are built, how many, and every byte of each before the
/// ciphertext: the given header with Next Payload 53 and the message's length; the
/// first inner type in the first fragment and 0 in the others; the payload's
/// length, the fragment's number and the total, from 1 up; an IV from the full
/// count; and which piece the cipher is asked to seal under which key, nonce and
/// associated data.
pub proof fn built_fragments_layout(
    header: IkeHeader,
    first_inner: PayloadType,
    inner: Seq<u8>,
    sk_e: Seq<u8>,
    iv_base: u64,
    size: nat,
    i: int,
)
    ensures
        ({
            let r = fragments_built(header, first_inner, inner, sk_e, iv_base, size);
            let longest = if inner.len() <= size { inner.len() } else { size };
            let count = if inner.len() == 0 { 1int } else { (inner.len() - 1) / size as int + 1 };
            &&& size == 0 ==> r == Err::<Seq<Seq<u8>>, IkeError>(IkeError::Crypto("fragment content size must be > 0"))
            &&& size > 0 && sk_e.len() != 36 ==> r == Err::<Seq<Seq<u8>>, IkeError>(
                IkeError::Crypto("SK_e must be 36 bytes (32-byte AES-256 key + 4-byte GCM salt)"),
            )
            &&& size > 0 && sk_e.len() == 36 && longest >= 0x10_0000_0000 ==> r == Err::<Seq<Seq<u8>>, IkeError>(
                IkeError::Crypto("GCM encryption failed"),
            )
            &&& size > 0 && sk_e.len() == 36 && longest < 0x10_0000_0000 ==> (r matches Ok(list) && {
                &&& list.len() == count
                &&& 0 <= i < list.len() ==> {
                    let m = list[i];
                    let content = inner.subrange(
                        i * size,
                        if (i + 1) * size <= inner.len() {
                            (i + 1) * size
                        } else {
                            inner.len() as int
                        },
                    );
                    &&& m.len() >= 44
                    &&& m.subrange(0, 8) == be64(header.initiator_spi)
                    &&& m.subrange(8, 16) == be64(header.responder_spi)
                    &&& m[16] == 53
                    &&& m[17] == (header.major_version % 16) * 16 + header.minor_version % 16
                    &&& m[18] == exchange_code(header.exchange_type)
                    &&& m[19] == (if header.flags.initiator { 8int } else { 0 }) + (if header.flags.version { 16int } else { 0 }) + (
                    if header.flags.response { 32int } else { 0 })
                    &&& m.subrange(20, 24) == be32(header.message_id)
                    &&& (content.len() + 61 - u32_at(m, 24)) % 0x1_0000_0000 == 0
                    &&& m[28] == (if i == 0 { payload_code(first_inner) } else { 0u8 })
                    &&& m[29] == 0
                    &&& (content.len() + 33 - u16_at(m, 30)) % 0x1_0000 == 0
                    &&& (i + 1 - u16_at(m, 32)) % 0x1_0000 == 0
                    &&& (count - u16_at(m, 34)) % 0x1_0000 == 0
                    &&& (iv_base + i + 1 - u64_at(m, 36)) % 0x1_0000_0000_0000_0000 == 0
                    &&& m.skip(44) == aes256_gcm_sealed(
                        sk_e.take(32),
                        sk_e.skip(32) + m.subrange(36, 44),
                        m.take(36),
                        content + seq![0u8],
                    )
                }
            })
        }),
{
    let chunks = chunks_of(inner, size);
    if size > 0 {
        chunk_count(inner, size);
        chunk_positions(inner, size, 0);
        assert(0 * size == 0 && 1 * size == size);
        if sk_e.len() == 36 && chunks[0].len() < 0x10_0000_0000 {
            if 0 <= i < chunks.len() {
                chunk_positions(inner, size, i);
                fragment_stands_there(header, first_inner, chunks[i], i, chunks.len() as int, sk_e, iv_base);
            }
        }
    }
}

/// Where the fields of one fragment message stand.
proof fn fragment_stands_there(
    header: IkeHeader,
    first_inner: PayloadType,
    content: Seq<u8>,
    i: int,
    count: int,
    sk_e: Seq<u8>,
    iv_base: u64,
)
    requires
        sk_e.len() == 36,
        0 <= i,
    ensures
        ({
            let m = skf_message(header, first_inner, content, i, low16(count), sk_e, iv_base);
            &&& m.len() >= 44
            &&& m.subrange(0, 8) == be64(header.initiator_spi)
            &&& m.subrange(8, 16) == be64(header.responder_spi)
            &&& m[16] == 53
            &&& m[17] == (header.major_version % 16) * 16 + header.minor_version % 16
            &&& m[18] == exchange_code(header.exchange_type)
            &&& m[19] == (if header.flags.initiator { 8int } else { 0 }) + (if header.flags.version { 16int } else { 0 }) + (
            if header.flags.response { 32int } else { 0 })
            &&& m.subrange(20, 24) == be32(header.message_id)
            &&& (content.len() + 61 - u32_at(m, 24)) % 0x1_0000_0000 == 0
            &&& m[28] == (if i == 0 { payload_code(first_inner) } else { 0u8 })
            &&& m[29] == 0
            &&& (content.len() + 33 - u16_at(m, 30)) % 0x1_0000 == 0
            &&& (i + 1 - u16_at(m, 32)) % 0x1_0000 == 0
            &&& (count - u16_at(m, 34)) % 0x1_0000 == 0
            &&& (iv_base + i + 1 - u64_at(m, 36)) % 0x1_0000_0000_0000_0000 == 0
            &&& m.skip(44) == aes256_gcm_sealed(
                sk_e.take(32),
                sk_e.skip(32) + m.subrange(36, 44),
                m.take(36),
                content + seq![0u8],
            )
        }),
{
    let m = skf_message(header, first_inner, content, i, low16(count), sk_e, iv_base);
    let sent = skf_header(header, content.len());
    let len = skf_payload_len(content.len());
    let aad = skf_aad(header, skf_next(first_inner, i), skf_number(i), low16(count), content.len());
    let iv = skf_iv(iv_base, i);
    header_layout(sent);
    assert(m.subrange(0, 8) =~= header_bytes(sent).subrange(0, 8));
    assert(m.subrange(8, 16) =~= header_bytes(sent).subrange(8, 16));
    assert(m.subrange(20, 24) =~= header_bytes(sent).subrange(20, 24));
    assert(m.subrange(24, 28) =~= header_bytes(sent).subrange(24, 28));
    be32_roundtrip(sent.length);
    assert(u32_at(m, 24) == u32_at(m.subrange(24, 28), 0));
    be16_roundtrip(low16(len));
    assert(u16_at(m, 30) == u16_at(be16(low16(len)), 0));
    be16_roundtrip(low16(i + 1));
    assert(u16_at(m, 32) == u16_at(be16(low16(i + 1)), 0));
    be16_roundtrip(low16(count));
    assert(u16_at(m, 34) == u16_at(be16(low16(count)), 0));
    be64_roundtrip(low64(iv_base + i + 1));
    assert(m.subrange(36, 44) =~= iv);
    assert(u64_at(m, 36) == u64_at(iv, 0));
    assert(m.take(36) =~= aad);
    assert(sk_e.take(32) =~= key_part(sk_e));
    assert(sk_e.skip(32) =~= salt_part(sk_e));
    assert(content + seq![0u8] =~= content.push(0));
    assert(m.skip(44) =~= sk_sealed(sk_e, iv, aad, content.push(0)));
}

/// Law: how every fragment message is opened, whatever its bytes: which headers,
/// lengths and keys are refused and how; what the cipher is asked under which key,
/// nonce and associated data; and which fields come out with its answer.
pub proof fn opened_fragment_reading(m: Seq<u8>, sk_e: Seq<u8>, content: Seq<u8>, padding: Seq<u8>)
    ensures
        ({
            let n = m[30] * 0x100 + m[31];
            let answer = aes256_gcm_opened(
                sk_e.take(32),
                sk_e.skip(32) + m.subrange(36, 44),
                m.take(36),
                m.subrange(44, 28 + n),
            );
            let r = skf_open(m, sk_e);
            &&& m.len() < 28 ==> r == Err::<FragmentModel, IkeError>(
                IkeError::Truncated { need: 28, have: m.len() as usize },
            )
            &&& m.len() >= 28 && m[16] != 53 ==> r == Err::<FragmentModel, IkeError>(IkeError::MissingPayload("SKF"))
            &&& 28 <= m.len() < 60 && m[16] == 53 ==> r == Err::<FragmentModel, IkeError>(
                IkeError::Truncated { need: 32, have: (m.len() - 28) as usize },
            )
            &&& m.len() >= 60 && m[16] == 53 && (n < 32 || 28 + n > m.len()) ==> r == Err::<FragmentModel, IkeError>(
                IkeError::BadLength { declared: n as usize, available: (m.len() - 28) as usize },
            )
            &&& m.len() >= 60 && m[16] == 53 && 32 <= n && 28 + n <= m.len() && sk_e.len() != 36 ==> r == Err::<
                FragmentModel,
                IkeError,
            >(IkeError::Crypto("SK_e must be 36 bytes (32-byte AES-256 key + 4-byte GCM salt)"))
            &&& m.len() >= 60 && m[16] == 53 && 32 <= n && 28 + n <= m.len() && sk_e.len() == 36 ==> {
                &&& answer is None ==> r == Err::<FragmentModel, IkeError>(IkeError::BadIntegrity)
                &&& answer == Some(content + padding + seq![padding.len() as u8]) && padding.len() <= 255 ==> (
                r matches Ok(f) && {
                    &&& f.frag_num == m[32] * 0x100 + m[33]
                    &&& f.total == m[34] * 0x100 + m[35]
                    &&& f.next_payload == m[28]
                    &&& f.content == content
                })
                &&& answer matches Some(p) ==> p.len() == 0 ==> r == Err::<FragmentModel, IkeError>(
                    IkeError::Crypto("empty fragment"),
                )
                &&& answer matches Some(p) ==> p.len() > 0 && p[p.len() - 1] >= p.len() ==> r == Err::<
                    FragmentModel,
                    IkeError,
                >(IkeError::Crypto("pad length exceeds fragment"))
            }
        }),
{
    let n = m[30] * 0x100 + m[31];
    read_in_network_order(m, 30);
    read_in_network_order(m, 32);
    read_in_network_order(m, 34);
    header_reading(m);
    payload_numbers(m[16]);
    payload_codes_are_faithful(m[16], PayloadType::EncryptedFragment);
    if sk_e.len() == 36 {
        assert(sk_e.take(32) =~= key_part(sk_e));
        assert(sk_e.skip(32) =~= salt_part(sk_e));
    }
    if m.len() >= 60 {
        let body = m.skip(28);
        assert(body[0] == m[28]);
        assert(u16_at(body, 2) == u16_at(m, 30));
        assert(u16_at(body, 4) == u16_at(m, 32));
        assert(u16_at(body, 6) == u16_at(m, 34));
        if 32 <= n && 28 + n <= m.len() {
            assert(body.subrange(8, 16) =~= m.subrange(36, 44));
            assert(body.subrange(16, n) =~= m.subrange(44, 28 + n));
            let empty = IkeError::Crypto("empty fragment");
            let excess = IkeError::Crypto("pad length exceeds fragment");
            padding_strips(content, padding, Seq::empty(), empty, excess);
            if let Some(p) = sk_opened(sk_e, m.subrange(36, 44), m.take(36), m.subrange(44, 28 + n)) {
                padding_strips(content, padding, p, empty, excess);
            }
        }
    }
}

/// Law: fragments that carry the numbers 1 to their count, each announcing that
/// count, assemble to their contents in the order of the numbers, however they
/// stand; the first inner type is that of number 1.
pub proof fn numbered_parts_assemble(frags: Seq<FragmentModel>, parts: Seq<Seq<u8>>, place: Seq<int>)
    requires
        1 <= parts.len(),
        frags.len() == parts.len(),
        place.len() == parts.len(),
        forall|j: int| 0 <= j < frags.len() ==> (#[trigger] frags[j]).total == parts.len(),
        forall|k: int|
            0 <= k < parts.len() ==> 0 <= #[trigger] place[k] < frags.len() && frags[place[k]].frag_num == k + 1
                && frags[place[k]].content == parts[k],
    ensures
        assembled(frags) matches Ok((first, inner)) && {
            &&& payload_code(first) == frags[place[0]].next_payload && canonical_type(first)
            &&& inner == parts.flatten()
        },
{
    assert(frags[0].total == parts.len());
    assert(totals_agree(frags));
    assert forall|k: int| 1 <= k <= frags.len() implies #[trigger] has_number(frags, k) by {
        assert(frags[place[k - 1]].frag_num == k);
    }
    each_number_once(frags);
    assert forall|k: int| 0 <= k < frags.len() implies #[trigger] numbered(frags, k + 1) == frags[place[k]] by {
        assert(has_number(frags, k + 1));
        let j = choose|j: int| 0 <= j < frags.len() && (#[trigger] frags[j]).frag_num == k + 1;
        assert(frags[j].frag_num == frags[place[k]].frag_num);
    }
    assert(ordered_contents(frags) =~= parts) by {
        assert forall|k: int| 0 <= k < frags.len() implies ordered_contents(frags)[k] == parts[k] by {
            assert(numbered(frags, k + 1) == frags[place[k]]);
        }
    }
    assert(numbered(frags, 0int + 1) == frags[place[0]]);
    payload_codes_are_faithful(frags[place[0]].next_payload, PayloadType::NoNext);
    joined_is_flattened(parts);
}

/// Law: what else is refused, and how: no fragments; totals that are zero or
/// disagree; a count that is not the total; and a number from 1 to the count that
/// no fragment carries.
pub proof fn other_sets_are_refused(frags: Seq<FragmentModel>, i: int, k: int)
    ensures
        frags.len() == 0 ==> assembled(frags) == Err::<(PayloadType, Seq<u8>), IkeError>(
            IkeError::Crypto("no fragments"),
        ),
        0 <= i < frags.len() && (frags[0].total == 0 || frags[i].total != frags[0].total) ==> assembled(frags) == Err::<
            (PayloadType, Seq<u8>),
            IkeError,
        >(IkeError::Crypto("inconsistent Total Fragments")),
        frags.len() > 0 && frags[0].total != 0 && frags.len() != frags[0].total && (forall|j: int|
            0 <= j < frags.len() ==> (#[trigger] frags[j]).total == frags[0].total) ==> assembled(frags) == Err::<
            (PayloadType, Seq<u8>),
            IkeError,
        >(IkeError::Crypto("wrong number of fragments")),
        frags.len() > 0 && 1 <= k <= frags.len() && (forall|j: int|
            0 <= j < frags.len() ==> (#[trigger] frags[j]).total == frags.len() && frags[j].frag_num != k) ==> assembled(
            frags,
        ) == Err::<(PayloadType, Seq<u8>), IkeError>(IkeError::Crypto("duplicate or missing fragment number")),
{
    if frags.len() > 0 {
        if totals_agree(frags) && 0 <= i < frags.len() {
            assert(frags[i].total == frags[0].total);
        }
        if 1 <= k <= frags.len() && (forall|j: int|
            0 <= j < frags.len() ==> (#[trigger] frags[j]).total == frags.len() && frags[j].frag_num != k) {
            assert(frags[0].total == frags.len());
            assert(!has_number(frags, k));
        }
    }
}

/// Law: a set is reassembled message by message. If all messages open, what they
/// open to is assembled, in the order in which they arrived; if message `k` is the
/// first that does not open, its error is that of the set.
pub proof fn messages_open_one_by_one(
    messages: Seq<Seq<u8>>,
    sk_e: Seq<u8>,
    frags: Seq<FragmentModel>,
    k: int,
)
    ensures
        frags.len() == messages.len() && (forall|i: int|
            0 <= i < messages.len() ==> skf_open(#[trigger] messages[i], sk_e) == Ok::<FragmentModel, IkeError>(frags[i]))
            ==> reassembled(messages, sk_e) == assembled(frags),
        0 <= k < messages.len() && (forall|i: int| 0 <= i < k ==> skf_open(#[trigger] messages[i], sk_e) is Ok) ==> (
        skf_open(messages[k], sk_e) matches Err(e) ==> reassembled(messages, sk_e) == Err::<
            (PayloadType, Seq<u8>),
            IkeError,
        >(e)),
{
    if frags.len() == messages.len() && (forall|i: int|
        0 <= i < messages.len() ==> skf_open(#[trigger] messages[i], sk_e) == Ok::<FragmentModel, IkeError>(frags[i])) {
        opened_one_by_one(messages, sk_e);
        let opened = all_opened(messages, sk_e)->Ok_0;
        assert forall|i: int| 0 <= i < messages.len() implies opened[i] == frags[i] by {
            assert(Ok::<FragmentModel, IkeError>(opened[i]) == skf_open(messages[i], sk_e));
        }
        assert(opened =~= frags);
    }
    if 0 <= k < messages.len() && (forall|i: int| 0 <= i < k ==> skf_open(#[trigger] messages[i], sk_e) is Ok)
        && skf_open(messages[k], sk_e) is Err {
        let before = messages.take(k);
        assert forall|i: int| 0 <= i < before.len() implies skf_open(#[trigger] before[i], sk_e) is Ok by {
            assert(before[i] == messages[i]);
        }
        opened_one_by_one(before, sk_e);
        assert(messages.take(k + 1).drop_last() =~= before);
        assert(messages.take(k + 1).last() == messages[k]);
        first_error_wins(messages, sk_e, k + 1);
    }
}

/// Law: taking fragments and messages by their views keeps each field under its
/// name, the error, and their number and order.
pub proof fn fragment_views(
    f: Fragment,
    frags: Seq<Fragment>,
    messages: Seq<Vec<u8>>,
    list: Vec<Vec<u8>>,
    e: IkeError,
    i: int,
)
    ensures
        f@.frag_num == f.frag_num,
        f@.total == f.total,
        f@.next_payload == f.next_payload,
        f@.content == f.content@,
        fragment_result(Ok(f)) == Ok::<FragmentModel, IkeError>(f@),
        fragment_result(Err(e)) == Err::<FragmentModel, IkeError>(e),
        models(frags).len() == frags.len(),
        0 <= i < frags.len() ==> models(frags)[i] == frags[i]@,
        messages_view(messages).len() == messages.len(),
        0 <= i < messages.len() ==> messages_view(messages)[i] == messages[i]@,
        messages_result(Ok(list)) == Ok::<Seq<Seq<u8>>, IkeError>(messages_view(list@)),
        messages_result(Err(e)) == Err::<Seq<Seq<u8>>, IkeError>(e),
{
}

} // verus!
