//! The IKE header and the generic payload chain (RFC 7296 sections 3.1 and 3.2).

use vstd::prelude::*;
use vstd::slice::slice_subrange;

use crate::bytes::{append, low16_of_sum, read_u16, read_u32, read_u64, u16_to_be, u32_to_be, u64_to_be};
use crate::bytes::{
    be16, be16_roundtrip, be32, be32_roundtrip, be64, be64_roundtrip, low16, u16_at, u32_at, u64_at,
};
use crate::bytes::{read_in_network_order, written_in_network_order};
use crate::error::IkeError;

verus! {

/// Length of a generic payload header.
pub const GENERIC_HEADER_LEN: usize = 4;

/// The type of a payload, as the Next Payload fields carry it.
#[derive(Debug, Clone, Copy, PartialEq, Eq, Structural)]
pub enum PayloadType {
    /// No further payload.
    NoNext,
    SecurityAssociation,
    KeyExchange,
    IdInitiator,
    IdResponder,
    Certificate,
    CertificateRequest,
    Authentication,
    Nonce,
    Notify,
    Delete,
    VendorId,
    TrafficSelectorInitiator,
    TrafficSelectorResponder,
    /// The Encrypted payload, `SK{}`.
    Encrypted,
    Configuration,
    Eap,
    /// The Encrypted Fragment payload, `SKF{}` (RFC 7383).
    EncryptedFragment,
    /// A type this library has no name for.
    Unknown(u8),
}

/// The number of a payload type.
pub open spec fn payload_code(t: PayloadType) -> u8 {
    match t {
        PayloadType::NoNext => 0,
        PayloadType::SecurityAssociation => 33,
        PayloadType::KeyExchange => 34,
        PayloadType::IdInitiator => 35,
        PayloadType::IdResponder => 36,
        PayloadType::Certificate => 37,
        PayloadType::CertificateRequest => 38,
        PayloadType::Authentication => 39,
        PayloadType::Nonce => 40,
        PayloadType::Notify => 41,
        PayloadType::Delete => 42,
        PayloadType::VendorId => 43,
        PayloadType::TrafficSelectorInitiator => 44,
        PayloadType::TrafficSelectorResponder => 45,
        PayloadType::Encrypted => 46,
        PayloadType::Configuration => 47,
        PayloadType::Eap => 48,
        PayloadType::EncryptedFragment => 53,
        PayloadType::Unknown(code) => code,
    }
}

/// The payload type that a number stands for.
pub open spec fn payload_type_of(code: u8) -> PayloadType {
    if code == 0 {
        PayloadType::NoNext
    } else if code == 33 {
        PayloadType::SecurityAssociation
    } else if code == 34 {
        PayloadType::KeyExchange
    } else if code == 35 {
        PayloadType::IdInitiator
    } else if code == 36 {
        PayloadType::IdResponder
    } else if code == 37 {
        PayloadType::Certificate
    } else if code == 38 {
        PayloadType::CertificateRequest
    } else if code == 39 {
        PayloadType::Authentication
    } else if code == 40 {
        PayloadType::Nonce
    } else if code == 41 {
        PayloadType::Notify
    } else if code == 42 {
        PayloadType::Delete
    } else if code == 43 {
        PayloadType::VendorId
    } else if code == 44 {
        PayloadType::TrafficSelectorInitiator
    } else if code == 45 {
        PayloadType::TrafficSelectorResponder
    } else if code == 46 {
        PayloadType::Encrypted
    } else if code == 47 {
        PayloadType::Configuration
    } else if code == 48 {
        PayloadType::Eap
    } else if code == 53 {
        PayloadType::EncryptedFragment
    } else {
        PayloadType::Unknown(code)
    }
}

/// `t` is the type that its own number stands for: it is not an `Unknown` that
/// holds the number of a named type.
pub open spec fn canonical_type(t: PayloadType) -> bool {
    payload_type_of(payload_code(t)) == t
}

impl PayloadType {
    pub fn to_u8(self) -> (r: u8)
        ensures
            r == payload_code(self),
    {
        match self {
            PayloadType::NoNext => 0,
            PayloadType::SecurityAssociation => 33,
            PayloadType::KeyExchange => 34,
            PayloadType::IdInitiator => 35,
            PayloadType::IdResponder => 36,
            PayloadType::Certificate => 37,
            PayloadType::CertificateRequest => 38,
            PayloadType::Authentication => 39,
            PayloadType::Nonce => 40,
            PayloadType::Notify => 41,
            PayloadType::Delete => 42,
            PayloadType::VendorId => 43,
            PayloadType::TrafficSelectorInitiator => 44,
            PayloadType::TrafficSelectorResponder => 45,
            PayloadType::Encrypted => 46,
            PayloadType::Configuration => 47,
            PayloadType::Eap => 48,
            PayloadType::EncryptedFragment => 53,
            PayloadType::Unknown(code) => code,
        }
    }

    pub fn from_u8(code: u8) -> (r: PayloadType)
        ensures
            r == payload_type_of(code),
    {
        match code {
            0 => PayloadType::NoNext,
            33 => PayloadType::SecurityAssociation,
            34 => PayloadType::KeyExchange,
            35 => PayloadType::IdInitiator,
            36 => PayloadType::IdResponder,
            37 => PayloadType::Certificate,
            38 => PayloadType::CertificateRequest,
            39 => PayloadType::Authentication,
            40 => PayloadType::Nonce,
            41 => PayloadType::Notify,
            42 => PayloadType::Delete,
            43 => PayloadType::VendorId,
            44 => PayloadType::TrafficSelectorInitiator,
            45 => PayloadType::TrafficSelectorResponder,
            46 => PayloadType::Encrypted,
            47 => PayloadType::Configuration,
            48 => PayloadType::Eap,
            53 => PayloadType::EncryptedFragment,
            _ => PayloadType::Unknown(code),
        }
    }
}

/// Law: every number stands for a type that has this number, and every type but
/// an `Unknown` that hides a named one is recovered from its number.
pub proof fn payload_codes_are_faithful(code: u8, t: PayloadType)
    ensures
        payload_code(payload_type_of(code)) == code,
        canonical_type(payload_type_of(code)),
        t !is Unknown ==> canonical_type(t),
{
}

/// The exchange a message belongs to.
#[derive(Debug, Clone, Copy, PartialEq, Eq, Structural)]
pub enum ExchangeType {
    IkeSaInit,
    IkeAuth,
    CreateChildSa,
    Informational,
    /// An exchange this library has no name for.
    Unknown(u8),
}

/// The number of an exchange type.
pub open spec fn exchange_code(t: ExchangeType) -> u8 {
    match t {
        ExchangeType::IkeSaInit => 34,
        ExchangeType::IkeAuth => 35,
        ExchangeType::CreateChildSa => 36,
        ExchangeType::Informational => 37,
        ExchangeType::Unknown(code) => code,
    }
}

/// The exchange type that a number stands for.
pub open spec fn exchange_type_of(code: u8) -> ExchangeType {
    if code == 34 {
        ExchangeType::IkeSaInit
    } else if code == 35 {
        ExchangeType::IkeAuth
    } else if code == 36 {
        ExchangeType::CreateChildSa
    } else if code == 37 {
        ExchangeType::Informational
    } else {
        ExchangeType::Unknown(code)
    }
}

impl ExchangeType {
    pub fn to_u8(self) -> (r: u8)
        ensures
            r == exchange_code(self),
    {
        match self {
            ExchangeType::IkeSaInit => 34,
            ExchangeType::IkeAuth => 35,
            ExchangeType::CreateChildSa => 36,
            ExchangeType::Informational => 37,
            ExchangeType::Unknown(code) => code,
        }
    }

    pub fn from_u8(code: u8) -> (r: ExchangeType)
        ensures
            r == exchange_type_of(code),
    {
        match code {
            34 => ExchangeType::IkeSaInit,
            35 => ExchangeType::IkeAuth,
            36 => ExchangeType::CreateChildSa,
            37 => ExchangeType::Informational,
            _ => ExchangeType::Unknown(code),
        }
    }
}

/// The flags of the IKE header.
#[derive(Debug, Clone, Copy, PartialEq, Eq, Structural)]
pub struct Flags {
    /// Set by the original initiator of the IKE SA.
    pub initiator: bool,
    /// The sender can speak a higher major version.
    pub version: bool,
    /// The message is a response.
    pub response: bool,
}

/// The flags as the header's octet.
pub open spec fn flags_octet(f: Flags) -> u8 {
    (if f.initiator { 0x08u8 } else { 0 }) | (if f.version { 0x10u8 } else { 0 }) | (if f.response {
        0x20u8
    } else {
        0
    })
}

/// The flags that an octet of the header carries; the other bits are ignored.
pub open spec fn flags_of(octet: u8) -> Flags {
    Flags {
        initiator: octet & 0x08 != 0,
        version: octet & 0x10 != 0,
        response: octet & 0x20 != 0,
    }
}

proof fn flags_roundtrip(f: Flags)
    ensures
        flags_of(flags_octet(f)) == f,
{
    let i: u8 = if f.initiator { 0x08 } else { 0 };
    let v: u8 = if f.version { 0x10 } else { 0 };
    let r: u8 = if f.response { 0x20 } else { 0 };
    assert((i | v | r) & 0x08 == i && (i | v | r) & 0x10 == v && (i | v | r) & 0x20 == r) by (bit_vector)
        requires
            i == 0 || i == 0x08,
            v == 0 || v == 0x10,
            r == 0 || r == 0x20,
    ;
}

/// The fixed header of every IKE message.
#[derive(Debug, Clone, Copy, PartialEq, Eq, Structural)]
pub struct IkeHeader {
    pub initiator_spi: u64,
    pub responder_spi: u64,
    pub next_payload: PayloadType,
    pub major_version: u8,
    pub minor_version: u8,
    pub exchange_type: ExchangeType,
    pub flags: Flags,
    pub message_id: u32,
    /// Length of the whole message, header included.
    pub length: u32,
}

/// The version octet: major version in the high half, minor in the low half.
pub open spec fn version_octet(major: u8, minor: u8) -> u8 {
    (major << 4) | (minor & 0x0f)
}

/// A header as it stands on the wire.
pub open spec fn header_bytes(h: IkeHeader) -> Seq<u8> {
    be64(h.initiator_spi) + be64(h.responder_spi) + seq![
        payload_code(h.next_payload),
        version_octet(h.major_version, h.minor_version),
        exchange_code(h.exchange_type),
        flags_octet(h.flags),
    ] + be32(h.message_id) + be32(h.length)
}

/// The header that the first 28 bytes of a message hold.
pub open spec fn header_of(message: Seq<u8>) -> IkeHeader {
    IkeHeader {
        initiator_spi: u64_at(message, 0),
        responder_spi: u64_at(message, 8),
        next_payload: payload_type_of(message[16]),
        major_version: message[17] >> 4,
        minor_version: message[17] & 0x0f,
        exchange_type: exchange_type_of(message[18]),
        flags: flags_of(message[19]),
        message_id: u32_at(message, 20),
        length: u32_at(message, 24),
    }
}

/// What parsing the header of `message` gives.
pub open spec fn parsed_header(message: Seq<u8>) -> Result<IkeHeader, IkeError> {
    if message.len() < IkeHeader::LEN {
        Err(IkeError::Truncated { need: IkeHeader::LEN, have: message.len() as usize })
    } else {
        Ok(header_of(message))
    }
}

/// `h` uses no value that the wire format cannot carry.
pub open spec fn header_representable(h: IkeHeader) -> bool {
    &&& h.major_version < 16
    &&& h.minor_version < 16
    &&& canonical_type(h.next_payload)
    &&& exchange_type_of(exchange_code(h.exchange_type)) == h.exchange_type
}

impl IkeHeader {
    /// Length of the header.
    pub const LEN: usize = 28;

    /// Reads the header at the start of a message.
    pub fn parse(message: &[u8]) -> (r: Result<IkeHeader, IkeError>)
        ensures
            r == parsed_header(message@),
    {
        if message.len() < IkeHeader::LEN {
            return Err(IkeError::Truncated { need: IkeHeader::LEN, have: message.len() });
        }
        Ok(
            IkeHeader {
                initiator_spi: read_u64(message, 0),
                responder_spi: read_u64(message, 8),
                next_payload: PayloadType::from_u8(message[16]),
                major_version: message[17] >> 4,
                minor_version: message[17] & 0x0f,
                exchange_type: ExchangeType::from_u8(message[18]),
                flags: Flags {
                    initiator: message[19] & 0x08 != 0,
                    version: message[19] & 0x10 != 0,
                    response: message[19] & 0x20 != 0,
                },
                message_id: read_u32(message, 20),
                length: read_u32(message, 24),
            },
        )
    }

    /// The header as it stands on the wire.
    pub fn to_bytes(&self) -> (r: Vec<u8>)
        ensures
            r@ == header_bytes(*self),
            r@.len() == IkeHeader::LEN,
    {
        let mut out: Vec<u8> = Vec::new();
        append(&mut out, &u64_to_be(self.initiator_spi));
        append(&mut out, &u64_to_be(self.responder_spi));
        let flags: u8 = (if self.flags.initiator { 0x08u8 } else { 0 }) | (if self.flags.version {
            0x10u8
        } else {
            0
        }) | (if self.flags.response { 0x20u8 } else { 0 });
        let middle: [u8; 4] = [
            self.next_payload.to_u8(),
            (self.major_version << 4) | (self.minor_version & 0x0f),
            self.exchange_type.to_u8(),
            flags,
        ];
        append(&mut out, &middle);
        append(&mut out, &u32_to_be(self.message_id));
        append(&mut out, &u32_to_be(self.length));
        assert(out@ =~= header_bytes(*self));
        out
    }
}

/// Law: parsing the bytes of a header, whatever follows them, gives the header
/// back with its Next Payload read through its number.
pub proof fn header_survives_the_wire(h: IkeHeader, rest: Seq<u8>)
    ensures
        header_bytes(h).len() == IkeHeader::LEN,
        header_of(header_bytes(h) + rest).next_payload == payload_type_of(payload_code(h.next_payload)),
        header_of(header_bytes(h) + rest).message_id == h.message_id,
        header_of(header_bytes(h) + rest).length == h.length,
        header_representable(h) ==> parsed_header(header_bytes(h) + rest) == Ok::<IkeHeader, IkeError>(h),
{
    let m = header_bytes(h) + rest;
    be64_roundtrip(h.initiator_spi);
    be64_roundtrip(h.responder_spi);
    be32_roundtrip(h.message_id);
    be32_roundtrip(h.length);
    assert(u64_at(m, 0) == u64_at(be64(h.initiator_spi), 0));
    assert(u64_at(m, 8) == u64_at(be64(h.responder_spi), 0));
    assert(u32_at(m, 20) == u32_at(be32(h.message_id), 0));
    assert(u32_at(m, 24) == u32_at(be32(h.length), 0));
    flags_roundtrip(h.flags);
    let major = h.major_version;
    let minor = h.minor_version;
    assert(major < 16 && minor < 16 ==> ((major << 4) | (minor & 0x0f)) >> 4 == major && ((major << 4) | (
    minor & 0x0f)) & 0x0f == minor) by (bit_vector);
}

/// A payload: its type and its body.
pub type PayloadModel = (PayloadType, Seq<u8>);

/// One payload of a received chain.
pub struct RawPayload<'a> {
    pub payload_type: PayloadType,
    pub data: &'a [u8],
}

impl<'a> View for RawPayload<'a> {
    type V = PayloadModel;

    open spec fn view(&self) -> PayloadModel {
        (self.payload_type, self.data@)
    }
}

/// A generic payload header: Next Payload, a clear critical bit, and the length
/// of the payload with this header, of which the field holds the low 16 bits.
pub open spec fn generic_header(next: u8, payload_len: int) -> Seq<u8> {
    seq![next, 0u8] + be16(low16(payload_len))
}

/// The type that announces the chain: that of its first payload.
pub open spec fn first_type(chain: Seq<PayloadModel>) -> PayloadType {
    if chain.len() == 0 {
        PayloadType::NoNext
    } else {
        chain[0].0
    }
}

/// A payload chain as it stands on the wire.
pub open spec fn chain_bytes(chain: Seq<PayloadModel>) -> Seq<u8>
    decreases chain.len(),
{
    if chain.len() == 0 {
        Seq::empty()
    } else {
        let rest = chain.drop_first();
        generic_header(payload_code(first_type(rest)), GENERIC_HEADER_LEN + chain[0].1.len()) + chain[0].1
            + chain_bytes(rest)
    }
}

/// The chain that `body` holds when its first payload has type `first`: payloads
/// follow one another until a Next Payload field says that there is none.
pub open spec fn parsed_chain(first: PayloadType, body: Seq<u8>) -> Result<Seq<PayloadModel>, IkeError>
    decreases body.len(),
{
    if first == PayloadType::NoNext {
        Ok(Seq::empty())
    } else if body.len() < GENERIC_HEADER_LEN {
        Err(IkeError::Truncated { need: GENERIC_HEADER_LEN, have: body.len() as usize })
    } else {
        let len = u16_at(body, 2);
        if len < GENERIC_HEADER_LEN || len > body.len() {
            Err(IkeError::BadLength { declared: len as usize, available: body.len() as usize })
        } else {
            match parsed_chain(payload_type_of(body[0]), body.skip(len as int)) {
                Ok(rest) => Ok(seq![(first, body.subrange(GENERIC_HEADER_LEN as int, len as int))] + rest),
                Err(e) => Err(e),
            }
        }
    }
}

/// The body of the last payload of type `t` in the chain.
pub open spec fn last_of_type(chain: Seq<PayloadModel>, t: PayloadType) -> Option<Seq<u8>>
    decreases chain.len(),
{
    if chain.len() == 0 {
        None
    } else if chain.last().0 == t {
        Some(chain.last().1)
    } else {
        last_of_type(chain.drop_last(), t)
    }
}

/// The payloads that a vector of (type, body) pairs describes.
pub open spec fn chain_of(list: Seq<(PayloadType, Vec<u8>)>) -> Seq<PayloadModel> {
    list.map_values(|p: (PayloadType, Vec<u8>)| (p.0, p.1@))
}

/// The payloads of a received chain.
pub open spec fn raw_chain(list: Seq<RawPayload<'_>>) -> Seq<PayloadModel> {
    list.map_values(|p: RawPayload<'_>| p@)
}

/// The type that announces the chain: that of its first payload.
pub fn first_payload_type(chain: &[(PayloadType, Vec<u8>)]) -> (r: PayloadType)
    ensures
        r == first_type(chain_of(chain@)),
{
    if chain.len() == 0 {
        PayloadType::NoNext
    } else {
        chain[0].0
    }
}

/// Serializes a payload chain. A body too long for the 16-bit length field gets
/// the low 16 bits of its length.
pub fn encode_payload_chain(chain: &[(PayloadType, Vec<u8>)]) -> (r: Vec<u8>)
    ensures
        r@ == chain_bytes(chain_of(chain@)),
{
    let mut out: Vec<u8> = Vec::new();
    let n: usize = chain.len();
    let ghost model = chain_of(chain@);
    assert(model.skip(0) =~= model);
    for i in 0..n
        invariant
            n == chain@.len(),
            model == chain_of(chain@),
            out@ + chain_bytes(model.skip(i as int)) == chain_bytes(model),
    {
        let next: u8 = if i + 1 < n {
            chain[i + 1].0.to_u8()
        } else {
            0
        };
        let body: &Vec<u8> = &chain[i].1;
        let len16: u16 = low16_of_sum(GENERIC_HEADER_LEN, body.len());
        let ghost before = out@;
        let ghost here = model.skip(i as int);
        let head: [u8; 2] = [next, 0];
        append(&mut out, &head);
        append(&mut out, &u16_to_be(len16));
        append(&mut out, body);
        proof {
            assert(here.drop_first() =~= model.skip(i + 1));
            assert(here[0] == (chain@[i as int].0, body@));
            assert(head@ =~= seq![next, 0u8]);
            assert(payload_code(first_type(here.drop_first())) == next);
            assert(chain_bytes(here) == generic_header(next, GENERIC_HEADER_LEN + body@.len()) + body@ + chain_bytes(
                here.drop_first(),
            ));
            assert(out@ + chain_bytes(model.skip(i + 1)) =~= before + chain_bytes(here));
        }
    }
    assert(model.skip(n as int) =~= Seq::<PayloadModel>::empty());
    assert(out@ + Seq::<u8>::empty() =~= out@);
    out
}

/// Walks the payload chain in `body`, whose first payload has type `first`.
pub fn payloads<'a>(first: PayloadType, body: &'a [u8]) -> (r: Result<Vec<RawPayload<'a>>, IkeError>)
    ensures
        r matches Ok(list) ==> parsed_chain(first, body@) == Ok::<Seq<PayloadModel>, IkeError>(raw_chain(list@)),
        r matches Err(e) ==> parsed_chain(first, body@) == Err::<Seq<PayloadModel>, IkeError>(e),
{
    let mut list: Vec<RawPayload<'a>> = Vec::new();
    let mut next: PayloadType = first;
    let mut rest: &'a [u8] = body;
    assert(raw_chain(list@) =~= Seq::<PayloadModel>::empty());
    while next != PayloadType::NoNext
        invariant
            parsed_chain(next, rest@) matches Err(e) ==> parsed_chain(first, body@) == Err::<
                Seq<PayloadModel>,
                IkeError,
            >(e),
            parsed_chain(next, rest@) matches Ok(tail) ==> parsed_chain(first, body@) == Ok::<
                Seq<PayloadModel>,
                IkeError,
            >(raw_chain(list@) + tail),
        decreases rest@.len(),
    {
        if rest.len() < GENERIC_HEADER_LEN {
            return Err(IkeError::Truncated { need: GENERIC_HEADER_LEN, have: rest.len() });
        }
        let len: usize = read_u16(rest, 2) as usize;
        if len < GENERIC_HEADER_LEN || len > rest.len() {
            return Err(IkeError::BadLength { declared: len, available: rest.len() });
        }
        let ghost before = raw_chain(list@);
        let ghost here = rest@;
        let data: &'a [u8] = slice_subrange(rest, GENERIC_HEADER_LEN, len);
        let item = RawPayload { payload_type: next, data };
        let ghost item_model = item@;
        list.push(item);
        next = PayloadType::from_u8(rest[0]);
        rest = slice_subrange(rest, len, rest.len());
        proof {
            assert(rest@ =~= here.skip(len as int));
            assert(raw_chain(list@) =~= before.push(item_model));
            if let Ok(tail) = parsed_chain(next, rest@) {
                assert(before + (seq![item_model] + tail) =~= raw_chain(list@) + tail);
            }
        }
    }
    assert(raw_chain(list@) + Seq::<PayloadModel>::empty() =~= raw_chain(list@));
    Ok(list)
}

/// The body of the last payload of type `t` in a received chain.
pub fn find_last<'a>(list: &[RawPayload<'a>], t: PayloadType) -> (r: Option<&'a [u8]>)
    ensures
        r matches Some(body) ==> last_of_type(raw_chain(list@), t) == Some(body@),
        r is None ==> last_of_type(raw_chain(list@), t) is None,
{
    let mut i: usize = list.len();
    let ghost chain = raw_chain(list@);
    assert(chain.take(i as int) =~= chain);
    while i > 0
        invariant
            i <= list@.len(),
            chain == raw_chain(list@),
            last_of_type(chain, t) == last_of_type(chain.take(i as int), t),
        decreases i,
    {
        i = i - 1;
        assert(chain.take(i + 1).drop_last() =~= chain.take(i as int));
        assert(chain.take(i + 1).last() == list@[i as int]@);
        if list[i].payload_type == t {
            return Some(list[i].data);
        }
    }
    None
}

/// Every payload of the chain fits the wire format: its type is recovered from
/// its number and is not the end mark, and its length fits 16 bits.
pub open spec fn chain_representable(chain: Seq<PayloadModel>) -> bool {
    forall|i: int|
        0 <= i < chain.len() ==> {
            &&& canonical_type((#[trigger] chain[i]).0)
            &&& chain[i].0 != PayloadType::NoNext
            &&& chain[i].1.len() + GENERIC_HEADER_LEN <= 0xffff
        }
}

/// Law: walking the bytes of a payload chain, whatever follows them, gives the
/// chain back, payload for payload.
pub proof fn chain_survives_the_wire(chain: Seq<PayloadModel>, rest: Seq<u8>)
    requires
        chain_representable(chain),
    ensures
        parsed_chain(first_type(chain), chain_bytes(chain) + rest) == Ok::<Seq<PayloadModel>, IkeError>(chain),
    decreases chain.len(),
{
    if chain.len() == 0 {
        assert(chain =~= Seq::<PayloadModel>::empty());
    } else {
        let tail = chain.drop_first();
        assert forall|i: int| 0 <= i < tail.len() implies {
            &&& canonical_type((#[trigger] tail[i]).0)
            &&& tail[i].0 != PayloadType::NoNext
            &&& tail[i].1.len() + GENERIC_HEADER_LEN <= 0xffff
        } by {
            assert(tail[i] == chain[i + 1]);
        }
        chain_survives_the_wire(tail, rest);
        let (t, data) = chain[0];
        let code = payload_code(first_type(tail));
        let len = GENERIC_HEADER_LEN + data.len();
        let body = chain_bytes(chain) + rest;
        be16_roundtrip(low16(len));
        assert(body =~= generic_header(code, len) + data + (chain_bytes(tail) + rest));
        assert(u16_at(body, 2) == u16_at(be16(low16(len)), 0));
        assert(body.skip(len) =~= chain_bytes(tail) + rest);
        assert(body.subrange(GENERIC_HEADER_LEN as int, len) =~= data);
        assert(body[0] == code);
        if tail.len() != 0 {
            assert(tail[0] == chain[1]);
        }
        assert(payload_type_of(code) == first_type(tail));
        assert(seq![(t, data)] + tail =~= chain);
    }
}

/// Payload `i` is the last of its type if no later one has that type.
pub proof fn last_stands_at(chain: Seq<PayloadModel>, i: int)
    requires
        0 <= i < chain.len(),
        forall|j: int| i < j < chain.len() ==> (#[trigger] chain[j]).0 != chain[i].0,
    ensures
        last_of_type(chain, chain[i].0) == Some(chain[i].1),
    decreases chain.len(),
{
    if i < chain.len() - 1 {
        assert(chain[chain.len() - 1].0 != chain[i].0);
        last_stands_at(chain.drop_last(), i);
    }
}

/// Every payload takes part in the length of its chain.
pub proof fn chain_parts_fit(chain: Seq<PayloadModel>, i: int)
    requires
        0 <= i < chain.len(),
    ensures
        chain[i].1.len() + GENERIC_HEADER_LEN <= chain_bytes(chain).len(),
    decreases chain.len(),
{
    if i > 0 {
        chain_parts_fit(chain.drop_first(), i - 1);
    }
}

/// A payload that was read from the wire is no longer than its length field says.
pub proof fn received_bodies_are_short(first: PayloadType, body: Seq<u8>, t: PayloadType)
    ensures
        parsed_chain(first, body) matches Ok(chain) ==> (last_of_type(chain, t) matches Some(found) ==> found.len()
            <= 0xffff),
{
    if let Ok(chain) = parsed_chain(first, body) {
        if let Some(found) = last_of_type(chain, t) {
            last_is_member(chain, t);
            let i = choose|i: int| 0 <= i < chain.len() && (#[trigger] chain[i]).1 == found;
            received_body_is_short(first, body, i);
        }
    }
}

proof fn last_is_member(chain: Seq<PayloadModel>, t: PayloadType)
    ensures
        last_of_type(chain, t) matches Some(found) ==> exists|i: int|
            0 <= i < chain.len() && (#[trigger] chain[i]).1 == found,
    decreases chain.len(),
{
    if chain.len() > 0 {
        if chain.last().0 == t {
            assert(chain[chain.len() - 1].1 == chain.last().1);
        } else {
            let before = chain.drop_last();
            last_is_member(before, t);
            if let Some(found) = last_of_type(before, t) {
                let i = choose|i: int| 0 <= i < before.len() && (#[trigger] before[i]).1 == found;
                assert(chain[i] == before[i]);
            }
        }
    }
}

proof fn received_body_is_short(first: PayloadType, body: Seq<u8>, i: int)
    requires
        parsed_chain(first, body) matches Ok(chain) && 0 <= i < chain.len(),
    ensures
        parsed_chain(first, body)->Ok_0[i].1.len() <= 0xffff,
    decreases body.len(),
{
    if i > 0 {
        let len = u16_at(body, 2);
        received_body_is_short(payload_type_of(body[0]), body.skip(len as int), i - 1);
    }
}

/// Law: payload types have their registered numbers, on the way out and on the way
/// in; any other number is carried as it is.
pub proof fn payload_numbers(code: u8)
    ensures
        payload_code(PayloadType::NoNext) == 0 && payload_type_of(0) == PayloadType::NoNext,
        payload_code(PayloadType::SecurityAssociation) == 33 && payload_type_of(33) == PayloadType::SecurityAssociation,
        payload_code(PayloadType::KeyExchange) == 34 && payload_type_of(34) == PayloadType::KeyExchange,
        payload_code(PayloadType::IdInitiator) == 35 && payload_type_of(35) == PayloadType::IdInitiator,
        payload_code(PayloadType::IdResponder) == 36 && payload_type_of(36) == PayloadType::IdResponder,
        payload_code(PayloadType::Certificate) == 37 && payload_type_of(37) == PayloadType::Certificate,
        payload_code(PayloadType::CertificateRequest) == 38 && payload_type_of(38) == PayloadType::CertificateRequest,
        payload_code(PayloadType::Authentication) == 39 && payload_type_of(39) == PayloadType::Authentication,
        payload_code(PayloadType::Nonce) == 40 && payload_type_of(40) == PayloadType::Nonce,
        payload_code(PayloadType::Notify) == 41 && payload_type_of(41) == PayloadType::Notify,
        payload_code(PayloadType::Delete) == 42 && payload_type_of(42) == PayloadType::Delete,
        payload_code(PayloadType::VendorId) == 43 && payload_type_of(43) == PayloadType::VendorId,
        payload_code(PayloadType::TrafficSelectorInitiator) == 44,
        payload_type_of(44) == PayloadType::TrafficSelectorInitiator,
        payload_code(PayloadType::TrafficSelectorResponder) == 45,
        payload_type_of(45) == PayloadType::TrafficSelectorResponder,
        payload_code(PayloadType::Encrypted) == 46 && payload_type_of(46) == PayloadType::Encrypted,
        payload_code(PayloadType::Configuration) == 47 && payload_type_of(47) == PayloadType::Configuration,
        payload_code(PayloadType::Eap) == 48 && payload_type_of(48) == PayloadType::Eap,
        payload_code(PayloadType::EncryptedFragment) == 53 && payload_type_of(53) == PayloadType::EncryptedFragment,
        payload_code(PayloadType::Unknown(code)) == code,
        payload_type_of(code) is Unknown <==> !(code == 0 || 33 <= code <= 48 || code == 53),
        payload_type_of(code) matches PayloadType::Unknown(n) ==> n == code,
{
}

/// Law: exchange types have their registered numbers, on the way out and on the way
/// in; any other number is carried as it is.
pub proof fn exchange_numbers(code: u8)
    ensures
        exchange_code(ExchangeType::IkeSaInit) == 34 && exchange_type_of(34) == ExchangeType::IkeSaInit,
        exchange_code(ExchangeType::IkeAuth) == 35 && exchange_type_of(35) == ExchangeType::IkeAuth,
        exchange_code(ExchangeType::CreateChildSa) == 36 && exchange_type_of(36) == ExchangeType::CreateChildSa,
        exchange_code(ExchangeType::Informational) == 37 && exchange_type_of(37) == ExchangeType::Informational,
        exchange_code(ExchangeType::Unknown(code)) == code,
        exchange_type_of(code) is Unknown <==> !(34 <= code <= 37),
        exchange_type_of(code) matches ExchangeType::Unknown(n) ==> n == code,
{
}

/// Law: where each field of a header stands on the wire, and with what weight its
/// flags and versions count.
pub proof fn header_layout(h: IkeHeader)
    ensures
        header_bytes(h).len() == 28,
        header_bytes(h).subrange(0, 8) == be64(h.initiator_spi),
        header_bytes(h).subrange(8, 16) == be64(h.responder_spi),
        header_bytes(h)[16] == payload_code(h.next_payload),
        header_bytes(h)[17] == (h.major_version % 16) * 16 + h.minor_version % 16,
        header_bytes(h)[18] == exchange_code(h.exchange_type),
        header_bytes(h)[19] == (if h.flags.initiator { 8int } else { 0 }) + (if h.flags.version { 16int } else { 0 })
            + (if h.flags.response { 32int } else { 0 }),
        header_bytes(h).subrange(20, 24) == be32(h.message_id),
        header_bytes(h).subrange(24, 28) == be32(h.length),
{
    let b = header_bytes(h);
    assert(b.subrange(0, 8) =~= be64(h.initiator_spi));
    assert(b.subrange(8, 16) =~= be64(h.responder_spi));
    assert(b.subrange(20, 24) =~= be32(h.message_id));
    assert(b.subrange(24, 28) =~= be32(h.length));
    let (major, minor) = (h.major_version, h.minor_version);
    assert((major << 4) | (minor & 0x0f) == (major % 16) * 16 + minor % 16) by (bit_vector);
    let i: u8 = if h.flags.initiator { 0x08 } else { 0 };
    let v: u8 = if h.flags.version { 0x10 } else { 0 };
    let r: u8 = if h.flags.response { 0x20 } else { 0 };
    assert(i | v | r == i + v + r) by (bit_vector)
        requires
            i == 0 || i == 0x08,
            v == 0 || v == 0x10,
            r == 0 || r == 0x20,
    ;
}

/// Law: where each field of a header is read from, for every message that is long
/// enough; shorter ones are refused.
pub proof fn header_reading(m: Seq<u8>)
    ensures
        m.len() < 28 ==> parsed_header(m) == Err::<IkeHeader, IkeError>(
            IkeError::Truncated { need: 28, have: m.len() as usize },
        ),
        m.len() >= 28 ==> (parsed_header(m) matches Ok(h) && {
            &&& be64(h.initiator_spi) == m.subrange(0, 8)
            &&& be64(h.responder_spi) == m.subrange(8, 16)
            &&& payload_code(h.next_payload) == m[16] && canonical_type(h.next_payload)
            &&& h.major_version == m[17] / 16
            &&& h.minor_version == m[17] % 16
            &&& exchange_code(h.exchange_type) == m[18] && exchange_type_of(m[18]) == h.exchange_type
            &&& h.flags.initiator == ((m[19] / 8) % 2 == 1)
            &&& h.flags.version == ((m[19] / 16) % 2 == 1)
            &&& h.flags.response == ((m[19] / 32) % 2 == 1)
            &&& be32(h.message_id) == m.subrange(20, 24)
            &&& be32(h.length) == m.subrange(24, 28)
        }),
{
    if m.len() >= 28 {
        bytes_of_a_read(m, 0);
        bytes_of_a_read(m, 8);
        bytes_of_a_read(m, 20);
        bytes_of_a_read(m, 24);
        payload_codes_are_faithful(m[16], PayloadType::NoNext);
        let (v, f) = (m[17], m[19]);
        assert(v >> 4 == v / 16 && v & 0x0f == v % 16) by (bit_vector);
        assert((f & 0x08 != 0) == ((f / 8) % 2 == 1) && (f & 0x10 != 0) == ((f / 16) % 2 == 1) && (f & 0x20 != 0) == ((f
            / 32) % 2 == 1)) by (bit_vector);
    }
}

/// Writing a number that was read gives the bytes it was read from.
proof fn bytes_of_a_read(m: Seq<u8>, at: int)
    requires
        0 <= at,
    ensures
        at + 4 <= m.len() ==> be32(u32_at(m, at)) == m.subrange(at, at + 4),
        at + 8 <= m.len() ==> be64(u64_at(m, at)) == m.subrange(at, at + 8),
{
    let (a, b, c, d) = (m[at], m[at + 1], m[at + 2], m[at + 3]);
    let (e, f, g, h) = (m[at + 4], m[at + 5], m[at + 6], m[at + 7]);
    let x = ((a as u32) << 24) | ((b as u32) << 16) | ((c as u32) << 8) | (d as u32);
    assert((x >> 24) as u8 == a && (x >> 16) as u8 == b && (x >> 8) as u8 == c && x as u8 == d) by (bit_vector)
        requires
            x == ((a as u32) << 24) | ((b as u32) << 16) | ((c as u32) << 8) | (d as u32),
    ;
    let y = ((a as u64) << 56) | ((b as u64) << 48) | ((c as u64) << 40) | ((d as u64) << 32) | ((e as u64) << 24) | ((
    f as u64) << 16) | ((g as u64) << 8) | (h as u64);
    assert((y >> 56) as u8 == a && (y >> 48) as u8 == b && (y >> 40) as u8 == c && (y >> 32) as u8 == d && (y >> 24)
        as u8 == e && (y >> 16) as u8 == f && (y >> 8) as u8 == g && y as u8 == h) by (bit_vector)
        requires
            y == ((a as u64) << 56) | ((b as u64) << 48) | ((c as u64) << 40) | ((d as u64) << 32) | ((e as u64) << 24)
                | ((f as u64) << 16) | ((g as u64) << 8) | (h as u64),
    ;
    if at + 4 <= m.len() {
        assert(be32(u32_at(m, at)) =~= m.subrange(at, at + 4));
    }
    if at + 8 <= m.len() {
        assert(be64(u64_at(m, at)) =~= m.subrange(at, at + 8));
    }
}

/// Law: how a payload stands in front of the chain that follows it. It announces
/// the type of the next payload, 0 if there is none; its length field counts its
/// four header bytes and its body.
pub proof fn chain_layout(t: PayloadType, body: Seq<u8>, rest: Seq<PayloadModel>)
    ensures
        ({
            let bytes = chain_bytes(seq![(t, body)] + rest);
            let n = body.len() as int;
            &&& bytes.len() == 4 + n + chain_bytes(rest).len()
            &&& bytes[0] == (if rest.len() == 0 { 0u8 } else { payload_code(rest[0].0) })
            &&& bytes[1] == 0
            &&& n + 4 <= 0xffff ==> bytes[2] * 0x100 + bytes[3] == n + 4
            &&& (n + 4 - (bytes[2] * 0x100 + bytes[3])) % 0x1_0000 == 0
            &&& bytes.subrange(4, 4 + n) == body
            &&& bytes.skip(4 + n) == chain_bytes(rest)
            &&& first_type(seq![(t, body)] + rest) == t
        }),
        chain_bytes(Seq::<PayloadModel>::empty()) == Seq::<u8>::empty(),
        first_type(Seq::<PayloadModel>::empty()) == PayloadType::NoNext,
{
    let chain = seq![(t, body)] + rest;
    let bytes = chain_bytes(chain);
    let n = body.len() as int;
    assert(chain.drop_first() =~= rest);
    written_in_network_order(low16(n + 4), 0, 0);
    assert(bytes[2] == be16(low16(n + 4))[0] && bytes[3] == be16(low16(n + 4))[1]);
    assert(bytes.subrange(4, 4 + n) =~= body);
    assert(bytes.skip(4 + n) =~= chain_bytes(rest));
}

/// Law: how a chain is read, from any bytes. Nothing is read after the end mark;
/// otherwise the first payload is announced by `first`, bounded by its own length
/// field, and the rest of the chain is read from what follows it.
pub proof fn chain_reading(first: PayloadType, body: Seq<u8>)
    ensures
        ({
            let n = body[2] * 0x100 + body[3];
            &&& first == PayloadType::NoNext ==> parsed_chain(first, body) == Ok::<Seq<PayloadModel>, IkeError>(
                Seq::empty(),
            )
            &&& first != PayloadType::NoNext && body.len() < 4 ==> parsed_chain(first, body) == Err::<
                Seq<PayloadModel>,
                IkeError,
            >(IkeError::Truncated { need: 4, have: body.len() as usize })
            &&& first != PayloadType::NoNext && body.len() >= 4 && (n < 4 || n > body.len()) ==> parsed_chain(first, body)
                == Err::<Seq<PayloadModel>, IkeError>(
                IkeError::BadLength { declared: n as usize, available: body.len() as usize },
            )
            &&& first != PayloadType::NoNext && 4 <= n <= body.len() ==> {
                let next = parsed_chain(payload_type_of(body[0]), body.skip(n));
                &&& next matches Err(e) ==> parsed_chain(first, body) == Err::<Seq<PayloadModel>, IkeError>(e)
                &&& next matches Ok(rest) ==> (parsed_chain(first, body) matches Ok(chain) && {
                    &&& chain.len() == rest.len() + 1
                    &&& chain[0] == (first, body.subrange(4, n))
                    &&& chain.skip(1) == rest
                })
            }
        }),
{
    read_in_network_order(body, 2);
    let n = body[2] * 0x100 + body[3];
    if first != PayloadType::NoNext && 4 <= n <= body.len() {
        if let Ok(rest) = parsed_chain(payload_type_of(body[0]), body.skip(n)) {
            let chain = parsed_chain(first, body)->Ok_0;
            assert(chain =~= seq![(first, body.subrange(4, n))] + rest);
            assert(chain.skip(1) =~= rest);
        }
    }
}

/// Law: of several payloads of one type the last one counts, and it is found
/// wherever it stands; none is found exactly if there is none.
pub proof fn last_payload_counts(chain: Seq<PayloadModel>, t: PayloadType)
    ensures
        last_of_type(chain, t) is None <==> forall|i: int| 0 <= i < chain.len() ==> (#[trigger] chain[i]).0 != t,
        forall|i: int|
            0 <= i < chain.len() && (#[trigger] chain[i]).0 == t && (forall|j: int|
                i < j < chain.len() ==> (#[trigger] chain[j]).0 != t) ==> last_of_type(chain, t) == Some(chain[i].1),
    decreases chain.len(),
{
    if chain.len() > 0 {
        let before = chain.drop_last();
        last_payload_counts(before, t);
        assert forall|i: int| 0 <= i < before.len() implies before[i] == #[trigger] chain[i] by {}
        assert(chain.last() == chain[chain.len() - 1]);
        if chain.last().0 != t {
            assert forall|i: int|
                0 <= i < chain.len() && (#[trigger] chain[i]).0 == t && (forall|j: int|
                    i < j < chain.len() ==> (#[trigger] chain[j]).0 != t) implies last_of_type(chain, t) == Some(
                chain[i].1,
            ) by {
                assert(before[i].0 == t);
            }
            if last_of_type(chain, t) is None {
                assert forall|i: int| 0 <= i < chain.len() implies (#[trigger] chain[i]).0 != t by {
                    if i < before.len() {
                        assert(before[i].0 != t);
                    }
                }
            } else {
                let i = choose|i: int| 0 <= i < before.len() && (#[trigger] before[i]).0 == t;
                assert(chain[i].0 == t);
            }
        }
    }
}

/// Law: the fields of a header are read back one by one, also where another field
/// holds a value that the wire format cannot carry.
pub proof fn header_fields_survive(h: IkeHeader, rest: Seq<u8>)
    ensures
        parsed_header(header_bytes(h) + rest) matches Ok(read) && {
            &&& read.initiator_spi == h.initiator_spi
            &&& read.responder_spi == h.responder_spi
            &&& h.next_payload !is Unknown ==> read.next_payload == h.next_payload
            &&& h.major_version < 16 ==> read.major_version == h.major_version
            &&& h.minor_version < 16 ==> read.minor_version == h.minor_version
            &&& h.exchange_type !is Unknown ==> read.exchange_type == h.exchange_type
            &&& read.flags == h.flags
            &&& read.message_id == h.message_id
            &&& read.length == h.length
        },
{
    let m = header_bytes(h) + rest;
    header_survives_the_wire(h, rest);
    header_layout(h);
    header_reading(m);
    assert(m.subrange(0, 8) =~= header_bytes(h).subrange(0, 8));
    assert(m.subrange(8, 16) =~= header_bytes(h).subrange(8, 16));
    let read = parsed_header(m)->Ok_0;
    be64_roundtrip(read.initiator_spi);
    be64_roundtrip(h.initiator_spi);
    be64_roundtrip(read.responder_spi);
    be64_roundtrip(h.responder_spi);
    flags_roundtrip(h.flags);
    assert(m[17] == header_bytes(h)[17]);
}

/// Law: taking payloads by their views keeps type and body, and their number and
/// order.
pub proof fn payload_views(sent: Seq<(PayloadType, Vec<u8>)>, received: Seq<RawPayload<'_>>, i: int)
    ensures
        chain_of(sent).len() == sent.len(),
        0 <= i < sent.len() ==> chain_of(sent)[i] == (sent[i].0, sent[i].1@),
        raw_chain(received).len() == received.len(),
        0 <= i < received.len() ==> raw_chain(received)[i] == (received[i].payload_type, received[i].data@),
{
}

} // verus!
