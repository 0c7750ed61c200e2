//! The Security Association payload: proposals and their transforms (RFC 7296
//! section 3.3).

use vstd::prelude::*;
use vstd::slice::{slice_subrange, slice_to_vec};

use crate::bytes::{append, low16_of_sum, low8_of, read_u16, u16_to_be};
use crate::bytes::{be16, be16_roundtrip, low16, low8, read_in_network_order, u16_at, written_in_network_order};
use crate::error::IkeError;

verus! {

/// Length of the fixed part of a proposal, and of a transform.
pub const SUBSTRUCTURE_LEN: usize = 8;

/// A cryptographic transform of a proposal.
pub struct Transform {
    pub transform_type: u8,
    pub transform_id: u16,
    /// The attributes as they stand on the wire.
    pub attributes: Vec<u8>,
}

/// A transform, its attributes taken by their view.
#[verifier::ext_equal]
pub struct TransformModel {
    pub transform_type: u8,
    pub transform_id: u16,
    pub attributes: Seq<u8>,
}

impl View for Transform {
    type V = TransformModel;

    open spec fn view(&self) -> TransformModel {
        TransformModel {
            transform_type: self.transform_type,
            transform_id: self.transform_id,
            attributes: self.attributes@,
        }
    }
}

/// Transforms by their views.
pub open spec fn transform_models(list: Seq<Transform>) -> Seq<TransformModel> {
    list.map_values(|t: Transform| t@)
}

/// A proposal: a protocol, the SPI to receive on, and its transforms.
pub struct Proposal {
    pub number: u8,
    pub protocol_id: u8,
    pub spi: Vec<u8>,
    pub transforms: Vec<Transform>,
}

/// A proposal by its view.
#[verifier::ext_equal]
pub struct ProposalModel {
    pub number: u8,
    pub protocol_id: u8,
    pub spi: Seq<u8>,
    pub transforms: Seq<TransformModel>,
}

impl View for Proposal {
    type V = ProposalModel;

    open spec fn view(&self) -> ProposalModel {
        ProposalModel {
            number: self.number,
            protocol_id: self.protocol_id,
            spi: self.spi@,
            transforms: transform_models(self.transforms@),
        }
    }
}

/// The proposals of a Security Association payload.
pub struct SecurityAssociation {
    pub proposals: Vec<Proposal>,
}

impl View for SecurityAssociation {
    type V = Seq<ProposalModel>;

    open spec fn view(&self) -> Seq<ProposalModel> {
        proposal_models(self.proposals@)
    }
}

/// Proposals by their views.
pub open spec fn proposal_models(list: Seq<Proposal>) -> Seq<ProposalModel> {
    list.map_values(|p: Proposal| p@)
}

/// A transform on the wire. Its length field holds the low 16 bits of its length.
pub open spec fn transform_bytes(t: TransformModel, last: bool) -> Seq<u8> {
    seq![if last { 0u8 } else { 3u8 }, 0u8] + be16(low16(SUBSTRUCTURE_LEN + t.attributes.len())) + seq![
        t.transform_type,
        0u8,
    ] + be16(t.transform_id) + t.attributes
}

/// Transforms on the wire, one after the other.
pub open spec fn transforms_bytes(list: Seq<TransformModel>) -> Seq<u8>
    decreases list.len(),
{
    if list.len() == 0 {
        Seq::empty()
    } else {
        transform_bytes(list[0], list.len() == 1) + transforms_bytes(list.drop_first())
    }
}

/// Length of a proposal with its SPI and transforms.
pub open spec fn proposal_len(p: ProposalModel) -> int {
    SUBSTRUCTURE_LEN + p.spi.len() + transforms_bytes(p.transforms).len()
}

/// A proposal on the wire. Its length field and its counts hold the low bits of
/// what they count.
pub open spec fn proposal_bytes(p: ProposalModel, last: bool) -> Seq<u8> {
    seq![if last { 0u8 } else { 2u8 }, 0u8] + be16(low16(proposal_len(p))) + seq![
        p.number,
        p.protocol_id,
        low8(p.spi.len() as int),
        low8(p.transforms.len() as int),
    ] + p.spi + transforms_bytes(p.transforms)
}

/// The body of a Security Association payload.
pub open spec fn sa_bytes(list: Seq<ProposalModel>) -> Seq<u8>
    decreases list.len(),
{
    if list.len() == 0 {
        Seq::empty()
    } else {
        proposal_bytes(list[0], list.len() == 1) + sa_bytes(list.drop_first())
    }
}

/// The transforms that `data` holds, by their length fields.
pub open spec fn parsed_transforms(data: Seq<u8>) -> Result<Seq<TransformModel>, IkeError>
    decreases data.len(),
{
    if data.len() == 0 {
        Ok(Seq::empty())
    } else if data.len() < SUBSTRUCTURE_LEN {
        Err(IkeError::Truncated { need: SUBSTRUCTURE_LEN, have: data.len() as usize })
    } else {
        let len = u16_at(data, 2);
        if len < SUBSTRUCTURE_LEN || len > data.len() {
            Err(IkeError::BadLength { declared: len as usize, available: data.len() as usize })
        } else {
            match parsed_transforms(data.skip(len as int)) {
                Err(e) => Err(e),
                Ok(rest) => Ok(
                    seq![
                        TransformModel {
                            transform_type: data[4],
                            transform_id: u16_at(data, 6),
                            attributes: data.subrange(8, len as int),
                        },
                    ] + rest,
                ),
            }
        }
    }
}

/// The proposals that `data` holds, by their length fields and SPI sizes.
pub open spec fn parsed_proposals(data: Seq<u8>) -> Result<Seq<ProposalModel>, IkeError>
    decreases data.len(),
{
    if data.len() == 0 {
        Ok(Seq::empty())
    } else if data.len() < SUBSTRUCTURE_LEN {
        Err(IkeError::Truncated { need: SUBSTRUCTURE_LEN, have: data.len() as usize })
    } else {
        let len = u16_at(data, 2);
        let spi_len = data[6];
        if len < SUBSTRUCTURE_LEN + spi_len || len > data.len() {
            Err(IkeError::BadLength { declared: len as usize, available: data.len() as usize })
        } else {
            match parsed_transforms(data.subrange(8 + spi_len, len as int)) {
                Err(e) => Err(e),
                Ok(transforms) => match parsed_proposals(data.skip(len as int)) {
                    Err(e) => Err(e),
                    Ok(rest) => Ok(
                        seq![
                            ProposalModel {
                                number: data[4],
                                protocol_id: data[5],
                                spi: data.subrange(8, 8 + spi_len),
                                transforms,
                            },
                        ] + rest,
                    ),
                },
            }
        }
    }
}

fn parse_transforms(data: &[u8]) -> (r: Result<Vec<Transform>, IkeError>)
    ensures
        r matches Ok(list) ==> parsed_transforms(data@) == Ok::<Seq<TransformModel>, IkeError>(transform_models(list@)),
        r matches Err(e) ==> parsed_transforms(data@) == Err::<Seq<TransformModel>, IkeError>(e),
{
    let mut list: Vec<Transform> = Vec::new();
    let mut rest: &[u8] = data;
    assert(transform_models(list@) =~= Seq::<TransformModel>::empty());
    while rest.len() > 0
        invariant
            parsed_transforms(rest@) matches Err(e) ==> parsed_transforms(data@) == Err::<
                Seq<TransformModel>,
                IkeError,
            >(e),
            parsed_transforms(rest@) matches Ok(tail) ==> parsed_transforms(data@) == Ok::<
                Seq<TransformModel>,
                IkeError,
            >(transform_models(list@) + tail),
        decreases rest@.len(),
    {
        if rest.len() < SUBSTRUCTURE_LEN {
            return Err(IkeError::Truncated { need: SUBSTRUCTURE_LEN, have: rest.len() });
        }
        let len: usize = read_u16(rest, 2) as usize;
        if len < SUBSTRUCTURE_LEN || len > rest.len() {
            return Err(IkeError::BadLength { declared: len, available: rest.len() });
        }
        let ghost before = transform_models(list@);
        let ghost here = rest@;
        let item = Transform {
            transform_type: rest[4],
            transform_id: read_u16(rest, 6),
            attributes: slice_to_vec(slice_subrange(rest, SUBSTRUCTURE_LEN, len)),
        };
        let ghost item_model = item@;
        list.push(item);
        rest = slice_subrange(rest, len, rest.len());
        proof {
            assert(rest@ =~= here.skip(len as int));
            assert(transform_models(list@) =~= before.push(item_model));
            if let Ok(tail) = parsed_transforms(rest@) {
                assert(before + (seq![item_model] + tail) =~= transform_models(list@) + tail);
            }
        }
    }
    assert(transform_models(list@) + Seq::<TransformModel>::empty() =~= transform_models(list@));
    Ok(list)
}

fn encode_transforms(list: &[Transform]) -> (r: Vec<u8>)
    ensures
        r@ == transforms_bytes(transform_models(list@)),
{
    let mut out: Vec<u8> = Vec::new();
    let n: usize = list.len();
    let ghost model = transform_models(list@);
    assert(model.skip(0) =~= model);
    for i in 0..n
        invariant
            n == list@.len(),
            model == transform_models(list@),
            out@ + transforms_bytes(model.skip(i as int)) == transforms_bytes(model),
    {
        let t: &Transform = &list[i];
        let ghost before = out@;
        let ghost here = model.skip(i as int);
        out.push(if i + 1 == n { 0 } else { 3 });
        out.push(0);
        append(&mut out, &u16_to_be(low16_of_sum(SUBSTRUCTURE_LEN, t.attributes.len())));
        out.push(t.transform_type);
        out.push(0);
        append(&mut out, &u16_to_be(t.transform_id));
        append(&mut out, &t.attributes);
        proof {
            assert(here.drop_first() =~= model.skip(i + 1));
            assert(here[0] == t@);
            assert(out@ =~= before + transform_bytes(here[0], here.len() == 1));
            assert(out@ + transforms_bytes(model.skip(i + 1)) =~= before + transforms_bytes(here));
        }
    }
    assert(model.skip(n as int) =~= Seq::<TransformModel>::empty());
    assert(out@ + Seq::<u8>::empty() =~= out@);
    out
}

impl SecurityAssociation {
    /// Reads the body of a Security Association payload.
    pub fn parse(data: &[u8]) -> (r: Result<SecurityAssociation, IkeError>)
        ensures
            r matches Ok(sa) ==> parsed_proposals(data@) == Ok::<Seq<ProposalModel>, IkeError>(sa@),
            r matches Err(e) ==> parsed_proposals(data@) == Err::<Seq<ProposalModel>, IkeError>(e),
    {
        let mut list: Vec<Proposal> = Vec::new();
        let mut rest: &[u8] = data;
        assert(proposal_models(list@) =~= Seq::<ProposalModel>::empty());
        while rest.len() > 0
            invariant
                parsed_proposals(rest@) matches Err(e) ==> parsed_proposals(data@) == Err::<
                    Seq<ProposalModel>,
                    IkeError,
                >(e),
                parsed_proposals(rest@) matches Ok(tail) ==> parsed_proposals(data@) == Ok::<
                    Seq<ProposalModel>,
                    IkeError,
                >(proposal_models(list@) + tail),
            decreases rest@.len(),
        {
            if rest.len() < SUBSTRUCTURE_LEN {
                return Err(IkeError::Truncated { need: SUBSTRUCTURE_LEN, have: rest.len() });
            }
            let len: usize = read_u16(rest, 2) as usize;
            let spi_len: usize = rest[6] as usize;
            if len < SUBSTRUCTURE_LEN + spi_len || len > rest.len() {
                return Err(IkeError::BadLength { declared: len, available: rest.len() });
            }
            let ghost before = proposal_models(list@);
            let ghost here = rest@;
            let transforms = parse_transforms(slice_subrange(rest, SUBSTRUCTURE_LEN + spi_len, len))?;
            let item = Proposal {
                number: rest[4],
                protocol_id: rest[5],
                spi: slice_to_vec(slice_subrange(rest, SUBSTRUCTURE_LEN, SUBSTRUCTURE_LEN + spi_len)),
                transforms,
            };
            let ghost item_model = item@;
            list.push(item);
            rest = slice_subrange(rest, len, rest.len());
            proof {
                assert(rest@ =~= here.skip(len as int));
                assert(proposal_models(list@) =~= before.push(item_model));
                if let Ok(tail) = parsed_proposals(rest@) {
                    assert(before + (seq![item_model] + tail) =~= proposal_models(list@) + tail);
                }
            }
        }
        assert(proposal_models(list@) + Seq::<ProposalModel>::empty() =~= proposal_models(list@));
        Ok(SecurityAssociation { proposals: list })
    }

    /// The body of the Security Association payload.
    pub fn to_bytes(&self) -> (r: Vec<u8>)
        ensures
            r@ == sa_bytes(self@),
    {
        let mut out: Vec<u8> = Vec::new();
        let n: usize = self.proposals.len();
        let ghost model = self@;
        assert(model.skip(0) =~= model);
        for i in 0..n
            invariant
                n == self.proposals@.len(),
                model == self@,
                out@ + sa_bytes(model.skip(i as int)) == sa_bytes(model),
        {
            let p: &Proposal = &self.proposals[i];
            let ghost before = out@;
            let ghost here = model.skip(i as int);
            let transforms = encode_transforms(&p.transforms);
            let mut tail: Vec<u8> = Vec::new();
            append(&mut tail, &p.spi);
            append(&mut tail, &transforms);
            out.push(if i + 1 == n { 0 } else { 2 });
            out.push(0);
            append(&mut out, &u16_to_be(low16_of_sum(SUBSTRUCTURE_LEN, tail.len())));
            out.push(p.number);
            out.push(p.protocol_id);
            out.push(low8_of(p.spi.len()));
            out.push(low8_of(p.transforms.len()));
            append(&mut out, &tail);
            proof {
                assert(here.drop_first() =~= model.skip(i + 1));
                assert(here[0] == p@);
                assert(tail@.len() + SUBSTRUCTURE_LEN == proposal_len(p@));
                assert(out@ =~= before + proposal_bytes(here[0], here.len() == 1));
                assert(out@ + sa_bytes(model.skip(i + 1)) =~= before + sa_bytes(here));
            }
        }
        assert(model.skip(n as int) =~= Seq::<ProposalModel>::empty());
        assert(out@ + Seq::<u8>::empty() =~= out@);
        out
    }
}

/// The transform's length fits its 16-bit field.
pub open spec fn transform_representable(t: TransformModel) -> bool {
    SUBSTRUCTURE_LEN + t.attributes.len() <= 0xffff
}

/// The proposal's lengths fit their fields.
pub open spec fn proposal_representable(p: ProposalModel) -> bool {
    &&& p.spi.len() <= 0xff
    &&& proposal_len(p) <= 0xffff
    &&& forall|i: int| 0 <= i < p.transforms.len() ==> transform_representable(#[trigger] p.transforms[i])
}

/// The fields of a transform stand where its reader looks for them.
proof fn transform_fields(t: TransformModel, last: bool, rest: Seq<u8>)
    requires
        transform_representable(t),
    ensures
        ({
            let len = SUBSTRUCTURE_LEN + t.attributes.len();
            let data = transform_bytes(t, last) + rest;
            &&& data.len() == len + rest.len()
            &&& u16_at(data, 2) == len
            &&& data[4] == t.transform_type
            &&& u16_at(data, 6) == t.transform_id
            &&& data.subrange(8, len) == t.attributes
            &&& data.skip(len) == rest
        }),
{
    let len = SUBSTRUCTURE_LEN + t.attributes.len();
    let data = transform_bytes(t, last) + rest;
    be16_roundtrip(low16(len));
    be16_roundtrip(t.transform_id);
    assert(u16_at(data, 2) == u16_at(be16(low16(len)), 0));
    assert(u16_at(data, 6) == u16_at(be16(t.transform_id), 0));
    assert(data.subrange(8, len) =~= t.attributes);
    assert(data.skip(len) =~= rest);
}

/// The fields of a proposal stand where its reader looks for them.
proof fn proposal_fields(p: ProposalModel, last: bool, rest: Seq<u8>)
    requires
        proposal_representable(p),
    ensures
        ({
            let len = proposal_len(p);
            let data = proposal_bytes(p, last) + rest;
            &&& data.len() == len + rest.len()
            &&& u16_at(data, 2) == len
            &&& data[4] == p.number
            &&& data[5] == p.protocol_id
            &&& data[6] == p.spi.len()
            &&& data.subrange(8, 8 + data[6]) == p.spi
            &&& data.subrange(8 + data[6], len) == transforms_bytes(p.transforms)
            &&& data.skip(len) == rest
        }),
{
    let len = proposal_len(p);
    let data = proposal_bytes(p, last) + rest;
    be16_roundtrip(low16(len));
    assert(u16_at(data, 2) == u16_at(be16(low16(len)), 0));
    assert(data[6] == p.spi.len());
    assert(data.subrange(8, 8 + data[6]) =~= p.spi);
    assert(data.subrange(8 + data[6], len) =~= transforms_bytes(p.transforms));
    assert(data.skip(len) =~= rest);
}

proof fn transforms_survive_the_wire(list: Seq<TransformModel>)
    requires
        forall|i: int| 0 <= i < list.len() ==> transform_representable(#[trigger] list[i]),
    ensures
        parsed_transforms(transforms_bytes(list)) == Ok::<Seq<TransformModel>, IkeError>(list),
    decreases list.len(),
{
    if list.len() == 0 {
        assert(list =~= Seq::<TransformModel>::empty());
    } else {
        let tail = list.drop_first();
        assert forall|i: int| 0 <= i < tail.len() implies transform_representable(#[trigger] tail[i]) by {
            assert(tail[i] == list[i + 1]);
        }
        transforms_survive_the_wire(tail);
        let t = list[0];
        assert(transform_representable(t));
        transform_fields(t, list.len() == 1, transforms_bytes(tail));
        assert(seq![t] + tail =~= list);
    }
}

/// Law: parsing the bytes of a Security Association payload gives its proposals
/// and transforms back.
pub proof fn proposals_survive_the_wire(list: Seq<ProposalModel>)
    requires
        forall|i: int| 0 <= i < list.len() ==> proposal_representable(#[trigger] list[i]),
    ensures
        parsed_proposals(sa_bytes(list)) == Ok::<Seq<ProposalModel>, IkeError>(list),
    decreases list.len(),
{
    if list.len() == 0 {
        assert(list =~= Seq::<ProposalModel>::empty());
    } else {
        let tail = list.drop_first();
        assert forall|i: int| 0 <= i < tail.len() implies proposal_representable(#[trigger] tail[i]) by {
            assert(tail[i] == list[i + 1]);
        }
        proposals_survive_the_wire(tail);
        let p = list[0];
        assert(proposal_representable(p));
        transforms_survive_the_wire(p.transforms);
        proposal_fields(p, list.len() == 1, sa_bytes(tail));
        assert(seq![p] + tail =~= list);
    }
}

/// Law: how a transform stands in front of those that follow it: a mark whether
/// more follow, its length, type, number and attributes.
pub proof fn transform_layout(t: TransformModel, rest: Seq<TransformModel>)
    ensures
        ({
            let bytes = transforms_bytes(seq![t] + rest);
            let n = t.attributes.len() as int;
            &&& bytes[0] == (if rest.len() == 0 { 0int } else { 3 })
            &&& bytes[1] == 0
            &&& (n + 8 - (bytes[2] * 0x100 + bytes[3])) % 0x1_0000 == 0
            &&& bytes[4] == t.transform_type
            &&& bytes[5] == 0
            &&& bytes[6] * 0x100 + bytes[7] == t.transform_id
            &&& bytes.subrange(8, 8 + n) == t.attributes
            &&& bytes.skip(8 + n) == transforms_bytes(rest)
        }),
        transforms_bytes(Seq::<TransformModel>::empty()) == Seq::<u8>::empty(),
{
    let list = seq![t] + rest;
    let bytes = transforms_bytes(list);
    let n = t.attributes.len() as int;
    assert(list.drop_first() =~= rest);
    written_in_network_order(low16(8 + n), 0, 0);
    written_in_network_order(t.transform_id, 0, 0);
    assert(bytes[2] == be16(low16(8 + n))[0] && bytes[3] == be16(low16(8 + n))[1]);
    assert(bytes[6] == be16(t.transform_id)[0] && bytes[7] == be16(t.transform_id)[1]);
    assert(bytes.subrange(8, 8 + n) =~= t.attributes);
    assert(bytes.skip(8 + n) =~= transforms_bytes(rest));
}

/// Law: how a proposal stands in front of those that follow it: a mark whether more
/// follow, its length, number, protocol, SPI size, number of transforms, then SPI
/// and transforms.
pub proof fn proposal_layout(p: ProposalModel, rest: Seq<ProposalModel>)
    ensures
        ({
            let bytes = sa_bytes(seq![p] + rest);
            let s = p.spi.len() as int;
            let n = 8 + s + transforms_bytes(p.transforms).len();
            &&& bytes[0] == (if rest.len() == 0 { 0int } else { 2 })
            &&& bytes[1] == 0
            &&& (n - (bytes[2] * 0x100 + bytes[3])) % 0x1_0000 == 0
            &&& bytes[4] == p.number
            &&& bytes[5] == p.protocol_id
            &&& (s - bytes[6]) % 0x100 == 0
            &&& (p.transforms.len() - bytes[7]) % 0x100 == 0
            &&& bytes.subrange(8, 8 + s) == p.spi
            &&& bytes.subrange(8 + s, n) == transforms_bytes(p.transforms)
            &&& bytes.skip(n) == sa_bytes(rest)
        }),
        sa_bytes(Seq::<ProposalModel>::empty()) == Seq::<u8>::empty(),
{
    let list = seq![p] + rest;
    let bytes = sa_bytes(list);
    let s = p.spi.len() as int;
    let n = 8 + s + transforms_bytes(p.transforms).len();
    assert(list.drop_first() =~= rest);
    written_in_network_order(low16(n), 0, 0);
    assert(bytes[2] == be16(low16(n))[0] && bytes[3] == be16(low16(n))[1]);
    assert(bytes.subrange(8, 8 + s) =~= p.spi);
    assert(bytes.subrange(8 + s, n) =~= transforms_bytes(p.transforms));
    assert(bytes.skip(n) =~= sa_bytes(rest));
}

/// Law: how transforms are read, from any bytes: one after the other, each bounded
/// by its own length field, until nothing is left.
pub proof fn transform_reading(data: Seq<u8>)
    ensures
        ({
            let n = data[2] * 0x100 + data[3];
            let r = parsed_transforms(data);
            &&& data.len() == 0 ==> r == Ok::<Seq<TransformModel>, IkeError>(Seq::empty())
            &&& 0 < data.len() < 8 ==> r == Err::<Seq<TransformModel>, IkeError>(
                IkeError::Truncated { need: 8, have: data.len() as usize },
            )
            &&& data.len() >= 8 && (n < 8 || n > data.len()) ==> r == Err::<Seq<TransformModel>, IkeError>(
                IkeError::BadLength { declared: n as usize, available: data.len() as usize },
            )
            &&& 8 <= n <= data.len() ==> {
                &&& parsed_transforms(data.skip(n)) matches Err(e) ==> r == Err::<Seq<TransformModel>, IkeError>(e)
                &&& parsed_transforms(data.skip(n)) matches Ok(rest) ==> (r matches Ok(list) && {
                    &&& list.len() == rest.len() + 1
                    &&& list.skip(1) == rest
                    &&& list[0].transform_type == data[4]
                    &&& list[0].transform_id == data[6] * 0x100 + data[7]
                    &&& list[0].attributes == data.subrange(8, n)
                })
            }
        }),
{
    read_in_network_order(data, 2);
    read_in_network_order(data, 6);
    let n = data[2] * 0x100 + data[3];
    if 8 <= n <= data.len() {
        if let Ok(rest) = parsed_transforms(data.skip(n)) {
            assert(parsed_transforms(data)->Ok_0.skip(1) =~= rest);
        }
    }
}

/// Law: how proposals are read, from any bytes: one after the other, each bounded by
/// its own length field, until nothing is left; the SPI stands first, for as many
/// bytes as its size says, and transforms fill the rest.
pub proof fn proposal_reading(data: Seq<u8>)
    ensures
        ({
            let n = data[2] * 0x100 + data[3];
            let s = data[6] as int;
            let r = parsed_proposals(data);
            &&& data.len() == 0 ==> r == Ok::<Seq<ProposalModel>, IkeError>(Seq::empty())
            &&& 0 < data.len() < 8 ==> r == Err::<Seq<ProposalModel>, IkeError>(
                IkeError::Truncated { need: 8, have: data.len() as usize },
            )
            &&& data.len() >= 8 && (n < 8 + s || n > data.len()) ==> r == Err::<Seq<ProposalModel>, IkeError>(
                IkeError::BadLength { declared: n as usize, available: data.len() as usize },
            )
            &&& data.len() >= 8 && 8 + s <= n <= data.len() ==> {
                let inside = parsed_transforms(data.subrange(8 + s, n));
                let after = parsed_proposals(data.skip(n));
                &&& inside matches Err(e) ==> r == Err::<Seq<ProposalModel>, IkeError>(e)
                &&& inside is Ok ==> (after matches Err(e) ==> r == Err::<Seq<ProposalModel>, IkeError>(e))
                &&& inside matches Ok(transforms) ==> (after matches Ok(rest) ==> (r matches Ok(list) && {
                    &&& list.len() == rest.len() + 1
                    &&& list.skip(1) == rest
                    &&& list[0].number == data[4]
                    &&& list[0].protocol_id == data[5]
                    &&& list[0].spi == data.subrange(8, 8 + s)
                    &&& list[0].transforms == transforms
                }))
            }
        }),
{
    read_in_network_order(data, 2);
    let n = data[2] * 0x100 + data[3];
    let s = data[6] as int;
    if data.len() >= 8 && 8 + s <= n <= data.len() {
        if parsed_transforms(data.subrange(8 + s, n)) is Ok {
            if let Ok(rest) = parsed_proposals(data.skip(n)) {
                assert(parsed_proposals(data)->Ok_0.skip(1) =~= rest);
            }
        }
    }
}

/// Law: taking proposals and transforms by their views keeps each field under its
/// name, and their number and order.
pub proof fn proposal_views(t: Transform, p: Proposal, sa: SecurityAssociation, i: int)
    ensures
        t@.transform_type == t.transform_type,
        t@.transform_id == t.transform_id,
        t@.attributes == t.attributes@,
        p@.number == p.number,
        p@.protocol_id == p.protocol_id,
        p@.spi == p.spi@,
        p@.transforms.len() == p.transforms@.len(),
        0 <= i < p.transforms@.len() ==> p@.transforms[i] == p.transforms@[i]@,
        sa@.len() == sa.proposals@.len(),
        0 <= i < sa.proposals@.len() ==> sa@[i] == sa.proposals@[i]@,
{
}

} // verus!
