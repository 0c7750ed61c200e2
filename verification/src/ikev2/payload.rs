//! Payload bodies: Notify and Traffic Selectors (RFC 7296 sections 3.10 and 3.13),
//! and, by re-export, Security Association.

use vstd::prelude::*;

use crate::addr::Ipv4Addr;
use crate::bytes::{append, low8_of, u16_to_be};
use crate::bytes::{be16, low8, written_in_network_order};

pub use crate::ikev2::sa::{Proposal, SecurityAssociation, Transform};

pub mod notify_type;
pub mod protocol_id;

verus! {

/// A notification.
pub struct Notify {
    /// The protocol of the security association it concerns.
    pub protocol_id: u8,
    /// The SPI of that association; empty if there is none.
    pub spi: Vec<u8>,
    pub notify_type: u16,
    pub data: Vec<u8>,
}

/// A notification, its byte strings taken by their views.
#[verifier::ext_equal]
pub struct NotifyModel {
    pub protocol_id: u8,
    pub spi: Seq<u8>,
    pub notify_type: u16,
    pub data: Seq<u8>,
}

impl View for Notify {
    type V = NotifyModel;

    open spec fn view(&self) -> NotifyModel {
        NotifyModel {
            protocol_id: self.protocol_id,
            spi: self.spi@,
            notify_type: self.notify_type,
            data: self.data@,
        }
    }
}

/// A status notification: no protocol, no SPI.
pub open spec fn status_notify(notify_type: u16, data: Seq<u8>) -> NotifyModel {
    NotifyModel { protocol_id: protocol_id::NONE, spi: Seq::empty(), notify_type, data }
}

/// The body of a Notify payload. The SPI size field holds the low 8 bits of the
/// SPI's length.
pub open spec fn notify_bytes(n: NotifyModel) -> Seq<u8> {
    seq![n.protocol_id, low8(n.spi.len() as int)] + be16(n.notify_type) + n.spi + n.data
}

impl Notify {
    /// A status notification: no protocol, no SPI.
    pub fn status(notify_type: u16, data: Vec<u8>) -> (r: Notify)
        ensures
            r@ == status_notify(notify_type, data@),
    {
        let r = Notify { protocol_id: protocol_id::NONE, spi: Vec::new(), notify_type, data };
        assert(r@ =~= status_notify(notify_type, data@));
        r
    }

    /// The body of the Notify payload.
    pub fn to_bytes(&self) -> (r: Vec<u8>)
        ensures
            r@ == notify_bytes(self@),
    {
        let mut out: Vec<u8> = Vec::new();
        out.push(self.protocol_id);
        out.push(low8_of(self.spi.len()));
        append(&mut out, &u16_to_be(self.notify_type));
        append(&mut out, &self.spi);
        append(&mut out, &self.data);
        assert(out@ =~= notify_bytes(self@));
        out
    }
}

/// A range of IPv4 traffic.
#[derive(Debug, Clone, Copy, PartialEq, Eq)]
pub struct TrafficSelector {
    /// The IP protocol; 0 is any.
    pub ip_protocol: u8,
    pub start_port: u16,
    pub end_port: u16,
    pub start: Ipv4Addr,
    pub end: Ipv4Addr,
}

/// A traffic selector on the wire: type TS_IPV4_ADDR_RANGE, protocol, length,
/// ports, addresses.
pub open spec fn selector_bytes(s: TrafficSelector) -> Seq<u8> {
    seq![7u8, s.ip_protocol] + be16(16) + be16(s.start_port) + be16(s.end_port) + s.start.octets@ + s.end.octets@
}

/// Traffic selectors on the wire, one after the other.
pub open spec fn selectors_bytes(list: Seq<TrafficSelector>) -> Seq<u8>
    decreases list.len(),
{
    if list.len() == 0 {
        Seq::empty()
    } else {
        selectors_bytes(list.drop_last()) + selector_bytes(list.last())
    }
}

/// The body of a Traffic Selector payload. The count field holds the low 8 bits of
/// the number of selectors.
pub open spec fn ts_bytes(list: Seq<TrafficSelector>) -> Seq<u8> {
    seq![low8(list.len() as int), 0u8, 0u8, 0u8] + selectors_bytes(list)
}

/// `s` selects the traffic of any protocol and port of the addresses from `start`
/// to `end`.
pub open spec fn selects_range(s: TrafficSelector, start: Seq<u8>, end: Seq<u8>) -> bool {
    &&& s.ip_protocol == 0
    &&& s.start_port == 0
    &&& s.end_port == 0xffff
    &&& s.start.octets@ == start
    &&& s.end.octets@ == end
}

/// The body of a Traffic Selector payload with one selector, for any protocol and
/// port of the addresses from `start` to `end`.
pub open spec fn single_range_ts(start: Seq<u8>, end: Seq<u8>) -> Seq<u8> {
    seq![1u8, 0u8, 0u8, 0u8] + seq![7u8, 0u8] + be16(16) + be16(0) + be16(0xffff) + start + end
}

impl TrafficSelector {
    /// All IPv4 traffic.
    pub fn ipv4_any() -> (r: TrafficSelector)
        ensures
            selects_range(r, seq![0u8, 0, 0, 0], seq![255u8, 255, 255, 255]),
            r.ip_protocol == 0 && r.start_port == 0 && r.end_port == 0xffff,
            r.start.octets@ == seq![0u8, 0, 0, 0],
            r.end.octets@ == seq![255u8, 255, 255, 255],
    {
        TrafficSelector {
            ip_protocol: 0,
            start_port: 0,
            end_port: 0xffff,
            start: Ipv4Addr::new(0, 0, 0, 0),
            end: Ipv4Addr::new(255, 255, 255, 255),
        }
    }

    /// All traffic of one IPv4 host.
    pub fn ipv4_host(ip: Ipv4Addr) -> (r: TrafficSelector)
        ensures
            selects_range(r, ip.octets@, ip.octets@),
            r.ip_protocol == 0 && r.start_port == 0 && r.end_port == 0xffff,
            r.start == ip && r.end == ip,
    {
        TrafficSelector { ip_protocol: 0, start_port: 0, end_port: 0xffff, start: ip, end: ip }
    }
}

/// The selectors of a Traffic Selector payload.
pub struct TrafficSelectors {
    pub selectors: Vec<TrafficSelector>,
}

impl TrafficSelectors {
    /// The body of the Traffic Selector payload.
    pub fn to_bytes(&self) -> (r: Vec<u8>)
        ensures
            r@ == ts_bytes(self.selectors@),
    {
        let n: usize = self.selectors.len();
        let ghost list = self.selectors@;
        let head: [u8; 4] = [low8_of(n), 0, 0, 0];
        let mut out: Vec<u8> = Vec::new();
        append(&mut out, &head);
        assert(head@ =~= seq![low8(n as int), 0u8, 0u8, 0u8]);
        assert(list.take(0) =~= Seq::<TrafficSelector>::empty());
        assert(out@ =~= head@ + selectors_bytes(list.take(0)));
        for i in 0..n
            invariant
                n == self.selectors@.len(),
                list == self.selectors@,
                out@ == head@ + selectors_bytes(list.take(i as int)),
        {
            let ghost before = out@;
            let s: TrafficSelector = self.selectors[i];
            out.push(7);
            out.push(s.ip_protocol);
            append(&mut out, &u16_to_be(16));
            append(&mut out, &u16_to_be(s.start_port));
            append(&mut out, &u16_to_be(s.end_port));
            append(&mut out, &s.start.octets);
            append(&mut out, &s.end.octets);
            assert(out@ =~= before + selector_bytes(s));
            assert(list.take(i + 1).drop_last() =~= list.take(i as int));
            assert(out@ =~= head@ + selectors_bytes(list.take(i + 1)));
        }
        assert(list.take(n as int) =~= list);
        out
    }
}

/// A payload of one range selector is spelled out by `single_range_ts`.
pub proof fn single_selector(list: Seq<TrafficSelector>, start: Seq<u8>, end: Seq<u8>)
    requires
        list.len() == 1,
        selects_range(list[0], start, end),
    ensures
        ts_bytes(list) == single_range_ts(start, end),
{
    reveal_with_fuel(selectors_bytes, 2);
    assert(list.drop_last() =~= Seq::<TrafficSelector>::empty());
    assert(ts_bytes(list) =~= single_range_ts(start, end));
}

/// Law: a notification on the wire: its protocol, the length of its SPI, its type,
/// then SPI and data.
pub proof fn notify_layout(n: NotifyModel)
    ensures
        ({
            let bytes = notify_bytes(n);
            let k = n.spi.len() as int;
            &&& bytes.len() == 4 + k + n.data.len()
            &&& bytes[0] == n.protocol_id
            &&& (k - bytes[1]) % 0x100 == 0
            &&& bytes[2] * 0x100 + bytes[3] == n.notify_type
            &&& bytes.subrange(4, 4 + k) == n.spi
            &&& bytes.skip(4 + k) == n.data
        }),
{
    let bytes = notify_bytes(n);
    let k = n.spi.len() as int;
    written_in_network_order(n.notify_type, 0, 0);
    assert(bytes[2] == be16(n.notify_type)[0] && bytes[3] == be16(n.notify_type)[1]);
    assert(bytes.subrange(4, 4 + k) =~= n.spi);
    assert(bytes.skip(4 + k) =~= n.data);
}

/// Law: a status notification has no protocol and no SPI; it carries the given type
/// and data.
pub proof fn status_layout(notify_type: u16, data: Seq<u8>)
    ensures
        status_notify(notify_type, data).protocol_id == 0,
        status_notify(notify_type, data).spi.len() == 0,
        status_notify(notify_type, data).notify_type == notify_type,
        status_notify(notify_type, data).data == data,
{
}

/// Law: a Traffic Selector body on the wire: the number of selectors, three zero
/// bytes, and 16 bytes per selector, in order: type 7, protocol, length 16, first
/// and last port, first and last address.
pub proof fn selectors_layout(list: Seq<TrafficSelector>, i: int)
    ensures
        ts_bytes(list).len() == 4 + 16 * list.len(),
        (list.len() - ts_bytes(list)[0]) % 0x100 == 0,
        ts_bytes(list)[1] == 0 && ts_bytes(list)[2] == 0 && ts_bytes(list)[3] == 0,
        0 <= i < list.len() ==> {
            let s = ts_bytes(list).subrange(4 + 16 * i, 20 + 16 * i);
            &&& s[0] == 7
            &&& s[1] == list[i].ip_protocol
            &&& s[2] == 0 && s[3] == 16
            &&& s[4] * 0x100 + s[5] == list[i].start_port
            &&& s[6] * 0x100 + s[7] == list[i].end_port
            &&& s.subrange(8, 12) == list[i].start.octets@
            &&& s.subrange(12, 16) == list[i].end.octets@
        },
{
    selector_positions(list, i);
    if 0 <= i < list.len() {
        let s = ts_bytes(list).subrange(4 + 16 * i, 20 + 16 * i);
        let t = list[i];
        assert(s =~= selectors_bytes(list).subrange(16 * i, 16 * i + 16));
        written_in_network_order(16, 0, 0);
        written_in_network_order(t.start_port, 0, 0);
        written_in_network_order(t.end_port, 0, 0);
        assert(s == selector_bytes(t));
        assert(s[2] == be16(16)[0] && s[3] == be16(16)[1]);
        assert(s[4] == be16(t.start_port)[0] && s[5] == be16(t.start_port)[1]);
        assert(s[6] == be16(t.end_port)[0] && s[7] == be16(t.end_port)[1]);
        assert(s.subrange(8, 12) =~= t.start.octets@);
        assert(s.subrange(12, 16) =~= t.end.octets@);
    }
}

proof fn selector_positions(list: Seq<TrafficSelector>, i: int)
    ensures
        selectors_bytes(list).len() == 16 * list.len(),
        0 <= i < list.len() ==> selectors_bytes(list).subrange(16 * i, 16 * i + 16) == selector_bytes(list[i]),
    decreases list.len(),
{
    if list.len() > 0 {
        let before = list.drop_last();
        selector_positions(before, i);
        assert(selector_bytes(list.last()).len() == 16);
        if 0 <= i < before.len() {
            assert(selectors_bytes(list).subrange(16 * i, 16 * i + 16) =~= selectors_bytes(before).subrange(
                16 * i,
                16 * i + 16,
            ));
        } else if i == before.len() {
            assert(selectors_bytes(list).subrange(16 * i, 16 * i + 16) =~= selector_bytes(list[i]));
        }
    }
}

/// Law: taking a notification by its view keeps each field under its name.
pub proof fn notify_view(n: Notify)
    ensures
        n@.protocol_id == n.protocol_id,
        n@.spi == n.spi@,
        n@.notify_type == n.notify_type,
        n@.data == n.data@,
{
}

} // verus!
