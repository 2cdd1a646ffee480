//! Addresses in the answers of DNS messages.

use super::msg;
use super::msg::{MessageView, Msg, MsgError, Name, RecordView, ResourceRecord};
use super::rr_types::RrType;
use crate::net;
use crate::net::IpAddr;
use crate::wire;
use vstd::prelude::*;

verus! {

/// The address that a record holds: that of an `IN` record of an address type with data of the
/// right length.
pub open spec fn record_ip(r: RecordView) -> Option<IpAddr> {
    if r.rr_class != msg::DNS_CLASS_IN {
        None
    } else if r.rr_type is A && r.rdata.len() == 4 {
        Some(IpAddr::V4(wire::be32_at(r.rdata, 0) as u32))
    } else if r.rr_type is AAAA && r.rdata.len() == 16 {
        Some(IpAddr::V6(net::be128_at(r.rdata, 0) as u128))
    } else {
        None
    }
}

/// The addresses of records, in their order.
pub open spec fn record_ips(records: Seq<RecordView>) -> Seq<IpAddr>
    decreases records.len(),
{
    if records.len() == 0 {
        Seq::empty()
    } else {
        match record_ip(records.last()) {
            Some(ip) => record_ips(records.drop_last()).push(ip),
            None => record_ips(records.drop_last()),
        }
    }
}

/// Some record holds the address.
pub open spec fn has_ip(records: Seq<RecordView>, ip: IpAddr) -> bool {
    exists|i: int| 0 <= i < records.len() && record_ip(#[trigger] records[i]) == Some(ip)
}

/// Two addresses of one family.
pub open spec fn same_family(a: IpAddr, b: IpAddr) -> bool {
    (a is V4) == (b is V4)
}

/// A record with its address replaced, where it holds one of the same family.
pub open spec fn with_ip(r: RecordView, ip: IpAddr) -> RecordView {
    match record_ip(r) {
        Some(found) if same_family(found, ip) => RecordView { rdata: ip.octets_spec(), ..r },
        _ => r,
    }
}

/// Records with the addresses of one family replaced.
pub open spec fn with_ips(records: Seq<RecordView>, ip: IpAddr) -> Seq<RecordView> {
    records.map_values(|r: RecordView| with_ip(r, ip))
}

fn ip_of_record(rr: &ResourceRecord) -> (ip: Option<IpAddr>)
    ensures
        ip == record_ip(rr@),
{
    if rr.rr_class != msg::DNS_CLASS_IN {
        return None;
    }
    match rr.rr_type {
        RrType::A if rr.rdata.len() == 4 => Some(net::read_ipv4(rr.rdata.as_slice(), 0)),
        RrType::AAAA if rr.rdata.len() == 16 => Some(net::read_ipv6(rr.rdata.as_slice(), 0)),
        _ => None,
    }
}

impl Msg {
    pub fn answer_ips(&self) -> (ips: Vec<IpAddr>)
        ensures
            ips@ == record_ips(self@.answers),
    {
        let mut ips: Vec<IpAddr> = Vec::new();
        let mut i: usize = 0;
        assert(self@.answers.take(0) =~= Seq::empty());
        while i < self.answers.len()
            invariant
                i <= self.answers@.len(),
                ips@ == record_ips(self@.answers.take(i as int)),
            decreases self.answers@.len() - i,
        {
            proof {
                assert(self@.answers.take(i + 1).drop_last() =~= self@.answers.take(i as int));
                assert(self@.answers.take(i + 1).last() == self.answers@[i as int]@);
            }
            match ip_of_record(&self.answers[i]) {
                Some(ip) => {
                    ips.push(ip);
                },
                None => {},
            }
            i = i + 1;
        }
        assert(self@.answers.take(i as int) =~= self@.answers);
        ips
    }

    pub fn contains_answer_ip(&self, target_ip: IpAddr) -> (found: bool)
        ensures
            found == has_ip(self@.answers, target_ip),
    {
        let mut i: usize = 0;
        while i < self.answers.len()
            invariant
                i <= self.answers@.len(),
                forall|j: int|
                    0 <= j < i ==> record_ip(#[trigger] self@.answers[j]) != Some(target_ip),
            decreases self.answers@.len() - i,
        {
            assert(self@.answers[i as int] == self.answers@[i as int]@);
            match ip_of_record(&self.answers[i]) {
                Some(ip) => {
                    if ip == target_ip {
                        return true;
                    }
                },
                None => {},
            }
            i = i + 1;
        }
        false
    }

    pub fn rewrite_answer_ips(&mut self, selected_ip: IpAddr)
        ensures
            final(self)@ == (MessageView {
                answers: with_ips(old(self)@.answers, selected_ip),
                ..old(self)@
            }),
    {
        let ghost start = self@.answers;
        let mut i: usize = 0;
        while i < self.answers.len()
            invariant
                i <= self.answers@.len(),
                start.len() == self.answers@.len(),
                start == old(self)@.answers,
                self.header == old(self).header,
                self.compress == old(self).compress,
                self.questions == old(self).questions,
                self.authorities == old(self).authorities,
                self.additionals == old(self).additionals,
                forall|j: int|
                    0 <= j < i ==> (#[trigger] self.answers@[j])@ == with_ip(start[j], selected_ip),
                forall|j: int| i <= j < start.len() ==> (#[trigger] self.answers@[j])@ == start[j],
            decreases self.answers@.len() - i,
        {
            let replace: bool = match (ip_of_record(&self.answers[i]), selected_ip) {
                (Some(IpAddr::V4(_)), IpAddr::V4(_)) => true,
                (Some(IpAddr::V6(_)), IpAddr::V6(_)) => true,
                _ => false,
            };
            if replace {
                self.answers[i].rdata = selected_ip.octets();
            }
            i = i + 1;
        }
        assert(self@.answers =~= with_ips(start, selected_ip));
    }

    /// The type that a packet's first question asks for, with the rest of the packet unread.
    pub fn qtype_from_packet(packet: &[u8]) -> (t: Option<RrType>)
        ensures
            t == asked_type(packet@),
    {
        if packet.len() < 6 || wire::read_u16(packet, 4) == 0 {
            return None;
        }
        match Name::skip_wire(packet, msg::DNS_HEADER_SIZE) {
            Ok(offset) => {
                if packet.len() - offset < 4 {
                    None
                } else {
                    Some(RrType::from_u16(wire::read_u16(packet, offset)))
                }
            },
            Err(_) => None,
        }
    }

    pub fn extract_answer_ips_from_packet(packet: &[u8]) -> (ips: Vec<IpAddr>)
        ensures
            ips@ == packet_ips(packet@),
    {
        match Msg::unpack(packet) {
            Ok(m) => m.answer_ips(),
            Err(_) => Vec::new(),
        }
    }

    pub fn contains_answer_ip_in_packet(packet: &[u8], target_ip: IpAddr) -> (found: bool)
        ensures
            found == packet_has_ip(packet@, target_ip),
    {
        match Msg::unpack(packet) {
            Ok(m) => m.contains_answer_ip(target_ip),
            Err(_) => false,
        }
    }
}

/// The type of the first question of a packet that has one.
pub open spec fn asked_type(packet: Seq<u8>) -> Option<RrType> {
    if packet.len() < 6 || msg::u16_at(packet, 4) == 0 {
        None
    } else {
        match msg::name_end(packet, msg::DNS_HEADER_SIZE as int) {
            Ok(end) if end + 4 <= packet.len() => Some(msg::type_at(packet, end)),
            _ => None,
        }
    }
}

/// The addresses in a packet's answers; none where the packet is no message.
pub open spec fn packet_ips(packet: Seq<u8>) -> Seq<IpAddr> {
    match msg::decode_message(packet) {
        Ok(m) => record_ips(m.answers),
        Err(_) => Seq::empty(),
    }
}

/// The packet is a message with the address among its answers.
pub open spec fn packet_has_ip(packet: Seq<u8>, ip: IpAddr) -> bool {
    match msg::decode_message(packet) {
        Ok(m) => has_ip(m.answers, ip),
        Err(_) => false,
    }
}

/// An address is found among the answers exactly where it is one of the answers' addresses.
pub proof fn law_contained_iff_listed(records: Seq<RecordView>, ip: IpAddr)
    ensures
        has_ip(records, ip) <==> record_ips(records).contains(ip),
    decreases records.len(),
{
    if records.len() > 0 {
        let rest = records.drop_last();
        law_contained_iff_listed(rest, ip);
        let ips = record_ips(rest);
        if has_ip(records, ip) {
            let i = choose|i: int|
                0 <= i < records.len() && record_ip(#[trigger] records[i]) == Some(ip);
            if i < rest.len() {
                assert(rest[i] == records[i]);
                assert(ips.contains(ip));
                let k = choose|k: int| 0 <= k < ips.len() && ips[k] == ip;
                assert(record_ips(records)[k] == ip);
            } else {
                assert(record_ips(records)[ips.len() as int] == ip);
            }
        }
        if record_ips(records).contains(ip) {
            let all = record_ips(records);
            let k = choose|k: int| 0 <= k < all.len() && all[k] == ip;
            if k < ips.len() {
                assert(ips[k] == ip);
                assert(has_ip(rest, ip));
                let i = choose|i: int|
                    0 <= i < rest.len() && record_ip(#[trigger] rest[i]) == Some(ip);
                assert(records[i] == rest[i]);
            } else {
                assert(record_ip(records[records.len() - 1]) == Some(ip));
            }
        }
    }
}

/// After the addresses of a family were replaced, every address of that family among the
/// answers is the selected one, those of the other family are untouched, and a second
/// replacement changes nothing.
pub proof fn law_rewrite_selects(records: Seq<RecordView>, ip: IpAddr)
    ensures
        with_ips(records, ip).len() == records.len(),
        forall|i: int|
            0 <= i < records.len() ==> (match record_ip(#[trigger] records[i]) {
                Some(found) if same_family(found, ip) => record_ip(with_ips(records, ip)[i])
                    == Some(ip),
                _ => with_ips(records, ip)[i] == records[i],
            }),
        with_ips(with_ips(records, ip), ip) == with_ips(records, ip),
{
    let o = ip.octets_spec();
    assert(o.subrange(0, o.len() as int) =~= o);
    net::law_octets_round_trip(ip, o, 0);
    assert(with_ips(with_ips(records, ip), ip) =~= with_ips(records, ip));
}

} // verus!
