//! Replacing the addresses in a packet's answers in place.

use super::answers;
use super::msg;
use super::msg::{Msg, MsgError, Name};
use super::rr_types::RrType;
use crate::net::IpAddr;
use crate::wire;
use vstd::prelude::*;

verus! {

/// Where the fixed fields of the record at `at` stand, for a record that is all there.
pub open spec fn record_fields(packet: Seq<u8>, at: int) -> Result<int, MsgError> {
    match msg::name_end(packet, at) {
        Err(e) => Err(e),
        Ok(fields) => if packet.len() < fields + 10 {
            Err(MsgError::ShortPacket)
        } else if packet.len() < fields + 10 + msg::u16_at(packet, fields + 8) {
            Err(MsgError::InvalidRecord)
        } else {
            Ok(fields)
        },
    }
}

/// The position after the record whose fixed fields stand at `fields`.
pub open spec fn fields_end(packet: Seq<u8>, fields: int) -> int {
    fields + 10 + msg::u16_at(packet, fields + 8)
}

/// The position after the first `count` records from `at` on.
pub open spec fn records_end(packet: Seq<u8>, at: int, count: nat) -> Result<int, MsgError>
    decreases count,
{
    if count == 0 {
        Ok(at)
    } else {
        match records_end(packet, at, (count - 1) as nat) {
            Err(e) => Err(e),
            Ok(next) => match record_fields(packet, next) {
                Err(e) => Err(e),
                Ok(fields) => Ok(fields_end(packet, fields)),
            },
        }
    }
}

/// The position after the first `count` questions from `at` on.
pub open spec fn questions_end(packet: Seq<u8>, at: int, count: nat) -> Result<int, MsgError>
    decreases count,
{
    if count == 0 {
        Ok(at)
    } else {
        match questions_end(packet, at, (count - 1) as nat) {
            Err(e) => Err(e),
            Ok(next) => match msg::name_end(packet, next) {
                Err(e) => Err(e),
                Ok(end) => if packet.len() < end + 4 {
                    Err(MsgError::ShortPacket)
                } else {
                    Ok(end + 4)
                },
            },
        }
    }
}

/// Whether the sections of a packet fill it exactly, with no pointer followed.
pub open spec fn layout(packet: Seq<u8>) -> Result<(), MsgError> {
    if packet.len() < msg::DNS_HEADER_SIZE {
        Err(MsgError::ShortPacket)
    } else {
        match questions_end(packet, msg::DNS_HEADER_SIZE as int, msg::u16_at(packet, 4) as nat) {
            Err(e) => Err(e),
            Ok(a) => match records_end(packet, a, msg::u16_at(packet, 6) as nat) {
                Err(e) => Err(e),
                Ok(b) => match records_end(
                    packet,
                    b,
                    (msg::u16_at(packet, 8) + msg::u16_at(packet, 10)) as nat,
                ) {
                    Err(e) => Err(e),
                    Ok(end) => if end != packet.len() {
                        Err(MsgError::TrailingBytes)
                    } else {
                        Ok(())
                    },
                },
            },
        }
    }
}

/// The record whose fixed fields stand at `fields` is an `IN` record that holds an address of
/// the family of `ip`.
pub open spec fn holds_family(packet: Seq<u8>, fields: int, ip: IpAddr) -> bool {
    &&& msg::u16_at(packet, fields + 2) == msg::DNS_CLASS_IN
    &&& match ip {
        IpAddr::V4(_) => msg::type_at(packet, fields) is A && msg::u16_at(packet, fields + 8) == 4,
        IpAddr::V6(_) => msg::type_at(packet, fields) is AAAA && msg::u16_at(packet, fields + 8)
            == 16,
    }
}

/// A packet with `bytes` written over it at `at`.
pub open spec fn overwritten(packet: Seq<u8>, at: int, bytes: Seq<u8>) -> Seq<u8> {
    Seq::new(
        packet.len(),
        |i: int|
            if at <= i < at + bytes.len() {
                bytes[i - at]
            } else {
                packet[i]
            },
    )
}

/// A packet with the addresses replaced in the first `count` records from `at` on, as far as
/// the records are all there.
pub open spec fn rewritten(packet: Seq<u8>, at: int, count: nat, ip: IpAddr) -> Seq<u8>
    decreases count,
{
    if count == 0 {
        packet
    } else {
        let before = rewritten(packet, at, (count - 1) as nat, ip);
        match records_end(packet, at, (count - 1) as nat) {
            Err(_) => before,
            Ok(next) => match record_fields(packet, next) {
                Ok(fields) if holds_family(packet, fields, ip) => overwritten(
                    before,
                    fields + 10,
                    ip.octets_spec(),
                ),
                _ => before,
            },
        }
    }
}

/// A packet with the addresses replaced in its answers.
pub open spec fn rewritten_packet(packet: Seq<u8>, ip: IpAddr) -> Seq<u8> {
    if packet.len() < msg::DNS_HEADER_SIZE {
        packet
    } else {
        match questions_end(packet, msg::DNS_HEADER_SIZE as int, msg::u16_at(packet, 4) as nat) {
            Err(_) => packet,
            Ok(a) => rewritten(packet, a, msg::u16_at(packet, 6) as nat, ip),
        }
    }
}

proof fn lemma_name_end_bounds(packet: Seq<u8>, at: int)
    requires
        0 <= at,
    ensures
        msg::name_end(packet, at) matches Ok(end) ==> at < end <= packet.len(),
    decreases packet.len() - at,
{
    if at < packet.len() {
        let len = packet[at];
        if 0 < len < 64 && at + 1 + len <= packet.len() {
            lemma_name_end_bounds(packet, at + 1 + len);
        }
    }
}

/// The end of a name depends on nothing before it, and on nothing behind it.
proof fn lemma_name_end_local(p: Seq<u8>, q: Seq<u8>, at: int)
    requires
        p.len() == q.len(),
        0 <= at,
        match msg::name_end(p, at) {
            Ok(end) => forall|i: int| at <= i < end ==> p[i] == q[i],
            Err(_) => forall|i: int| at <= i < p.len() ==> p[i] == q[i],
        },
    ensures
        msg::name_end(p, at) == msg::name_end(q, at),
    decreases p.len() - at,
{
    lemma_name_end_bounds(p, at);
    if at < p.len() {
        let len = p[at];
        if 0 < len < 64 && at + 1 + len <= p.len() {
            lemma_name_end_bounds(p, at + 1 + len);
            lemma_name_end_local(p, q, at + 1 + len);
        }
    }
}

proof fn lemma_record_fields_local(p: Seq<u8>, q: Seq<u8>, at: int)
    requires
        p.len() == q.len(),
        0 <= at,
        match record_fields(p, at) {
            Ok(fields) => forall|i: int| at <= i < fields + 10 ==> p[i] == q[i],
            Err(_) => forall|i: int| at <= i < p.len() ==> p[i] == q[i],
        },
    ensures
        record_fields(p, at) == record_fields(q, at),
        record_fields(p, at) matches Ok(fields) ==> at < fields && fields_end(p, fields)
            <= p.len() && fields_end(p, fields) == fields_end(q, fields) && forall|ip: IpAddr|
            holds_family(p, fields, ip) == holds_family(q, fields, ip),
{
    lemma_name_end_bounds(p, at);
    lemma_name_end_local(p, q, at);
}

proof fn lemma_records_end_bounds(packet: Seq<u8>, at: int, count: nat, more: nat)
    requires
        0 <= at <= packet.len(),
        count <= more,
    ensures
        records_end(packet, at, count) matches Ok(end) ==> at <= end <= packet.len(),
        records_end(packet, at, count) matches Err(e) ==> records_end(packet, at, more) == Err::<
            int,
            MsgError,
        >(e),
        records_end(packet, at, more) matches Ok(end) ==> (records_end(packet, at, count)
            matches Ok(mid) && mid <= end),
    decreases more,
{
    if count == more {
        if count > 0 {
            lemma_records_end_bounds(packet, at, (count - 1) as nat, (count - 1) as nat);
            if let Ok(next) = records_end(packet, at, (count - 1) as nat) {
                lemma_record_fields_local(packet, packet, next);
            }
        }
    } else {
        lemma_records_end_bounds(packet, at, count, (more - 1) as nat);
        if let Ok(next) = records_end(packet, at, (more - 1) as nat) {
            lemma_records_end_bounds(packet, at, (more - 1) as nat, (more - 1) as nat);
            lemma_record_fields_local(packet, packet, next);
        }
    }
}

proof fn lemma_questions_end_bounds(packet: Seq<u8>, at: int, count: nat, more: nat)
    requires
        0 <= at <= packet.len(),
        count <= more,
    ensures
        questions_end(packet, at, count) matches Ok(end) ==> at <= end <= packet.len(),
        questions_end(packet, at, count) matches Err(e) ==> questions_end(packet, at, more)
            == Err::<int, MsgError>(e),
    decreases more,
{
    if count == more {
        if count > 0 {
            lemma_questions_end_bounds(packet, at, (count - 1) as nat, (count - 1) as nat);
            if let Ok(next) = questions_end(packet, at, (count - 1) as nat) {
                lemma_name_end_bounds(packet, next);
            }
        }
    } else {
        lemma_questions_end_bounds(packet, at, count, (more - 1) as nat);
    }
}

/// Rewriting keeps the length, and changes nothing from the end of the walked records on.
proof fn lemma_rewritten_frame(packet: Seq<u8>, at: int, count: nat, ip: IpAddr)
    requires
        0 <= at <= packet.len(),
    ensures
        rewritten(packet, at, count, ip).len() == packet.len(),
        forall|i: int| 0 <= i < at ==> rewritten(packet, at, count, ip)[i] == packet[i],
        records_end(packet, at, count) matches Ok(end) ==> forall|i: int|
            end <= i < packet.len() ==> rewritten(packet, at, count, ip)[i] == packet[i],
    decreases count,
{
    if count > 0 {
        let prev = (count - 1) as nat;
        lemma_rewritten_frame(packet, at, prev, ip);
        lemma_records_end_bounds(packet, at, prev, prev);
        if let Ok(next) = records_end(packet, at, prev) {
            lemma_record_fields_local(packet, packet, next);
        }
    }
}

/// Writes `bytes` over a packet.
fn overwrite(packet: &mut [u8], at: usize, bytes: &[u8])
    requires
        at + bytes@.len() <= old(packet)@.len(),
    ensures
        final(packet)@ == overwritten(old(packet)@, at as int, bytes@),
{
    let len: usize = packet.len();
    let mut i: usize = 0;
    while i < bytes.len()
        invariant
            i <= bytes@.len(),
            at + bytes@.len() <= len == old(packet)@.len(),
            packet@ == overwritten(old(packet)@, at as int, bytes@.take(i as int)),
        decreases bytes@.len() - i,
    {
        packet[at + i] = bytes[i];
        i = i + 1;
    }
    assert(bytes@.take(i as int) =~= bytes@);
}


/// Where the fixed fields of the record at `at` stand.
fn find_record_fields(packet: &[u8], at: usize) -> (r: Result<usize, MsgError>)
    ensures
        match r {
            Ok(fields) => record_fields(packet@, at as int) == Ok::<int, MsgError>(fields as int)
                && fields_end(packet@, fields as int) <= packet.len(),
            Err(e) => record_fields(packet@, at as int) == Err::<int, MsgError>(e),
        },
{
    let fields: usize = match Name::skip_wire(packet, at) {
        Ok(end) => end,
        Err(e) => {
            return Err(e);
        },
    };
    if packet.len() - fields < 10 {
        return Err(MsgError::ShortPacket);
    }
    let rdlen: usize = wire::read_u16(packet, fields + 8) as usize;
    if packet.len() - (fields + 10) < rdlen {
        return Err(MsgError::InvalidRecord);
    }
    Ok(fields)
}

fn skip_questions(packet: &[u8], start: usize, count: usize) -> (r: Result<usize, MsgError>)
    requires
        start <= packet@.len(),
    ensures
        match r {
            Ok(end) => questions_end(packet@, start as int, count as nat) == Ok::<int, MsgError>(
                end as int,
            ) && start <= end <= packet@.len(),
            Err(e) => questions_end(packet@, start as int, count as nat) == Err::<int, MsgError>(e),
        },
{
    let mut offset: usize = start;
    let mut i: usize = 0;
    while i < count
        invariant
            i <= count,
            start <= offset <= packet@.len(),
            questions_end(packet@, start as int, i as nat) == Ok::<int, MsgError>(offset as int),
        decreases count - i,
    {
        proof {
            lemma_questions_end_bounds(packet@, start as int, (i + 1) as nat, count as nat);
        }
        let end: usize = match Name::skip_wire(packet, offset) {
            Ok(end) => end,
            Err(e) => {
                return Err(e);
            },
        };
        proof {
            lemma_name_end_bounds(packet@, offset as int);
        }
        if packet.len() - end < 4 {
            return Err(MsgError::ShortPacket);
        }
        offset = end + 4;
        i = i + 1;
    }
    Ok(offset)
}

fn skip_records(packet: &[u8], start: usize, count: usize) -> (r: Result<usize, MsgError>)
    requires
        start <= packet@.len(),
    ensures
        match r {
            Ok(end) => records_end(packet@, start as int, count as nat) == Ok::<int, MsgError>(
                end as int,
            ) && end <= packet@.len(),
            Err(e) => records_end(packet@, start as int, count as nat) == Err::<int, MsgError>(e),
        },
{
    let mut offset: usize = start;
    let mut i: usize = 0;
    while i < count
        invariant
            i <= count,
            start <= packet@.len(),
            offset <= packet@.len(),
            records_end(packet@, start as int, i as nat) == Ok::<int, MsgError>(offset as int),
        decreases count - i,
    {
        proof {
            lemma_records_end_bounds(packet@, start as int, (i + 1) as nat, count as nat);
        }
        let fields: usize = match find_record_fields(packet, offset) {
            Ok(fields) => fields,
            Err(e) => {
                return Err(e);
            },
        };
        offset = fields + 10 + wire::read_u16(packet, fields + 8) as usize;
        i = i + 1;
    }
    Ok(offset)
}

/// Once a record is missing or cut off, nothing behind it is rewritten.
proof fn lemma_rewritten_stops(packet: Seq<u8>, at: int, count: nat, more: nat, ip: IpAddr)
    requires
        0 <= at <= packet.len(),
        count < more,
        records_end(packet, at, (count + 1) as nat) is Err,
    ensures
        rewritten(packet, at, more, ip) == rewritten(packet, at, count, ip),
    decreases more,
{
    if count + 1 < more {
        lemma_records_end_bounds(packet, at, (count + 1) as nat, (more - 1) as nat);
        lemma_rewritten_stops(packet, at, count, (more - 1) as nat, ip);
    }
}

fn rewrite_records(
    packet: &mut [u8],
    start: usize,
    count: usize,
    selected_ip: IpAddr,
) -> (r: Result<usize, MsgError>)
    requires
        start <= old(packet)@.len(),
    ensures
        match r {
            Ok(end) => records_end(old(packet)@, start as int, count as nat) == Ok::<int, MsgError>(
                end as int,
            ) && end <= old(packet)@.len(),
            Err(e) => records_end(old(packet)@, start as int, count as nat) == Err::<int, MsgError>(
                e,
            ),
        },
        final(packet)@ == rewritten(old(packet)@, start as int, count as nat, selected_ip),
{
    let ghost before = packet@;
    let octets = selected_ip.octets();
    let mut offset: usize = start;
    let mut i: usize = 0;
    while i < count
        invariant
            i <= count,
            start <= before.len(),
            start <= offset <= before.len(),
            before == old(packet)@,
            octets@ == selected_ip.octets_spec(),
            records_end(before, start as int, i as nat) == Ok::<int, MsgError>(offset as int),
            packet@ == rewritten(before, start as int, i as nat, selected_ip),
        decreases count - i,
    {
        proof {
            lemma_rewritten_frame(before, start as int, i as nat, selected_ip);
            assert(forall|j: int| offset <= j < before.len() ==> before[j] == packet@[j]);
            lemma_record_fields_bounds(before, offset as int);
            lemma_record_fields_local(before, packet@, offset as int);
            lemma_records_end_bounds(before, start as int, (i + 1) as nat, count as nat);
        }
        let fields: usize = match find_record_fields(packet, offset) {
            Ok(fields) => fields,
            Err(e) => {
                proof {
                    lemma_rewritten_stops(
                        before,
                        start as int,
                        i as nat,
                        count as nat,
                        selected_ip,
                    );
                }
                return Err(e);
            },
        };
        let rr_type = RrType::from_u16(wire::read_u16(packet, fields));
        let rr_class: u16 = wire::read_u16(packet, fields + 2);
        let rdlen: usize = wire::read_u16(packet, fields + 8) as usize;
        if rr_class == msg::DNS_CLASS_IN {
            match (rr_type, selected_ip) {
                (RrType::A, IpAddr::V4(_)) if rdlen == 4 => {
                    overwrite(packet, fields + 10, octets.as_slice());
                },
                (RrType::AAAA, IpAddr::V6(_)) if rdlen == 16 => {
                    overwrite(packet, fields + 10, octets.as_slice());
                },
                _ => {},
            }
        }
        offset = fields + 10 + rdlen;
        i = i + 1;
    }
    Ok(offset)
}

proof fn lemma_record_fields_bounds(packet: Seq<u8>, at: int)
    requires
        0 <= at,
    ensures
        record_fields(packet, at) matches Ok(fields) ==> at < fields && fields_end(packet, fields)
            <= packet.len(),
{
    lemma_name_end_bounds(packet, at);
}

impl Msg {
    /// Replaces the addresses of the answers. A packet that turns out to be cut off keeps what
    /// was replaced before the cut.
    pub fn rewrite_answer_ips_in_packet(packet: &mut [u8], selected_ip: IpAddr) -> (r: Result<
        (),
        MsgError,
    >)
        ensures
            r == layout(old(packet)@),
            final(packet)@ == rewritten_packet(old(packet)@, selected_ip),
    {
        if packet.len() < msg::DNS_HEADER_SIZE {
            return Err(MsgError::ShortPacket);
        }
        let qdcount: usize = wire::read_u16(packet, 4) as usize;
        let ancount: usize = wire::read_u16(packet, 6) as usize;
        let nscount: usize = wire::read_u16(packet, 8) as usize;
        let arcount: usize = wire::read_u16(packet, 10) as usize;
        let answers: usize = match skip_questions(packet, msg::DNS_HEADER_SIZE, qdcount) {
            Ok(end) => end,
            Err(e) => {
                return Err(e);
            },
        };
        let rest: usize = match rewrite_records(packet, answers, ancount, selected_ip) {
            Ok(end) => end,
            Err(e) => {
                return Err(e);
            },
        };
        proof {
            let before = old(packet)@;
            lemma_rewritten_frame(before, answers as int, ancount as nat, selected_ip);
            lemma_records_end_local(before, packet@, rest as int, (nscount + arcount) as nat);
        }
        let end: usize = match skip_records(packet, rest, nscount + arcount) {
            Ok(end) => end,
            Err(e) => {
                return Err(e);
            },
        };
        if end != packet.len() {
            return Err(MsgError::TrailingBytes);
        }
        Ok(())
    }
}

/// Packets that agree from `at` on have the same records there.
proof fn lemma_records_end_local(p: Seq<u8>, q: Seq<u8>, at: int, count: nat)
    requires
        p.len() == q.len(),
        0 <= at <= p.len(),
        forall|i: int| at <= i < p.len() ==> p[i] == q[i],
    ensures
        records_end(p, at, count) == records_end(q, at, count),
    decreases count,
{
    if count > 0 {
        lemma_records_end_local(p, q, at, (count - 1) as nat);
        lemma_records_end_bounds(p, at, (count - 1) as nat, (count - 1) as nat);
        if let Ok(next) = records_end(p, at, (count - 1) as nat) {
            lemma_record_fields_bounds(p, next);
            lemma_record_fields_local(p, q, next);
        }
    }
}


/// The `k`-th answer of a packet is all there, and holds an address of the family of `ip` whose
/// bytes start at `data`.
pub open spec fn address_slot(packet: Seq<u8>, k: nat, ip: IpAddr, data: int) -> bool {
    &&& packet.len() >= msg::DNS_HEADER_SIZE
    &&& k < msg::u16_at(packet, 6)
    &&& questions_end(packet, msg::DNS_HEADER_SIZE as int, msg::u16_at(packet, 4) as nat)
        matches Ok(a)
    &&& records_end(packet, a, k) matches Ok(next)
    &&& record_fields(packet, next) == Ok::<int, MsgError>(data - 10)
    &&& holds_family(packet, data - 10, ip)
}

/// Rewriting leaves the name and the fixed fields of every record alone.
proof fn lemma_fields_untouched(packet: Seq<u8>, at: int, k: nat, count: nat, ip: IpAddr)
    requires
        0 <= at <= packet.len(),
        records_end(packet, at, k) is Ok,
        record_fields(packet, records_end(packet, at, k)->Ok_0) is Ok,
    ensures
        ({
            let next = records_end(packet, at, k)->Ok_0;
            let fields = record_fields(packet, next)->Ok_0;
            forall|i: int|
                next <= i < fields + 10 ==> rewritten(packet, at, count, ip)[i] == packet[i]
        }),
    decreases count,
{
    let next = records_end(packet, at, k)->Ok_0;
    lemma_records_end_bounds(packet, at, k, k);
    lemma_record_fields_bounds(packet, next);
    if count > 0 {
        let prev = (count - 1) as nat;
        lemma_fields_untouched(packet, at, k, prev, ip);
        lemma_rewritten_frame(packet, at, prev, ip);
        lemma_rewritten_frame(packet, at, count, ip);
        lemma_records_end_bounds(packet, at, prev, prev);
        if let Ok(there) = records_end(packet, at, prev) {
            lemma_record_fields_bounds(packet, there);
            if let Ok(fields) = record_fields(packet, there) {
                if prev < k {
                    lemma_records_end_bounds(packet, at, count, k);
                } else if prev > k {
                    lemma_records_end_bounds(packet, at, (k + 1) as nat, prev);
                }
            }
        }
    }
}

/// Rewriting moves no record.
proof fn lemma_walk_same(packet: Seq<u8>, at: int, k: nat, count: nat, ip: IpAddr)
    requires
        0 <= at <= packet.len(),
        k <= count,
    ensures
        records_end(rewritten(packet, at, count, ip), at, k) == records_end(packet, at, k),
        k < count ==> (records_end(packet, at, k) matches Ok(next) ==> record_fields(
            rewritten(packet, at, count, ip),
            next,
        ) == record_fields(packet, next) && (record_fields(packet, next) matches Ok(fields)
            ==> holds_family(rewritten(packet, at, count, ip), fields, ip) == holds_family(
            packet,
            fields,
            ip,
        ))),
    decreases k,
{
    let q = rewritten(packet, at, count, ip);
    lemma_rewritten_frame(packet, at, count, ip);
    if k > 0 {
        lemma_walk_same(packet, at, (k - 1) as nat, count, ip);
        if let Ok(next) = records_end(packet, at, (k - 1) as nat) {
            if let Ok(fields) = record_fields(packet, next) {
                lemma_records_end_bounds(packet, at, (k - 1) as nat, (k - 1) as nat);
                lemma_record_fields_bounds(packet, next);
                lemma_fields_untouched(packet, at, (k - 1) as nat, count, ip);
                assert(packet[fields + 8] == q[fields + 8] && packet[fields + 9] == q[fields + 9]);
            }
        }
    }
    if k < count {
        if let Ok(next) = records_end(packet, at, k) {
            lemma_records_end_bounds(packet, at, k, k);
            lemma_record_fields_bounds(packet, next);
            if record_fields(packet, next) is Ok {
                lemma_fields_untouched(packet, at, k, count, ip);
            } else {
                lemma_rewritten_stops(packet, at, k, count, ip);
                lemma_rewritten_frame(packet, at, k, ip);
            }
            lemma_record_fields_local(packet, q, next);
        }
    }
}

proof fn lemma_questions_end_grows(p: Seq<u8>, at: int, count: nat, more: nat)
    requires
        0 <= at <= p.len(),
        count <= more,
    ensures
        questions_end(p, at, more) matches Ok(end) ==> (questions_end(p, at, count) matches Ok(mid)
            && mid <= end),
    decreases more,
{
    if count < more {
        lemma_questions_end_grows(p, at, count, (more - 1) as nat);
        lemma_questions_end_bounds(p, at, (more - 1) as nat, (more - 1) as nat);
        if let Ok(next) = questions_end(p, at, (more - 1) as nat) {
            lemma_name_end_bounds(p, next);
        }
    }
}

proof fn lemma_questions_end_same(p: Seq<u8>, q: Seq<u8>, at: int, count: nat, more: nat)
    requires
        p.len() == q.len(),
        0 <= at <= p.len(),
        count <= more,
        match questions_end(p, at, more) {
            Ok(end) => forall|i: int| at <= i < end ==> p[i] == q[i],
            Err(_) => forall|i: int| at <= i < p.len() ==> p[i] == q[i],
        },
    ensures
        questions_end(p, at, count) == questions_end(q, at, count),
    decreases count,
{
    if count > 0 {
        let prev = (count - 1) as nat;
        lemma_questions_end_same(p, q, at, prev, more);
        lemma_questions_end_bounds(p, at, prev, prev);
        lemma_questions_end_grows(p, at, count, more);
        if let Ok(next) = questions_end(p, at, prev) {
            lemma_name_end_bounds(p, next);
            lemma_name_end_local(p, q, next);
        }
    }
}

/// Rewriting keeps a packet's length, header and questions, and the verdict on its layout.
pub proof fn law_rewrite_keeps_layout(packet: Seq<u8>, ip: IpAddr)
    ensures
        rewritten_packet(packet, ip).len() == packet.len(),
        layout(rewritten_packet(packet, ip)) == layout(packet),
        packet.len() >= msg::DNS_HEADER_SIZE ==> rewritten_packet(packet, ip).take(
            msg::DNS_HEADER_SIZE as int,
        ) == packet.take(msg::DNS_HEADER_SIZE as int) && questions_end(
            rewritten_packet(packet, ip),
            msg::DNS_HEADER_SIZE as int,
            msg::u16_at(packet, 4) as nat,
        ) == questions_end(packet, msg::DNS_HEADER_SIZE as int, msg::u16_at(packet, 4) as nat),
{
    let q = rewritten_packet(packet, ip);
    if packet.len() >= msg::DNS_HEADER_SIZE {
        let n = msg::u16_at(packet, 4) as nat;
        lemma_questions_end_bounds(packet, 12, n, n);
        if let Ok(a) = questions_end(packet, 12, n) {
            let an = msg::u16_at(packet, 6) as nat;
            lemma_rewritten_frame(packet, a, an, ip);
            lemma_questions_end_same(packet, q, 12, n, n);
            lemma_walk_same(packet, a, an, an, ip);
            if let Ok(b) = records_end(packet, a, an) {
                let rest = (msg::u16_at(packet, 8) + msg::u16_at(packet, 10)) as nat;
                lemma_records_end_bounds(packet, a, an, an);
                lemma_records_end_local(packet, q, b, rest);
            }
        }
        assert(q.take(12) =~= packet.take(12));
    }
}

/// Every answer that holds an address of the family of `ip` holds `ip` after rewriting.
pub proof fn law_rewrite_reaches_every_answer(packet: Seq<u8>, ip: IpAddr, k: nat, data: int)
    requires
        address_slot(packet, k, ip, data),
    ensures
        rewritten_packet(packet, ip).subrange(data, data + ip.octets_spec().len())
            == ip.octets_spec(),
        address_slot(rewritten_packet(packet, ip), k, ip, data),
{
    let q = rewritten_packet(packet, ip);
    let n = msg::u16_at(packet, 4) as nat;
    let a = questions_end(packet, 12, n)->Ok_0;
    let an = msg::u16_at(packet, 6) as nat;
    lemma_questions_end_bounds(packet, 12, n, n);
    law_rewrite_keeps_layout(packet, ip);
    assert(q.take(12)[4] == packet.take(12)[4] && q.take(12)[5] == packet.take(12)[5] && q.take(
        12,
    )[6] == packet.take(12)[6] && q.take(12)[7] == packet.take(12)[7]);
    lemma_walk_same(packet, a, k, an, ip);
    lemma_slot_written(packet, a, k, an, ip, data);
}

proof fn lemma_octets_len(ip: IpAddr)
    ensures
        ip.octets_spec().len() == (if ip is V4 {
            4nat
        } else {
            16
        }),
{
}

proof fn lemma_slot_written(packet: Seq<u8>, at: int, k: nat, count: nat, ip: IpAddr, data: int)
    requires
        0 <= at <= packet.len(),
        k < count,
        records_end(packet, at, k) is Ok,
        record_fields(packet, records_end(packet, at, k)->Ok_0) == Ok::<int, MsgError>(data - 10),
        holds_family(packet, data - 10, ip),
    ensures
        data + ip.octets_spec().len() <= packet.len(),
        rewritten(packet, at, count, ip).subrange(data, data + ip.octets_spec().len())
            == ip.octets_spec(),
    decreases count,
{
    let o = ip.octets_spec();
    let prev = (count - 1) as nat;
    lemma_octets_len(ip);
    lemma_records_end_bounds(packet, at, k, k);
    lemma_record_fields_bounds(packet, records_end(packet, at, k)->Ok_0);
    lemma_rewritten_frame(packet, at, prev, ip);
    lemma_rewritten_frame(packet, at, count, ip);
    let before = rewritten(packet, at, prev, ip);
    let after = rewritten(packet, at, count, ip);
    if prev == k {
        assert(after.subrange(data, data + o.len()) =~= o);
    } else {
        lemma_slot_written(packet, at, k, prev, ip, data);
        if let Ok(there) = records_end(packet, at, prev) {
            lemma_records_end_bounds(packet, at, (k + 1) as nat, prev);
            lemma_records_end_bounds(packet, at, prev, prev);
            lemma_record_fields_bounds(packet, there);
        }
        assert(after.subrange(data, data + o.len()) =~= before.subrange(data, data + o.len()));
    }
}

/// Rewriting changes no byte but those of the answers' addresses.
pub proof fn law_rewrite_touches_only_addresses(packet: Seq<u8>, ip: IpAddr, i: int)
    requires
        0 <= i < packet.len(),
        rewritten_packet(packet, ip)[i] != packet[i],
    ensures
        exists|k: nat, data: int| #[trigger]
            address_slot(packet, k, ip, data) && data <= i < data + ip.octets_spec().len(),
{
    let n = msg::u16_at(packet, 4) as nat;
    let a = questions_end(packet, 12, n)->Ok_0;
    let an = msg::u16_at(packet, 6) as nat;
    lemma_touched(packet, a, an, an, ip, i);
}

proof fn lemma_touched(packet: Seq<u8>, at: int, count: nat, all: nat, ip: IpAddr, i: int)
    requires
        packet.len() >= msg::DNS_HEADER_SIZE,
        count <= all == msg::u16_at(packet, 6),
        questions_end(packet, msg::DNS_HEADER_SIZE as int, msg::u16_at(packet, 4) as nat) == Ok::<
            int,
            MsgError,
        >(at),
        0 <= i < packet.len(),
        rewritten(packet, at, count, ip)[i] != packet[i],
    ensures
        exists|k: nat, data: int| #[trigger]
            address_slot(packet, k, ip, data) && data <= i < data + ip.octets_spec().len(),
    decreases count,
{
    let n = msg::u16_at(packet, 4) as nat;
    lemma_questions_end_bounds(packet, 12, n, n);
    if count > 0 {
        let prev = (count - 1) as nat;
        lemma_rewritten_frame(packet, at, prev, ip);
        if rewritten(packet, at, prev, ip)[i] != packet[i] {
            lemma_touched(packet, at, prev, all, ip, i);
        } else {
            let next = records_end(packet, at, prev)->Ok_0;
            let data = record_fields(packet, next)->Ok_0 + 10;
            assert(address_slot(packet, prev, ip, data));
        }
    }
}

/// Rewriting twice is rewriting once.
pub proof fn law_rewrite_idempotent(packet: Seq<u8>, ip: IpAddr)
    ensures
        rewritten_packet(rewritten_packet(packet, ip), ip) == rewritten_packet(packet, ip),
{
    let once = rewritten_packet(packet, ip);
    let twice = rewritten_packet(once, ip);
    let o = ip.octets_spec();
    law_rewrite_keeps_layout(packet, ip);
    law_rewrite_keeps_layout(once, ip);
    assert forall|i: int| 0 <= i < once.len() implies twice[i] == once[i] by {
        if twice[i] != once[i] {
            law_rewrite_touches_only_addresses(once, ip, i);
            let (k, data) = choose|k: nat, data: int| #[trigger]
                address_slot(once, k, ip, data) && data <= i < data + o.len();
            law_rewrite_reaches_every_answer(once, ip, k, data);
            lemma_slot_before(packet, ip, k, data);
            law_rewrite_reaches_every_answer(packet, ip, k, data);
            assert(twice.subrange(data, data + o.len())[i - data] == o[i - data]);
            assert(once.subrange(data, data + o.len())[i - data] == o[i - data]);
            lemma_slot_inside(packet, ip, k, data);
        }
    }
    assert(twice =~= once);
}

proof fn lemma_slot_inside(packet: Seq<u8>, ip: IpAddr, k: nat, data: int)
    requires
        address_slot(packet, k, ip, data),
    ensures
        0 <= data,
        data + ip.octets_spec().len() <= packet.len(),
{
    let n = msg::u16_at(packet, 4) as nat;
    lemma_questions_end_bounds(packet, 12, n, n);
    let a = questions_end(packet, 12, n)->Ok_0;
    lemma_records_end_bounds(packet, a, k, k);
    lemma_record_fields_bounds(packet, records_end(packet, a, k)->Ok_0);
    lemma_octets_len(ip);
}

/// What holds an address after rewriting held one before.
proof fn lemma_slot_before(packet: Seq<u8>, ip: IpAddr, k: nat, data: int)
    requires
        address_slot(rewritten_packet(packet, ip), k, ip, data),
    ensures
        address_slot(packet, k, ip, data),
{
    let q = rewritten_packet(packet, ip);
    law_rewrite_keeps_layout(packet, ip);
    assert(q.take(12)[4] == packet.take(12)[4] && q.take(12)[5] == packet.take(12)[5] && q.take(
        12,
    )[6] == packet.take(12)[6] && q.take(12)[7] == packet.take(12)[7]);
    let n = msg::u16_at(packet, 4) as nat;
    lemma_questions_end_bounds(packet, 12, n, n);
    let a = questions_end(packet, 12, n)->Ok_0;
    lemma_walk_same(packet, a, k, msg::u16_at(packet, 6) as nat, ip);
}

/// A name that decodes is skipped to the same position.
pub proof fn law_skip_agrees_with_decode(packet: Seq<u8>, at: int, pointers: nat, room: nat)
    requires
        0 <= at,
    ensures
        msg::decode_name(packet, at, pointers, room) matches Ok((_, end)) ==> msg::name_end(
            packet,
            at,
        ) == Ok::<int, MsgError>(end),
    decreases room,
{
    if at < packet.len() {
        let len = packet[at];
        if 0 < len < 64 && at + 1 + len <= packet.len() && room >= 1 + len {
            law_skip_agrees_with_decode(packet, at + 1 + len, pointers, (room - 1 - len) as nat);
        }
    }
}

proof fn lemma_records_walk(packet: Seq<u8>, at: int, count: nat)
    requires
        0 <= at <= packet.len(),
    ensures
        msg::decode_records(packet, at, count) matches Ok((_, end)) ==> records_end(
            packet,
            at,
            count,
        ) == Ok::<int, MsgError>(end) && 0 <= end <= packet.len(),
    decreases count,
{
    if count > 0 {
        lemma_records_walk(packet, at, (count - 1) as nat);
        if let Ok((_, next)) = msg::decode_records(packet, at, (count - 1) as nat) {
            law_skip_agrees_with_decode(packet, next, 128, 254);
            lemma_name_end_bounds(packet, next);
        }
    }
}

proof fn lemma_questions_walk(packet: Seq<u8>, at: int, count: nat)
    requires
        0 <= at <= packet.len(),
    ensures
        msg::decode_questions(packet, at, count) matches Ok((_, end)) ==> questions_end(
            packet,
            at,
            count,
        ) == Ok::<int, MsgError>(end) && 0 <= end <= packet.len(),
    decreases count,
{
    if count > 0 {
        lemma_questions_walk(packet, at, (count - 1) as nat);
        if let Ok((_, next)) = msg::decode_questions(packet, at, (count - 1) as nat) {
            law_skip_agrees_with_decode(packet, next, 128, 254);
            lemma_name_end_bounds(packet, next);
        }
    }
}

proof fn lemma_records_end_sum(packet: Seq<u8>, at: int, first: nat, second: nat, mid: int)
    requires
        records_end(packet, at, first) == Ok::<int, MsgError>(mid),
    ensures
        records_end(packet, at, first + second) == records_end(packet, mid, second),
    decreases second,
{
    if second > 0 {
        lemma_records_end_sum(packet, at, first, (second - 1) as nat, mid);
    }
}

/// The addresses of every packet that decodes can be rewritten.
pub proof fn law_valid_packets_can_be_rewritten(packet: Seq<u8>)
    requires
        msg::decode_message(packet) is Ok,
    ensures
        layout(packet) == Ok::<(), MsgError>(()),
{
    lemma_questions_walk(packet, 12, msg::u16_at(packet, 4) as nat);
    let a = msg::decode_questions(packet, 12, msg::u16_at(packet, 4) as nat)->Ok_0.1;
    lemma_records_walk(packet, a, msg::u16_at(packet, 6) as nat);
    let b = msg::decode_records(packet, a, msg::u16_at(packet, 6) as nat)->Ok_0.1;
    lemma_records_walk(packet, b, msg::u16_at(packet, 8) as nat);
    let c = msg::decode_records(packet, b, msg::u16_at(packet, 8) as nat)->Ok_0.1;
    lemma_records_walk(packet, c, msg::u16_at(packet, 10) as nat);
    lemma_records_end_sum(
        packet,
        b,
        msg::u16_at(packet, 8) as nat,
        msg::u16_at(packet, 10) as nat,
        c,
    );
}


/// The first records of a section are found as in the whole section.
proof fn lemma_record_of_section(packet: Seq<u8>, at: int, count: nat, k: nat)
    requires
        msg::decode_records(packet, at, count) is Ok,
        k < count,
    ensures
        msg::decode_records(packet, at, count)->Ok_0.0.len() == count,
        msg::decode_records(packet, at, k) matches Ok((_, next)) && (msg::decode_record(
            packet,
            next,
        ) matches Ok((record, _)) && record == msg::decode_records(
            packet,
            at,
            count,
        )->Ok_0.0[k as int]),
    decreases count,
{
    let last = (count - 1) as nat;
    lemma_section_length(packet, at, last);
    if k < last {
        lemma_record_of_section(packet, at, last, k);
    }
}

proof fn lemma_section_length(packet: Seq<u8>, at: int, count: nat)
    ensures
        msg::decode_records(packet, at, count) matches Ok((records, _)) ==> records.len() == count,
    decreases count,
{
    if count > 0 {
        lemma_section_length(packet, at, (count - 1) as nat);
    }
}

/// In a packet that decodes, an answer that holds an address is found where rewriting looks for
/// it: rewriting reaches it.
pub proof fn law_answers_stand_in_slots(packet: Seq<u8>, k: nat, found: IpAddr, ip: IpAddr)
    requires
        msg::decode_message(packet) is Ok,
        k < msg::decode_message(packet)->Ok_0.answers.len(),
        answers::record_ip(msg::decode_message(packet)->Ok_0.answers[k as int]) == Some(found),
        answers::same_family(found, ip),
    ensures
        exists|data: int|
            #![trigger address_slot(packet, k, ip, data)]
            address_slot(packet, k, ip, data) && rewritten_packet(packet, ip).subrange(
                data,
                data + ip.octets_spec().len(),
            ) == ip.octets_spec(),
{
    let qn = msg::u16_at(packet, 4) as nat;
    let an = msg::u16_at(packet, 6) as nat;
    lemma_questions_walk(packet, 12, qn);
    let a = msg::decode_questions(packet, 12, qn)->Ok_0.1;
    lemma_section_length(packet, a, an);
    lemma_record_of_section(packet, a, an, k);
    lemma_records_walk(packet, a, k);
    let next = msg::decode_records(packet, a, k)->Ok_0.1;
    law_skip_agrees_with_decode(packet, next, 128, 254);
    lemma_name_end_bounds(packet, next);
    let fields = msg::name_end(packet, next)->Ok_0;
    assert(record_fields(packet, next) == Ok::<int, MsgError>(fields));
    let data = fields + 10;
    assert(address_slot(packet, k, ip, data));
    law_rewrite_reaches_every_answer(packet, ip, k, data);
}

/// Reading the name at `at`, pointers followed, reads the byte at `i`.
pub open spec fn name_reads(packet: Seq<u8>, at: int, pointers: nat, room: nat, i: int) -> bool
    decreases pointers, room,
{
    if !(0 <= at < packet.len()) {
        false
    } else {
        let len = packet[at];
        if len >= 192 {
            ||| i == at
            ||| i == at + 1
            ||| at + 1 < packet.len() && pointers > 0 && name_reads(
                packet,
                msg::pointer_target(len, packet[at + 1]),
                (pointers - 1) as nat,
                room,
                i,
            )
        } else if 0 < len < 64 && at + 1 + len <= packet.len() && room >= 1 + len {
            ||| at <= i < at + 1 + len
            ||| name_reads(packet, at + 1 + len, pointers, (room - 1 - len) as nat, i)
        } else {
            i == at
        }
    }
}

/// A question or a record, and so a name, starts at `at`.
pub open spec fn name_starts(packet: Seq<u8>, at: int) -> bool {
    ||| exists|k: nat|
        k < msg::u16_at(packet, 4) && #[trigger] questions_end(
            packet,
            msg::DNS_HEADER_SIZE as int,
            k,
        ) == Ok::<int, MsgError>(at)
    ||| questions_end(packet, msg::DNS_HEADER_SIZE as int, msg::u16_at(packet, 4) as nat)
        matches Ok(a) && exists|k: nat|
        k < msg::u16_at(packet, 6) + msg::u16_at(packet, 8) + msg::u16_at(packet, 10)
            && #[trigger] records_end(packet, a, k) == Ok::<int, MsgError>(at)
}

/// No name of a packet is read from the bytes of an answer's address of the family of `ip`.
pub open spec fn names_avoid_addresses(packet: Seq<u8>, ip: IpAddr) -> bool {
    forall|at: int, i: int, k: nat, data: int|
        name_starts(packet, at) && #[trigger] name_reads(
            packet,
            at,
            msg::MAX_COMPRESSION_POINTERS as nat,
            254,
            i,
        ) && #[trigger] address_slot(packet, k, ip, data) ==> !(data <= i < data
            + ip.octets_spec().len())
}

/// The bytes from which the name at `at` is read are the same in another packet.
spec fn name_kept(p: Seq<u8>, q: Seq<u8>, at: int) -> bool {
    forall|i: int|
        0 <= i < p.len() && #[trigger] name_reads(
            p,
            at,
            msg::MAX_COMPRESSION_POINTERS as nat,
            254,
            i,
        ) ==> p[i] == q[i]
}

proof fn lemma_name_same(p: Seq<u8>, q: Seq<u8>, at: int, pointers: nat, room: nat)
    requires
        p.len() == q.len(),
        forall|i: int|
            0 <= i < p.len() && #[trigger] name_reads(p, at, pointers, room, i) ==> p[i] == q[i],
        msg::decode_name(p, at, pointers, room) is Ok,
    ensures
        msg::decode_name(q, at, pointers, room) == msg::decode_name(p, at, pointers, room),
    decreases pointers, room,
{
    let len = p[at];
    assert(name_reads(p, at, pointers, room, at));
    if len >= 192 {
        assert(name_reads(p, at, pointers, room, at + 1));
        let target = msg::pointer_target(len, p[at + 1]);
        assert forall|i: int|
            0 <= i < p.len() && #[trigger] name_reads(
                p,
                target,
                (pointers - 1) as nat,
                room,
                i,
            ) implies p[i] == q[i] by {
            assert(name_reads(p, at, pointers, room, i));
        }
        lemma_name_same(p, q, target, (pointers - 1) as nat, room);
    } else if len > 0 {
        let next = at + 1 + len;
        let left = (room - 1 - len) as nat;
        assert forall|i: int|
            0 <= i < p.len() && #[trigger] name_reads(p, next, pointers, left, i) implies p[i]
            == q[i] by {
            assert(name_reads(p, at, pointers, room, i));
        }
        lemma_name_same(p, q, next, pointers, left);
        assert forall|i: int| at <= i < next implies p[i] == q[i] by {
            assert(name_reads(p, at, pointers, room, i));
        }
        assert(q.subrange(at + 1, next) =~= p.subrange(at + 1, next));
    }
}

/// A record is the same but for its data where its name and its fixed fields are.
proof fn lemma_record_same(p: Seq<u8>, q: Seq<u8>, at: int)
    requires
        p.len() == q.len(),
        0 <= at,
        msg::decode_record(p, at) is Ok,
        name_kept(p, q, at),
        record_fields(p, at) matches Ok(fields) && forall|i: int|
            fields <= i < fields + 10 ==> p[i] == q[i],
    ensures
        record_fields(p, at) matches Ok(fields) && (msg::decode_record(p, at) matches Ok((r, end))
            && end == fields_end(p, fields) && at < fields && end <= p.len() && r.rr_type
            == msg::type_at(p, fields) && r.rr_class == msg::u16_at(p, fields + 2)
            && r.rdata == p.subrange(fields + 10, end) && msg::decode_record(q, at) == Ok::<
            (msg::RecordView, int),
            MsgError,
        >((msg::RecordView { rdata: q.subrange(fields + 10, end), ..r }, end))),
{
    lemma_name_same(p, q, at, msg::MAX_COMPRESSION_POINTERS as nat, 254);
    law_skip_agrees_with_decode(p, at, msg::MAX_COMPRESSION_POINTERS as nat, 254);
    lemma_name_end_bounds(p, at);
    let fields = record_fields(p, at)->Ok_0;
    assert(wire::be32_at(p, fields + 4) == wire::be32_at(q, fields + 4));
}

proof fn lemma_questions_same(p: Seq<u8>, q: Seq<u8>, count: nat, all: nat)
    requires
        p.len() == q.len() >= msg::DNS_HEADER_SIZE,
        count <= all,
        msg::decode_questions(p, 12, all) matches Ok((_, a)) && forall|i: int|
            0 <= i < a ==> p[i] == q[i],
        forall|k: nat, at: int|
            k < all && #[trigger] questions_end(p, 12, k) == Ok::<int, MsgError>(at)
                ==> #[trigger] name_kept(p, q, at),
    ensures
        msg::decode_questions(p, 12, count) is Ok,
        msg::decode_questions(q, 12, count) == msg::decode_questions(p, 12, count),
    decreases count,
{
    lemma_questions_prefix(p, 12, count, all);
    if count > 0 {
        let prev = (count - 1) as nat;
        lemma_questions_same(p, q, prev, all);
        lemma_questions_walk(p, 12, prev);
        lemma_questions_walk(p, 12, count);
        lemma_questions_walk(p, 12, all);
        lemma_questions_end_grows(p, 12, count, all);
        let at = msg::decode_questions(p, 12, prev)->Ok_0.1;
        assert(questions_end(p, 12, prev) == Ok::<int, MsgError>(at));
        assert(name_kept(p, q, at));
        lemma_name_same(p, q, at, msg::MAX_COMPRESSION_POINTERS as nat, 254);
        law_skip_agrees_with_decode(p, at, msg::MAX_COMPRESSION_POINTERS as nat, 254);
        lemma_name_end_bounds(p, at);
    }
}

proof fn lemma_questions_prefix(p: Seq<u8>, at: int, count: nat, all: nat)
    requires
        count <= all,
        msg::decode_questions(p, at, all) is Ok,
    ensures
        msg::decode_questions(p, at, count) is Ok,
    decreases all,
{
    if count < all {
        lemma_questions_prefix(p, at, count, (all - 1) as nat);
    }
}

proof fn lemma_records_prefix(p: Seq<u8>, at: int, count: nat, all: nat)
    requires
        count <= all,
        msg::decode_records(p, at, all) is Ok,
    ensures
        msg::decode_records(p, at, count) is Ok,
    decreases all,
{
    if count < all {
        lemma_records_prefix(p, at, count, (all - 1) as nat);
    }
}

/// Records are the same where all bytes from their start on and all their names are.
proof fn lemma_records_same(p: Seq<u8>, q: Seq<u8>, from: int, count: nat)
    requires
        p.len() == q.len(),
        0 <= from <= p.len(),
        msg::decode_records(p, from, count) is Ok,
        forall|i: int| from <= i < p.len() ==> p[i] == q[i],
        forall|k: nat, at: int|
            k < count && #[trigger] records_end(p, from, k) == Ok::<int, MsgError>(at)
                ==> #[trigger] name_kept(p, q, at),
    ensures
        msg::decode_records(q, from, count) == msg::decode_records(p, from, count),
    decreases count,
{
    if count > 0 {
        let prev = (count - 1) as nat;
        lemma_records_same(p, q, from, prev);
        lemma_records_walk(p, from, prev);
        lemma_records_end_bounds(p, from, prev, prev);
        let at = msg::decode_records(p, from, prev)->Ok_0.1;
        assert(records_end(p, from, prev) == Ok::<int, MsgError>(at));
        assert(name_kept(p, q, at));
        law_skip_agrees_with_decode(p, at, msg::MAX_COMPRESSION_POINTERS as nat, 254);
        lemma_name_end_bounds(p, at);
        lemma_record_same(p, q, at);
        let (r, end) = msg::decode_record(p, at)->Ok_0;
        let fields = record_fields(p, at)->Ok_0;
        assert(q.subrange(fields + 10, end) =~= p.subrange(fields + 10, end));
    }
}

/// Rewriting leaves a record alone that holds no address of the family.
proof fn lemma_other_untouched(packet: Seq<u8>, at: int, k: nat, count: nat, ip: IpAddr)
    requires
        0 <= at <= packet.len(),
        records_end(packet, at, k) is Ok,
        record_fields(packet, records_end(packet, at, k)->Ok_0) matches Ok(fields)
            && !holds_family(packet, fields, ip),
    ensures
        ({
            let next = records_end(packet, at, k)->Ok_0;
            let fields = record_fields(packet, next)->Ok_0;
            forall|i: int|
                next <= i < fields_end(packet, fields) ==> rewritten(packet, at, count, ip)[i]
                    == packet[i]
        }),
    decreases count,
{
    let next = records_end(packet, at, k)->Ok_0;
    lemma_records_end_bounds(packet, at, k, k);
    lemma_record_fields_bounds(packet, next);
    if count > 0 {
        let prev = (count - 1) as nat;
        lemma_other_untouched(packet, at, k, prev, ip);
        lemma_rewritten_frame(packet, at, prev, ip);
        lemma_rewritten_frame(packet, at, count, ip);
        lemma_records_end_bounds(packet, at, prev, prev);
        if let Ok(there) = records_end(packet, at, prev) {
            lemma_record_fields_bounds(packet, there);
            if let Ok(fields) = record_fields(packet, there) {
                lemma_octets_len(ip);
                if prev < k {
                    lemma_records_end_bounds(packet, at, count, k);
                } else if prev > k {
                    lemma_records_end_bounds(packet, at, (k + 1) as nat, prev);
                }
            }
        }
    }
}

/// Answers after rewriting are the answers with their addresses replaced.
proof fn lemma_answers_rewritten(p: Seq<u8>, from: int, count: nat, all: nat, ip: IpAddr)
    requires
        0 <= from <= p.len(),
        count <= all,
        msg::decode_records(p, from, all) is Ok,
        forall|k: nat, at: int|
            k < all && #[trigger] records_end(p, from, k) == Ok::<int, MsgError>(at)
                ==> #[trigger] name_kept(p, rewritten(p, from, all, ip), at),
    ensures
        msg::decode_records(p, from, count) matches Ok((records, end)) && msg::decode_records(
            rewritten(p, from, all, ip),
            from,
            count,
        ) == Ok::<(Seq<msg::RecordView>, int), MsgError>((answers::with_ips(records, ip), end)),
    decreases count,
{
    let q = rewritten(p, from, all, ip);
    lemma_rewritten_frame(p, from, all, ip);
    lemma_records_prefix(p, from, count, all);
    if count > 0 {
        let prev = (count - 1) as nat;
        lemma_answers_rewritten(p, from, prev, all, ip);
        lemma_records_walk(p, from, prev);
        lemma_records_end_bounds(p, from, prev, prev);
        let (before, at) = msg::decode_records(p, from, prev)->Ok_0;
        assert(records_end(p, from, prev) == Ok::<int, MsgError>(at));
        assert(name_kept(p, q, at));
        law_skip_agrees_with_decode(p, at, msg::MAX_COMPRESSION_POINTERS as nat, 254);
        lemma_name_end_bounds(p, at);
        lemma_fields_untouched(p, from, prev, all, ip);
        lemma_record_same(p, q, at);
        let (r, end) = msg::decode_record(p, at)->Ok_0;
        let fields = record_fields(p, at)->Ok_0;
        lemma_octets_len(ip);
        if holds_family(p, fields, ip) {
            lemma_slot_written(p, from, prev, all, ip, fields + 10);
        } else {
            lemma_other_untouched(p, from, prev, all, ip);
            assert(q.subrange(fields + 10, end) =~= r.rdata);
        }
        assert((msg::RecordView { rdata: q.subrange(fields + 10, end), ..r }) == answers::with_ip(
            r,
            ip,
        ));
        assert(answers::with_ips(before.push(r), ip) =~= answers::with_ips(before, ip).push(
            answers::with_ip(r, ip),
        ));
    } else {
        assert(answers::with_ips(Seq::<msg::RecordView>::empty(), ip) =~= Seq::empty());
    }
}

/// Where no name is read from the addresses, rewriting the packet is rewriting the message: what
/// the packet decodes to afterwards is what it decoded to before, with the addresses of the
/// answers replaced.
pub proof fn law_rewritten_packet_is_rewritten_message(packet: Seq<u8>, ip: IpAddr)
    requires
        msg::decode_message(packet) is Ok,
        names_avoid_addresses(packet, ip),
    ensures
        layout(packet) == Ok::<(), MsgError>(()),
        rewritten_packet(packet, ip).len() == packet.len(),
        msg::decode_message(packet) matches Ok(m) && msg::decode_message(
            rewritten_packet(packet, ip),
        ) == Ok::<msg::MessageView, MsgError>(
            msg::MessageView { answers: answers::with_ips(m.answers, ip), ..m },
        ),
{
    let q = rewritten_packet(packet, ip);
    let qn = msg::u16_at(packet, 4) as nat;
    let an = msg::u16_at(packet, 6) as nat;
    let nn = msg::u16_at(packet, 8) as nat;
    let xn = msg::u16_at(packet, 10) as nat;
    law_valid_packets_can_be_rewritten(packet);
    law_rewrite_keeps_layout(packet, ip);
    lemma_questions_walk(packet, 12, qn);
    let a = msg::decode_questions(packet, 12, qn)->Ok_0.1;
    lemma_records_walk(packet, a, an);
    let b = msg::decode_records(packet, a, an)->Ok_0.1;
    lemma_records_walk(packet, b, nn);
    let c = msg::decode_records(packet, b, nn)->Ok_0.1;
    lemma_rewritten_frame(packet, a, an, ip);
    lemma_questions_end_bounds(packet, 12, qn, qn);
    lemma_records_end_bounds(packet, a, an, an);
    lemma_records_end_bounds(packet, b, nn, nn);
    assert forall|at: int| name_starts(packet, at) implies #[trigger] name_kept(
        packet,
        q,
        at,
    ) by {
        assert forall|i: int|
            0 <= i < packet.len() && #[trigger] name_reads(
                packet,
                at,
                msg::MAX_COMPRESSION_POINTERS as nat,
                254,
                i,
            ) implies packet[i] == q[i] by {
            if packet[i] != q[i] {
                law_rewrite_touches_only_addresses(packet, ip, i);
            }
        }
    }
    assert forall|k: nat, at: int|
        k < qn && #[trigger] questions_end(packet, 12, k) == Ok::<int, MsgError>(
            at,
        ) implies #[trigger] name_kept(packet, q, at) by {
        assert(name_starts(packet, at));
    }
    assert forall|k: nat, at: int|
        k < an && #[trigger] records_end(packet, a, k) == Ok::<int, MsgError>(
            at,
        ) implies #[trigger] name_kept(packet, q, at) by {
        assert(name_starts(packet, at));
    }
    assert forall|k: nat, at: int|
        k < nn && #[trigger] records_end(packet, b, k) == Ok::<int, MsgError>(
            at,
        ) implies #[trigger] name_kept(packet, q, at) by {
        lemma_records_end_sum(packet, a, an, k, b);
        assert(records_end(packet, a, an + k) == Ok::<int, MsgError>(at));
        assert(name_starts(packet, at));
    }
    assert forall|k: nat, at: int|
        k < xn && #[trigger] records_end(packet, c, k) == Ok::<int, MsgError>(
            at,
        ) implies #[trigger] name_kept(packet, q, at) by {
        lemma_records_end_sum(packet, b, nn, k, c);
        lemma_records_end_sum(packet, a, an, nn + k, b);
        assert(records_end(packet, a, an + (nn + k)) == Ok::<int, MsgError>(at));
        assert(name_starts(packet, at));
    }
    lemma_questions_same(packet, q, qn, qn);
    lemma_answers_rewritten(packet, a, an, an, ip);
    lemma_records_same(packet, q, b, nn);
    lemma_records_same(packet, q, c, xn);
    assert(forall|i: int| 0 <= i < 12 ==> q[i] == packet[i]) by {
        assert forall|i: int| 0 <= i < 12 implies q[i] == packet[i] by {
            assert(q.take(12)[i] == packet.take(12)[i]);
        }
    }
}

} // verus!
