//! Messages survive being written and read again.

use super::msg;
use super::msg::{MessageView, MsgError, MsgHeader, QuestionView, RecordView};
use super::rr_types::RrType;
use crate::wire;
use vstd::prelude::*;

verus! {

/// A message that the wire format can carry: the header's codes fit their bits, the types are
/// written by their own variants, and every name keeps to the protocol's limits.
pub open spec fn valid_message(m: MessageView) -> bool {
    &&& m.header.wf()
    &&& !m.compress
    &&& forall|i: int| 0 <= i < m.questions.len() ==> valid_question(#[trigger] m.questions[i])
    &&& valid_records(m.answers)
    &&& valid_records(m.authorities)
    &&& valid_records(m.additionals)
}

pub open spec fn valid_question(q: QuestionView) -> bool {
    msg::valid_name(q.name) && q.qtype.wf()
}

pub open spec fn valid_record(r: RecordView) -> bool {
    msg::valid_name(r.name) && r.rr_type.wf()
}

pub open spec fn valid_records(records: Seq<RecordView>) -> bool {
    forall|i: int| 0 <= i < records.len() ==> valid_record(#[trigger] records[i])
}

/// `bytes` stand in `packet` at `at`.
pub open spec fn stands(packet: Seq<u8>, at: int, bytes: Seq<u8>) -> bool {
    &&& 0 <= at
    &&& at + bytes.len() <= packet.len()
    &&& forall|i: int| 0 <= i < bytes.len() ==> packet[at + i] == #[trigger] bytes[i]
}

/// What stands in a packet stands there part by part.
pub proof fn lemma_stands_split(packet: Seq<u8>, at: int, a: Seq<u8>, b: Seq<u8>)
    requires
        stands(packet, at, a + b),
    ensures
        stands(packet, at, a),
        stands(packet, at + a.len(), b),
{
    assert forall|i: int| 0 <= i < a.len() implies packet[at + i] == #[trigger] a[i] by {
        assert((a + b)[i] == a[i]);
    }
    assert forall|i: int| 0 <= i < b.len() implies packet[at + a.len() + i] == #[trigger] b[i] by {
        assert((a + b)[a.len() + i] == b[i]);
        assert(packet[at + (a.len() + i)] == (a + b)[a.len() + i]);
    }
}

proof fn lemma_stands_u16(packet: Seq<u8>, at: int, v: int)
    requires
        0 <= v < 65536,
        stands(packet, at, wire::be16_bytes(v)),
    ensures
        msg::u16_at(packet, at) == v,
{
    wire::law_be16_round_trip(v);
    let b = wire::be16_bytes(v);
    assert(packet[at + 0] == b[0] && packet[at + 1] == b[1]);
}

proof fn lemma_stands_u32(packet: Seq<u8>, at: int, v: int)
    requires
        0 <= v < 4294967296,
        stands(packet, at, wire::be32_bytes(v)),
    ensures
        wire::be32_at(packet, at) == v,
{
    wire::law_be32_round_trip(v);
    let b = wire::be32_bytes(v);
    assert(packet[at + 0] == b[0] && packet[at + 1] == b[1] && packet[at + 2] == b[2] && packet[at
        + 3] == b[3]);
}

/// A name is read back from its wire form, wherever that stands.
pub proof fn law_name_round_trip(packet: Seq<u8>, at: int, labels: Seq<Seq<u8>>)
    requires
        msg::valid_name(labels),
        0 <= at,
        at + msg::encode_name(labels).len() <= packet.len(),
        packet.subrange(at, at + msg::encode_name(labels).len()) == msg::encode_name(labels),
    ensures
        msg::name_at(packet, at) == Ok::<(Seq<Seq<u8>>, int), MsgError>(
            (labels, at + msg::encode_name(labels).len()),
        ),
{
    let bytes = msg::encode_name(labels);
    assert forall|i: int| 0 <= i < bytes.len() implies packet[at + i] == #[trigger] bytes[i] by {
        assert(packet.subrange(at, at + bytes.len())[i] == packet[at + i]);
    }
    lemma_name_back(packet, at, labels, 254);
}

proof fn lemma_name_back(packet: Seq<u8>, at: int, labels: Seq<Seq<u8>>, room: nat)
    requires
        forall|i: int| 0 <= i < labels.len() ==> 1 <= (#[trigger] labels[i]).len() < 64,
        msg::labels_wire_len(labels) <= room,
        stands(packet, at, msg::encode_name(labels)),
    ensures
        msg::decode_name(packet, at, 128, room) == Ok::<(Seq<Seq<u8>>, int), MsgError>(
            (labels, at + msg::encode_name(labels).len()),
        ),
    decreases labels.len(),
{
    let bytes = msg::encode_name(labels);
    if labels.len() == 0 {
        assert(bytes =~= seq![0u8]);
        assert(packet[at + 0] == bytes[0]);
        assert(labels =~= Seq::empty());
    } else {
        let first = labels[0];
        let rest = labels.skip(1);
        let head = seq![first.len() as u8] + first;
        assert(bytes =~= head + msg::encode_name(rest));
        lemma_stands_split(packet, at, head, msg::encode_name(rest));
        assert(packet[at + 0] == head[0]);
        assert forall|i: int| 0 <= i < rest.len() implies 1 <= (#[trigger] rest[i]).len() < 64 by {
            assert(rest[i] == labels[i + 1]);
        }
        lemma_name_back(packet, at + 1 + first.len(), rest, (room - 1 - first.len()) as nat);
        assert(packet.subrange(at + 1, at + 1 + first.len()) =~= first) by {
            assert forall|i: int| 0 <= i < first.len() implies packet[at + 1 + i] == first[i] by {
                assert(head[i + 1] == first[i]);
                assert(packet[at + (i + 1)] == head[i + 1]);
            }
        }
        assert(seq![first] + rest =~= labels);
    }
}

proof fn lemma_name_back_at(packet: Seq<u8>, at: int, labels: Seq<Seq<u8>>)
    requires
        msg::valid_name(labels),
        stands(packet, at, msg::encode_name(labels)),
    ensures
        msg::name_at(packet, at) == Ok::<(Seq<Seq<u8>>, int), MsgError>(
            (labels, at + msg::encode_name(labels).len()),
        ),
{
    lemma_name_back(packet, at, labels, 254);
}

proof fn lemma_question_back(packet: Seq<u8>, at: int, q: QuestionView)
    requires
        valid_question(q),
        stands(packet, at, msg::encode_question(q)),
    ensures
        msg::decode_question(packet, at) == Ok::<(QuestionView, int), MsgError>(
            (q, at + msg::encode_question(q).len()),
        ),
{
    let name = msg::encode_name(q.name);
    let ty = wire::be16_bytes(q.qtype.number() as int);
    let class = wire::be16_bytes(q.qclass as int);
    lemma_stands_split(packet, at, name + ty, class);
    lemma_stands_split(packet, at, name, ty);
    lemma_name_back_at(packet, at, q.name);
    lemma_stands_u16(packet, at + name.len(), q.qtype.number() as int);
    lemma_stands_u16(packet, at + name.len() + 2, q.qclass as int);
}

proof fn lemma_record_back(packet: Seq<u8>, at: int, r: RecordView)
    requires
        valid_record(r),
        r.rdata.len() <= 65535,
        stands(packet, at, msg::encode_record(r)),
    ensures
        msg::decode_record(packet, at) == Ok::<(RecordView, int), MsgError>(
            (r, at + msg::encode_record(r).len()),
        ),
{
    let name = msg::encode_name(r.name);
    let ty = wire::be16_bytes(r.rr_type.number() as int);
    let class = wire::be16_bytes(r.rr_class as int);
    let ttl = wire::be32_bytes(r.ttl as int);
    let len = wire::be16_bytes(r.rdata.len() as int);
    lemma_stands_split(packet, at, name + ty + class + ttl + len, r.rdata);
    lemma_stands_split(packet, at, name + ty + class + ttl, len);
    lemma_stands_split(packet, at, name + ty + class, ttl);
    lemma_stands_split(packet, at, name + ty, class);
    lemma_stands_split(packet, at, name, ty);
    lemma_name_back_at(packet, at, r.name);
    let next = at + name.len();
    lemma_stands_u16(packet, next, r.rr_type.number() as int);
    lemma_stands_u16(packet, next + 2, r.rr_class as int);
    lemma_stands_u32(packet, next + 4, r.ttl as int);
    lemma_stands_u16(packet, next + 8, r.rdata.len() as int);
    assert(packet.subrange(next + 10, next + 10 + r.rdata.len()) =~= r.rdata);
}

proof fn lemma_questions_back(packet: Seq<u8>, at: int, questions: Seq<QuestionView>)
    requires
        forall|i: int| 0 <= i < questions.len() ==> valid_question(#[trigger] questions[i]),
        msg::encode_questions(questions) is Ok,
        stands(packet, at, msg::encode_questions(questions)->Ok_0),
    ensures
        msg::decode_questions(packet, at, questions.len()) == Ok::<
            (Seq<QuestionView>, int),
            MsgError,
        >((questions, at + msg::encode_questions(questions)->Ok_0.len())),
    decreases questions.len(),
{
    if questions.len() == 0 {
        assert(questions =~= Seq::empty());
    } else {
        let rest = questions.drop_last();
        let bytes = msg::encode_questions(rest)->Ok_0;
        lemma_stands_split(packet, at, bytes, msg::encode_question(questions.last()));
        assert forall|i: int| 0 <= i < rest.len() implies valid_question(#[trigger] rest[i]) by {
            assert(rest[i] == questions[i]);
        }
        lemma_questions_back(packet, at, rest);
        lemma_question_back(packet, at + bytes.len(), questions.last());
        assert(rest.push(questions.last()) =~= questions);
    }
}

proof fn lemma_records_back(packet: Seq<u8>, at: int, records: Seq<RecordView>)
    requires
        valid_records(records),
        msg::encode_records(records) is Ok,
        stands(packet, at, msg::encode_records(records)->Ok_0),
    ensures
        msg::decode_records(packet, at, records.len()) == Ok::<(Seq<RecordView>, int), MsgError>(
            (records, at + msg::encode_records(records)->Ok_0.len()),
        ),
    decreases records.len(),
{
    if records.len() == 0 {
        assert(records =~= Seq::empty());
    } else {
        let rest = records.drop_last();
        let bytes = msg::encode_records(rest)->Ok_0;
        lemma_stands_split(packet, at, bytes, msg::encode_record(records.last()));
        assert forall|i: int| 0 <= i < rest.len() implies valid_record(#[trigger] rest[i]) by {
            assert(rest[i] == records[i]);
        }
        lemma_records_back(packet, at, rest);
        lemma_record_back(packet, at + bytes.len(), records.last());
        assert(rest.push(records.last()) =~= records);
    }
}

/// What is packed is unpacked again: the wire form of a message that has one decodes to that
/// message.
pub proof fn law_message_round_trip(m: MessageView)
    requires
        valid_message(m),
        msg::encode_message(m) is Ok,
    ensures
        msg::decode_message(msg::encode_message(m)->Ok_0) == Ok::<MessageView, MsgError>(m),
{
    let packet = msg::encode_message(m)->Ok_0;
    let h = msg::encode_header(m);
    let q = msg::encode_questions(m.questions)->Ok_0;
    let a = msg::encode_records(m.answers)->Ok_0;
    let n = msg::encode_records(m.authorities)->Ok_0;
    let x = msg::encode_records(m.additionals)->Ok_0;
    assert(packet == h + q + a + n + x);
    assert(stands(packet, 0, packet));
    lemma_stands_split(packet, 0, h + q + a + n, x);
    lemma_stands_split(packet, 0, h + q + a, n);
    lemma_stands_split(packet, 0, h + q, a);
    lemma_stands_split(packet, 0, h, q);
    lemma_header_back(packet, m);
    lemma_questions_back(packet, 12, m.questions);
    lemma_records_back(packet, 12int + q.len(), m.answers);
    lemma_records_back(packet, 12int + q.len() + a.len(), m.authorities);
    lemma_records_back(packet, 12int + q.len() + a.len() + n.len(), m.additionals);
}

proof fn lemma_header_back(packet: Seq<u8>, m: MessageView)
    requires
        m.header.wf(),
        msg::countable(m),
        stands(packet, 0, msg::encode_header(m)),
    ensures
        msg::encode_header(m).len() == 12,
        MsgHeader::of_bits(msg::u16_at(packet, 0), msg::u16_at(packet, 2)) == m.header,
        msg::u16_at(packet, 4) == m.questions.len(),
        msg::u16_at(packet, 6) == m.answers.len(),
        msg::u16_at(packet, 8) == m.authorities.len(),
        msg::u16_at(packet, 10) == m.additionals.len(),
{
    let a = wire::be16_bytes(m.header.id as int);
    let b = wire::be16_bytes(m.header.bits() as int);
    let c = wire::be16_bytes(m.questions.len() as int);
    let d = wire::be16_bytes(m.answers.len() as int);
    let e = wire::be16_bytes(m.authorities.len() as int);
    let f = wire::be16_bytes(m.additionals.len() as int);
    lemma_stands_split(packet, 0, a + b + c + d + e, f);
    lemma_stands_split(packet, 0, a + b + c + d, e);
    lemma_stands_split(packet, 0, a + b + c, d);
    lemma_stands_split(packet, 0, a + b, c);
    lemma_stands_split(packet, 0, a, b);
    lemma_stands_u16(packet, 0, m.header.id as int);
    lemma_stands_u16(packet, 2, m.header.bits() as int);
    lemma_stands_u16(packet, 4, m.questions.len() as int);
    lemma_stands_u16(packet, 6, m.answers.len() as int);
    lemma_stands_u16(packet, 8, m.authorities.len() as int);
    lemma_stands_u16(packet, 10, m.additionals.len() as int);
    msg::law_header_round_trip(m.header);
}

/// Whatever decodes is a valid message, so it can be carried again.
pub proof fn law_decoded_is_valid(packet: Seq<u8>)
    ensures
        msg::decode_message(packet) matches Ok(m) ==> valid_message(m) && msg::countable(m),
{
    if let Ok(m) = msg::decode_message(packet) {
        msg::law_header_bits_round_trip(msg::u16_at(packet, 0), msg::u16_at(packet, 2));
        let qn = msg::u16_at(packet, 4) as nat;
        lemma_questions_valid(packet, 12, qn);
        let a = msg::decode_questions(packet, 12, qn)->Ok_0.1;
        let an = msg::u16_at(packet, 6) as nat;
        lemma_records_valid(packet, a, an);
        let b = msg::decode_records(packet, a, an)->Ok_0.1;
        let nn = msg::u16_at(packet, 8) as nat;
        lemma_records_valid(packet, b, nn);
        let c = msg::decode_records(packet, b, nn)->Ok_0.1;
        lemma_records_valid(packet, c, msg::u16_at(packet, 10) as nat);
    }
}

proof fn lemma_decoded_name_valid(packet: Seq<u8>, at: int, pointers: nat, room: nat)
    ensures
        msg::decode_name(packet, at, pointers, room) matches Ok((labels, _)) ==> (forall|i: int|
            0 <= i < labels.len() ==> 1 <= (#[trigger] labels[i]).len() < 64)
            && msg::labels_wire_len(labels) <= room,
    decreases pointers, room,
{
    if 0 <= at < packet.len() {
        let len = packet[at];
        if len >= 192 {
            if at + 1 < packet.len() && pointers > 0 {
                lemma_decoded_name_valid(
                    packet,
                    msg::pointer_target(len, packet[at + 1]),
                    (pointers - 1) as nat,
                    room,
                );
            }
        } else if 0 < len < 64 && at + 1 + len <= packet.len() && room >= 1 + len {
            lemma_decoded_name_valid(packet, at + 1 + len, pointers, (room - 1 - len) as nat);
            if let Ok((labels, _)) = msg::decode_name(
                packet,
                at + 1 + len,
                pointers,
                (room - 1 - len) as nat,
            ) {
                let all = seq![packet.subrange(at + 1, at + 1 + len)] + labels;
                assert(all.skip(1) =~= labels);
            }
        }
    }
}

proof fn lemma_questions_valid(packet: Seq<u8>, at: int, count: nat)
    ensures
        msg::decode_questions(packet, at, count) matches Ok((questions, _)) ==> questions.len()
            == count && forall|i: int|
            0 <= i < questions.len() ==> valid_question(#[trigger] questions[i]),
    decreases count,
{
    if count > 0 {
        lemma_questions_valid(packet, at, (count - 1) as nat);
        if let Ok((_, next)) = msg::decode_questions(packet, at, (count - 1) as nat) {
            lemma_decoded_name_valid(packet, next, 128, 254);
        }
    }
}

proof fn lemma_records_valid(packet: Seq<u8>, at: int, count: nat)
    ensures
        msg::decode_records(packet, at, count) matches Ok((records, _)) ==> records.len() == count
            && valid_records(records),
    decreases count,
{
    if count > 0 {
        lemma_records_valid(packet, at, (count - 1) as nat);
        if let Ok((_, next)) = msg::decode_records(packet, at, (count - 1) as nat) {
            lemma_decoded_name_valid(packet, next, 128, 254);
        }
    }
}

} // verus!
