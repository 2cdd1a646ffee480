//! What the wire format of messages says, byte by byte.

use super::answers;
use super::msg;
use super::msg::{MessageView, MsgError, MsgHeader, QuestionView, RecordView};
use super::rewrite;
use super::rr_types::RrType;
use crate::net;
use crate::net::IpAddr;
use crate::wire;
use vstd::prelude::*;

verus! {

/// The labels are spelled out at `at`, each with its length in front, up to `end`.
pub open spec fn spelled(packet: Seq<u8>, at: int, labels: Seq<Seq<u8>>, end: int) -> bool
    decreases labels.len(),
{
    if labels.len() == 0 {
        end == at
    } else {
        let len = labels[0].len();
        &&& 0 <= at
        &&& 1 <= len <= 63
        &&& at + 1 + len <= packet.len()
        &&& packet[at] == len
        &&& packet.subrange(at + 1, at + 1 + len) == labels[0]
        &&& spelled(packet, at + 1 + len, labels.skip(1), end)
    }
}

/// The bytes that labels take, each with its length.
pub open spec fn spelled_len(labels: Seq<Seq<u8>>) -> nat
    decreases labels.len(),
{
    if labels.len() == 0 {
        0
    } else {
        1 + labels[0].len() + spelled_len(labels.skip(1))
    }
}

/// The two bytes at `at` are a pointer to `target`: two bits that mark it, and fourteen that tell
/// the target, the upper six first.
pub open spec fn points_to(packet: Seq<u8>, at: int, target: int) -> bool {
    &&& 0 <= target < 16384
    &&& 0 <= at
    &&& at + 2 <= packet.len()
    &&& packet[at] == 192 + target / 256
    &&& packet[at + 1] == target % 256
}

/// A name that is spelled out and ends with the root is read as its labels, where it is no longer
/// than a name may be. One that is longer is refused.
pub proof fn law_spelled_names_are_read(
    packet: Seq<u8>,
    at: int,
    labels: Seq<Seq<u8>>,
    end: int,
)
    requires
        0 <= at,
        spelled(packet, at, labels, end),
        end < packet.len(),
        packet[end] == 0,
    ensures
        spelled_len(labels) <= 254 ==> msg::name_at(packet, at) == Ok::<
            (Seq<Seq<u8>>, int),
            MsgError,
        >((labels, end + 1)),
        spelled_len(labels) > 254 ==> msg::name_at(packet, at) is Err,
{
    lemma_spelled_bounds(packet, at, labels, end);
    lemma_root(packet, end, 128, (254 - spelled_len(labels)) as nat);
    lemma_spelled(packet, at, labels, end, Seq::empty(), end + 1, 128, 254);
    assert(labels + Seq::<Seq<u8>>::empty() =~= labels);
}

proof fn lemma_root(packet: Seq<u8>, at: int, pointers: nat, room: nat)
    requires
        0 <= at < packet.len(),
        packet[at] == 0,
    ensures
        msg::decode_name(packet, at, pointers, room) == Ok::<(Seq<Seq<u8>>, int), MsgError>(
            (Seq::empty(), at + 1),
        ),
{
}

proof fn lemma_spelled_bounds(packet: Seq<u8>, at: int, labels: Seq<Seq<u8>>, end: int)
    requires
        0 <= at,
        spelled(packet, at, labels, end),
    ensures
        end == at + spelled_len(labels),
    decreases labels.len(),
{
    if labels.len() > 0 {
        lemma_spelled_bounds(packet, at + 1 + labels[0].len(), labels.skip(1), end);
    }
}

/// Labels that are spelled out stand in front of what is read behind them.
proof fn lemma_spelled(
    packet: Seq<u8>,
    at: int,
    labels: Seq<Seq<u8>>,
    end: int,
    rest: Seq<Seq<u8>>,
    after: int,
    pointers: nat,
    room: nat,
)
    requires
        0 <= at,
        end < packet.len(),
        spelled(packet, at, labels, end),
        spelled_len(labels) <= room ==> msg::decode_name(
            packet,
            end,
            pointers,
            (room - spelled_len(labels)) as nat,
        ) == Ok::<(Seq<Seq<u8>>, int), MsgError>((rest, after)),
    ensures
        spelled_len(labels) <= room ==> msg::decode_name(packet, at, pointers, room) == Ok::<
            (Seq<Seq<u8>>, int),
            MsgError,
        >((labels + rest, after)),
        spelled_len(labels) > room ==> msg::decode_name(packet, at, pointers, room) is Err,
    decreases labels.len(),
{
    lemma_spelled_bounds(packet, at, labels, end);
    if labels.len() == 0 {
        assert(labels + rest =~= rest);
    } else {
        let len = labels[0].len();
        if room >= 1 + len {
            lemma_spelled(
                packet,
                at + 1 + len,
                labels.skip(1),
                end,
                rest,
                after,
                pointers,
                (room - 1 - len) as nat,
            );
        }
        assert(seq![labels[0]] + (labels.skip(1) + rest) =~= labels + rest);
    }
}

/// A pointer stands for the name at the offset that its fourteen bits tell.
pub proof fn law_pointer_stands_for_name(
    packet: Seq<u8>,
    at: int,
    target: int,
    labels: Seq<Seq<u8>>,
    end: int,
)
    requires
        points_to(packet, at, target),
        spelled(packet, target, labels, end),
        spelled_len(labels) <= 254,
        end < packet.len(),
        packet[end] == 0,
    ensures
        msg::name_at(packet, at) == Ok::<(Seq<Seq<u8>>, int), MsgError>((labels, at + 2)),
{
    law_compressed_names_are_read(packet, at, Seq::empty(), at, target, labels, end);
    assert(Seq::<Seq<u8>>::empty() + labels =~= labels);
}

/// A name may start with labels of its own and go on elsewhere: it is its labels and those that
/// the pointer leads to, and it ends behind the pointer.
pub proof fn law_compressed_names_are_read(
    packet: Seq<u8>,
    at: int,
    own: Seq<Seq<u8>>,
    pointer: int,
    target: int,
    rest: Seq<Seq<u8>>,
    end: int,
)
    requires
        0 <= at,
        spelled(packet, at, own, pointer),
        points_to(packet, pointer, target),
        spelled(packet, target, rest, end),
        spelled_len(own) + spelled_len(rest) <= 254,
        end < packet.len(),
        packet[end] == 0,
    ensures
        msg::name_at(packet, at) == Ok::<(Seq<Seq<u8>>, int), MsgError>((own + rest, pointer + 2)),
{
    let room = (254 - spelled_len(own)) as nat;
    lemma_spelled_bounds(packet, target, rest, end);
    lemma_root(packet, end, 127, (room - spelled_len(rest)) as nat);
    lemma_spelled(packet, target, rest, end, Seq::empty(), end + 1, 127, room);
    assert(rest + Seq::<Seq<u8>>::empty() =~= rest);
    lemma_pointer(packet, pointer, target, 128, room);
    lemma_spelled(packet, at, own, pointer, rest, pointer + 2, 128, 254);
}

proof fn lemma_pointer(packet: Seq<u8>, at: int, target: int, pointers: nat, room: nat)
    requires
        points_to(packet, at, target),
        target < packet.len(),
        pointers > 0,
    ensures
        msg::decode_name(packet, at, pointers, room) == (match msg::decode_name(
            packet,
            target,
            (pointers - 1) as nat,
            room,
        ) {
            Ok((labels, _)) => Ok::<(Seq<Seq<u8>>, int), MsgError>((labels, at + 2)),
            Err(e) => Err(e),
        }),
{
    assert(msg::pointer_target(packet[at], packet[at + 1]) == target);
}

/// A pointer may lead to another: up to 128 are followed, one after the other.
pub proof fn law_pointers_are_followed(packet: Seq<u8>, at: int, target: int, left: nat)
    requires
        points_to(packet, at, target),
        left < 128,
    ensures
        msg::decode_name(packet, target, left, 254) matches Ok((labels, _)) ==> msg::decode_name(
            packet,
            at,
            left + 1,
            254,
        ) == Ok::<(Seq<Seq<u8>>, int), MsgError>((labels, at + 2)),
        msg::name_at(packet, at) == msg::decode_name(packet, at, 128, 254),
        target >= packet.len() ==> msg::name_at(packet, at) is Err,
{
    if target < packet.len() {
        lemma_pointer(packet, at, target, left + 1, 254);
    } else {
        assert(msg::pointer_target(packet[at], packet[at + 1]) == target);
    }
}

/// A pointer to itself leads nowhere.
pub proof fn law_pointer_loops_are_refused(packet: Seq<u8>, at: int)
    requires
        points_to(packet, at, at),
    ensures
        msg::name_at(packet, at) is Err,
{
    lemma_loop(packet, at, 128);
}

proof fn lemma_loop(packet: Seq<u8>, at: int, pointers: nat)
    requires
        points_to(packet, at, at),
    ensures
        msg::decode_name(packet, at, pointers, 254) is Err,
    decreases pointers,
{
    assert(msg::pointer_target(packet[at], packet[at + 1]) == at);
    if pointers > 0 {
        lemma_loop(packet, at, (pointers - 1) as nat);
    }
}

/// A length byte between those of labels and those of pointers starts no name.
pub proof fn law_other_lengths_are_refused(packet: Seq<u8>, at: int)
    requires
        0 <= at < packet.len(),
        64 <= packet[at] < 192,
    ensures
        msg::name_at(packet, at) == Err::<(Seq<Seq<u8>>, int), MsgError>(
            MsgError::InvalidLabelLength,
        ),
        msg::name_end(packet, at) == Err::<int, MsgError>(MsgError::InvalidLabelLength),
{
}

/// What is written for a name is its labels spelled out, and the root.
pub proof fn law_written_names_are_spelled(labels: Seq<Seq<u8>>)
    requires
        forall|i: int| 0 <= i < labels.len() ==> 1 <= (#[trigger] labels[i]).len() <= 63,
    ensures
        ({
            let bytes = msg::encode_name(labels);
            let end = bytes.len() - 1;
            &&& spelled(bytes, 0, labels, end)
            &&& bytes[end] == 0
            &&& bytes.len() == spelled_len(labels) + 1
            &&& msg::labels_wire_len(labels) == spelled_len(labels)
        }),
{
    let bytes = msg::encode_name(labels);
    assert(bytes =~= Seq::<u8>::empty() + msg::encode_labels(labels).push(0));
    lemma_written(bytes, Seq::empty(), labels);
}

proof fn lemma_written(bytes: Seq<u8>, before: Seq<u8>, labels: Seq<Seq<u8>>)
    requires
        forall|i: int| 0 <= i < labels.len() ==> 1 <= (#[trigger] labels[i]).len() <= 63,
        bytes == before + msg::encode_labels(labels).push(0),
    ensures
        spelled(bytes, before.len() as int, labels, bytes.len() - 1),
        bytes.len() == before.len() + spelled_len(labels) + 1,
        msg::labels_wire_len(labels) == spelled_len(labels),
    decreases labels.len(),
{
    if labels.len() > 0 {
        let first = labels[0];
        let rest = labels.skip(1);
        let head = before + (seq![first.len() as u8] + first);
        let at = before.len() as int;
        assert(bytes =~= head + msg::encode_labels(rest).push(0));
        assert forall|i: int| 0 <= i < rest.len() implies 1 <= (#[trigger] rest[i]).len()
            <= 63 by {
            assert(rest[i] == labels[i + 1]);
        }
        lemma_written(bytes, head, rest);
        assert(bytes.subrange(at + 1, at + 1 + first.len()) =~= first);
        assert(bytes[at] == head[at]);
    }
}

/// The number that two bytes write, the upper first.
pub open spec fn pair(packet: Seq<u8>, at: int) -> int {
    packet[at] * 256 + packet[at + 1]
}

proof fn lemma_pair(packet: Seq<u8>, at: int)
    ensures
        msg::u16_at(packet, at) == pair(packet, at),
{
    assert(packet[at] * 256 + packet[at + 1] <= 65535);
}

/// Where the flags of a header stand, and the codes.
pub proof fn law_header_layout(packet: Seq<u8>)
    requires
        packet.len() >= 4,
    ensures
        ({
            let h = MsgHeader::of_bits(msg::u16_at(packet, 0), msg::u16_at(packet, 2));
            let (a, b) = (packet[2], packet[3]);
            &&& h.id == packet[0] * 256 + packet[1]
            &&& h.response <==> a >= 128
            &&& h.opcode == (a / 8) % 16
            &&& h.authoritative <==> (a / 4) % 2 == 1
            &&& h.truncated <==> (a / 2) % 2 == 1
            &&& h.recursion_desired <==> a % 2 == 1
            &&& h.recursion_available <==> b >= 128
            &&& h.zero <==> (b / 64) % 2 == 1
            &&& h.authenticated_data <==> (b / 32) % 2 == 1
            &&& h.checking_disabled <==> (b / 16) % 2 == 1
            &&& h.rcode == b % 16
        }),
{
    let bits = msg::u16_at(packet, 2);
    let (a, b) = (packet[2], packet[3]);
    lemma_pair(packet, 0);
    lemma_pair(packet, 2);
    assert(bits == a * 256 + b);
    assert((bits & 0x8000 != 0 <==> a >= 128) && ((bits >> 11) & 0x0f) as u8 == (a / 8) % 16 && (
    bits & 0x0400 != 0 <==> (a / 4) % 2 == 1) && (bits & 0x0200 != 0 <==> (a / 2) % 2 == 1) && (bits
        & 0x0100 != 0 <==> a % 2 == 1) && (bits & 0x0080 != 0 <==> b >= 128) && (bits & 0x0040 != 0
        <==> (b / 64) % 2 == 1) && (bits & 0x0020 != 0 <==> (b / 32) % 2 == 1) && (bits & 0x0010
        != 0 <==> (b / 16) % 2 == 1) && (bits & 0x0f) as u8 == b % 16) by (bit_vector)
        requires
            bits == a * 256 + b,
    ;
}

/// Where the sections of a message stand: twelve bytes of header with the number of items of each,
/// then the questions, the answers, the authorities and the additional records, one behind the
/// other up to the last byte.
pub proof fn law_message_layout(packet: Seq<u8>)
    ensures
        packet.len() < 12 ==> msg::decode_message(packet) is Err,
        msg::decode_message(packet) matches Ok(m) ==> {
            let a = msg::decode_questions(packet, 12, pair(packet, 4) as nat)->Ok_0.1;
            let b = msg::decode_records(packet, a, pair(packet, 6) as nat)->Ok_0.1;
            let c = msg::decode_records(packet, b, pair(packet, 8) as nat)->Ok_0.1;
            &&& m.header == MsgHeader::of_bits(msg::u16_at(packet, 0), msg::u16_at(packet, 2))
            &&& !m.compress
            &&& msg::decode_questions(packet, 12, pair(packet, 4) as nat) == Ok::<
                (Seq<QuestionView>, int),
                MsgError,
            >((m.questions, a))
            &&& msg::decode_records(packet, a, pair(packet, 6) as nat) == Ok::<
                (Seq<RecordView>, int),
                MsgError,
            >((m.answers, b))
            &&& msg::decode_records(packet, b, pair(packet, 8) as nat) == Ok::<
                (Seq<RecordView>, int),
                MsgError,
            >((m.authorities, c))
            &&& msg::decode_records(packet, c, pair(packet, 10) as nat) == Ok::<
                (Seq<RecordView>, int),
                MsgError,
            >((m.additionals, packet.len() as int))
        },
{
    lemma_pair(packet, 4);
    lemma_pair(packet, 6);
    lemma_pair(packet, 8);
    lemma_pair(packet, 10);
}

/// The items of a section, and where each starts: `starts[k]` for the one at `k`, and behind the
/// last of them the end of the section.
pub open spec fn records_stand(
    packet: Seq<u8>,
    starts: Seq<int>,
    records: Seq<RecordView>,
) -> bool {
    &&& starts.len() == records.len() + 1
    &&& forall|k: int|
        0 <= k < records.len() ==> msg::decode_record(packet, #[trigger] starts[k]) == Ok::<
            (RecordView, int),
            MsgError,
        >((records[k], starts[k + 1]))
}

/// The records of a section follow one behind the other, as many as were asked for.
pub proof fn law_records_follow_each_other(packet: Seq<u8>, at: int, count: nat)
    ensures
        msg::decode_records(packet, at, count) matches Ok((records, end)) ==> records.len() == count
            && exists|starts: Seq<int>| #[trigger]
            records_stand(packet, starts, records) && starts[0] == at && starts[count as int]
                == end,
    decreases count,
{
    if count == 0 {
        assert(records_stand(packet, seq![at], Seq::empty()));
    } else if let Ok((records, end)) = msg::decode_records(packet, at, count) {
        let less = (count - 1) as nat;
        law_records_follow_each_other(packet, at, less);
        let (before, next) = msg::decode_records(packet, at, less)->Ok_0;
        let starts = choose|starts: Seq<int>| #[trigger]
            records_stand(packet, starts, before) && starts[0] == at && starts[less as int] == next;
        let all = starts.push(end);
        assert forall|k: int| 0 <= k < records.len() implies msg::decode_record(
            packet,
            #[trigger] all[k],
        ) == Ok::<(RecordView, int), MsgError>((records[k], all[k + 1])) by {
            if k < before.len() {
                assert(all[k] == starts[k]);
            }
        }
        assert(records_stand(packet, all, records));
    }
}

/// The questions of a section, and where each starts.
pub open spec fn questions_stand(
    packet: Seq<u8>,
    starts: Seq<int>,
    questions: Seq<QuestionView>,
) -> bool {
    &&& starts.len() == questions.len() + 1
    &&& forall|k: int|
        0 <= k < questions.len() ==> msg::decode_question(packet, #[trigger] starts[k]) == Ok::<
            (QuestionView, int),
            MsgError,
        >((questions[k], starts[k + 1]))
}

/// The questions follow one behind the other, as many as were asked for.
pub proof fn law_questions_follow_each_other(packet: Seq<u8>, at: int, count: nat)
    ensures
        msg::decode_questions(packet, at, count) matches Ok((questions, end)) ==> questions.len()
            == count && exists|starts: Seq<int>| #[trigger]
            questions_stand(packet, starts, questions) && starts[0] == at && starts[count as int]
                == end,
    decreases count,
{
    if count == 0 {
        assert(questions_stand(packet, seq![at], Seq::empty()));
    } else if let Ok((questions, end)) = msg::decode_questions(packet, at, count) {
        let less = (count - 1) as nat;
        law_questions_follow_each_other(packet, at, less);
        let (before, next) = msg::decode_questions(packet, at, less)->Ok_0;
        let starts = choose|starts: Seq<int>| #[trigger]
            questions_stand(packet, starts, before) && starts[0] == at && starts[less as int]
                == next;
        let all = starts.push(end);
        assert forall|k: int| 0 <= k < questions.len() implies msg::decode_question(
            packet,
            #[trigger] all[k],
        ) == Ok::<(QuestionView, int), MsgError>((questions[k], all[k + 1])) by {
            if k < before.len() {
                assert(all[k] == starts[k]);
            }
        }
        assert(questions_stand(packet, all, questions));
    }
}

/// Behind the name of a question stand its type and its class; behind that of a record its type,
/// its class, its time to live, the length of its data and the data. Nothing else keeps an item
/// whose name is read from being read.
pub proof fn law_item_layout(packet: Seq<u8>, at: int)
    ensures
        match msg::name_at(packet, at) {
            Err(e) => msg::decode_question(packet, at) == Err::<(QuestionView, int), MsgError>(e)
                && msg::decode_record(packet, at) == Err::<(RecordView, int), MsgError>(e),
            Ok((name, next)) => {
                &&& match msg::decode_question(packet, at) {
                    Ok((q, end)) => end == next + 4 && end <= packet.len() && q.name == name
                        && q.qtype.number() == pair(packet, next) && q.qclass == pair(
                        packet,
                        next + 2,
                    ),
                    Err(_) => next + 4 > packet.len(),
                }
                &&& match msg::decode_record(packet, at) {
                    Ok((r, end)) => end == next + 10 + pair(packet, next + 8) && end <= packet.len()
                        && r.name == name && r.rr_type.number() == pair(packet, next) && r.rr_class
                        == pair(packet, next + 2) && r.ttl == pair(packet, next + 4) * 65536 + pair(
                        packet,
                        next + 6,
                    ) && r.rdata == packet.subrange(next + 10, end),
                    Err(_) => next + 10 > packet.len() || next + 10 + pair(packet, next + 8)
                        > packet.len(),
                }
            },
        },
{
    if let Ok((name, next)) = msg::name_at(packet, at) {
        lemma_pair(packet, next);
        lemma_pair(packet, next + 2);
        lemma_pair(packet, next + 8);
    }
}

/// Addresses of four bytes have type 1, those of sixteen bytes type 28, and no other number is
/// one of them.
pub proof fn law_address_types(n: u16)
    ensures
        RrType::of_number(n) is A <==> n == 1,
        RrType::of_number(n) is AAAA <==> n == 28,
        RrType::A.number() == 1,
        RrType::AAAA.number() == 28,
{
}

/// A message fills its packet: with more behind it, it is none.
pub proof fn law_nothing_may_follow(packet: Seq<u8>, more: Seq<u8>)
    requires
        msg::decode_message(packet) is Ok,
        more.len() > 0,
    ensures
        msg::decode_message(packet + more) is Err,
{
    let longer = packet + more;
    law_message_layout(packet);
    assert forall|i: int| 0 <= i < 11 implies pair(longer, i) == pair(packet, i) by {}
    lemma_pair(longer, 4);
    lemma_pair(longer, 6);
    lemma_pair(longer, 8);
    lemma_pair(longer, 10);
    let a = msg::decode_questions(packet, 12, pair(packet, 4) as nat)->Ok_0.1;
    let b = msg::decode_records(packet, a, pair(packet, 6) as nat)->Ok_0.1;
    let c = msg::decode_records(packet, b, pair(packet, 8) as nat)->Ok_0.1;
    lemma_questions_before(packet, more, 12, pair(packet, 4) as nat);
    lemma_records_before(packet, more, a, pair(packet, 6) as nat);
    lemma_records_before(packet, more, b, pair(packet, 8) as nat);
    lemma_records_before(packet, more, c, pair(packet, 10) as nat);
}

proof fn lemma_name_before(
    packet: Seq<u8>,
    more: Seq<u8>,
    at: int,
    pointers: nat,
    room: nat,
)
    requires
        msg::decode_name(packet, at, pointers, room) is Ok,
    ensures
        msg::decode_name(packet + more, at, pointers, room) == msg::decode_name(
            packet,
            at,
            pointers,
            room,
        ),
        msg::decode_name(packet, at, pointers, room)->Ok_0.1 > at >= 0,
    decreases pointers, room,
{
    let len = packet[at];
    let longer = packet + more;
    assert(longer[at] == len);
    if len >= 192 {
        assert(longer[at + 1] == packet[at + 1]);
        lemma_name_before(
            packet,
            more,
            msg::pointer_target(len, packet[at + 1]),
            (pointers - 1) as nat,
            room,
        );
    } else if len > 0 {
        lemma_name_before(packet, more, at + 1 + len, pointers, (room - 1 - len) as nat);
        assert(longer.subrange(at + 1, at + 1 + len) =~= packet.subrange(at + 1, at + 1 + len));
    }
}

proof fn lemma_questions_before(packet: Seq<u8>, more: Seq<u8>, at: int, count: nat)
    requires
        msg::decode_questions(packet, at, count) is Ok,
    ensures
        msg::decode_questions(packet + more, at, count) == msg::decode_questions(packet, at, count),
    decreases count,
{
    if count > 0 {
        lemma_questions_before(packet, more, at, (count - 1) as nat);
        let next = msg::decode_questions(packet, at, (count - 1) as nat)->Ok_0.1;
        lemma_name_before(packet, more, next, 128, 254);
    }
}

proof fn lemma_records_before(packet: Seq<u8>, more: Seq<u8>, at: int, count: nat)
    requires
        msg::decode_records(packet, at, count) is Ok,
    ensures
        msg::decode_records(packet + more, at, count) == msg::decode_records(packet, at, count),
    decreases count,
{
    if count > 0 {
        lemma_records_before(packet, more, at, (count - 1) as nat);
        let next = msg::decode_records(packet, at, (count - 1) as nat)->Ok_0.1;
        lemma_name_before(packet, more, next, 128, 254);
        let fields = msg::name_at(packet, next)->Ok_0.1;
        let end = fields + 10 + msg::u16_at(packet, fields + 8);
        let longer = packet + more;
        assert(longer.subrange(fields + 10, end) =~= packet.subrange(fields + 10, end));
        assert(wire::be32_at(longer, fields + 4) == wire::be32_at(packet, fields + 4));
    }
}

/// The type that a message asks for is that of its first question.
pub proof fn law_first_question_is_asked(packet: Seq<u8>)
    requires
        msg::decode_message(packet) is Ok,
    ensures
        msg::decode_message(packet) matches Ok(m) && answers::asked_type(packet) == (
        if m.questions.len() == 0 {
            None
        } else {
            Some(m.questions[0].qtype)
        }),
{
    law_message_layout(packet);
    lemma_pair(packet, 4);
    let count = pair(packet, 4) as nat;
    law_questions_follow_each_other(packet, 12, count);
    let (questions, end) = msg::decode_questions(packet, 12, count)->Ok_0;
    let starts = choose|starts: Seq<int>| #[trigger]
        questions_stand(packet, starts, questions) && starts[0] == 12 && starts[count as int]
            == end;
    if count > 0 {
        assert(msg::decode_question(packet, starts[0]) is Ok);
        rewrite::law_skip_agrees_with_decode(packet, 12, 128, 254);
    }
}

/// A record holds an address exactly where its class is 1, its type that of the family and its
/// data the bytes of the address.
pub proof fn law_records_hold_addresses(r: RecordView, ip: IpAddr)
    ensures
        answers::record_ip(r) == Some(ip) <==> r.rr_class == 1 && r.rdata == ip.octets_spec() && (
        ip is V4 ==> r.rr_type is A) && (ip is V6 ==> r.rr_type is AAAA),
        answers::record_ip(r) is Some <==> r.rr_class == 1 && (r.rr_type is A && r.rdata.len() == 4
            || r.rr_type is AAAA && r.rdata.len() == 16),
{
    let o = ip.octets_spec();
    assert(o.subrange(0, o.len() as int) =~= o);
    net::law_octets_round_trip(ip, o, 0);
    if let Some(found) = answers::record_ip(r) {
        net::law_bytes_give_addresses(r.rdata, 0);
        assert(r.rdata.subrange(0, r.rdata.len() as int) =~= r.rdata);
    }
}

/// The addresses of records are those of all that hold one, in their order.
pub proof fn law_every_address_is_listed(records: Seq<RecordView>)
    ensures
        answers::record_ips(records) == records.filter(
            |r: RecordView| answers::record_ip(r) is Some,
        ).map_values(|r: RecordView| answers::record_ip(r)->0),
    decreases records.len(),
{
    reveal(Seq::filter);
    let holds = |r: RecordView| answers::record_ip(r) is Some;
    let address = |r: RecordView| answers::record_ip(r)->0;
    if records.len() > 0 {
        let rest = records.drop_last();
        law_every_address_is_listed(rest);
        if holds(records.last()) {
            assert(records.filter(holds) =~= rest.filter(holds).push(records.last()));
            assert(records.filter(holds).map_values(address) =~= rest.filter(holds).map_values(
                address,
            ).push(address(records.last())));
        } else {
            assert(records.filter(holds) =~= rest.filter(holds));
        }
    } else {
        assert(records.filter(holds).map_values(address) =~= Seq::empty());
    }
}

/// Replacing addresses keeps everything else of a record.
pub proof fn law_only_addresses_are_replaced(r: RecordView, ip: IpAddr)
    ensures
        ({
            let s = answers::with_ip(r, ip);
            &&& s.name == r.name && s.rr_type == r.rr_type && s.rr_class == r.rr_class && s.ttl
                == r.ttl
            &&& s.rdata.len() == r.rdata.len()
            &&& answers::record_ip(s) == (match answers::record_ip(r) {
                Some(found) => if found is V4 == ip is V4 {
                    Some(ip)
                } else {
                    Some(found)
                },
                None => None,
            })
            &&& answers::record_ip(r) is None ==> s == r
        }),
{
    let one = seq![r];
    answers::law_rewrite_selects(one, ip);
    assert(answers::with_ips(one, ip)[0] == answers::with_ip(one[0], ip));
    assert(one[0] == r);
    law_records_hold_addresses(r, ip);
}

/// What a packet says of addresses is what its message says, and a packet that is none says
/// nothing.
pub proof fn law_packets_without_messages_hold_no_address(packet: Seq<u8>, ip: IpAddr)
    ensures
        msg::decode_message(packet) is Err ==> answers::packet_ips(packet).len() == 0
            && !answers::packet_has_ip(packet, ip),
        msg::decode_message(packet) matches Ok(m) ==> answers::packet_ips(packet)
            == answers::record_ips(m.answers) && (answers::packet_has_ip(packet, ip) <==> exists|
            k: int,
        |
            0 <= k < m.answers.len() && answers::record_ip(#[trigger] m.answers[k]) == Some(ip)),
{
}

} // verus!
