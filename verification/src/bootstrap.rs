//! Looking up the addresses of upstream servers: queries to bootstrap resolvers and their
//! responses.

use crate::errors::DoHError;
use crate::net;
use crate::net::IpAddr;
use crate::text;
use crate::upstream::msg;
use crate::upstream::msg::{MessageView, MsgError, MsgHeader, QuestionView};
use crate::upstream::round_trip;
use crate::upstream::rr_types::RrType;
use crate::wire;
use vstd::prelude::*;
use vstd::utf8::*;

verus! {

pub const BOOTSTRAP_DNS_FLAG_QR: u16 = 0x8000;

pub const BOOTSTRAP_DNS_CLASS_IN: u16 = 1;

pub const BOOTSTRAP_DNS_TYPE_A: u16 = 1;

pub const BOOTSTRAP_DNS_TYPE_AAAA: u16 = 28;

/// What a resolver said of a host.
#[derive(Clone, Debug)]
pub struct BootstrapDnsResult {
    pub addrs: Vec<IpAddr>,
    pub min_ttl_secs: u32,
}

/// A label that the query can carry.
pub open spec fn label_ok(label: Seq<char>) -> bool {
    let bytes = encode_utf8(label);
    0 < bytes.len() <= 63 && !bytes.contains(0)
}

/// The host without trailing dots.
pub open spec fn query_host(host: Seq<char>) -> Seq<char> {
    text::without_trailing(host, '.')
}

/// The labels of a host.
pub open spec fn host_labels(host: Seq<char>) -> Seq<Seq<char>> {
    text::split_on(query_host(host), '.')
}

/// The bytes of labels.
pub open spec fn labels_utf8(labels: Seq<Seq<char>>) -> Seq<Seq<u8>> {
    labels.map_values(|l: Seq<char>| encode_utf8(l))
}

/// A host that can be asked for.
pub open spec fn host_ok(host: Seq<char>) -> bool {
    query_host(host).len() > 0 && forall|i: int|
        0 <= i < host_labels(host).len() ==> label_ok(#[trigger] host_labels(host)[i])
}

/// The twelve bytes in front of the question: the identifier, the flag that asks for recursion,
/// and one question.
pub open spec fn query_header(id: u16) -> Seq<u8> {
    wire::be16_bytes(id as int) + wire::be16_bytes(0x0100) + wire::be16_bytes(1)
        + wire::be16_bytes(0) + wire::be16_bytes(0) + wire::be16_bytes(0)
}

/// The query for the records of type `qtype` of a host.
pub open spec fn query_bytes(host: Seq<char>, qtype: u16, id: u16) -> Seq<u8> {
    query_header(id) + msg::encode_name(labels_utf8(host_labels(host))) + wire::be16_bytes(
        qtype as int,
    ) + wire::be16_bytes(BOOTSTRAP_DNS_CLASS_IN as int)
}

fn has_zero(bytes: &[u8]) -> (found: bool)
    ensures
        found == bytes@.contains(0),
{
    let mut i: usize = 0;
    while i < bytes.len()
        invariant
            i <= bytes@.len(),
            forall|j: int| 0 <= j < i ==> bytes@[j] != 0,
        decreases bytes@.len() - i,
    {
        if bytes[i] == 0 {
            assert(bytes@[i as int] == 0);
            return true;
        }
        i = i + 1;
    }
    false
}

/// The query for the records of type `qtype` of a host, with the given identifier.
pub fn bootstrap_dns_query(host: &str, qtype: u16, query_id: u16) -> (r: Result<Vec<u8>, DoHError>)
    ensures
        match r {
            Ok(packet) => host_ok(host@) && packet@ == query_bytes(host@, qtype, query_id),
            Err(e) => !host_ok(host@) && e is UpstreamIssue,
        },
{
    let bare = text::trim_end_matches(host, '.');
    if bare.as_str().is_empty() {
        proof {
            lemma_empty_bytes(bare@);
        }
        return Err(DoHError::UpstreamIssue);
    }
    let mut packet: Vec<u8> = Vec::new();
    wire::push_u16(&mut packet, query_id);
    wire::push_u16(&mut packet, 0x0100);
    wire::push_u16(&mut packet, 1);
    wire::push_u16(&mut packet, 0);
    wire::push_u16(&mut packet, 0);
    wire::push_u16(&mut packet, 0);
    let parts = text::split(bare.as_str(), '.');
    let ghost labels = host_labels(host@);
    let ghost bytes = labels_utf8(labels);
    assert(packet@ =~= query_header(query_id));
    assert(bytes.take(0) =~= Seq::empty());
    assert(packet@ =~= query_header(query_id) + msg::encode_labels(bytes.take(0)));
    assert(bare@.len() > 0) by {
        lemma_empty_bytes(bare@);
    }
    let mut i: usize = 0;
    while i < parts.len()
        invariant
            i <= parts@.len(),
            text::texts(parts@) == labels,
            labels == host_labels(host@),
            query_host(host@).len() > 0,
            bytes == labels_utf8(labels),
            packet@ == query_header(query_id) + msg::encode_labels(bytes.take(i as int)),
            forall|j: int| 0 <= j < i ==> label_ok(#[trigger] labels[j]),
        decreases parts@.len() - i,
    {
        assert(labels[i as int] == parts@[i as int]@);
        let label_bytes = parts[i].as_str().as_bytes();
        if label_bytes.len() == 0 || label_bytes.len() > 63 || has_zero(label_bytes) {
            assert(!label_ok(labels[i as int]));
            return Err(DoHError::UpstreamIssue);
        }
        proof {
            assert(bytes.take(i + 1) =~= bytes.take(i as int).push(bytes[i as int]));
            msg::lemma_encode_labels_push(bytes.take(i as int), bytes[i as int]);
        }
        packet.push(label_bytes.len() as u8);
        wire::push_all(&mut packet, label_bytes);
        assert(packet@ =~= query_header(query_id) + msg::encode_labels(bytes.take(i + 1)));
        i = i + 1;
    }
    assert(bytes.take(i as int) =~= bytes);
    packet.push(0);
    wire::push_u16(&mut packet, qtype);
    wire::push_u16(&mut packet, BOOTSTRAP_DNS_CLASS_IN);
    assert(packet@ =~= query_bytes(host@, qtype, query_id));
    Ok(packet)
}

proof fn lemma_empty_bytes(s: Seq<char>)
    ensures
        encode_utf8(s).len() == 0 <==> s.len() == 0,
{
    if s.len() > 0 {
        encode_utf8_first_scalar(s);
    }
}

/// `rand::random::<u16>`: some number of sixteen bits, a new one each time.
#[verifier::external_body]
fn random_u16() -> (n: u16) {
    rand::random::<u16>()
}

/// A query under an identifier that cannot be foreseen, and that identifier.
pub fn build_bootstrap_dns_query(host: &str, qtype: u16) -> (r: Result<(Vec<u8>, u16), DoHError>)
    ensures
        match r {
            Ok((packet, id)) => host_ok(host@) && packet@ == query_bytes(host@, qtype, id),
            Err(e) => !host_ok(host@) && e is UpstreamIssue,
        },
{
    let query_id: u16 = random_u16();
    match bootstrap_dns_query(host, qtype, query_id) {
        Ok(packet) => Ok((packet, query_id)),
        Err(e) => Err(e),
    }
}

/// The message that a query is.
pub open spec fn query_message(host: Seq<char>, qtype: u16, id: u16) -> MessageView {
    MessageView {
        header: MsgHeader::of_bits(id, 0x0100),
        compress: false,
        questions: seq![
            QuestionView {
                name: labels_utf8(host_labels(host)),
                qtype: RrType::of_number(qtype),
                qclass: BOOTSTRAP_DNS_CLASS_IN,
            },
        ],
        answers: Seq::empty(),
        authorities: Seq::empty(),
        additionals: Seq::empty(),
    }
}

/// A query for a host whose name keeps to the protocol's length is a message with that one
/// question.
pub proof fn law_query_asks_for_host(host: Seq<char>, qtype: u16, id: u16)
    requires
        host_ok(host),
        msg::labels_wire_len(labels_utf8(host_labels(host))) <= 254,
    ensures
        msg::decode_message(query_bytes(host, qtype, id)) == Ok::<MessageView, MsgError>(
            query_message(host, qtype, id),
        ),
{
    let m = query_message(host, qtype, id);
    let labels = labels_utf8(host_labels(host));
    msg::law_header_bits_round_trip(id, 0x0100);
    assert forall|i: int| 0 <= i < labels.len() implies 1 <= (#[trigger] labels[i]).len()
        < 64 by {
        assert(label_ok(host_labels(host)[i]));
    }
    lemma_question_alone(m.questions[0]);
    assert(m.questions =~= seq![m.questions[0]]);
    lemma_query_header(m, id);
    lemma_query_encoded(m, host, qtype, id);
    round_trip::law_message_round_trip(m);
}

proof fn lemma_question_alone(q: QuestionView)
    requires
        msg::packable(q.name),
    ensures
        msg::encode_questions(seq![q]) == Ok::<Seq<u8>, MsgError>(msg::encode_question(q)),
{
    let one = seq![q];
    assert(one.drop_last() =~= Seq::empty());
    assert(msg::encode_questions(one.drop_last()) == Ok::<Seq<u8>, MsgError>(Seq::empty()));
    assert(Seq::<u8>::empty() + msg::encode_question(q) =~= msg::encode_question(q));
}

proof fn lemma_query_header(m: MessageView, id: u16)
    requires
        m.header.id == id,
        m.header.bits() == 0x0100,
        m.questions.len() == 1,
        m.answers.len() == 0,
        m.authorities.len() == 0,
        m.additionals.len() == 0,
    ensures
        msg::encode_header(m) == query_header(id),
{
}

proof fn lemma_query_encoded(m: MessageView, host: Seq<char>, qtype: u16, id: u16)
    requires
        m.questions.len() == 1,
        m.answers == Seq::<msg::RecordView>::empty(),
        m.authorities == Seq::<msg::RecordView>::empty(),
        m.additionals == Seq::<msg::RecordView>::empty(),
        msg::encode_header(m) == query_header(id),
        msg::encode_questions(m.questions) == Ok::<Seq<u8>, MsgError>(
            msg::encode_question(m.questions[0]),
        ),
        m.questions[0].name == labels_utf8(host_labels(host)),
        m.questions[0].qtype.number() == qtype,
        m.questions[0].qclass == BOOTSTRAP_DNS_CLASS_IN,
    ensures
        msg::encode_message(m) == Ok::<Seq<u8>, MsgError>(query_bytes(host, qtype, id)),
{
    let h = query_header(id);
    let n = msg::encode_name(labels_utf8(host_labels(host)));
    let t = wire::be16_bytes(qtype as int);
    let c = wire::be16_bytes(BOOTSTRAP_DNS_CLASS_IN as int);
    let e = Seq::<u8>::empty();
    assert(h + (n + t + c) + e + e + e =~= h + n + t + c);
}

/// The labels of the name at `at`, and the position after it. At most `jumps` pointers are
/// followed.
pub open spec fn labels_at(packet: Seq<u8>, at: int, jumps: nat) -> Option<(Seq<Seq<u8>>, int)>
    decreases jumps, packet.len() - at,
{
    if !(0 <= at < packet.len()) {
        None
    } else {
        let len = packet[at];
        if len >= 192 {
            if at + 1 >= packet.len() || msg::pointer_target(len, packet[at + 1]) >= packet.len()
                || jumps == 0 {
                None
            } else {
                match labels_at(
                    packet,
                    msg::pointer_target(len, packet[at + 1]),
                    (jumps - 1) as nat,
                ) {
                    Some((labels, _)) => Some((labels, at + 2)),
                    None => None,
                }
            }
        } else if len >= 64 {
            None
        } else if len == 0 {
            Some((Seq::empty(), at + 1))
        } else if at + 1 + len > packet.len() {
            None
        } else {
            match labels_at(packet, at + 1 + len, jumps) {
                Some((labels, end)) => Some(
                    (seq![packet.subrange(at + 1, at + 1 + len)] + labels, end),
                ),
                None => None,
            }
        }
    }
}

/// The ASCII lower case of a byte.
pub open spec fn lower_byte(b: u8) -> u8 {
    if 65 <= b <= 90 {
        (b + 32) as u8
    } else {
        b
    }
}

/// The ASCII lower case of bytes.
pub open spec fn lower_bytes(s: Seq<u8>) -> Seq<u8> {
    s.map_values(|b: u8| lower_byte(b))
}

/// Labels in lower case, with a dot between each two.
pub open spec fn dotted(labels: Seq<Seq<u8>>) -> Seq<u8>
    decreases labels.len(),
{
    if labels.len() == 0 {
        Seq::empty()
    } else if labels.len() == 1 {
        lower_bytes(labels[0])
    } else {
        dotted(labels.drop_last()).push(46) + lower_bytes(labels.last())
    }
}

/// The name at `at` in lower case, each label followed by a dot (the root is a dot alone), and
/// the position after it.
pub open spec fn lower_name_at(packet: Seq<u8>, at: int) -> Option<(Seq<u8>, int)> {
    match labels_at(packet, at, packet.len()) {
        Some((labels, end)) => Some((dotted(labels).push(46), end)),
        None => None,
    }
}

/// The outcome of a name of which `labels` have been read, and a pointer passed where `jumped`
/// says so, when the rest is `rest`.
spec fn rest_of_name(
    labels: Seq<Seq<u8>>,
    jumped: bool,
    next: int,
    rest: Option<(Seq<Seq<u8>>, int)>,
) -> Option<(Seq<Seq<u8>>, int)> {
    match rest {
        Some((more, end)) => Some(
            (
                labels + more,
                if jumped {
                    next
                } else {
                    end
                },
            ),
        ),
        None => None,
    }
}

fn push_lower(name: &mut Vec<u8>, packet: &[u8], from: usize, to: usize)
    requires
        from <= to <= packet@.len(),
    ensures
        final(name)@ == old(name)@ + lower_bytes(packet@.subrange(from as int, to as int)),
{
    let ghost label = packet@.subrange(from as int, to as int);
    let mut i: usize = from;
    while i < to
        invariant
            from <= i <= to <= packet@.len(),
            label == packet@.subrange(from as int, to as int),
            name@ == old(name)@ + lower_bytes(label.take(i - from)),
        decreases to - i,
    {
        let b: u8 = packet[i];
        let low: u8 = if 65 <= b && b <= 90 {
            b + 32
        } else {
            b
        };
        name.push(low);
        assert(label.take(i - from + 1) =~= label.take(i - from).push(b));
        assert(name@ =~= old(name)@ + lower_bytes(label.take(i - from + 1)));
        i = i + 1;
    }
    assert(label.take(to - from) =~= label);
}

/// Reads the name at `start_offset` in lower case.
pub fn parse_dns_name_lower(packet: &[u8], start_offset: usize) -> (r: Result<
    (Vec<u8>, usize),
    DoHError,
>)
    ensures
        match r {
            Ok((name, next)) => lower_name_at(packet@, start_offset as int) == Some(
                (name@, next as int),
            ) && next <= packet.len(),
            Err(e) => lower_name_at(packet@, start_offset as int) is None && e is UpstreamIssue,
        },
{
    if start_offset >= packet.len() {
        return Err(DoHError::UpstreamIssue);
    }
    let mut cursor: usize = start_offset;
    let mut next_offset: usize = start_offset;
    let mut jumped = false;
    let mut jump_count: usize = 0;
    let mut first_label = true;
    let mut name: Vec<u8> = Vec::new();
    let ghost mut labels: Seq<Seq<u8>> = Seq::empty();
    assert(forall|s: Seq<Seq<u8>>| Seq::<Seq<u8>>::empty() + s =~= s);
    loop
        invariant
            jump_count <= packet@.len(),
            jumped ==> next_offset <= packet@.len(),
            first_label == (labels.len() == 0),
            name@ == dotted(labels),
            labels_at(packet@, start_offset as int, packet@.len()) == rest_of_name(
                labels,
                jumped,
                next_offset as int,
                labels_at(packet@, cursor as int, (packet@.len() - jump_count) as nat),
            ),
        decreases packet@.len() - jump_count, packet@.len() - cursor,
    {
        if cursor >= packet.len() {
            return Err(DoHError::UpstreamIssue);
        }
        let len: u8 = packet[cursor];
        if len >= 0xC0 {
            if packet.len() - cursor < 2 {
                return Err(DoHError::UpstreamIssue);
            }
            let ptr: usize = ((len - 0xC0) as usize) * 256 + packet[cursor + 1] as usize;
            if ptr >= packet.len() {
                return Err(DoHError::UpstreamIssue);
            }
            if !jumped {
                next_offset = cursor + 2;
                jumped = true;
            }
            cursor = ptr;
            if jump_count == packet.len() {
                return Err(DoHError::UpstreamIssue);
            }
            jump_count = jump_count + 1;
        } else if len < 0x40 {
            cursor = cursor + 1;
            if len == 0 {
                if !jumped {
                    next_offset = cursor;
                }
                assert(labels + Seq::<Seq<u8>>::empty() =~= labels);
                name.push(46);
                return Ok((name, next_offset));
            }
            let label_len: usize = len as usize;
            if packet.len() - cursor < label_len {
                return Err(DoHError::UpstreamIssue);
            }
            let ghost label = packet@.subrange(cursor as int, cursor + label_len);
            let ghost before = name@;
            if !first_label {
                name.push(46);
            }
            first_label = false;
            push_lower(&mut name, packet, cursor, cursor + label_len);
            proof {
                let all = labels.push(label);
                assert(all.drop_last() =~= labels);
                assert(name@ =~= dotted(all));
                assert(forall|s: Seq<Seq<u8>>| all + s =~= labels + (seq![label] + s));
                labels = all;
            }
            cursor = cursor + label_len;
        } else {
            return Err(DoHError::UpstreamIssue);
        }
    }
}

/// The name that is read back from a query is the host in lower case, for every host that can be
/// asked for, however long. In front of it stands the identifier, behind it what is asked for.
pub proof fn law_query_names_host(host: Seq<char>, qtype: u16, id: u16)
    requires
        host_ok(host),
    ensures
        ({
            let packet = query_bytes(host, qtype, id);
            &&& packet.take(2) == wire::be16_bytes(id as int)
            &&& lower_name_at(packet, 12) == Some(
                (lower_bytes(encode_utf8(query_host(host))).push(46), packet.len() - 4),
            )
            &&& packet.skip(packet.len() - 4) == wire::be16_bytes(qtype as int)
                + wire::be16_bytes(BOOTSTRAP_DNS_CLASS_IN as int)
        }),
{
    let packet = query_bytes(host, qtype, id);
    let labels = labels_utf8(host_labels(host));
    let h = query_header(id);
    let n = msg::encode_name(labels);
    let t = wire::be16_bytes(qtype as int);
    let c = wire::be16_bytes(BOOTSTRAP_DNS_CLASS_IN as int);
    assert forall|i: int| 0 <= i < labels.len() implies 1 <= (#[trigger] labels[i]).len()
        < 64 by {
        assert(label_ok(host_labels(host)[i]));
    }
    assert(packet.take(2) =~= wire::be16_bytes(id as int));
    assert(packet.skip(packet.len() - 4) =~= t + c);
    assert(round_trip::stands(packet, 0, packet));
    round_trip::lemma_stands_split(packet, 0, h + n + t, c);
    round_trip::lemma_stands_split(packet, 0, h + n, t);
    round_trip::lemma_stands_split(packet, 0, h, n);
    lemma_labels_back(packet, 12, labels, packet.len());
    text::law_split_join(query_host(host), '.');
    lemma_dotted_text(host_labels(host));
}

proof fn lemma_labels_back(packet: Seq<u8>, at: int, labels: Seq<Seq<u8>>, jumps: nat)
    requires
        forall|i: int| 0 <= i < labels.len() ==> 1 <= (#[trigger] labels[i]).len() < 64,
        round_trip::stands(packet, at, msg::encode_name(labels)),
    ensures
        labels_at(packet, at, jumps) == Some((labels, at + msg::encode_name(labels).len())),
    decreases labels.len(),
{
    let bytes = msg::encode_name(labels);
    if labels.len() == 0 {
        assert(bytes =~= seq![0u8]);
        assert(packet[at + 0] == bytes[0]);
        assert(labels =~= Seq::empty());
    } else {
        let first = labels[0];
        let rest = labels.skip(1);
        let head = seq![first.len() as u8] + first;
        assert(bytes =~= head + msg::encode_name(rest));
        round_trip::lemma_stands_split(packet, at, head, msg::encode_name(rest));
        assert(packet[at + 0] == head[0]);
        assert forall|i: int| 0 <= i < rest.len() implies 1 <= (#[trigger] rest[i]).len() < 64 by {
            assert(rest[i] == labels[i + 1]);
        }
        lemma_labels_back(packet, at + 1 + first.len(), rest, jumps);
        assert(packet.subrange(at + 1, at + 1 + first.len()) =~= first) by {
            assert forall|i: int| 0 <= i < first.len() implies packet[at + 1 + i] == first[i] by {
                assert(head[i + 1] == first[i]);
                assert(packet[at + (i + 1)] == head[i + 1]);
            }
        }
        assert(seq![first] + rest =~= labels);
    }
}

proof fn lemma_utf8_concat(a: Seq<char>, b: Seq<char>)
    ensures
        encode_utf8(a + b) == encode_utf8(a) + encode_utf8(b),
    decreases a.len(),
{
    if a.len() == 0 {
        assert(a + b =~= b);
        assert(encode_utf8(a) + encode_utf8(b) =~= encode_utf8(b));
    } else {
        lemma_utf8_concat(a.drop_first(), b);
        assert((a + b).drop_first() =~= a.drop_first() + b);
        assert(encode_utf8(a + b) =~= encode_utf8(a) + encode_utf8(b));
    }
}

proof fn lemma_dotted_first(first: Seq<u8>, rest: Seq<Seq<u8>>)
    requires
        rest.len() > 0,
    ensures
        dotted(seq![first] + rest) == lower_bytes(first).push(46) + dotted(rest),
    decreases rest.len(),
{
    let all = seq![first] + rest;
    if rest.len() == 1 {
        assert(all.drop_last() =~= seq![first]);
        assert(dotted(seq![first]) == lower_bytes(first));
    } else {
        lemma_dotted_first(first, rest.drop_last());
        assert(all.drop_last() =~= seq![first] + rest.drop_last());
    }
    assert(all.last() == rest.last());
    assert(dotted(all) =~= lower_bytes(first).push(46) + dotted(rest));
}

/// The labels of a text with a dot between each two are the text.
proof fn lemma_dotted_text(parts: Seq<Seq<char>>)
    requires
        parts.len() > 0,
    ensures
        dotted(labels_utf8(parts)) == lower_bytes(encode_utf8(text::join_with(parts, '.'))),
    decreases parts.len(),
{
    if parts.len() > 1 {
        let rest = parts.skip(1);
        let dot = seq!['.'];
        lemma_dotted_text(rest);
        assert(labels_utf8(parts) =~= seq![encode_utf8(parts[0])] + labels_utf8(rest));
        lemma_dotted_first(encode_utf8(parts[0]), labels_utf8(rest));
        assert(text::join_with(parts, '.') =~= parts[0] + (dot + text::join_with(rest, '.')));
        lemma_utf8_concat(parts[0], dot + text::join_with(rest, '.'));
        lemma_utf8_concat(dot, text::join_with(rest, '.'));
        is_ascii_chars_encode_utf8(dot);
        assert(encode_utf8(dot) =~= seq![46u8]);
        assert(dotted(labels_utf8(parts)) =~= lower_bytes(
            encode_utf8(text::join_with(parts, '.')),
        ));
    }
}

/// A name that decodes within the limits of the protocol is also found by the looser rules for
/// bootstrap responses, with the same labels and the same end.
pub proof fn law_names_agree(packet: Seq<u8>, at: int)
    ensures
        msg::name_at(packet, at) matches Ok((labels, end)) ==> labels_at(packet, at, packet.len())
            == Some((labels, end)),
{
    let pointers = msg::MAX_COMPRESSION_POINTERS as nat;
    if msg::name_at(packet, at) is Ok {
        lemma_jumps_bounded(packet, at, pointers, 254);
        lemma_names_agree(packet, at, pointers, 254, packet.len());
    }
}

/// How many pointers are followed in reading a name.
spec fn jumps_of(packet: Seq<u8>, at: int, pointers: nat, room: nat) -> nat
    decreases pointers, room,
{
    if !(0 <= at < packet.len()) {
        0
    } else {
        let len = packet[at];
        if len >= 192 {
            if at + 1 < packet.len() && pointers > 0 {
                1 + jumps_of(
                    packet,
                    msg::pointer_target(len, packet[at + 1]),
                    (pointers - 1) as nat,
                    room,
                )
            } else {
                0
            }
        } else if 0 < len < 64 && at + 1 + len <= packet.len() && room >= 1 + len {
            jumps_of(packet, at + 1 + len, pointers, (room - 1 - len) as nat)
        } else {
            0
        }
    }
}

proof fn lemma_names_agree(packet: Seq<u8>, at: int, pointers: nat, room: nat, jumps: nat)
    requires
        jumps >= jumps_of(packet, at, pointers, room),
    ensures
        msg::decode_name(packet, at, pointers, room) matches Ok((labels, end)) ==> labels_at(
            packet,
            at,
            jumps,
        ) == Some((labels, end)),
    decreases pointers, room,
{
    if 0 <= at < packet.len() {
        let len = packet[at];
        if len >= 192 {
            if at + 1 < packet.len() && pointers > 0 {
                lemma_names_agree(
                    packet,
                    msg::pointer_target(len, packet[at + 1]),
                    (pointers - 1) as nat,
                    room,
                    (jumps - 1) as nat,
                );
            }
        } else if 0 < len < 64 && at + 1 + len <= packet.len() && room >= 1 + len {
            lemma_names_agree(packet, at + 1 + len, pointers, (room - 1 - len) as nat, jumps);
        }
    }
}

/// The pointer that ends the labels at `at`, where one does.
spec fn pointer_after(packet: Seq<u8>, at: int) -> Option<int>
    decreases packet.len() - at,
{
    if !(0 <= at < packet.len()) {
        None
    } else {
        let len = packet[at];
        if len >= 192 {
            Some(at)
        } else if 0 < len < 64 && at + 1 + len <= packet.len() {
            pointer_after(packet, at + 1 + len)
        } else {
            None
        }
    }
}

/// The `i`-th pointer that is met in reading the name at `at`.
spec fn nth_pointer(packet: Seq<u8>, at: int, i: nat) -> Option<int>
    decreases i,
{
    if i == 0 {
        pointer_after(packet, at)
    } else {
        match nth_pointer(packet, at, (i - 1) as nat) {
            Some(q) => pointer_after(packet, msg::pointer_target(packet[q], packet[q + 1])),
            None => None,
        }
    }
}

proof fn lemma_pointer_inside(packet: Seq<u8>, at: int)
    ensures
        pointer_after(packet, at) matches Some(q) ==> 0 <= q < packet.len(),
    decreases packet.len() - at,
{
    if 0 <= at < packet.len() {
        let len = packet[at];
        if 0 < len < 64 && at + 1 + len <= packet.len() {
            lemma_pointer_inside(packet, at + 1 + len);
        }
    }
}

proof fn lemma_nth_inside(packet: Seq<u8>, at: int, i: nat)
    ensures
        nth_pointer(packet, at, i) matches Some(q) ==> 0 <= q < packet.len(),
{
    if i == 0 {
        lemma_pointer_inside(packet, at);
    } else if let Some(q) = nth_pointer(packet, at, (i - 1) as nat) {
        lemma_pointer_inside(packet, msg::pointer_target(packet[q], packet[q + 1]));
    }
}

/// Two names that start before the same pointer meet the same pointers.
proof fn lemma_same_start(packet: Seq<u8>, a: int, b: int, i: nat)
    requires
        pointer_after(packet, a) == pointer_after(packet, b),
    ensures
        nth_pointer(packet, a, i) == nth_pointer(packet, b, i),
    decreases i,
{
    if i > 0 {
        lemma_same_start(packet, a, b, (i - 1) as nat);
    }
}

/// The pointers behind the first are those of the name that it leads to.
proof fn lemma_behind_first(packet: Seq<u8>, at: int, target: int, i: nat)
    requires
        pointer_after(packet, at) matches Some(q) && target == msg::pointer_target(
            packet[q],
            packet[q + 1],
        ),
    ensures
        nth_pointer(packet, at, i + 1) == nth_pointer(packet, target, i),
    decreases i,
{
    if i > 0 {
        lemma_behind_first(packet, at, target, (i - 1) as nat);
    } else {
        assert(nth_pointer(packet, at, 0) == pointer_after(packet, at));
    }
}

/// A name that decodes meets as many pointers as are followed, and no more.
proof fn lemma_pointers_met(packet: Seq<u8>, at: int, pointers: nat, room: nat, i: nat)
    requires
        msg::decode_name(packet, at, pointers, room) is Ok,
        i <= jumps_of(packet, at, pointers, room),
    ensures
        nth_pointer(packet, at, i) is Some <==> i < jumps_of(packet, at, pointers, room),
    decreases pointers, room,
{
    let len = packet[at];
    if len >= 192 {
        let target = msg::pointer_target(len, packet[at + 1]);
        if i > 0 {
            lemma_behind_first(packet, at, target, (i - 1) as nat);
            lemma_pointers_met(packet, target, (pointers - 1) as nat, room, (i - 1) as nat);
        }
    } else if len > 0 {
        lemma_same_start(packet, at, at + 1 + len, i);
        lemma_pointers_met(packet, at + 1 + len, pointers, (room - 1 - len) as nat, i);
    } else if i > 0 {
        assert(jumps_of(packet, at, pointers, room) == 0);
    }
}

/// A pointer that is met again leads to the same pointers again.
proof fn lemma_met_again(packet: Seq<u8>, at: int, i: nat, j: nat, k: nat)
    requires
        nth_pointer(packet, at, i) == nth_pointer(packet, at, j),
    ensures
        nth_pointer(packet, at, i + k) == nth_pointer(packet, at, j + k),
    decreases k,
{
    if k > 0 {
        lemma_met_again(packet, at, i, j, (k - 1) as nat);
    }
}

/// No name that decodes follows more pointers than its packet has bytes: it meets none twice.
proof fn lemma_jumps_bounded(packet: Seq<u8>, at: int, pointers: nat, room: nat)
    requires
        msg::decode_name(packet, at, pointers, room) is Ok,
    ensures
        jumps_of(packet, at, pointers, room) <= packet.len(),
{
    let m = jumps_of(packet, at, pointers, room);
    let met = Seq::new(m, |i: int| nth_pointer(packet, at, i as nat)->0);
    assert forall|i: int, j: int| 0 <= i < j < m implies met[i] != met[j] by {
        lemma_pointers_met(packet, at, pointers, room, i as nat);
        lemma_pointers_met(packet, at, pointers, room, j as nat);
        if met[i] == met[j] {
            let k = (m - j) as nat;
            lemma_met_again(packet, at, i as nat, j as nat, k);
            lemma_pointers_met(packet, at, pointers, room, m);
            lemma_pointers_met(packet, at, pointers, room, (i + k) as nat);
        }
    }
    assert forall|i: int| 0 <= i < m implies 0 <= #[trigger] met[i] < packet.len() by {
        lemma_pointers_met(packet, at, pointers, room, i as nat);
        lemma_nth_inside(packet, at, i as nat);
    }
    lemma_distinct_below(met, packet.len());
}

/// Distinct numbers below a bound are no more than the bound.
proof fn lemma_distinct_below(s: Seq<int>, bound: nat)
    requires
        forall|i: int, j: int| 0 <= i < j < s.len() ==> s[i] != s[j],
        forall|i: int| 0 <= i < s.len() ==> 0 <= #[trigger] s[i] < bound,
    ensures
        s.len() <= bound,
{
    assert(s.no_duplicates());
    s.unique_seq_to_set();
    let range = vstd::set_lib::set_int_range(0, bound as int);
    vstd::set_lib::lemma_int_range(0, bound as int);
    assert(s.to_set().subset_of(range));
    vstd::set_lib::lemma_len_subset(s.to_set(), range);
}

/// What answers say: the addresses, the shortest time to live, and where they end.
pub struct AnswersView {
    pub addrs: Seq<IpAddr>,
    pub min_ttl: u32,
    pub end: int,
}

/// The address that a record's data holds, for the type that was asked for.
pub open spec fn data_address(packet: Seq<u8>, fields: int, qtype: u16) -> Option<IpAddr> {
    let rdlen = msg::u16_at(packet, fields + 8);
    if qtype == BOOTSTRAP_DNS_TYPE_A && rdlen == 4 {
        Some(IpAddr::V4(wire::be32_at(packet, fields + 10) as u32))
    } else if qtype == BOOTSTRAP_DNS_TYPE_AAAA && rdlen == 16 {
        Some(IpAddr::V6(net::be128_at(packet, fields + 10) as u128))
    } else {
        None
    }
}

/// What the first `count` answers from `at` on say of the name that was asked for.
pub open spec fn answers_at(
    packet: Seq<u8>,
    at: int,
    count: nat,
    question: Seq<u8>,
    qtype: u16,
) -> Option<AnswersView>
    decreases count,
{
    if count == 0 {
        Some(AnswersView { addrs: Seq::empty(), min_ttl: u32::MAX, end: at })
    } else {
        match answers_at(packet, at, (count - 1) as nat, question, qtype) {
            None => None,
            Some(before) => match lower_name_at(packet, before.end) {
                None => None,
                Some((owner, fields)) => if packet.len() < fields + 10 || packet.len() < fields + 10
                    + msg::u16_at(packet, fields + 8) {
                    None
                } else {
                    Some(
                        answer_added(
                            before,
                            packet,
                            fields,
                            owner == question && msg::u16_at(packet, fields + 2)
                                == BOOTSTRAP_DNS_CLASS_IN && msg::u16_at(packet, fields) == qtype,
                            qtype,
                        ),
                    )
                },
            },
        }
    }
}

/// What is said with one more answer, which counts where it `matches` the question and holds an
/// address.
pub open spec fn answer_added(
    before: AnswersView,
    packet: Seq<u8>,
    fields: int,
    matching: bool,
    qtype: u16,
) -> AnswersView {
    let end = fields + 10 + msg::u16_at(packet, fields + 8);
    let ttl = wire::be32_at(packet, fields + 4) as u32;
    if matching {
        match data_address(packet, fields, qtype) {
            Some(ip) => AnswersView {
                addrs: before.addrs.push(ip),
                min_ttl: if ttl < before.min_ttl {
                    ttl
                } else {
                    before.min_ttl
                },
                end,
            },
            None => AnswersView { end, ..before },
        }
    } else {
        AnswersView { end, ..before }
    }
}

proof fn lemma_answers_stop(
    packet: Seq<u8>,
    at: int,
    count: nat,
    more: nat,
    question: Seq<u8>,
    qtype: u16,
)
    requires
        count <= more,
        answers_at(packet, at, count, question, qtype) is None,
    ensures
        answers_at(packet, at, more, question, qtype) is None,
    decreases more,
{
    if count < more {
        lemma_answers_stop(packet, at, count, (more - 1) as nat, question, qtype);
    }
}

/// Reads the answers of a response.
pub fn parse_bootstrap_answers(
    packet: &[u8],
    start: usize,
    ancount: usize,
    question_name: &Vec<u8>,
    qtype: u16,
) -> (r: Result<BootstrapDnsResult, DoHError>)
    ensures
        match r {
            Ok(result) => answers_at(
                packet@,
                start as int,
                ancount as nat,
                question_name@,
                qtype,
            ) matches Some(v) && v.addrs == result.addrs@ && v.min_ttl == result.min_ttl_secs,
            Err(e) => answers_at(packet@, start as int, ancount as nat, question_name@, qtype)
                is None && e is UpstreamIssue,
        },
{
    let mut offset: usize = start;
    let mut addrs: Vec<IpAddr> = Vec::new();
    let mut min_ttl_secs: u32 = u32::MAX;
    let mut i: usize = 0;
    while i < ancount
        invariant
            i <= ancount,
            answers_at(packet@, start as int, i as nat, question_name@, qtype) == Some(
                AnswersView { addrs: addrs@, min_ttl: min_ttl_secs, end: offset as int },
            ),
        decreases ancount - i,
    {
        let ghost next = (i + 1) as nat;
        proof {
            if answers_at(packet@, start as int, next, question_name@, qtype) is None {
                lemma_answers_stop(
                    packet@,
                    start as int,
                    next,
                    ancount as nat,
                    question_name@,
                    qtype,
                );
            }
        }
        let (owner_name, fields) = match parse_dns_name_lower(packet, offset) {
            Ok(found) => found,
            Err(e) => {
                return Err(e);
            },
        };
        if packet.len() - fields < 10 {
            return Err(DoHError::UpstreamIssue);
        }
        let rr_type: u16 = wire::read_u16(packet, fields);
        let rr_class: u16 = wire::read_u16(packet, fields + 2);
        let rr_ttl: u32 = wire::read_u32(packet, fields + 4);
        let rdlen: usize = wire::read_u16(packet, fields + 8) as usize;
        let rdata_offset: usize = fields + 10;
        if packet.len() - rdata_offset < rdlen {
            return Err(DoHError::UpstreamIssue);
        }
        if wire::bytes_equal(owner_name.as_slice(), question_name.as_slice()) && rr_class
            == BOOTSTRAP_DNS_CLASS_IN && rr_type == qtype {
            if rr_type == BOOTSTRAP_DNS_TYPE_A && rdlen == 4 {
                addrs.push(net::read_ipv4(packet, rdata_offset));
                if rr_ttl < min_ttl_secs {
                    min_ttl_secs = rr_ttl;
                }
            } else if rr_type == BOOTSTRAP_DNS_TYPE_AAAA && rdlen == 16 {
                addrs.push(net::read_ipv6(packet, rdata_offset));
                if rr_ttl < min_ttl_secs {
                    min_ttl_secs = rr_ttl;
                }
            }
        }
        offset = rdata_offset + rdlen;
        i = i + 1;
    }
    Ok(BootstrapDnsResult { addrs, min_ttl_secs })
}

/// Where `count` further questions from `at` on may end when their names are skipped by `skip`.
pub open spec fn skipped<F: Fn(&[u8], usize) -> Option<usize>>(
    skip: F,
    packet: &[u8],
    at: usize,
    count: nat,
    end: Option<usize>,
) -> bool
    decreases count,
{
    if count == 0 {
        end == Some(at)
    } else {
        ||| skipped(skip, packet, at, (count - 1) as nat, None) && end is None
        ||| exists|mid: usize, name: Option<usize>|
            skipped(skip, packet, at, (count - 1) as nat, Some(mid)) && #[trigger] call_ensures(
                skip,
                (packet, mid),
                name,
            ) && end == question_end_after(packet@, name)
    }
}

/// The end of a question whose name ends at `name`.
pub open spec fn question_end_after(packet: Seq<u8>, name: Option<usize>) -> Option<usize> {
    match name {
        Some(end) if end + 4 <= packet.len() => Some((end + 4) as usize),
        _ => None,
    }
}

proof fn lemma_skip_stops<F: Fn(&[u8], usize) -> Option<usize>>(
    skip: F,
    packet: &[u8],
    at: usize,
    count: nat,
    more: nat,
)
    requires
        count <= more,
        skipped(skip, packet, at, count, None),
    ensures
        skipped(skip, packet, at, more, None),
    decreases more,
{
    if count < more {
        lemma_skip_stops(skip, packet, at, count, (more - 1) as nat);
    }
}

fn skip_further_questions<F: Fn(&[u8], usize) -> Option<usize>>(
    skip: F,
    packet: &[u8],
    at: usize,
    count: usize,
) -> (end: Option<usize>)
    requires
        forall|offset: usize| #[trigger] call_requires(skip, (packet, offset)),
    ensures
        skipped(skip, packet, at, count as nat, end),
{
    let mut offset: usize = at;
    let mut i: usize = 0;
    while i < count
        invariant
            i <= count,
            forall|offset: usize| #[trigger] call_requires(skip, (packet, offset)),
            skipped(skip, packet, at, i as nat, Some(offset)),
        decreases count - i,
    {
        let name = skip(packet, offset);
        let end = match name {
            Some(next) => if next <= packet.len() && packet.len() - next >= 4 {
                Some(next + 4)
            } else {
                None
            },
            None => None,
        };
        assert(end == question_end_after(packet@, name));
        assert(skipped(skip, packet, at, (i + 1) as nat, end)) by {
            assert(call_ensures(skip, (packet, offset), name));
        }
        match end {
            Some(next) => {
                offset = next;
            },
            None => {
                proof {
                    lemma_skip_stops(skip, packet, at, (i + 1) as nat, count as nat);
                }
                return None;
            },
        }
        i = i + 1;
    }
    Some(offset)
}

/// The response answers the query: it has its identifier, is marked as a response and repeats a
/// question.
pub open spec fn answers_query(packet: Seq<u8>, query_id: u16) -> bool {
    &&& packet.len() >= 12
    &&& msg::u16_at(packet, 0) == query_id
    &&& msg::u16_at(packet, 2) & BOOTSTRAP_DNS_FLAG_QR != 0
    &&& msg::u16_at(packet, 4) != 0
}

/// The addresses and the shortest time to live in the answers that start at `start`.
pub open spec fn said_from(
    packet: Seq<u8>,
    start: Option<usize>,
    question: Seq<u8>,
    qtype: u16,
) -> Option<(Seq<IpAddr>, u32)> {
    match start {
        None => None,
        Some(at) => match answers_at(
            packet,
            at as int,
            msg::u16_at(packet, 6) as nat,
            question,
            qtype,
        ) {
            Some(v) => Some((v.addrs, v.min_ttl)),
            None => None,
        },
    }
}

/// What a response says, when the names of further questions may end as `skip` has it.
pub open spec fn response_says<F: Fn(&[u8], usize) -> Option<usize>>(
    skip: F,
    packet: &[u8],
    query_id: u16,
    qtype: u16,
    says: Option<(Seq<IpAddr>, u32)>,
) -> bool {
    if !answers_query(packet@, query_id) {
        says is None
    } else {
        match lower_name_at(packet@, 12) {
            None => says is None,
            Some((question, end)) => if packet@.len() < end + 4 {
                says is None
            } else {
                exists|start: Option<usize>| #[trigger]
                    skipped(
                        skip,
                        packet,
                        (end + 4) as usize,
                        (msg::u16_at(packet@, 4) - 1) as nat,
                        start,
                    ) && says == said_from(packet@, start, question, qtype)
            },
        }
    }
}

/// Reads a resolver's response: the addresses of the name that was asked for, from the answers
/// alone. `skip_name` finds the end of a name.
pub fn parse_bootstrap_dns_response<F: Fn(&[u8], usize) -> Option<usize>>(
    packet: &[u8],
    query_id: u16,
    qtype: u16,
    skip_name: F,
) -> (r: Result<BootstrapDnsResult, DoHError>)
    requires
        forall|offset: usize| #[trigger] call_requires(skip_name, (packet, offset)),
    ensures
        response_says(
            skip_name,
            packet,
            query_id,
            qtype,
            match r {
                Ok(result) => Some((result.addrs@, result.min_ttl_secs)),
                Err(_) => None,
            },
        ),
        r matches Err(e) ==> e is UpstreamIssue,
{
    if packet.len() < 12 {
        return Err(DoHError::UpstreamIssue);
    }
    let response_id: u16 = wire::read_u16(packet, 0);
    if response_id != query_id {
        return Err(DoHError::UpstreamIssue);
    }
    let flags: u16 = wire::read_u16(packet, 2);
    if flags & BOOTSTRAP_DNS_FLAG_QR == 0 {
        return Err(DoHError::UpstreamIssue);
    }
    let qdcount: usize = wire::read_u16(packet, 4) as usize;
    let ancount: usize = wire::read_u16(packet, 6) as usize;
    if qdcount == 0 {
        return Err(DoHError::UpstreamIssue);
    }
    let (question_name, end) = match parse_dns_name_lower(packet, 12) {
        Ok(found) => found,
        Err(e) => {
            return Err(e);
        },
    };
    if packet.len() - end < 4 {
        return Err(DoHError::UpstreamIssue);
    }
    let start = skip_further_questions(skip_name, packet, end + 4, qdcount - 1);
    assert(skipped(
        skip_name,
        packet,
        (end + 4) as usize,
        (msg::u16_at(packet@, 4) - 1) as nat,
        start,
    ));
    match start {
        None => Err(DoHError::UpstreamIssue),
        Some(offset) => parse_bootstrap_answers(packet, offset, ancount, &question_name, qtype),
    }
}

/// More bytes behind a packet leave the names in it as they are.
proof fn lemma_labels_before(packet: Seq<u8>, more: Seq<u8>, at: int, jumps: nat, enough: nat)
    requires
        jumps <= enough,
        labels_at(packet, at, jumps) is Some,
    ensures
        labels_at(packet + more, at, enough) == labels_at(packet, at, jumps),
        labels_at(packet, at, jumps) matches Some((_, end)) && 0 <= at < end <= packet.len(),
    decreases jumps, packet.len() - at,
{
    let len = packet[at];
    let longer = packet + more;
    assert(longer[at] == len);
    if len >= 192 {
        assert(longer[at + 1] == packet[at + 1]);
        lemma_labels_before(
            packet,
            more,
            msg::pointer_target(len, packet[at + 1]),
            (jumps - 1) as nat,
            (enough - 1) as nat,
        );
    } else if len > 0 {
        lemma_labels_before(packet, more, at + 1 + len, jumps, enough);
        assert(longer.subrange(at + 1, at + 1 + len) =~= packet.subrange(at + 1, at + 1 + len));
    }
}

/// More bytes behind a packet leave the answers in it as they are.
proof fn lemma_answers_before(
    packet: Seq<u8>,
    more: Seq<u8>,
    at: int,
    count: nat,
    question: Seq<u8>,
    qtype: u16,
)
    requires
        0 <= at,
        answers_at(packet, at, count, question, qtype) is Some,
    ensures
        answers_at(packet + more, at, count, question, qtype) == answers_at(
            packet,
            at,
            count,
            question,
            qtype,
        ),
    decreases count,
{
    if count > 0 {
        lemma_answers_before(packet, more, at, (count - 1) as nat, question, qtype);
        let before = answers_at(packet, at, (count - 1) as nat, question, qtype)->0;
        let (owner, fields) = lower_name_at(packet, before.end)->0;
        lemma_labels_before(packet, more, before.end, packet.len(), (packet + more).len());
        lemma_fields_before(packet, more, fields);
        lemma_data_before(packet, more, fields, qtype);
    }
}

proof fn lemma_fields_before(packet: Seq<u8>, more: Seq<u8>, fields: int)
    requires
        0 <= fields,
        fields + 10 <= packet.len(),
    ensures
        msg::u16_at(packet + more, fields) == msg::u16_at(packet, fields),
        msg::u16_at(packet + more, fields + 2) == msg::u16_at(packet, fields + 2),
        wire::be32_at(packet + more, fields + 4) == wire::be32_at(packet, fields + 4),
        msg::u16_at(packet + more, fields + 8) == msg::u16_at(packet, fields + 8),
{
}

proof fn lemma_data_before(packet: Seq<u8>, more: Seq<u8>, fields: int, qtype: u16)
    requires
        0 <= fields,
        fields + 10 + msg::u16_at(packet, fields + 8) <= packet.len(),
    ensures
        data_address(packet + more, fields, qtype) == data_address(packet, fields, qtype),
{
    lemma_fields_before(packet, more, fields);
}

/// The ends of names that `skip` finds in a response are those that it finds in a longer one.
pub open spec fn skips_alike<F: Fn(&[u8], usize) -> Option<usize>>(
    skip: F,
    packet: &[u8],
    longer: &[u8],
) -> bool {
    forall|at: usize, end: usize, found: Option<usize>| #[trigger]
        call_ensures(skip, (packet, at), Some(end)) && #[trigger] call_ensures(
            skip,
            (longer, at),
            found,
        ) ==> found == Some(end)
}

proof fn lemma_skipped_before<F: Fn(&[u8], usize) -> Option<usize>>(
    skip: F,
    packet: &[u8],
    longer: &[u8],
    at: usize,
    count: nat,
    end: usize,
    found: Option<usize>,
)
    requires
        count > 0 ==> skips_alike(skip, packet, longer),
        packet@.len() <= longer@.len(),
        skipped(skip, packet, at, count, Some(end)),
        skipped(skip, longer, at, count, found),
    ensures
        found == Some(end),
    decreases count,
{
    if count > 0 {
        let less = (count - 1) as nat;
        let (mid, name) = choose|mid: usize, name: Option<usize>|
            skipped(skip, packet, at, less, Some(mid)) && #[trigger] call_ensures(
                skip,
                (packet, mid),
                name,
            ) && Some(end) == question_end_after(packet@, name);
        if skipped(skip, longer, at, less, None) && found is None {
            lemma_skipped_before(skip, packet, longer, at, less, mid, None);
        } else {
            let (other, more) = choose|other: usize, more: Option<usize>|
                skipped(skip, longer, at, less, Some(other)) && #[trigger] call_ensures(
                    skip,
                    (longer, other),
                    more,
                ) && found == question_end_after(longer@, more);
            lemma_skipped_before(skip, packet, longer, at, less, mid, Some(other));
            assert(call_ensures(skip, (packet, mid), Some(name->0)));
        }
    }
}

/// Only the answers count: a response that was understood says the same whatever stands behind
/// its answers. Where it has more than one question, this takes that the names of the others
/// end where they did.
pub proof fn law_only_answers_count<F: Fn(&[u8], usize) -> Option<usize>>(
    skip: F,
    packet: &[u8],
    longer: &[u8],
    more: Seq<u8>,
    query_id: u16,
    qtype: u16,
    addrs: Seq<IpAddr>,
    min_ttl: u32,
    says: Option<(Seq<IpAddr>, u32)>,
)
    requires
        longer@ == packet@ + more,
        longer@.len() <= usize::MAX,
        msg::u16_at(packet@, 4) > 1 ==> skips_alike(skip, packet, longer),
        response_says(skip, packet, query_id, qtype, Some((addrs, min_ttl))),
        response_says(skip, longer, query_id, qtype, says),
    ensures
        says == Some((addrs, min_ttl)),
{
    assert(longer@.take(12) =~= packet@.take(12));
    assert(forall|i: int| 0 <= i < 12 ==> longer@[i] == packet@[i]);
    lemma_labels_before(packet@, more, 12, packet@.len(), longer@.len());
    let (question, end) = lower_name_at(packet@, 12)->0;
    let first = (end + 4) as usize;
    let count = (msg::u16_at(packet@, 4) - 1) as nat;
    let start = choose|start: Option<usize>| #[trigger]
        skipped(skip, packet, first, count, start) && Some((addrs, min_ttl)) == said_from(
            packet@,
            start,
            question,
            qtype,
        );
    let other = choose|other: Option<usize>| #[trigger]
        skipped(skip, longer, first, count, other) && says == said_from(
            longer@,
            other,
            question,
            qtype,
        );
    lemma_skipped_before(skip, packet, longer, first, count, start->0, other);
    lemma_answers_before(
        packet@,
        more,
        start->0 as int,
        msg::u16_at(packet@, 6) as nat,
        question,
        qtype,
    );
}

/// Only addresses of the family that was asked for come out of a response.
pub proof fn law_addresses_have_the_family_asked_for(
    packet: Seq<u8>,
    at: int,
    count: nat,
    question: Seq<u8>,
    qtype: u16,
)
    ensures
        answers_at(packet, at, count, question, qtype) matches Some(v) ==> v.addrs.len() <= count
            && forall|i: int|
            0 <= i < v.addrs.len() ==> ((#[trigger] v.addrs[i]) is V4 ==> qtype
                == BOOTSTRAP_DNS_TYPE_A) && (v.addrs[i] is V6 ==> qtype == BOOTSTRAP_DNS_TYPE_AAAA),
    decreases count,
{
    if count > 0 {
        law_addresses_have_the_family_asked_for(packet, at, (count - 1) as nat, question, qtype);
    }
}

/// The host in lower case, without white space around it, and with a dot at its end.
pub open spec fn normalized(host: Seq<char>) -> Seq<char> {
    let name = text::lower(text::trimmed(host));
    if name.len() > 0 && name.last() == '.' {
        name
    } else {
        name.push('.')
    }
}

/// The form of a host name under which its addresses are kept.
pub fn normalize_bootstrap_host(host: &str) -> (r: Result<String, DoHError>)
    ensures
        match r {
            Ok(name) => text::trimmed(host@).len() > 0 && name@ == normalized(host@),
            Err(e) => text::trimmed(host@).len() == 0 && e is UpstreamIssue,
        },
{
    let trimmed = text::trim(host);
    proof {
        lemma_empty_bytes(trimmed@);
    }
    if trimmed.as_str().is_empty() {
        return Err(DoHError::UpstreamIssue);
    }
    let mut lower = text::to_ascii_lowercase(trimmed.as_str());
    let chars = text::chars_of(lower.as_str());
    if chars[chars.len() - 1] != '.' {
        lower.push('.');
    }
    Ok(lower)
}


proof fn lemma_trim_start(s: Seq<char>)
    ensures
        text::trim_start(s).len() > 0 ==> !text::white_space(text::trim_start(s)[0]),
        s.len() > 0 && !text::white_space(s.last()) ==> text::trim_start(s).len() > 0
            && text::trim_start(s).last() == s.last(),
    decreases s.len(),
{
    if s.len() > 0 && text::white_space(s[0]) {
        lemma_trim_start(s.skip(1));
    }
}

proof fn lemma_trim_end(s: Seq<char>)
    ensures
        text::trim_end(s).len() > 0 ==> !text::white_space(text::trim_end(s).last())
            && text::trim_end(s)[0] == s[0],
    decreases s.len(),
{
    if s.len() > 0 && text::white_space(s.last()) {
        lemma_trim_end(s.drop_last());
    }
}

proof fn lemma_lower_twice(s: Seq<char>)
    ensures
        text::lower(text::lower(s)) == text::lower(s),
{
    assert forall|i: int| 0 <= i < s.len() implies text::lower_char(text::lower_char(s[i]))
        == text::lower_char(s[i]) by {}
    assert(text::lower(text::lower(s)) =~= text::lower(s));
}

/// Normalising a host name a second time changes nothing.
pub proof fn law_normalized_is_stable(host: Seq<char>)
    requires
        text::trimmed(host).len() > 0,
    ensures
        normalized(normalized(host)) == normalized(host),
{
    let t = text::trimmed(host);
    let start = text::trim_start(host);
    lemma_trim_start(host);
    lemma_trim_end(start);
    assert(!text::white_space(t[0]) && !text::white_space(t.last()));
    let n = normalized(host);
    let low = text::lower(t);
    assert(low[0] == text::lower_char(t[0]));
    assert(!text::white_space(n[0]));
    assert(n.last() == '.');
    assert(text::trim_start(n) == n);
    assert(text::trim_end(n) == n);
    assert(text::lower(n) =~= n) by {
        lemma_lower_twice(t);
        assert forall|i: int| 0 <= i < n.len() implies text::lower_char(n[i]) == n[i] by {
            if i < low.len() {
                assert(text::lower(low)[i] == low[i]);
            }
        }
    }
}

/// Two bytes that are the same, or the same letter.
pub open spec fn same_letter(a: u8, b: u8) -> bool {
    a == b || (65 <= a <= 90 && b == a + 32) || (65 <= b <= 90 && a == b + 32)
}

/// Names are compared without regard to the case of letters, and by nothing else: the lower case
/// of two names is the same exactly where they differ in that alone. It holds no capital letter.
pub proof fn law_case_is_ignored(a: Seq<u8>, b: Seq<u8>)
    ensures
        lower_bytes(a) == lower_bytes(b) <==> a.len() == b.len() && forall|i: int|
            0 <= i < a.len() ==> same_letter(#[trigger] a[i], b[i]),
        forall|i: int|
            0 <= i < a.len() ==> !(65 <= #[trigger] lower_bytes(a)[i] <= 90) && same_letter(
                lower_bytes(a)[i],
                a[i],
            ),
{
    if lower_bytes(a) == lower_bytes(b) {
        assert(lower_bytes(a).len() == a.len() && lower_bytes(b).len() == b.len());
        assert forall|i: int| 0 <= i < a.len() implies same_letter(#[trigger] a[i], b[i]) by {
            assert(lower_bytes(a)[i] == lower_bytes(b)[i]);
        }
    }
    if a.len() == b.len() && forall|i: int|
        0 <= i < a.len() ==> same_letter(#[trigger] a[i], b[i]) {
        assert forall|i: int| 0 <= i < a.len() implies lower_bytes(a)[i] == lower_bytes(b)[i] by {
            assert(same_letter(a[i], b[i]));
        }
        assert(lower_bytes(a) =~= lower_bytes(b));
    }
}

/// The number that two bytes write, the upper first.
pub open spec fn pair(packet: Seq<u8>, at: int) -> int {
    packet[at] * 256 + packet[at + 1]
}

proof fn lemma_pair(packet: Seq<u8>, at: int)
    ensures
        msg::u16_at(packet, at) == pair(packet, at),
{
    assert(packet[at] * 256 + packet[at + 1] <= 65535);
}

/// Where the name of the answer at `start` ends.
pub open spec fn owner_end(packet: Seq<u8>, start: int) -> int {
    match lower_name_at(packet, start) {
        Some((_, end)) => end,
        None => start,
    }
}

/// Where the answer at `k` starts, when the first starts at `at` and each follows the one before.
pub open spec fn answer_start(packet: Seq<u8>, at: int, k: nat) -> int
    decreases k,
{
    if k == 0 {
        at
    } else {
        let fields = owner_end(packet, answer_start(packet, at, (k - 1) as nat));
        fields + 10 + pair(packet, fields + 8)
    }
}

/// The answer at `start` is for the question: it has its name, class 1 and the type asked for, and
/// its data have the length of an address of that type.
pub open spec fn answer_counts(
    packet: Seq<u8>,
    start: int,
    question: Seq<u8>,
    qtype: u16,
) -> bool {
    let fields = owner_end(packet, start);
    &&& lower_name_at(packet, start) matches Some((owner, _)) && owner == question
    &&& pair(packet, fields) == qtype
    &&& pair(packet, fields + 2) == 1
    &&& qtype == 1 && pair(packet, fields + 8) == 4 || qtype == 28 && pair(packet, fields + 8) == 16
}

/// The positions among `count` answers of those that are for the question, in their order.
pub open spec fn counting_answers(
    packet: Seq<u8>,
    at: int,
    count: nat,
    question: Seq<u8>,
    qtype: u16,
) -> Seq<nat> {
    Seq::new(count, |k: int| k as nat).filter(
        |k: nat| answer_counts(packet, answer_start(packet, at, k), question, qtype),
    )
}

/// The time to live of the answer at `start`.
pub open spec fn answer_ttl(packet: Seq<u8>, start: int) -> int {
    let fields = owner_end(packet, start);
    pair(packet, fields + 4) * 65536 + pair(packet, fields + 6)
}

/// The address is that in the data of the answer at `start`.
pub open spec fn answer_holds(packet: Seq<u8>, start: int, ip: IpAddr) -> bool {
    let data = owner_end(packet, start) + 10;
    &&& ip is V4 <==> pair(packet, data - 2) == 4
    &&& ip.octets_spec() == packet.subrange(data, data + pair(packet, data - 2))
}

/// Every answer that is for the question counts, and no other: the addresses are theirs, in their
/// order, and the time to live is the shortest of theirs.
pub proof fn law_every_matching_answer_counts(
    packet: Seq<u8>,
    at: int,
    count: nat,
    question: Seq<u8>,
    qtype: u16,
)
    requires
        0 <= at,
    ensures
        answers_at(packet, at, count, question, qtype) matches Some(v) ==> {
            let hits = counting_answers(packet, at, count, question, qtype);
            &&& v.end == answer_start(packet, at, count)
            &&& v.addrs.len() == hits.len()
            &&& forall|j: int|
                0 <= j < hits.len() ==> answer_holds(
                    packet,
                    answer_start(packet, at, #[trigger] hits[j]),
                    v.addrs[j],
                )
            &&& forall|j: int|
                0 <= j < hits.len() ==> v.min_ttl <= answer_ttl(
                    packet,
                    answer_start(packet, at, #[trigger] hits[j]),
                )
            &&& hits.len() == 0 ==> v.min_ttl == u32::MAX
            &&& hits.len() > 0 ==> exists|j: int|
                0 <= j < hits.len() && v.min_ttl == answer_ttl(
                    packet,
                    answer_start(packet, at, #[trigger] hits[j]),
                )
        },
    decreases count,
{
    reveal(Seq::filter);
    let counts = |k: nat| answer_counts(packet, answer_start(packet, at, k), question, qtype);
    let all = Seq::new(count, |k: int| k as nat);
    let hits = counting_answers(packet, at, count, question, qtype);
    if count == 0 {
        assert(all.filter(counts) =~= Seq::empty());
    } else if let Some(v) = answers_at(packet, at, count, question, qtype) {
        let less = (count - 1) as nat;
        let rest = Seq::new(less, |k: int| k as nat);
        law_every_matching_answer_counts(packet, at, less, question, qtype);
        assert(all.drop_last() =~= rest);
        assert(all.last() == less);
        let before = answers_at(packet, at, less, question, qtype)->0;
        let fewer = counting_answers(packet, at, less, question, qtype);
        let start = before.end;
        let fields = owner_end(packet, start);
        lemma_labels_before(packet, Seq::empty(), start, packet.len(), packet.len());
        lemma_pair(packet, fields);
        lemma_pair(packet, fields + 2);
        lemma_pair(packet, fields + 8);
        let ttl = wire::be32_at(packet, fields + 4);
        assert(ttl == answer_ttl(packet, start));
        assert(0 <= ttl <= u32::MAX);
        if counts(less) {
            assert(hits =~= fewer.push(less));
            net::law_bytes_give_addresses(packet, fields + 10);
            assert(answer_holds(packet, start, v.addrs.last()));
            assert forall|j: int| 0 <= j < hits.len() implies answer_holds(
                packet,
                answer_start(packet, at, #[trigger] hits[j]),
                v.addrs[j],
            ) && v.min_ttl <= answer_ttl(packet, answer_start(packet, at, hits[j])) by {
                if j < fewer.len() {
                    assert(hits[j] == fewer[j]);
                    assert(v.addrs[j] == before.addrs[j]);
                }
            }
            if v.min_ttl == ttl {
                assert(hits[hits.len() - 1] == less);
            } else {
                let j = choose|j: int|
                    0 <= j < fewer.len() && before.min_ttl == answer_ttl(
                        packet,
                        answer_start(packet, at, #[trigger] fewer[j]),
                    );
                assert(hits[j] == fewer[j]);
            }
        } else {
            assert(hits =~= fewer);
        }
    }
}

/// A response is taken only where it carries the identifier of the query, is marked as a response
/// and repeats a question; with one question, what it says is what its answers say of that.
pub proof fn law_responses_answer_their_query<F: Fn(&[u8], usize) -> Option<usize>>(
    skip: F,
    packet: &[u8],
    query_id: u16,
    qtype: u16,
    says: Option<(Seq<IpAddr>, u32)>,
)
    requires
        response_says(skip, packet, query_id, qtype, says),
        packet@.len() <= usize::MAX,
    ensures
        says is Some ==> packet@.len() >= 12 && pair(packet@, 0) == query_id && packet@[2] >= 128
            && pair(packet@, 4) > 0,
        packet@.len() >= 12 && pair(packet@, 0) == query_id && packet@[2] >= 128 && pair(
            packet@,
            4,
        ) == 1 ==> match lower_name_at(packet@, 12) {
            Some((question, end)) if end + 4 <= packet@.len() => match answers_at(
                packet@,
                end + 4,
                pair(packet@, 6) as nat,
                question,
                qtype,
            ) {
                Some(v) => says == Some((v.addrs, v.min_ttl)),
                None => says is None,
            },
            _ => says is None,
        },
{
    lemma_pair(packet@, 0);
    lemma_pair(packet@, 2);
    lemma_pair(packet@, 4);
    lemma_pair(packet@, 6);
    let bits = msg::u16_at(packet@, 2);
    let hi = packet@[2];
    let lo = packet@[3];
    assert(bits & 0x8000 != 0 <==> hi >= 128) by (bit_vector)
        requires
            bits == hi * 256 + lo,
    ;
    if lower_name_at(packet@, 12) is Some {
        lemma_labels_before(packet@, Seq::empty(), 12, packet@.len(), packet@.len());
    }
}

/// A host of labels that a query can carry can be asked for, with or without dots behind it, and
/// its labels are found in it. With any other label it cannot.
pub proof fn law_hosts_of_good_labels(labels: Seq<Seq<char>>, dots: Seq<char>)
    requires
        labels.len() >= 1,
        forall|i: int| 0 <= i < labels.len() ==> !(#[trigger] labels[i]).contains('.'),
        labels.last().len() > 0,
        forall|i: int| 0 <= i < dots.len() ==> #[trigger] dots[i] == '.',
    ensures
        ({
            let host = text::join_with(labels, '.') + dots;
            &&& host_labels(host) == labels
            &&& host_ok(host) <==> forall|i: int|
                0 <= i < labels.len() ==> 1 <= encode_utf8(#[trigger] labels[i]).len() <= 63
                    && !encode_utf8(labels[i]).contains(0)
        }),
{
    let name = text::join_with(labels, '.');
    lemma_join_last(labels);
    assert(name.last() != '.') by {
        let last = labels.last();
        assert(last.contains(last.last()));
        assert(labels[labels.len() - 1] == last);
    }
    text::law_trailing_characters_go(name, dots, '.');
    text::law_join_split(labels, '.');
}

proof fn lemma_join_last(labels: Seq<Seq<char>>)
    requires
        labels.len() >= 1,
        labels.last().len() > 0,
    ensures
        text::join_with(labels, '.').len() > 0,
        text::join_with(labels, '.').last() == labels.last().last(),
    decreases labels.len(),
{
    if labels.len() > 1 {
        lemma_join_last(labels.skip(1));
        assert(labels.skip(1).last() == labels.last());
    }
}

/// Hosts are kept under one name whatever their case, the white space around them and the dot at
/// their end.
pub proof fn law_one_name_for_a_host(before: Seq<char>, host: Seq<char>, after: Seq<char>)
    requires
        host.len() > 0,
        !text::white_space(host[0]),
        !text::white_space(host.last()),
        forall|i: int| 0 <= i < before.len() ==> text::white_space(#[trigger] before[i]),
        forall|i: int| 0 <= i < after.len() ==> text::white_space(#[trigger] after[i]),
    ensures
        normalized(before + host + after) == normalized(host),
        normalized(text::lower(host)) == normalized(host),
        host.last() != '.' ==> normalized(host.push('.')) == normalized(host),
        normalized(host) == text::lower(host) + (if host.last() == '.' {
            Seq::empty()
        } else {
            seq!['.']
        }),
{
    let none = Seq::<char>::empty();
    text::law_trimming_takes_white_space(before, host, after);
    text::law_trimming_takes_white_space(none, host, none);
    assert(none + host + none =~= host);
    let low = text::lower(host);
    assert(low[0] == text::lower_char(host[0]) && low.last() == text::lower_char(host.last()));
    text::law_trimming_takes_white_space(none, low, none);
    assert(none + low + none =~= low);
    lemma_lower_twice(host);
    let dotted_host = host.push('.');
    text::law_trimming_takes_white_space(none, dotted_host, none);
    assert(none + dotted_host + none =~= dotted_host);
    assert(text::lower(dotted_host) =~= low.push('.'));
    assert(low + seq!['.'] =~= low.push('.'));
    assert(low + none =~= low);
}

/// The answer at `start` is all there: its name can be read, and its fields and its data lie
/// within the packet, up to its very end.
pub open spec fn answer_fits(packet: Seq<u8>, start: int) -> bool {
    let fields = owner_end(packet, start);
    &&& lower_name_at(packet, start) is Some
    &&& fields + 10 <= packet.len()
    &&& fields + 10 + pair(packet, fields + 8) <= packet.len()
}

/// Answers are read exactly where each of them is all there.
pub proof fn law_answers_that_fit_are_read(
    packet: Seq<u8>,
    at: int,
    count: nat,
    question: Seq<u8>,
    qtype: u16,
)
    requires
        0 <= at,
    ensures
        answers_at(packet, at, count, question, qtype) is Some <==> forall|k: nat|
            k < count ==> answer_fits(packet, #[trigger] answer_start(packet, at, k)),
    decreases count,
{
    if count > 0 {
        let less = (count - 1) as nat;
        law_answers_that_fit_are_read(packet, at, less, question, qtype);
        law_every_matching_answer_counts(packet, at, less, question, qtype);
        let start = answer_start(packet, at, less);
        lemma_pair(packet, owner_end(packet, start) + 8);
        if answers_at(packet, at, count, question, qtype) is Some {
            assert forall|k: nat| k < count implies answer_fits(
                packet,
                #[trigger] answer_start(packet, at, k),
            ) by {
                if k < less {
                    assert(answer_fits(packet, answer_start(packet, at, k)));
                }
            }
        }
        if forall|k: nat|
            k < count ==> answer_fits(packet, #[trigger] answer_start(packet, at, k)) {
            assert(answer_fits(packet, start));
        }
    }
}

/// A name may end in a zero or in a pointer; after any other length that no label can have, and at
/// the end of the packet, there is no name.
pub proof fn law_names_end_properly(packet: Seq<u8>, at: int)
    requires
        0 <= at,
    ensures
        at >= packet.len() ==> lower_name_at(packet, at) is None,
        at < packet.len() && 64 <= packet[at] < 192 ==> lower_name_at(packet, at) is None,
        at < packet.len() && packet[at] == 0 ==> lower_name_at(packet, at) == Some(
            (seq![46u8], at + 1),
        ),
        at < packet.len() && 0 < packet[at] < 64 && at + 1 + packet[at] > packet.len()
            ==> lower_name_at(packet, at) is None,
        at + 1 == packet.len() && packet[at] >= 192 ==> lower_name_at(packet, at) is None,
{
    assert(dotted(Seq::empty()).push(46) =~= seq![46u8]);
}

/// A query is marked as nothing but one that asks for recursion, and holds one question, with the
/// type asked for and class 1 at its end.
pub proof fn law_query_bytes_in_full(host: Seq<char>, id_hi: u8, id_lo: u8, hi: u8, lo: u8)
    ensures
        ({
            let id = (256 * id_hi + id_lo) as u16;
            let qtype = (256 * hi + lo) as u16;
            let packet = query_bytes(host, qtype, id);
            &&& packet.take(12) == seq![id_hi, id_lo, 1u8, 0u8, 0u8, 1u8, 0u8, 0u8, 0u8, 0u8, 0u8, 0u8]
            &&& packet.skip(packet.len() - 4) == seq![hi, lo, 0u8, 1u8]
            &&& packet.subrange(12, packet.len() - 4) == msg::encode_name(
                labels_utf8(host_labels(host)),
            )
        }),
{
    let id = (256 * id_hi + id_lo) as u16;
    let qtype = (256 * hi + lo) as u16;
    let packet = query_bytes(host, qtype, id);
    let name = msg::encode_name(labels_utf8(host_labels(host)));
    wire::law_network_order(id_hi, id_lo, 0, 0);
    wire::law_network_order(hi, lo, 0, 0);
    wire::law_network_order(1, 0, 0, 0);
    wire::law_network_order(0, 1, 0, 0);
    wire::law_network_order(0, 0, 0, 0);
    assert(packet.len() == 12 + name.len() + 4);
    assert(packet.take(12) =~= seq![
        id_hi,
        id_lo,
        1u8,
        0u8,
        0u8,
        1u8,
        0u8,
        0u8,
        0u8,
        0u8,
        0u8,
        0u8,
    ]);
    assert(packet.skip(packet.len() - 4) =~= seq![hi, lo, 0u8, 1u8]);
    assert(packet.subrange(12, packet.len() - 4) =~= name);
}

} // verus!
