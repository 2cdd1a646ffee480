//! DNS messages and their wire format.

use super::rr_types::RrType;
use crate::net;
use crate::net::IpAddr;
use crate::wire;
use vstd::prelude::*;

verus! {

pub const DNS_HEADER_SIZE: usize = 12;

pub const DNS_CLASS_IN: u16 = 1;

pub const MAX_DOMAIN_NAME_WIRE_OCTETS: usize = 255;

pub const MAX_COMPRESSION_POINTERS: usize = 128;

/// Why a packet or a message was refused.
#[derive(Clone, Copy, Debug, PartialEq, Eq, Structural)]
pub enum MsgError {
    ShortPacket,
    InvalidName,
    CompressionLoop,
    InvalidLabelLength,
    InvalidRecord,
    TrailingBytes,
    RdataTooLong,
}

/// The fixed part of a message, without the section counts.
#[derive(Clone, Copy, Debug, PartialEq, Eq, Structural)]
pub struct MsgHeader {
    pub id: u16,
    pub response: bool,
    pub opcode: u8,
    pub authoritative: bool,
    pub truncated: bool,
    pub recursion_desired: bool,
    pub recursion_available: bool,
    pub zero: bool,
    pub authenticated_data: bool,
    pub checking_disabled: bool,
    pub rcode: u8,
}

impl Default for MsgHeader {
    fn default() -> (h: Self)
        ensures
            h == MsgHeader::of_bits(0, 0),
    {
        MsgHeader::from_wire(0, 0)
    }
}

impl MsgHeader {
    /// The header with the given identifier and flag bits.
    pub open spec fn of_bits(id: u16, bits: u16) -> MsgHeader {
        MsgHeader {
            id,
            response: bits & 0x8000 != 0,
            opcode: ((bits >> 11) & 0x0f) as u8,
            authoritative: bits & 0x0400 != 0,
            truncated: bits & 0x0200 != 0,
            recursion_desired: bits & 0x0100 != 0,
            recursion_available: bits & 0x0080 != 0,
            zero: bits & 0x0040 != 0,
            authenticated_data: bits & 0x0020 != 0,
            checking_disabled: bits & 0x0010 != 0,
            rcode: (bits & 0x0f) as u8,
        }
    }

    /// The flag bits of a header.
    pub open spec fn bits(self) -> u16 {
        (((self.opcode as u16) & 0x0f) << 11) | flag(self.response, 0x8000) | flag(
            self.authoritative,
            0x0400,
        ) | flag(self.truncated, 0x0200) | flag(self.recursion_desired, 0x0100) | flag(
            self.recursion_available,
            0x0080,
        ) | flag(self.zero, 0x0040) | flag(self.authenticated_data, 0x0020) | flag(
            self.checking_disabled,
            0x0010,
        ) | ((self.rcode as u16) & 0x0f)
    }

    /// The opcode and the response code fit their four bits.
    pub open spec fn wf(self) -> bool {
        self.opcode < 16 && self.rcode < 16
    }

    pub fn from_wire(id: u16, bits: u16) -> (h: Self)
        ensures
            h == MsgHeader::of_bits(id, bits),
    {
        MsgHeader {
            id,
            response: bits & 0x8000 != 0,
            opcode: ((bits >> 11) & 0x0f) as u8,
            authoritative: bits & 0x0400 != 0,
            truncated: bits & 0x0200 != 0,
            recursion_desired: bits & 0x0100 != 0,
            recursion_available: bits & 0x0080 != 0,
            zero: bits & 0x0040 != 0,
            authenticated_data: bits & 0x0020 != 0,
            checking_disabled: bits & 0x0010 != 0,
            rcode: (bits & 0x0f) as u8,
        }
    }

    pub fn to_wire_bits(self) -> (bits: u16)
        ensures
            bits == self.bits(),
    {
        (((self.opcode as u16) & 0x0f) << 11) | flag_bit(self.response, 0x8000) | flag_bit(
            self.authoritative,
            0x0400,
        ) | flag_bit(self.truncated, 0x0200) | flag_bit(self.recursion_desired, 0x0100) | flag_bit(
            self.recursion_available,
            0x0080,
        ) | flag_bit(self.zero, 0x0040) | flag_bit(self.authenticated_data, 0x0020) | flag_bit(
            self.checking_disabled,
            0x0010,
        ) | ((self.rcode as u16) & 0x0f)
    }
}

/// `mask` where the flag is set, zero otherwise.
pub open spec fn flag(set: bool, mask: u16) -> u16 {
    if set {
        mask
    } else {
        0
    }
}

fn flag_bit(set: bool, mask: u16) -> (bits: u16)
    ensures
        bits == flag(set, mask),
{
    if set {
        mask
    } else {
        0
    }
}

/// Every pattern of flag bits survives being read and written again.
pub proof fn law_header_bits_round_trip(id: u16, bits: u16)
    ensures
        MsgHeader::of_bits(id, bits).bits() == bits,
        MsgHeader::of_bits(id, bits).wf(),
{
    let h = MsgHeader::of_bits(id, bits);
    let (a, b, c, d) = (h.response, h.authoritative, h.truncated, h.recursion_desired);
    let (e, f, g, i) = (h.recursion_available, h.zero, h.authenticated_data, h.checking_disabled);
    let op = h.opcode;
    let rc = h.rcode;
    assert(op < 16 && rc < 16) by (bit_vector)
        requires
            op == ((bits >> 11) & 0x0f) as u8,
            rc == (bits & 0x0f) as u8,
    ;
    assert((((op as u16) & 0x0f) << 11) | (if a {
        0x8000u16
    } else {
        0
    }) | (if b {
        0x0400u16
    } else {
        0
    }) | (if c {
        0x0200u16
    } else {
        0
    }) | (if d {
        0x0100u16
    } else {
        0
    }) | (if e {
        0x0080u16
    } else {
        0
    }) | (if f {
        0x0040u16
    } else {
        0
    }) | (if g {
        0x0020u16
    } else {
        0
    }) | (if i {
        0x0010u16
    } else {
        0
    }) | ((rc as u16) & 0x0f) == bits) by (bit_vector)
        requires
            op == ((bits >> 11) & 0x0f) as u8,
            rc == (bits & 0x0f) as u8,
            a == (bits & 0x8000 != 0),
            b == (bits & 0x0400 != 0),
            c == (bits & 0x0200 != 0),
            d == (bits & 0x0100 != 0),
            e == (bits & 0x0080 != 0),
            f == (bits & 0x0040 != 0),
            g == (bits & 0x0020 != 0),
            i == (bits & 0x0010 != 0),
    ;
}

/// A header whose codes fit their four bits is found again in its flag bits.
pub proof fn law_header_round_trip(h: MsgHeader)
    requires
        h.wf(),
    ensures
        MsgHeader::of_bits(h.id, h.bits()) == h,
{
    let (a, b, c, d) = (h.response, h.authoritative, h.truncated, h.recursion_desired);
    let (e, f, g, i) = (h.recursion_available, h.zero, h.authenticated_data, h.checking_disabled);
    let op = h.opcode;
    let rc = h.rcode;
    let bits = h.bits();
    assert(a == (bits & 0x8000 != 0) && b == (bits & 0x0400 != 0) && c == (bits & 0x0200 != 0) && d
        == (bits & 0x0100 != 0) && e == (bits & 0x0080 != 0) && f == (bits & 0x0040 != 0) && g == (
    bits & 0x0020 != 0) && i == (bits & 0x0010 != 0) && op == ((bits >> 11) & 0x0f) as u8 && rc == (
    bits & 0x0f) as u8) by (bit_vector)
        requires
            op < 16,
            rc < 16,
            bits == (((op as u16) & 0x0f) << 11) | (if a {
                0x8000u16
            } else {
                0
            }) | (if b {
                0x0400u16
            } else {
                0
            }) | (if c {
                0x0200u16
            } else {
                0
            }) | (if d {
                0x0100u16
            } else {
                0
            }) | (if e {
                0x0080u16
            } else {
                0
            }) | (if f {
                0x0040u16
            } else {
                0
            }) | (if g {
                0x0020u16
            } else {
                0
            }) | (if i {
                0x0010u16
            } else {
                0
            }) | ((rc as u16) & 0x0f),
    ;
}

/// A domain name: its labels, from the leaf to the root.
#[derive(Clone, Debug, PartialEq, Eq)]
pub struct Name {
    pub labels: Vec<Vec<u8>>,
}

/// The bytes of each label.
pub open spec fn label_bytes(labels: Seq<Vec<u8>>) -> Seq<Seq<u8>> {
    labels.map_values(|l: Vec<u8>| l@)
}

impl View for Name {
    type V = Seq<Seq<u8>>;

    open spec fn view(&self) -> Seq<Seq<u8>> {
        label_bytes(self.labels@)
    }
}

impl Default for Name {
    fn default() -> (n: Self)
        ensures
            n@ == Seq::<Seq<u8>>::empty(),
    {
        let n = Name { labels: Vec::new() };
        assert(n@ =~= Seq::<Seq<u8>>::empty());
        n
    }
}

/// A compression pointer's target.
pub open spec fn pointer_target(hi: u8, lo: u8) -> int {
    (hi - 192) * 256 + lo
}

/// What the name at `at` decodes to: its labels and the position after it. At most `pointers`
/// compression pointers are followed, and the labels with their length bytes may take `room`
/// bytes.
pub open spec fn decode_name(packet: Seq<u8>, at: int, pointers: nat, room: nat) -> Result<
    (Seq<Seq<u8>>, int),
    MsgError,
>
    decreases pointers, room,
{
    if !(0 <= at < packet.len()) {
        Err(MsgError::ShortPacket)
    } else {
        let len = packet[at];
        if len >= 192 {
            if at + 1 >= packet.len() {
                Err(MsgError::ShortPacket)
            } else if pointer_target(len, packet[at + 1]) >= packet.len() {
                Err(MsgError::InvalidName)
            } else if pointers == 0 {
                Err(MsgError::CompressionLoop)
            } else {
                match decode_name(
                    packet,
                    pointer_target(len, packet[at + 1]),
                    (pointers - 1) as nat,
                    room,
                ) {
                    Ok((labels, _)) => Ok((labels, at + 2)),
                    Err(e) => Err(e),
                }
            }
        } else if len >= 64 {
            Err(MsgError::InvalidLabelLength)
        } else if len == 0 {
            Ok((Seq::empty(), at + 1))
        } else if at + 1 + len > packet.len() {
            Err(MsgError::ShortPacket)
        } else if room < 1 + len {
            Err(MsgError::InvalidName)
        } else {
            match decode_name(packet, at + 1 + len, pointers, (room - 1 - len) as nat) {
                Ok((labels, end)) => Ok(
                    (seq![packet.subrange(at + 1, at + 1 + len)] + labels, end),
                ),
                Err(e) => Err(e),
            }
        }
    }
}

/// What a name decodes to within the limits of the protocol: 128 pointers, and 255 bytes with
/// the root's.
pub open spec fn name_at(packet: Seq<u8>, at: int) -> Result<(Seq<Seq<u8>>, int), MsgError> {
    decode_name(packet, at, MAX_COMPRESSION_POINTERS as nat, 254)
}

/// The position after the name at `at`, with no pointer followed.
pub open spec fn name_end(packet: Seq<u8>, at: int) -> Result<int, MsgError>
    decreases packet.len() - at,
{
    if !(0 <= at < packet.len()) {
        Err(MsgError::ShortPacket)
    } else {
        let len = packet[at];
        if len >= 192 {
            if at + 1 >= packet.len() {
                Err(MsgError::ShortPacket)
            } else {
                Ok(at + 2)
            }
        } else if len >= 64 {
            Err(MsgError::InvalidLabelLength)
        } else if len == 0 {
            Ok(at + 1)
        } else if at + 1 + len > packet.len() {
            Err(MsgError::ShortPacket)
        } else {
            name_end(packet, at + 1 + len)
        }
    }
}

/// The bytes that labels take on the wire, without the root's.
pub open spec fn labels_wire_len(labels: Seq<Seq<u8>>) -> nat
    decreases labels.len(),
{
    if labels.len() == 0 {
        0
    } else {
        1 + labels[0].len() + labels_wire_len(labels.skip(1))
    }
}

/// Each label followed by nothing, with its length in front.
pub open spec fn encode_labels(labels: Seq<Seq<u8>>) -> Seq<u8>
    decreases labels.len(),
{
    if labels.len() == 0 {
        Seq::empty()
    } else {
        seq![labels[0].len() as u8] + labels[0] + encode_labels(labels.skip(1))
    }
}

/// The uncompressed wire form of a name.
pub open spec fn encode_name(labels: Seq<Seq<u8>>) -> Seq<u8> {
    encode_labels(labels).push(0)
}

/// The number of leading labels that are short enough for the wire.
pub open spec fn short_labels(labels: Seq<Seq<u8>>) -> nat
    decreases labels.len(),
{
    if labels.len() == 0 || labels[0].len() >= 64 {
        0
    } else {
        1 + short_labels(labels.skip(1))
    }
}

/// Every label fits the wire.
pub open spec fn packable(labels: Seq<Seq<u8>>) -> bool {
    forall|i: int| 0 <= i < labels.len() ==> (#[trigger] labels[i]).len() < 64
}

/// A name that the wire format can carry and give back.
pub open spec fn valid_name(labels: Seq<Seq<u8>>) -> bool {
    &&& forall|i: int| 0 <= i < labels.len() ==> 1 <= (#[trigger] labels[i]).len() < 64
    &&& labels_wire_len(labels) <= 254
}

impl Name {
    pub fn from_wire(packet: &[u8], offset: usize) -> (r: Result<(Self, usize), MsgError>)
        ensures
            match r {
                Ok((name, next)) => name_at(packet@, offset as int) == Ok::<
                    (Seq<Seq<u8>>, int),
                    MsgError,
                >((name@, next as int)) && next <= packet@.len(),
                Err(e) => name_at(packet@, offset as int) == Err::<(Seq<Seq<u8>>, int), MsgError>(
                    e,
                ),
            },
    {
        let mut labels: Vec<Vec<u8>> = Vec::new();
        let mut current: usize = offset;
        let mut consumed: Option<usize> = None;
        let mut pointers_followed: usize = 0;
        let mut wire_len: usize = 1;
        assert(label_bytes(labels@) =~= Seq::empty());
        assert(forall|s: Seq<Seq<u8>>| Seq::<Seq<u8>>::empty() + s =~= s);
        loop
            invariant
                pointers_followed <= MAX_COMPRESSION_POINTERS,
                1 <= wire_len <= MAX_DOMAIN_NAME_WIRE_OCTETS,
                consumed matches Some(c) ==> c <= packet@.len(),
                name_at(packet@, offset as int) == from_here(
                    label_bytes(labels@),
                    consumed,
                    decode_name(
                        packet@,
                        current as int,
                        (MAX_COMPRESSION_POINTERS - pointers_followed) as nat,
                        (MAX_DOMAIN_NAME_WIRE_OCTETS - wire_len) as nat,
                    ),
                ),
            decreases MAX_COMPRESSION_POINTERS - pointers_followed, MAX_DOMAIN_NAME_WIRE_OCTETS
                - wire_len,
        {
            if current >= packet.len() {
                return Err(MsgError::ShortPacket);
            }
            let len: u8 = packet[current];
            if len >= 0xC0 {
                if current + 1 >= packet.len() {
                    return Err(MsgError::ShortPacket);
                }
                let ptr: usize = ((len - 0xC0) as usize) * 256 + packet[current + 1] as usize;
                if ptr >= packet.len() {
                    return Err(MsgError::InvalidName);
                }
                if consumed.is_none() {
                    consumed = Some(current + 2);
                }
                if pointers_followed == MAX_COMPRESSION_POINTERS {
                    return Err(MsgError::CompressionLoop);
                }
                pointers_followed = pointers_followed + 1;
                current = ptr;
            } else if len < 0x40 {
                let label_len: usize = len as usize;
                current = current + 1;
                if label_len == 0 {
                    let next: usize = match consumed {
                        Some(c) => c,
                        None => current,
                    };
                    let name = Name { labels };
                    assert(name@ + Seq::<Seq<u8>>::empty() =~= name@);
                    return Ok((name, next));
                }
                if label_len > packet.len() - current {
                    return Err(MsgError::ShortPacket);
                }
                let end: usize = current + label_len;
                if wire_len + 1 + label_len > MAX_DOMAIN_NAME_WIRE_OCTETS {
                    return Err(MsgError::InvalidName);
                }
                wire_len = wire_len + 1 + label_len;
                let ghost before = label_bytes(labels@);
                let label = wire::copy_range(packet, current, end);
                labels.push(label);
                proof {
                    assert(label_bytes(labels@) =~= before.push(label@));
                    assert(forall|s: Seq<Seq<u8>>|
                        before.push(label@) + s =~= before + (seq![label@] + s));
                }
                current = end;
            } else {
                return Err(MsgError::InvalidLabelLength);
            }
        }
    }

    pub fn skip_wire(packet: &[u8], offset: usize) -> (r: Result<usize, MsgError>)
        ensures
            match r {
                Ok(next) => name_end(packet@, offset as int) == Ok::<int, MsgError>(next as int)
                    && next <= packet@.len(),
                Err(e) => name_end(packet@, offset as int) == Err::<int, MsgError>(e),
            },
    {
        let mut current: usize = offset;
        loop
            invariant
                name_end(packet@, offset as int) == name_end(packet@, current as int),
            decreases packet@.len() - current,
        {
            if current >= packet.len() {
                return Err(MsgError::ShortPacket);
            }
            let len: u8 = packet[current];
            if len >= 0xC0 {
                if current + 1 >= packet.len() {
                    return Err(MsgError::ShortPacket);
                }
                return Ok(current + 2);
            } else if len < 0x40 {
                let label_len: usize = len as usize;
                if label_len == 0 {
                    return Ok(current + 1);
                }
                if packet.len() - current < 1 + label_len {
                    return Err(MsgError::ShortPacket);
                }
                current = current + 1 + label_len;
            } else {
                return Err(MsgError::InvalidLabelLength);
            }
        }
    }

    /// The bytes that the name takes on the wire without compression.
    pub fn wire_len(&self) -> (len: usize)
        requires
            1 + labels_wire_len(self@) <= usize::MAX,
        ensures
            len == 1 + labels_wire_len(self@),
    {
        let mut len: usize = 1;
        let mut i: usize = 0;
        assert(self@.skip(0) =~= self@);
        while i < self.labels.len()
            invariant
                i <= self.labels@.len(),
                1 + labels_wire_len(self@) <= usize::MAX,
                len + labels_wire_len(self@.skip(i as int)) == 1 + labels_wire_len(self@),
            decreases self.labels@.len() - i,
        {
            assert(self@.skip(i as int)[0] == self.labels@[i as int]@);
            assert(self@.skip(i as int).skip(1) =~= self@.skip(i + 1));
            len = len + (1 + self.labels[i].len());
            i = i + 1;
        }
        len
    }

    /// Appends the uncompressed wire form. A label that is too long ends the output before it.
    pub fn pack_into(&self, out: &mut Vec<u8>) -> (r: Result<(), MsgError>)
        ensures
            r == (if packable(self@) {
                Ok::<(), MsgError>(())
            } else {
                Err(MsgError::InvalidLabelLength)
            }),
            final(out)@ == old(out)@ + (if packable(self@) {
                encode_name(self@)
            } else {
                encode_labels(self@.take(short_labels(self@) as int))
            }),
    {
        let mut i: usize = 0;
        assert(self@.take(0) =~= Seq::empty());
        assert(out@ =~= old(out)@ + encode_labels(self@.take(0)));
        assert(self@.skip(0) =~= self@);
        while i < self.labels.len()
            invariant
                i <= self.labels@.len(),
                out@ == old(out)@ + encode_labels(self@.take(i as int)),
                short_labels(self@) == i + short_labels(self@.skip(i as int)),
                forall|j: int| 0 <= j < i ==> (#[trigger] self@[j]).len() < 64,
            decreases self.labels@.len() - i,
        {
            assert(self@[i as int] == self.labels@[i as int]@);
            if self.labels[i].len() >= 0x40 {
                return Err(MsgError::InvalidLabelLength);
            }
            proof {
                lemma_encode_labels_push(self@.take(i as int), self@[i as int]);
                assert(self@.take(i + 1) =~= self@.take(i as int).push(self@[i as int]));
                assert(self@.skip(i as int).skip(1) =~= self@.skip(i + 1));
            }
            out.push(self.labels[i].len() as u8);
            wire::push_all(out, self.labels[i].as_slice());
            assert(out@ =~= old(out)@ + encode_labels(self@.take(i + 1)));
            i = i + 1;
        }
        assert(self@.take(i as int) =~= self@);
        out.push(0);
        assert(out@ =~= old(out)@ + encode_name(self@));
        Ok(())
    }
}

/// The outcome of a name of which `labels` have been read, and a pointer passed where `consumed`
/// says so, when the rest decodes to `rest`.
spec fn from_here(
    labels: Seq<Seq<u8>>,
    consumed: Option<usize>,
    rest: Result<(Seq<Seq<u8>>, int), MsgError>,
) -> Result<(Seq<Seq<u8>>, int), MsgError> {
    match rest {
        Ok((more, end)) => Ok(
            (
                labels + more,
                match consumed {
                    Some(c) => c as int,
                    None => end,
                },
            ),
        ),
        Err(e) => Err(e),
    }
}

/// One label more is encoded behind the others.
pub proof fn lemma_encode_labels_push(labels: Seq<Seq<u8>>, label: Seq<u8>)
    ensures
        encode_labels(labels.push(label)) == encode_labels(labels) + (seq![label.len() as u8]
            + label),
    decreases labels.len(),
{
    let all = labels.push(label);
    if labels.len() == 0 {
        assert(all.skip(1) =~= Seq::empty());
        assert(encode_labels(all.skip(1)) =~= Seq::empty());
        assert(encode_labels(labels) =~= Seq::empty());
        assert(encode_labels(all) =~= seq![label.len() as u8] + label);
    } else {
        assert(all.skip(1) =~= labels.skip(1).push(label));
        lemma_encode_labels_push(labels.skip(1), label);
        assert(encode_labels(all) =~= encode_labels(labels) + (seq![label.len() as u8] + label));
    }
}


/// A question of a message.
#[derive(Clone, Debug, PartialEq, Eq)]
pub struct Question {
    pub name: Name,
    pub qtype: RrType,
    pub qclass: u16,
}

/// A resource record of a message.
#[derive(Clone, Debug, PartialEq, Eq)]
pub struct ResourceRecord {
    pub name: Name,
    pub rr_type: RrType,
    pub rr_class: u16,
    pub ttl: u32,
    pub rdata: Vec<u8>,
}

/// A DNS message.
#[derive(Clone, Debug, PartialEq, Eq)]
pub struct Msg {
    pub header: MsgHeader,
    pub compress: bool,
    pub questions: Vec<Question>,
    pub answers: Vec<ResourceRecord>,
    pub authorities: Vec<ResourceRecord>,
    pub additionals: Vec<ResourceRecord>,
}

/// What a question says.
pub struct QuestionView {
    pub name: Seq<Seq<u8>>,
    pub qtype: RrType,
    pub qclass: u16,
}

/// What a resource record says.
pub struct RecordView {
    pub name: Seq<Seq<u8>>,
    pub rr_type: RrType,
    pub rr_class: u16,
    pub ttl: u32,
    pub rdata: Seq<u8>,
}

/// What a message says.
pub struct MessageView {
    pub header: MsgHeader,
    pub compress: bool,
    pub questions: Seq<QuestionView>,
    pub answers: Seq<RecordView>,
    pub authorities: Seq<RecordView>,
    pub additionals: Seq<RecordView>,
}

impl View for Question {
    type V = QuestionView;

    open spec fn view(&self) -> QuestionView {
        QuestionView { name: self.name@, qtype: self.qtype, qclass: self.qclass }
    }
}

impl View for ResourceRecord {
    type V = RecordView;

    open spec fn view(&self) -> RecordView {
        RecordView {
            name: self.name@,
            rr_type: self.rr_type,
            rr_class: self.rr_class,
            ttl: self.ttl,
            rdata: self.rdata@,
        }
    }
}

/// What each question of a list says.
pub open spec fn question_views(questions: Seq<Question>) -> Seq<QuestionView> {
    questions.map_values(|q: Question| q@)
}

/// What each record of a list says.
pub open spec fn record_views(records: Seq<ResourceRecord>) -> Seq<RecordView> {
    records.map_values(|r: ResourceRecord| r@)
}

impl View for Msg {
    type V = MessageView;

    open spec fn view(&self) -> MessageView {
        MessageView {
            header: self.header,
            compress: self.compress,
            questions: question_views(self.questions@),
            answers: record_views(self.answers@),
            authorities: record_views(self.authorities@),
            additionals: record_views(self.additionals@),
        }
    }
}

impl Default for Msg {
    fn default() -> (m: Self)
        ensures
            m.header == MsgHeader::of_bits(0, 0),
            !m.compress,
            m.questions@.len() == 0,
            m.answers@.len() == 0,
            m.authorities@.len() == 0,
            m.additionals@.len() == 0,
    {
        Msg {
            header: MsgHeader::default(),
            compress: false,
            questions: Vec::new(),
            answers: Vec::new(),
            authorities: Vec::new(),
            additionals: Vec::new(),
        }
    }
}

/// The 16-bit number at `at`.
pub open spec fn u16_at(packet: Seq<u8>, at: int) -> u16 {
    wire::be16_at(packet, at) as u16
}

/// The record type at `at`.
pub open spec fn type_at(packet: Seq<u8>, at: int) -> RrType {
    RrType::of_number(u16_at(packet, at))
}

/// The question at `at` and the position after it.
pub open spec fn decode_question(packet: Seq<u8>, at: int) -> Result<
    (QuestionView, int),
    MsgError,
> {
    match name_at(packet, at) {
        Err(e) => Err(e),
        Ok((name, next)) => if packet.len() < next + 4 {
            Err(MsgError::ShortPacket)
        } else {
            Ok(
                (
                    QuestionView {
                        name,
                        qtype: type_at(packet, next),
                        qclass: u16_at(packet, next + 2),
                    },
                    next + 4,
                ),
            )
        },
    }
}

/// The first `count` questions from `at` on, and the position after them.
pub open spec fn decode_questions(packet: Seq<u8>, at: int, count: nat) -> Result<
    (Seq<QuestionView>, int),
    MsgError,
>
    decreases count,
{
    if count == 0 {
        Ok((Seq::empty(), at))
    } else {
        match decode_questions(packet, at, (count - 1) as nat) {
            Err(e) => Err(e),
            Ok((questions, next)) => match decode_question(packet, next) {
                Err(e) => Err(e),
                Ok((question, end)) => Ok((questions.push(question), end)),
            },
        }
    }
}

/// The resource record at `at` and the position after it.
pub open spec fn decode_record(packet: Seq<u8>, at: int) -> Result<(RecordView, int), MsgError> {
    match name_at(packet, at) {
        Err(e) => Err(e),
        Ok((name, next)) => if packet.len() < next + 10 {
            Err(MsgError::ShortPacket)
        } else if packet.len() < next + 10 + u16_at(packet, next + 8) {
            Err(MsgError::InvalidRecord)
        } else {
            Ok(
                (
                    RecordView {
                        name,
                        rr_type: type_at(packet, next),
                        rr_class: u16_at(packet, next + 2),
                        ttl: wire::be32_at(packet, next + 4) as u32,
                        rdata: packet.subrange(
                            next + 10,
                            next + 10 + u16_at(packet, next + 8),
                        ),
                    },
                    next + 10 + u16_at(packet, next + 8),
                ),
            )
        },
    }
}

/// The first `count` records from `at` on, and the position after them.
pub open spec fn decode_records(packet: Seq<u8>, at: int, count: nat) -> Result<
    (Seq<RecordView>, int),
    MsgError,
>
    decreases count,
{
    if count == 0 {
        Ok((Seq::empty(), at))
    } else {
        match decode_records(packet, at, (count - 1) as nat) {
            Err(e) => Err(e),
            Ok((records, next)) => match decode_record(packet, next) {
                Err(e) => Err(e),
                Ok((record, end)) => Ok((records.push(record), end)),
            },
        }
    }
}

/// What a packet says as a message, every byte of it accounted for.
pub open spec fn decode_message(packet: Seq<u8>) -> Result<MessageView, MsgError> {
    if packet.len() < DNS_HEADER_SIZE {
        Err(MsgError::ShortPacket)
    } else {
        match decode_questions(packet, DNS_HEADER_SIZE as int, u16_at(packet, 4) as nat) {
            Err(e) => Err(e),
            Ok((questions, a)) => match decode_records(packet, a, u16_at(packet, 6) as nat) {
                Err(e) => Err(e),
                Ok((answers, b)) => match decode_records(packet, b, u16_at(packet, 8) as nat) {
                    Err(e) => Err(e),
                    Ok((authorities, c)) => match decode_records(
                        packet,
                        c,
                        u16_at(packet, 10) as nat,
                    ) {
                        Err(e) => Err(e),
                        Ok((additionals, end)) => if end != packet.len() {
                            Err(MsgError::TrailingBytes)
                        } else {
                            Ok(
                                MessageView {
                                    header: MsgHeader::of_bits(
                                        u16_at(packet, 0),
                                        u16_at(packet, 2),
                                    ),
                                    compress: false,
                                    questions,
                                    answers,
                                    authorities,
                                    additionals,
                                },
                            )
                        },
                    },
                },
            },
        }
    }
}

/// The wire form of a question whose name fits the wire.
pub open spec fn encode_question(q: QuestionView) -> Seq<u8> {
    encode_name(q.name) + wire::be16_bytes(q.qtype.number() as int) + wire::be16_bytes(
        q.qclass as int,
    )
}

/// The wire form of questions, or what keeps the first bad one from having one.
pub open spec fn encode_questions(questions: Seq<QuestionView>) -> Result<Seq<u8>, MsgError>
    decreases questions.len(),
{
    if questions.len() == 0 {
        Ok(Seq::empty())
    } else {
        match encode_questions(questions.drop_last()) {
            Err(e) => Err(e),
            Ok(bytes) => if packable(questions.last().name) {
                Ok(bytes + encode_question(questions.last()))
            } else {
                Err(MsgError::InvalidLabelLength)
            },
        }
    }
}

/// The wire form of a record that has one.
pub open spec fn encode_record(r: RecordView) -> Seq<u8> {
    encode_name(r.name) + wire::be16_bytes(r.rr_type.number() as int) + wire::be16_bytes(
        r.rr_class as int,
    ) + wire::be32_bytes(r.ttl as int) + wire::be16_bytes(r.rdata.len() as int) + r.rdata
}

/// Whether a record has a wire form, or what keeps it from having one.
pub open spec fn record_check(r: RecordView) -> Result<(), MsgError> {
    if r.rdata.len() > 65535 {
        Err(MsgError::RdataTooLong)
    } else if !packable(r.name) {
        Err(MsgError::InvalidLabelLength)
    } else {
        Ok(())
    }
}

/// The wire form of records, or what keeps the first bad one from having one.
pub open spec fn encode_records(records: Seq<RecordView>) -> Result<Seq<u8>, MsgError>
    decreases records.len(),
{
    if records.len() == 0 {
        Ok(Seq::empty())
    } else {
        match encode_records(records.drop_last()) {
            Err(e) => Err(e),
            Ok(bytes) => match record_check(records.last()) {
                Err(e) => Err(e),
                Ok(_) => Ok(bytes + encode_record(records.last())),
            },
        }
    }
}

/// The twelve bytes of a message's header.
pub open spec fn encode_header(m: MessageView) -> Seq<u8> {
    wire::be16_bytes(m.header.id as int) + wire::be16_bytes(m.header.bits() as int)
        + wire::be16_bytes(m.questions.len() as int) + wire::be16_bytes(m.answers.len() as int)
        + wire::be16_bytes(m.authorities.len() as int) + wire::be16_bytes(
        m.additionals.len() as int,
    )
}

/// Every section is short enough for its 16-bit count.
pub open spec fn countable(m: MessageView) -> bool {
    &&& m.questions.len() <= 65535
    &&& m.answers.len() <= 65535
    &&& m.authorities.len() <= 65535
    &&& m.additionals.len() <= 65535
}

/// The wire form of a message, or what keeps it from having one.
pub open spec fn encode_message(m: MessageView) -> Result<Seq<u8>, MsgError> {
    if !countable(m) {
        Err(MsgError::InvalidRecord)
    } else {
        match encode_questions(m.questions) {
            Err(e) => Err(e),
            Ok(q) => match encode_records(m.answers) {
                Err(e) => Err(e),
                Ok(a) => match encode_records(m.authorities) {
                    Err(e) => Err(e),
                    Ok(n) => match encode_records(m.additionals) {
                        Err(e) => Err(e),
                        Ok(x) => Ok(encode_header(m) + q + a + n + x),
                    },
                },
            },
        }
    }
}

proof fn lemma_question_error_stays(packet: Seq<u8>, at: int, count: nat, more: nat, e: MsgError)
    requires
        decode_questions(packet, at, count) == Err::<(Seq<QuestionView>, int), MsgError>(e),
        count <= more,
    ensures
        decode_questions(packet, at, more) == Err::<(Seq<QuestionView>, int), MsgError>(e),
    decreases more,
{
    if count < more {
        lemma_question_error_stays(packet, at, count, (more - 1) as nat, e);
    }
}

proof fn lemma_record_error_stays(packet: Seq<u8>, at: int, count: nat, more: nat, e: MsgError)
    requires
        decode_records(packet, at, count) == Err::<(Seq<RecordView>, int), MsgError>(e),
        count <= more,
    ensures
        decode_records(packet, at, more) == Err::<(Seq<RecordView>, int), MsgError>(e),
    decreases more,
{
    if count < more {
        lemma_record_error_stays(packet, at, count, (more - 1) as nat, e);
    }
}

fn unpack_questions(packet: &[u8], start: usize, count: usize) -> (r: Result<
    (Vec<Question>, usize),
    MsgError,
>)
    requires
        start <= packet@.len(),
    ensures
        match r {
            Ok((questions, next)) => decode_questions(packet@, start as int, count as nat) == Ok::<
                (Seq<QuestionView>, int),
                MsgError,
            >((question_views(questions@), next as int)) && next <= packet@.len(),
            Err(e) => decode_questions(packet@, start as int, count as nat) == Err::<
                (Seq<QuestionView>, int),
                MsgError,
            >(e),
        },
{
    let mut offset: usize = start;
    let mut questions: Vec<Question> = Vec::new();
    let mut i: usize = 0;
    assert(question_views(questions@) =~= Seq::empty());
    while i < count
        invariant
            i <= count,
            offset <= packet@.len(),
            decode_questions(packet@, start as int, i as nat) == Ok::<
                (Seq<QuestionView>, int),
                MsgError,
            >((question_views(questions@), offset as int)),
        decreases count - i,
    {
        let ghost done = (i + 1) as nat;
        let (name, next) = match Name::from_wire(packet, offset) {
            Ok(found) => found,
            Err(e) => {
                proof {
                    lemma_question_error_stays(packet@, start as int, done, count as nat, e);
                }
                return Err(e);
            },
        };
        if packet.len() - next < 4 {
            proof {
                lemma_question_error_stays(
                    packet@,
                    start as int,
                    done,
                    count as nat,
                    MsgError::ShortPacket,
                );
            }
            return Err(MsgError::ShortPacket);
        }
        let qtype = RrType::from_u16(wire::read_u16(packet, next));
        let qclass: u16 = wire::read_u16(packet, next + 2);
        let question = Question { name, qtype, qclass };
        let ghost before = question_views(questions@);
        questions.push(question);
        assert(question_views(questions@) =~= before.push(question@));
        offset = next + 4;
        i = i + 1;
    }
    Ok((questions, offset))
}

fn unpack_rr_section(packet: &[u8], start: usize, count: usize) -> (r: Result<
    (Vec<ResourceRecord>, usize),
    MsgError,
>)
    requires
        start <= packet@.len(),
    ensures
        match r {
            Ok((records, next)) => decode_records(packet@, start as int, count as nat) == Ok::<
                (Seq<RecordView>, int),
                MsgError,
            >((record_views(records@), next as int)) && next <= packet@.len(),
            Err(e) => decode_records(packet@, start as int, count as nat) == Err::<
                (Seq<RecordView>, int),
                MsgError,
            >(e),
        },
{
    let mut offset: usize = start;
    let mut records: Vec<ResourceRecord> = Vec::new();
    let mut i: usize = 0;
    assert(record_views(records@) =~= Seq::empty());
    while i < count
        invariant
            i <= count,
            offset <= packet@.len(),
            decode_records(packet@, start as int, i as nat) == Ok::<
                (Seq<RecordView>, int),
                MsgError,
            >((record_views(records@), offset as int)),
        decreases count - i,
    {
        let ghost done = (i + 1) as nat;
        let (name, next) = match Name::from_wire(packet, offset) {
            Ok(found) => found,
            Err(e) => {
                proof {
                    lemma_record_error_stays(packet@, start as int, done, count as nat, e);
                }
                return Err(e);
            },
        };
        if packet.len() - next < 10 {
            proof {
                lemma_record_error_stays(
                    packet@,
                    start as int,
                    done,
                    count as nat,
                    MsgError::ShortPacket,
                );
            }
            return Err(MsgError::ShortPacket);
        }
        let rr_type = RrType::from_u16(wire::read_u16(packet, next));
        let rr_class: u16 = wire::read_u16(packet, next + 2);
        let ttl: u32 = wire::read_u32(packet, next + 4);
        let rdlen: usize = wire::read_u16(packet, next + 8) as usize;
        let rdata_offset: usize = next + 10;
        if packet.len() - rdata_offset < rdlen {
            proof {
                lemma_record_error_stays(
                    packet@,
                    start as int,
                    done,
                    count as nat,
                    MsgError::InvalidRecord,
                );
            }
            return Err(MsgError::InvalidRecord);
        }
        let rdata = wire::copy_range(packet, rdata_offset, rdata_offset + rdlen);
        let record = ResourceRecord { name, rr_type, rr_class, ttl, rdata };
        let ghost before = record_views(records@);
        records.push(record);
        assert(record_views(records@) =~= before.push(record@));
        offset = rdata_offset + rdlen;
        i = i + 1;
    }
    Ok((records, offset))
}

/// Appends the wire form of a record. A record that has none leaves `out` alone where its data
/// is too long, and adds the labels before the bad one otherwise.
pub fn pack_rr(rr: &ResourceRecord, out: &mut Vec<u8>) -> (r: Result<(), MsgError>)
    ensures
        r == record_check(rr@),
        final(out)@ == old(out)@ + (match record_check(rr@) {
            Ok(_) => encode_record(rr@),
            Err(MsgError::RdataTooLong) => Seq::empty(),
            Err(_) => encode_labels(rr@.name.take(short_labels(rr@.name) as int)),
        }),
{
    if rr.rdata.len() > 65535 {
        assert(out@ =~= old(out)@ + Seq::<u8>::empty());
        return Err(MsgError::RdataTooLong);
    }
    match rr.name.pack_into(out) {
        Ok(_) => {},
        Err(e) => {
            return Err(e);
        },
    }
    wire::push_u16(out, rr.rr_type.to_u16());
    wire::push_u16(out, rr.rr_class);
    wire::push_u32(out, rr.ttl);
    wire::push_u16(out, rr.rdata.len() as u16);
    wire::push_all(out, rr.rdata.as_slice());
    assert(out@ =~= old(out)@ + encode_record(rr@));
    Ok(())
}

proof fn lemma_encode_error_stays(records: Seq<RecordView>, n: int, e: MsgError)
    requires
        0 <= n <= records.len(),
        encode_records(records.take(n)) == Err::<Seq<u8>, MsgError>(e),
    ensures
        encode_records(records) == Err::<Seq<u8>, MsgError>(e),
    decreases records.len() - n,
{
    if n < records.len() {
        assert(records.take(n + 1).drop_last() =~= records.take(n));
        lemma_encode_error_stays(records, n + 1, e);
    } else {
        assert(records.take(n) =~= records);
    }
}

proof fn lemma_encode_question_error_stays(questions: Seq<QuestionView>, n: int, e: MsgError)
    requires
        0 <= n <= questions.len(),
        encode_questions(questions.take(n)) == Err::<Seq<u8>, MsgError>(e),
    ensures
        encode_questions(questions) == Err::<Seq<u8>, MsgError>(e),
    decreases questions.len() - n,
{
    if n < questions.len() {
        assert(questions.take(n + 1).drop_last() =~= questions.take(n));
        lemma_encode_question_error_stays(questions, n + 1, e);
    } else {
        assert(questions.take(n) =~= questions);
    }
}

fn pack_questions(questions: &Vec<Question>, out: &mut Vec<u8>) -> (r: Result<(), MsgError>)
    ensures
        match r {
            Ok(_) => encode_questions(question_views(questions@)) matches Ok(bytes) && final(out)@
                == old(out)@ + bytes,
            Err(e) => encode_questions(question_views(questions@)) == Err::<Seq<u8>, MsgError>(e),
        },
{
    let ghost views = question_views(questions@);
    let mut i: usize = 0;
    assert(views.take(0) =~= Seq::empty());
    assert(out@ =~= old(out)@ + Seq::<u8>::empty());
    while i < questions.len()
        invariant
            i <= questions@.len(),
            views == question_views(questions@),
            encode_questions(views.take(i as int)) matches Ok(bytes) && out@ == old(out)@ + bytes,
        decreases questions@.len() - i,
    {
        let ghost done = encode_questions(views.take(i as int))->Ok_0;
        let ghost q = questions@[i as int]@;
        proof {
            assert(views.take(i + 1).drop_last() =~= views.take(i as int));
            assert(views.take(i + 1).last() == q);
        }
        match questions[i].name.pack_into(out) {
            Ok(_) => {},
            Err(e) => {
                proof {
                    lemma_encode_question_error_stays(views, i + 1, e);
                }
                return Err(e);
            },
        }
        wire::push_u16(out, questions[i].qtype.to_u16());
        wire::push_u16(out, questions[i].qclass);
        assert(out@ =~= old(out)@ + (done + encode_question(q)));
        i = i + 1;
    }
    assert(views.take(i as int) =~= views);
    Ok(())
}

fn pack_records(records: &Vec<ResourceRecord>, out: &mut Vec<u8>) -> (r: Result<(), MsgError>)
    ensures
        match r {
            Ok(_) => encode_records(record_views(records@)) matches Ok(bytes) && final(out)@ == old(
                out,
            )@ + bytes,
            Err(e) => encode_records(record_views(records@)) == Err::<Seq<u8>, MsgError>(e),
        },
{
    let ghost views = record_views(records@);
    let mut i: usize = 0;
    assert(views.take(0) =~= Seq::empty());
    assert(out@ =~= old(out)@ + Seq::<u8>::empty());
    while i < records.len()
        invariant
            i <= records@.len(),
            views == record_views(records@),
            encode_records(views.take(i as int)) matches Ok(bytes) && out@ == old(out)@ + bytes,
        decreases records@.len() - i,
    {
        let ghost done = encode_records(views.take(i as int))->Ok_0;
        let ghost rr = records@[i as int]@;
        proof {
            assert(views.take(i + 1).drop_last() =~= views.take(i as int));
            assert(views.take(i + 1).last() == rr);
        }
        match pack_rr(&records[i], out) {
            Ok(_) => {},
            Err(e) => {
                proof {
                    lemma_encode_error_stays(views, i + 1, e);
                }
                return Err(e);
            },
        }
        assert(out@ =~= old(out)@ + (done + encode_record(rr)));
        i = i + 1;
    }
    assert(views.take(i as int) =~= views);
    Ok(())
}

impl Msg {
    pub fn unpack(packet: &[u8]) -> (r: Result<Self, MsgError>)
        ensures
            match r {
                Ok(m) => decode_message(packet@) == Ok::<MessageView, MsgError>(m@),
                Err(e) => decode_message(packet@) == Err::<MessageView, MsgError>(e),
            },
    {
        if packet.len() < DNS_HEADER_SIZE {
            return Err(MsgError::ShortPacket);
        }
        let id: u16 = wire::read_u16(packet, 0);
        let bits: u16 = wire::read_u16(packet, 2);
        let qdcount: usize = wire::read_u16(packet, 4) as usize;
        let ancount: usize = wire::read_u16(packet, 6) as usize;
        let nscount: usize = wire::read_u16(packet, 8) as usize;
        let arcount: usize = wire::read_u16(packet, 10) as usize;
        let (questions, next) = match unpack_questions(packet, DNS_HEADER_SIZE, qdcount) {
            Ok(found) => found,
            Err(e) => {
                return Err(e);
            },
        };
        let (answers, next) = match unpack_rr_section(packet, next, ancount) {
            Ok(found) => found,
            Err(e) => {
                return Err(e);
            },
        };
        let (authorities, next) = match unpack_rr_section(packet, next, nscount) {
            Ok(found) => found,
            Err(e) => {
                return Err(e);
            },
        };
        let (additionals, next) = match unpack_rr_section(packet, next, arcount) {
            Ok(found) => found,
            Err(e) => {
                return Err(e);
            },
        };
        if next != packet.len() {
            return Err(MsgError::TrailingBytes);
        }
        Ok(
            Msg {
                header: MsgHeader::from_wire(id, bits),
                compress: false,
                questions,
                answers,
                authorities,
                additionals,
            },
        )
    }

    pub fn pack(&self) -> (r: Result<Vec<u8>, MsgError>)
        ensures
            match r {
                Ok(bytes) => encode_message(self@) == Ok::<Seq<u8>, MsgError>(bytes@),
                Err(e) => encode_message(self@) == Err::<Seq<u8>, MsgError>(e),
            },
    {
        if self.questions.len() > 65535 || self.answers.len() > 65535 || self.authorities.len()
            > 65535 || self.additionals.len() > 65535 {
            return Err(MsgError::InvalidRecord);
        }
        let mut out: Vec<u8> = Vec::new();
        wire::push_u16(&mut out, self.header.id);
        wire::push_u16(&mut out, self.header.to_wire_bits());
        wire::push_u16(&mut out, self.questions.len() as u16);
        wire::push_u16(&mut out, self.answers.len() as u16);
        wire::push_u16(&mut out, self.authorities.len() as u16);
        wire::push_u16(&mut out, self.additionals.len() as u16);
        assert(out@ =~= encode_header(self@));
        match pack_questions(&self.questions, &mut out) {
            Ok(_) => {},
            Err(e) => {
                return Err(e);
            },
        }
        match pack_records(&self.answers, &mut out) {
            Ok(_) => {},
            Err(e) => {
                return Err(e);
            },
        }
        match pack_records(&self.authorities, &mut out) {
            Ok(_) => {},
            Err(e) => {
                return Err(e);
            },
        }
        match pack_records(&self.additionals, &mut out) {
            Ok(_) => {},
            Err(e) => {
                return Err(e);
            },
        }
        Ok(out)
    }

    /// The type that the first question asks for.
    pub fn qtype(&self) -> (t: Option<RrType>)
        ensures
            t == (if self@.questions.len() == 0 {
                None
            } else {
                Some(self@.questions[0].qtype)
            }),
    {
        if self.questions.len() == 0 {
            None
        } else {
            Some(self.questions[0].qtype)
        }
    }

    pub fn validate_packet(packet: &[u8]) -> (valid: bool)
        ensures
            valid == (decode_message(packet@) is Ok),
    {
        Msg::unpack(packet).is_ok()
    }
}

} // verus!
