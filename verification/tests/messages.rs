use doh_proxy::net::{cache_ip, local_bind_for_peer, IpAddr, SocketAddr};
use doh_proxy::upstream::dns_packet::{
    query_qtype, rewrite_answer_ips_in_place, validate_response_packet, PacketError,
};
use doh_proxy::upstream::msg::{
    pack_rr, Msg, MsgError, MsgHeader, Name, Question, ResourceRecord,
};
use doh_proxy::upstream::rr_types::RrType;
use doh_proxy::wire;

fn name(labels: &[&str]) -> Name {
    Name { labels: labels.iter().map(|l| l.as_bytes().to_vec()).collect() }
}

fn record(owner: Name, rr_type: RrType, rdata: Vec<u8>) -> ResourceRecord {
    ResourceRecord { name: owner, rr_type, rr_class: 1, ttl: 300, rdata }
}

fn message() -> Msg {
    let mut m = Msg::default();
    m.header = MsgHeader::from_wire(0x1234, 0x8180);
    m.questions.push(Question {
        name: name(&["www", "example", "com"]),
        qtype: RrType::A,
        qclass: 1,
    });
    m.answers.push(record(name(&["www", "example", "com"]), RrType::A, vec![1, 2, 3, 4]));
    m.answers.push(record(name(&["x"]), RrType::AAAA, (1..=16).collect()));
    m.authorities.push(record(name(&[]), RrType::Other(6), vec![9; 300]));
    m.additionals.push(record(name(&[]), RrType::Other(41), vec![]));
    m
}

#[test]
fn header_bits_round_trip() {
    for bits in 0..=u16::MAX {
        assert_eq!(MsgHeader::from_wire(7, bits).to_wire_bits(), bits);
    }
    let h = MsgHeader::from_wire(0xabcd, 0x8583);
    assert_eq!(h.id, 0xabcd);
    assert!(h.response && h.authoritative && h.recursion_desired && h.recursion_available);
    assert!(!h.truncated && !h.zero && !h.authenticated_data && !h.checking_disabled);
    assert_eq!((h.opcode, h.rcode), (0, 3));
    // Codes that do not fit their bits lose the rest.
    let wide = MsgHeader { opcode: 0x12, rcode: 0x3f, ..MsgHeader::default() };
    assert_eq!(wide.to_wire_bits(), 0x100f);
}

#[test]
fn packed_messages_are_unpacked_again() {
    let m = message();
    let packet = m.pack().unwrap();
    assert_eq!(Msg::unpack(&packet).unwrap(), m);
    assert!(Msg::validate_packet(&packet));
    assert_eq!(m.qtype(), Some(RrType::A));
    assert_eq!(Msg::default().qtype(), None);
    assert_eq!(Msg::default().pack().unwrap(), vec![0u8; 12]);
}

#[test]
fn unpack_refuses_what_is_no_message() {
    let packet = message().pack().unwrap();
    assert_eq!(Msg::unpack(&packet[..11]), Err(MsgError::ShortPacket));
    let mut long = packet.clone();
    long.push(0);
    assert_eq!(Msg::unpack(&long), Err(MsgError::TrailingBytes));
    // The data of the last record is cut off.
    let mut cut = packet.clone();
    let len = cut.len();
    cut[len - 1] = 5;
    assert_eq!(Msg::unpack(&cut), Err(MsgError::InvalidRecord));
    assert_eq!(Msg::unpack(&packet[..len - 3]), Err(MsgError::ShortPacket));
    let mut bad_label = packet;
    bad_label[12] = 0x40;
    assert_eq!(Msg::unpack(&bad_label), Err(MsgError::InvalidLabelLength));
}

#[test]
fn names_are_decompressed() {
    // "a.b." at 0, then a pointer to it behind a label.
    let packet = [1, b'a', 1, b'b', 0, 1, b'c', 0xc0, 0x00, 0xff];
    let (n, next) = Name::from_wire(&packet, 5).unwrap();
    assert_eq!(n, name(&["c", "a", "b"]));
    assert_eq!(next, 9);
    assert_eq!(Name::skip_wire(&packet, 5), Ok(9));
    assert_eq!(Name::from_wire(&packet, 0).unwrap().1, 5);
    assert_eq!(Name::skip_wire(&packet, 0), Ok(5));
    assert_eq!(n.wire_len(), 7);
    let mut out = vec![0xee];
    n.pack_into(&mut out).unwrap();
    assert_eq!(out, vec![0xee, 1, b'c', 1, b'a', 1, b'b', 0]);
}

#[test]
fn names_that_loop_or_run_out_are_refused() {
    assert_eq!(Name::from_wire(&[0xc0, 0x00], 0), Err(MsgError::CompressionLoop));
    assert_eq!(Name::skip_wire(&[0xc0, 0x00], 0), Ok(2));
    assert_eq!(Name::from_wire(&[0xc0, 0x05], 0), Err(MsgError::InvalidName));
    assert_eq!(Name::from_wire(&[0xc0], 0), Err(MsgError::ShortPacket));
    assert_eq!(Name::skip_wire(&[0xc0], 0), Err(MsgError::ShortPacket));
    assert_eq!(Name::from_wire(&[3, b'a'], 0), Err(MsgError::ShortPacket));
    assert_eq!(Name::skip_wire(&[3, b'a'], 0), Err(MsgError::ShortPacket));
    assert_eq!(Name::from_wire(&[0x80], 0), Err(MsgError::InvalidLabelLength));
    assert_eq!(Name::skip_wire(&[0x80], 0), Err(MsgError::InvalidLabelLength));
    assert_eq!(Name::from_wire(&[], 0), Err(MsgError::ShortPacket));
    assert_eq!(Name::skip_wire(&[0], usize::MAX), Err(MsgError::ShortPacket));
}

#[test]
fn names_keep_to_255_bytes() {
    // 127 labels of one byte and the root: 255 bytes.
    let mut packet = Vec::new();
    for _ in 0..127 {
        packet.extend_from_slice(&[1, b'a']);
    }
    packet.push(0);
    assert_eq!(Name::from_wire(&packet, 0).unwrap().0.wire_len(), 255);
    packet.insert(0, b'a');
    packet.insert(0, 1);
    assert_eq!(Name::from_wire(&packet, 0), Err(MsgError::InvalidName));
    assert_eq!(Name::skip_wire(&packet, 0), Ok(packet.len()));
}

#[test]
fn pack_refuses_what_the_wire_cannot_carry() {
    let mut m = message();
    m.answers[0].rdata = vec![0; 65536];
    assert_eq!(m.pack(), Err(MsgError::RdataTooLong));
    let mut m = message();
    m.questions[0].name = Name { labels: vec![vec![b'x'; 64]] };
    assert_eq!(m.pack(), Err(MsgError::InvalidLabelLength));
    let mut m = Msg::default();
    for _ in 0..65536 {
        m.additionals.push(record(name(&[]), RrType::A, vec![]));
    }
    assert_eq!(m.pack(), Err(MsgError::InvalidRecord));
    // What was written of a bad record.
    let bad = record(Name { labels: vec![vec![b'a'], vec![b'x'; 64]] }, RrType::A, vec![]);
    let mut out = vec![7];
    assert_eq!(pack_rr(&bad, &mut out), Err(MsgError::InvalidLabelLength));
    assert_eq!(out, vec![7, 1, b'a']);
    let long = record(name(&["a"]), RrType::A, vec![0; 65536]);
    let mut out = vec![7];
    assert_eq!(pack_rr(&long, &mut out), Err(MsgError::RdataTooLong));
    assert_eq!(out, vec![7]);
}

#[test]
fn answers_hold_addresses() {
    let mut m = message();
    let v6 = IpAddr::V6(0x0102030405060708090a0b0c0d0e0f10);
    assert_eq!(m.answer_ips(), vec![IpAddr::V4(0x01020304), v6]);
    assert!(m.contains_answer_ip(v6));
    assert!(!m.contains_answer_ip(IpAddr::V4(1)));
    m.rewrite_answer_ips(IpAddr::V4(0x09080706));
    assert_eq!(m.answers[0].rdata, vec![9, 8, 7, 6]);
    assert_eq!(m.answer_ips(), vec![IpAddr::V4(0x09080706), v6]);
    let once = m.clone();
    m.rewrite_answer_ips(IpAddr::V4(0x09080706));
    assert_eq!(m, once);
    // Another class, and data of another length, hold none.
    m.answers[0].rr_class = 3;
    m.answers[1].rdata.push(0);
    assert!(m.answer_ips().is_empty());
}

#[test]
fn the_type_asked_for_is_read_from_a_query() {
    let packet = message().pack().unwrap();
    assert_eq!(query_qtype(&packet), Some(RrType::A));
    assert_eq!(query_qtype(&packet[..5]), None);
    assert_eq!(query_qtype(&packet[..12]), None);
    let mut none = packet.clone();
    none[5] = 0;
    assert_eq!(query_qtype(&none), None);
    assert!(validate_response_packet(&packet));
    assert!(!validate_response_packet(&packet[..20]));
}

#[test]
fn addresses_are_replaced_in_place() {
    let mut m = message();
    let mut packet = m.pack().unwrap();
    assert_eq!(rewrite_answer_ips_in_place(&mut packet, IpAddr::V4(0x09080706)), Ok(()));
    m.rewrite_answer_ips(IpAddr::V4(0x09080706));
    assert_eq!(packet, m.pack().unwrap());
    let once = packet.clone();
    assert_eq!(rewrite_answer_ips_in_place(&mut packet, IpAddr::V4(0x09080706)), Ok(()));
    assert_eq!(packet, once);
    assert_eq!(rewrite_answer_ips_in_place(&mut packet, IpAddr::V6(1)), Ok(()));
    m.rewrite_answer_ips(IpAddr::V6(1));
    assert_eq!(packet, m.pack().unwrap());
}

#[test]
fn a_rewritten_packet_is_the_rewritten_message() {
    // The owner of the answer is a pointer to the question.
    let mut packet = vec![0x12, 0x34, 0x81, 0x80, 0, 1, 0, 2, 0, 0, 0, 1];
    packet.extend_from_slice(&[1, b'a', 0, 0, 1, 0, 1]);
    packet.extend_from_slice(&[0xc0, 12, 0, 1, 0, 1, 0, 0, 0, 60, 0, 4, 1, 2, 3, 4]);
    packet.extend_from_slice(&[0xc0, 12, 0, 5, 0, 1, 0, 0, 0, 60, 0, 2, 0xc0, 12]);
    packet.extend_from_slice(&[0xc0, 12, 0, 1, 0, 1, 0, 0, 0, 60, 0, 4, 5, 6, 7, 8]);
    let mut m = Msg::unpack(&packet).unwrap();
    assert_eq!(Msg::rewrite_answer_ips_in_packet(&mut packet, IpAddr::V4(0x09080706)), Ok(()));
    m.rewrite_answer_ips(IpAddr::V4(0x09080706));
    assert_eq!(Msg::unpack(&packet).unwrap(), m);
    assert_eq!(m.answers[0].rdata, vec![9, 8, 7, 6]);
    assert_eq!(m.answers[0].name, name(&["a"]));
    assert_eq!(m.additionals[0].rdata, vec![5, 6, 7, 8]);
}

#[test]
fn a_name_in_an_address_changes_with_it() {
    // The owner of the second answer is read from the address of the first.
    let mut packet = vec![0, 1, 0x81, 0x80, 0, 0, 0, 2, 0, 0, 0, 0];
    packet.extend_from_slice(&[0, 0, 1, 0, 1, 0, 0, 0, 60, 0, 4, 1, b'x', 0, 0]);
    packet.extend_from_slice(&[0xc0, 23, 0, 5, 0, 1, 0, 0, 0, 60, 0, 0]);
    assert_eq!(Msg::unpack(&packet).unwrap().answers[1].name, name(&["x"]));
    assert_eq!(Msg::rewrite_answer_ips_in_packet(&mut packet, IpAddr::V4(0x01790000)), Ok(()));
    assert_eq!(Msg::unpack(&packet).unwrap().answers[1].name, name(&["y"]));
}

#[test]
fn a_cut_off_packet_is_rewritten_up_to_the_cut() {
    let packet = message().pack().unwrap();
    let mut cut = packet[..packet.len() - 1].to_vec();
    assert_eq!(
        rewrite_answer_ips_in_place(&mut cut, IpAddr::V4(0x09080706)),
        Err(PacketError::InvalidPacket)
    );
    let mut whole = packet.clone();
    rewrite_answer_ips_in_place(&mut whole, IpAddr::V4(0x09080706)).unwrap();
    assert_eq!(cut, whole[..whole.len() - 1].to_vec());
    let mut short = vec![0u8; 11];
    assert!(rewrite_answer_ips_in_place(&mut short, IpAddr::V4(1)).is_err());
    assert_eq!(
        Msg::rewrite_answer_ips_in_packet(&mut short, IpAddr::V4(1)),
        Err(MsgError::ShortPacket)
    );
    let mut long = packet;
    long.push(0);
    assert_eq!(
        Msg::rewrite_answer_ips_in_packet(&mut long, IpAddr::V4(1)),
        Err(MsgError::TrailingBytes)
    );
}

#[test]
fn record_types_keep_their_numbers() {
    for n in 0..=u16::MAX {
        assert_eq!(RrType::from_u16(n).to_u16(), n);
    }
    assert_eq!(RrType::from_u16(1), RrType::A);
    assert_eq!(RrType::from_u16(28), RrType::AAAA);
    assert_eq!(RrType::from_u16(16), RrType::Other(16));
}

#[test]
fn numbers_are_big_endian() {
    let mut out = Vec::new();
    wire::push_u16(&mut out, 0x0102);
    wire::push_u32(&mut out, 0x03040506);
    assert_eq!(out, vec![1, 2, 3, 4, 5, 6]);
    assert_eq!(wire::read_u16(&out, 0), 0x0102);
    assert_eq!(wire::read_u32(&out, 2), 0x03040506);
    assert_eq!(wire::copy_range(&out, 1, 3), vec![2, 3]);
    assert!(wire::bytes_equal(&out[..2], &[1, 2]));
    assert!(!wire::bytes_equal(&out[..2], &[1, 3]));
    assert!(!wire::bytes_equal(&out[..2], &[1]));
}

#[test]
fn octets_of_addresses() {
    assert_eq!(IpAddr::V4(0x7f000001).octets(), vec![127, 0, 0, 1]);
    let v6 = IpAddr::V6(0x20010db8_00000000_00000000_00000001);
    assert_eq!(
        v6.octets(),
        vec![0x20, 0x01, 0x0d, 0xb8, 0, 0, 0, 0, 0, 0, 0, 0, 0, 0, 0, 1]
    );
    assert_eq!(cache_ip(IpAddr::V6(1)), IpAddr::V4(1));
    assert_eq!(cache_ip(IpAddr::V6(0xffff_0a000001)), IpAddr::V4(0x0a000001));
    assert_eq!(cache_ip(v6), v6);
    assert!(IpAddr::V6(0).is_unspecified());
    assert!(!IpAddr::V4(1).is_unspecified());
}

#[test]
fn the_bind_address_has_the_family_of_the_peer() {
    let any4 = SocketAddr::new(IpAddr::V4(0), 53);
    let any6 = SocketAddr::V6 { ip: 0, port: 54, flowinfo: 7, scope_id: 8 };
    let one4 = SocketAddr::new(IpAddr::V4(1), 0);
    let one6 = SocketAddr::new(IpAddr::V6(1), 0);
    assert_eq!(local_bind_for_peer(any4, &one4), Some(any4));
    assert_eq!(
        local_bind_for_peer(any4, &one6),
        Some(SocketAddr::new(IpAddr::V6(0), 53))
    );
    assert_eq!(
        local_bind_for_peer(any6, &one4),
        Some(SocketAddr::new(IpAddr::V4(0), 54))
    );
    assert_eq!(local_bind_for_peer(any6, &one6), Some(any6));
    assert_eq!(local_bind_for_peer(one4, &one6), None);
    assert_eq!(local_bind_for_peer(one6, &one4), None);
}
