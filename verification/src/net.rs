//! Network addresses as plain values.

use crate::wire;
use vstd::prelude::*;

verus! {

/// An IP address, by its value as a number in network order.
#[derive(Clone, Copy, Debug, PartialEq, Eq, Structural)]
pub enum IpAddr {
    V4(u32),
    V6(u128),
}

/// An address and a port; for IPv6 also the flow information and the scope.
#[allow(inconsistent_fields)]
#[derive(Clone, Copy, Debug, PartialEq, Eq, Structural)]
pub enum SocketAddr {
    V4 { ip: u32, port: u16 },
    V6 { ip: u128, port: u16, flowinfo: u32, scope_id: u32 },
}

/// The sixteen bytes of a 128-bit number, high byte first.
pub open spec fn be128_bytes(v: int) -> Seq<u8> {
    wire::be32_bytes(v / 0x1_0000_0000_0000_0000_0000_0000) + wire::be32_bytes(
        (v / 0x1_0000_0000_0000_0000) % 0x1_0000_0000,
    ) + wire::be32_bytes((v / 0x1_0000_0000) % 0x1_0000_0000) + wire::be32_bytes(v % 0x1_0000_0000)
}

/// The value of the sixteen bytes of `s` that start at `at`.
pub open spec fn be128_at(s: Seq<u8>, at: int) -> int {
    ((wire::be32_at(s, at) * 0x1_0000_0000 + wire::be32_at(s, at + 4)) * 0x1_0000_0000
        + wire::be32_at(s, at + 8)) * 0x1_0000_0000 + wire::be32_at(s, at + 12)
}

impl IpAddr {
    /// The bytes of the address in network order.
    pub open spec fn octets_spec(self) -> Seq<u8> {
        match self {
            IpAddr::V4(v) => wire::be32_bytes(v as int),
            IpAddr::V6(v) => be128_bytes(v as int),
        }
    }

    /// The bytes of the address in network order.
    pub fn octets(self) -> (bytes: Vec<u8>)
        ensures
            bytes@ == self.octets_spec(),
    {
        let mut bytes: Vec<u8> = Vec::new();
        match self {
            IpAddr::V4(v) => {
                wire::push_u32(&mut bytes, v);
                assert(bytes@ =~= wire::be32_bytes(v as int));
            },
            IpAddr::V6(v) => {
                wire::push_u32(&mut bytes, (v / 0x1_0000_0000_0000_0000_0000_0000) as u32);
                wire::push_u32(&mut bytes, ((v / 0x1_0000_0000_0000_0000) % 0x1_0000_0000) as u32);
                wire::push_u32(&mut bytes, ((v / 0x1_0000_0000) % 0x1_0000_0000) as u32);
                wire::push_u32(&mut bytes, (v % 0x1_0000_0000) as u32);
                assert(bytes@ =~= be128_bytes(v as int));
            },
        }
        bytes
    }

    /// The unspecified address of its family, with every bit zero.
    pub open spec fn unspecified(self) -> bool {
        match self {
            IpAddr::V4(v) => v == 0,
            IpAddr::V6(v) => v == 0,
        }
    }

    /// Whether this is the unspecified address of its family.
    pub fn is_unspecified(self) -> (yes: bool)
        ensures
            yes == self.unspecified(),
    {
        match self {
            IpAddr::V4(v) => v == 0,
            IpAddr::V6(v) => v == 0,
        }
    }
}

/// The IPv4 address of the four bytes at `at`.
pub fn read_ipv4(packet: &[u8], at: usize) -> (ip: IpAddr)
    requires
        at + 4 <= packet.len(),
    ensures
        ip == IpAddr::V4(wire::be32_at(packet@, at as int) as u32),
{
    IpAddr::V4(wire::read_u32(packet, at))
}

/// The IPv6 address of the sixteen bytes at `at`.
pub fn read_ipv6(packet: &[u8], at: usize) -> (ip: IpAddr)
    requires
        at + 16 <= packet.len(),
    ensures
        ip == IpAddr::V6(be128_at(packet@, at as int) as u128),
{
    let a: u128 = wire::read_u32(packet, at) as u128;
    let b: u128 = wire::read_u32(packet, at + 4) as u128;
    let c: u128 = wire::read_u32(packet, at + 8) as u128;
    let d: u128 = wire::read_u32(packet, at + 12) as u128;
    IpAddr::V6(((a * 0x1_0000_0000 + b) * 0x1_0000_0000 + c) * 0x1_0000_0000 + d)
}

/// An address is found again in its bytes, wherever they stand.
pub proof fn law_octets_round_trip(ip: IpAddr, s: Seq<u8>, at: int)
    requires
        0 <= at,
        at + ip.octets_spec().len() <= s.len(),
        s.subrange(at, at + ip.octets_spec().len()) == ip.octets_spec(),
    ensures
        match ip {
            IpAddr::V4(v) => ip.octets_spec().len() == 4 && wire::be32_at(s, at) == v,
            IpAddr::V6(v) => ip.octets_spec().len() == 16 && be128_at(s, at) == v,
        },
{
    let o = ip.octets_spec();
    assert forall|i: int| 0 <= i < o.len() implies s[at + i] == o[i] by {
        assert(s.subrange(at, at + o.len())[i] == s[at + i]);
    }
    match ip {
        IpAddr::V4(v) => {
            wire::law_be32_round_trip(v as int);
            assert(wire::be32_at(s, at) == wire::be32_at(o, 0)) by {
                assert(s[at + 0] == o[0] && s[at + 1] == o[1] && s[at + 2] == o[2] && s[at + 3]
                    == o[3]);
            }
        },
        IpAddr::V6(v) => {
            let a = v as int / 0x1_0000_0000_0000_0000_0000_0000;
            let b = (v as int / 0x1_0000_0000_0000_0000) % 0x1_0000_0000;
            let c = (v as int / 0x1_0000_0000) % 0x1_0000_0000;
            let d = v as int % 0x1_0000_0000;
            wire::law_be32_round_trip(a);
            wire::law_be32_round_trip(b);
            wire::law_be32_round_trip(c);
            wire::law_be32_round_trip(d);
            let (p, q, r, t) = (
                wire::be32_bytes(a),
                wire::be32_bytes(b),
                wire::be32_bytes(c),
                wire::be32_bytes(d),
            );
            assert(o == p + q + r + t);
            lemma_four_parts(s, at, p, q, r, t);
            lemma_words_value(v as int);
        },
    }
}

/// The four words of a 128-bit number make up its value.
proof fn lemma_words_value(v: int)
    requires
        0 <= v < 0x1_0000_0000_0000_0000_0000_0000_0000_0000,
    ensures
        ((v / 0x1_0000_0000_0000_0000_0000_0000 * 0x1_0000_0000 + (v / 0x1_0000_0000_0000_0000)
            % 0x1_0000_0000) * 0x1_0000_0000 + (v / 0x1_0000_0000) % 0x1_0000_0000) * 0x1_0000_0000
            + v % 0x1_0000_0000 == v,
        0 <= v / 0x1_0000_0000_0000_0000_0000_0000 < 0x1_0000_0000,
{
}

/// Each of four words is read back from where it stands in their concatenation.
proof fn lemma_four_parts(s: Seq<u8>, at: int, p: Seq<u8>, q: Seq<u8>, r: Seq<u8>, t: Seq<u8>)
    requires
        p.len() == 4 && q.len() == 4 && r.len() == 4 && t.len() == 4,
        forall|i: int| 0 <= i < 16 ==> s[at + i] == (p + q + r + t)[i],
    ensures
        wire::be32_at(s, at) == wire::be32_at(p, 0),
        wire::be32_at(s, at + 4) == wire::be32_at(q, 0),
        wire::be32_at(s, at + 8) == wire::be32_at(r, 0),
        wire::be32_at(s, at + 12) == wire::be32_at(t, 0),
{
    let o = p + q + r + t;
    lemma_be32_part(s, at, o, 0, p);
    lemma_be32_part(s, at, o, 4, q);
    lemma_be32_part(s, at, o, 8, r);
    lemma_be32_part(s, at, o, 12, t);
}

proof fn lemma_be32_part(s: Seq<u8>, at: int, o: Seq<u8>, k: int, part: Seq<u8>)
    requires
        part.len() == 4,
        0 <= k,
        k + 4 <= o.len(),
        forall|i: int| 0 <= i < o.len() ==> s[at + i] == o[i],
        forall|i: int| 0 <= i < 4 ==> o[k + i] == part[i],
    ensures
        wire::be32_at(s, at + k) == wire::be32_at(part, 0),
{
    assert(o[k + 0] == part[0] && o[k + 1] == part[1] && o[k + 2] == part[2] && o[k + 3]
        == part[3]);
    assert(s[at + (k + 0)] == o[k + 0] && s[at + (k + 1)] == o[k + 1] && s[at + (k + 2)] == o[k + 2]
        && s[at + (k + 3)] == o[k + 3]);
}

/// The IPv4 address that an IPv6 address stands for: the compatible (`::a.b.c.d`) and the mapped
/// (`::ffff:a.b.c.d`) form; every other address stands for itself.
pub open spec fn canonical_ip(ip: IpAddr) -> IpAddr {
    match ip {
        IpAddr::V6(v) if v < 0x1_0000_0000 => IpAddr::V4(v as u32),
        IpAddr::V6(v) if 0xffff_0000_0000 <= v < 0x1_0000_0000_0000 => IpAddr::V4(
            (v - 0xffff_0000_0000) as u32,
        ),
        _ => ip,
    }
}

/// The address under which measurements of `ip` are kept.
pub fn cache_ip(ip: IpAddr) -> (r: IpAddr)
    ensures
        r == canonical_ip(ip),
{
    match ip {
        IpAddr::V6(v) => {
            if v < 0x1_0000_0000 {
                IpAddr::V4(v as u32)
            } else if 0xffff_0000_0000 <= v && v < 0x1_0000_0000_0000 {
                IpAddr::V4((v - 0xffff_0000_0000) as u32)
            } else {
                ip
            }
        },
        IpAddr::V4(_) => ip,
    }
}

impl SocketAddr {
    /// The address without the port.
    pub open spec fn ip_spec(self) -> IpAddr {
        match self {
            SocketAddr::V4 { ip, .. } => IpAddr::V4(ip),
            SocketAddr::V6 { ip, .. } => IpAddr::V6(ip),
        }
    }

    /// The port.
    pub open spec fn port_spec(self) -> u16 {
        match self {
            SocketAddr::V4 { port, .. } => port,
            SocketAddr::V6 { port, .. } => port,
        }
    }

    /// An address and a port, with no flow information and no scope.
    pub fn new(ip: IpAddr, port: u16) -> (addr: Self)
        ensures
            addr == socket_addr(ip, port),
    {
        match ip {
            IpAddr::V4(v) => SocketAddr::V4 { ip: v, port },
            IpAddr::V6(v) => SocketAddr::V6 { ip: v, port, flowinfo: 0, scope_id: 0 },
        }
    }

    /// The address without the port.
    pub fn ip(&self) -> (ip: IpAddr)
        ensures
            ip == self.ip_spec(),
    {
        match *self {
            SocketAddr::V4 { ip, .. } => IpAddr::V4(ip),
            SocketAddr::V6 { ip, .. } => IpAddr::V6(ip),
        }
    }
}

/// An address and a port, with no flow information and no scope.
pub open spec fn socket_addr(ip: IpAddr, port: u16) -> SocketAddr {
    match ip {
        IpAddr::V4(v) => SocketAddr::V4 { ip: v, port },
        IpAddr::V6(v) => SocketAddr::V6 { ip: v, port, flowinfo: 0, scope_id: 0 },
    }
}

/// The address to bind to for a peer: the configured one where the families agree, the
/// unspecified one of the peer's family where the configured one is unspecified, none otherwise.
pub open spec fn bind_for_peer(local: SocketAddr, peer: SocketAddr) -> Option<SocketAddr> {
    if (local is V4) == (peer is V4) {
        Some(local)
    } else if local.ip_spec().unspecified() {
        Some(
            socket_addr(
                if peer is V4 {
                    IpAddr::V4(0)
                } else {
                    IpAddr::V6(0)
                },
                local.port_spec(),
            ),
        )
    } else {
        None
    }
}

/// The address to bind to before connecting to `peer`.
pub fn local_bind_for_peer(local: SocketAddr, peer: &SocketAddr) -> (r: Option<SocketAddr>)
    ensures
        r == bind_for_peer(local, *peer),
{
    match (local, *peer) {
        (SocketAddr::V4 { .. }, SocketAddr::V4 { .. }) => Some(local),
        (SocketAddr::V6 { .. }, SocketAddr::V6 { .. }) => Some(local),
        (SocketAddr::V4 { ip, port }, SocketAddr::V6 { .. }) => {
            if ip == 0 {
                Some(SocketAddr::new(IpAddr::V6(0), port))
            } else {
                None
            }
        },
        (SocketAddr::V6 { ip, port, .. }, SocketAddr::V4 { .. }) => {
            if ip == 0 {
                Some(SocketAddr::new(IpAddr::V4(0), port))
            } else {
                None
            }
        },
    }
}

/// A bind address always has the peer's family and keeps the configured port, and an
/// unspecified local address can be bound for every peer.
pub proof fn law_bind_family(local: SocketAddr, peer: SocketAddr)
    ensures
        bind_for_peer(local, peer) matches Some(bind) ==> (bind is V4) == (peer is V4)
            && bind.port_spec() == local.port_spec(),
        local.ip_spec().unspecified() ==> (bind_for_peer(local, peer) matches Some(bind)
            && bind.ip_spec().unspecified()),
{
}

/// The bytes of an address stand in network order: the upper first.
pub proof fn law_octets_in_network_order(ip: IpAddr)
    ensures
        match ip {
            IpAddr::V4(v) => {
                let o = ip.octets_spec();
                o.len() == 4 && v == ((o[0] * 256 + o[1]) * 256 + o[2]) * 256 + o[3]
            },
            IpAddr::V6(v) => {
                let o = ip.octets_spec();
                o.len() == 16 && v == four_bytes(o, 0) * 0x1_0000_0000_0000_0000_0000_0000
                    + four_bytes(o, 4) * 0x1_0000_0000_0000_0000 + four_bytes(o, 8)
                    * 0x1_0000_0000 + four_bytes(o, 12)
            },
        },
{
    let o = ip.octets_spec();
    assert(o.subrange(0, o.len() as int) =~= o);
    law_octets_round_trip(ip, o, 0);
}

/// The number that four bytes write, the upper first.
pub open spec fn four_bytes(o: Seq<u8>, at: int) -> int {
    ((o[at] * 256 + o[at + 1]) * 256 + o[at + 2]) * 256 + o[at + 3]
}

/// Four bytes are those of the address that they write, and so are sixteen.
pub proof fn law_bytes_give_addresses(s: Seq<u8>, at: int)
    requires
        0 <= at,
    ensures
        at + 4 <= s.len() ==> IpAddr::V4(wire::be32_at(s, at) as u32).octets_spec() == s.subrange(
            at,
            at + 4,
        ),
        at + 16 <= s.len() ==> IpAddr::V6(be128_at(s, at) as u128).octets_spec() == s.subrange(
            at,
            at + 16,
        ),
{
    if at + 4 <= s.len() {
        lemma_four_bytes_back(s, at);
        assert(IpAddr::V4(wire::be32_at(s, at) as u32).octets_spec() =~= s.subrange(at, at + 4));
    }
    if at + 16 <= s.len() {
        lemma_four_bytes_back(s, at);
        lemma_four_bytes_back(s, at + 4);
        lemma_four_bytes_back(s, at + 8);
        lemma_four_bytes_back(s, at + 12);
        let a = wire::be32_at(s, at);
        let b = wire::be32_at(s, at + 4);
        let c = wire::be32_at(s, at + 8);
        let d = wire::be32_at(s, at + 12);
        let v = be128_at(s, at);
        lemma_quarters(a, b, c, d);
        assert(be128_bytes(v) =~= s.subrange(at, at + 16));
    }
}

proof fn lemma_four_bytes_back(s: Seq<u8>, at: int)
    requires
        0 <= at,
        at + 4 <= s.len(),
    ensures
        0 <= wire::be32_at(s, at) < 0x1_0000_0000,
        wire::be32_bytes(wire::be32_at(s, at)) == s.subrange(at, at + 4),
{
    let v = wire::be32_at(s, at);
    assert(v / 65536 == wire::be16_at(s, at) && v % 65536 == wire::be16_at(s, at + 2));
    assert(wire::be32_bytes(v) =~= s.subrange(at, at + 4));
}

proof fn lemma_quarters(a: int, b: int, c: int, d: int)
    requires
        0 <= a < 0x1_0000_0000,
        0 <= b < 0x1_0000_0000,
        0 <= c < 0x1_0000_0000,
        0 <= d < 0x1_0000_0000,
    ensures
        ({
            let v = ((a * 0x1_0000_0000 + b) * 0x1_0000_0000 + c) * 0x1_0000_0000 + d;
            &&& 0 <= v <= u128::MAX
            &&& v / 0x1_0000_0000_0000_0000_0000_0000 == a
            &&& (v / 0x1_0000_0000_0000_0000) % 0x1_0000_0000 == b
            &&& (v / 0x1_0000_0000) % 0x1_0000_0000 == c
            &&& v % 0x1_0000_0000 == d
        }),
{
    let abc = (a * 0x1_0000_0000 + b) * 0x1_0000_0000 + c;
    let v = abc * 0x1_0000_0000 + d;
    assert(v / 0x1_0000_0000 == abc && v % 0x1_0000_0000 == d);
    assert(abc / 0x1_0000_0000 == a * 0x1_0000_0000 + b && abc % 0x1_0000_0000 == c);
    assert(v / 0x1_0000_0000_0000_0000 == a * 0x1_0000_0000 + b);
    assert(v / 0x1_0000_0000_0000_0000_0000_0000 == a);
}

/// An IPv6 address that holds an IPv4 one in its last four bytes, behind nothing or behind two
/// bytes of ones, stands for that; every other address stands for itself.
pub proof fn law_mapped_addresses(ip: u32, other: u128)
    ensures
        canonical_ip(IpAddr::V4(ip)) == IpAddr::V4(ip),
        canonical_ip(IpAddr::V6(ip as u128)) == IpAddr::V4(ip),
        canonical_ip(IpAddr::V6((0xffff_0000_0000 + ip) as u128)) == IpAddr::V4(ip),
        other >= 0x1_0000_0000_0000 || 0x1_0000_0000 <= other < 0xffff_0000_0000 ==> canonical_ip(
            IpAddr::V6(other),
        ) == IpAddr::V6(other),
        canonical_ip(canonical_ip(IpAddr::V6(other))) == canonical_ip(IpAddr::V6(other)),
{
}

/// A local address of the peer's family is bound as it is; one of the other family only where it
/// is the unspecified one, and then the unspecified one of the peer's family takes its place.
pub proof fn law_bind_address(local: SocketAddr, peer: SocketAddr)
    ensures
        (local is V4) == (peer is V4) ==> bind_for_peer(local, peer) == Some(local),
        (local is V4) != (peer is V4) ==> (bind_for_peer(local, peer) is Some
            <==> local.ip_spec() == IpAddr::V4(0) || local.ip_spec() == IpAddr::V6(0)),
        IpAddr::V4(0).unspecified() && IpAddr::V6(0).unspecified(),
        forall|ip: IpAddr| #[trigger]
            ip.unspecified() ==> ip == IpAddr::V4(0) || ip == IpAddr::V6(0),
{
}

/// An address with a port has that address and that port.
pub proof fn law_address_and_port(ip: IpAddr, port: u16)
    ensures
        socket_addr(ip, port).ip_spec() == ip,
        socket_addr(ip, port).port_spec() == port,
        socket_addr(ip, port) matches SocketAddr::V6 { flowinfo, scope_id, .. } ==> flowinfo == 0
            && scope_id == 0,
{
}

} // verus!
