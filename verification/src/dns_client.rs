//! Plain DNS queries over UDP, TCP and TLS: what is written, and what a reply may be.

use crate::errors::DoHError;
use crate::limits::Limits;
use crate::net::SocketAddr;
use crate::time::Duration;
use crate::wire;
use vstd::prelude::*;

verus! {

/// How long to wait for a trial connection, in seconds.
pub const DOH_PROBE_TLS_TIMEOUT_SECS: u64 = 10;

/// The bytes of a query on a stream: its length in two bytes, and the query.
pub open spec fn framed(query: Seq<u8>) -> Seq<u8> {
    wire::be16_bytes(query.len() as int) + query
}

/// The bytes to write for a query over TLS. It has to fit its length field.
pub fn frame_query(query: &[u8]) -> (r: Result<Vec<u8>, DoHError>)
    ensures
        match r {
            Ok(bytes) => query@.len() <= 65535 && bytes@ == framed(query@),
            Err(e) => query@.len() > 65535 && e is TooLarge,
        },
{
    if query.len() > 65535 {
        return Err(DoHError::TooLarge);
    }
    let mut bytes: Vec<u8> = Vec::new();
    wire::push_u16(&mut bytes, query.len() as u16);
    wire::push_all(&mut bytes, query);
    assert(bytes@ =~= framed(query@));
    Ok(bytes)
}

/// The bytes to write for a query over TCP. The length field holds the low sixteen bits of the
/// length.
pub fn frame_tcp_query(query: &[u8]) -> (bytes: Vec<u8>)
    ensures
        bytes@ == wire::be16_bytes((query@.len() % 65536) as int) + query@,
        query@.len() <= 65535 ==> bytes@ == framed(query@),
{
    let mut bytes: Vec<u8> = Vec::new();
    wire::push_u16(&mut bytes, (query.len() % 65536) as u16);
    wire::push_all(&mut bytes, query);
    assert(bytes@ =~= wire::be16_bytes((query@.len() % 65536) as int) + query@);
    bytes
}

/// A response may have this length.
pub open spec fn length_allowed(len: int, limits: Limits) -> bool {
    limits.min_dns_packet_len <= len <= limits.max_dns_response_len
}

/// The length of the response that follows its two bytes of length.
pub fn response_len(len_bytes: [u8; 2], limits: &Limits) -> (r: Result<usize, DoHError>)
    ensures
        match r {
            Ok(len) => len == wire::be16_at(len_bytes@, 0) && length_allowed(len as int, *limits),
            Err(e) => !length_allowed(wire::be16_at(len_bytes@, 0), *limits) && e is UpstreamIssue,
        },
{
    let len: usize = wire::read_u16(&len_bytes, 0) as usize;
    if len < limits.min_dns_packet_len || len > limits.max_dns_response_len {
        return Err(DoHError::UpstreamIssue);
    }
    Ok(len)
}

/// A framed query tells its own length.
pub proof fn law_frame_tells_length(query: Seq<u8>)
    requires
        query.len() <= 65535,
    ensures
        wire::be16_at(framed(query), 0) == query.len(),
        framed(query).skip(2) == query,
{
    wire::law_be16_round_trip(query.len() as int);
    assert(framed(query).skip(2) =~= query);
}

/// Checks a reply over UDP: it has to be long enough, and come from the server that was asked.
pub fn check_udp_reply(
    len: usize,
    expected: &SocketAddr,
    from: &SocketAddr,
    limits: &Limits,
) -> (r: Result<(), DoHError>)
    ensures
        r == (if len < limits.min_dns_packet_len || *expected != *from {
            Err::<(), DoHError>(DoHError::UpstreamIssue)
        } else {
            Ok(())
        }),
{
    if len < limits.min_dns_packet_len || *expected != *from {
        return Err(DoHError::UpstreamIssue);
    }
    Ok(())
}

/// A truncated reply may be asked for again over TCP, unless too many clients are being served.
pub fn check_tcp_sessions(clients_count: usize, max_clients: usize, limits: &Limits) -> (r: Result<
    (),
    DoHError,
>)
    requires
        limits.wf(),
    ensures
        r == (if max_clients >= limits.udp_tcp_ratio && clients_count >= max_clients as int
            / limits.udp_tcp_ratio as int {
            Err::<(), DoHError>(DoHError::TooManyTcpSessions)
        } else {
            Ok(())
        }),
{
    if max_clients >= limits.udp_tcp_ratio && clients_count >= max_clients / limits.udp_tcp_ratio {
        return Err(DoHError::TooManyTcpSessions);
    }
    Ok(())
}

/// What a UDP reply comes to: it is the answer, or is to be asked for again over TCP.
#[derive(Debug)]
pub enum UdpStep {
    Answer(Vec<u8>),
    AskOverTcp,
}

/// Takes a UDP reply of `len` bytes in `buffer`; `truncated` says whether those bytes are marked
/// as cut off.
pub fn on_udp_reply(
    buffer: Vec<u8>,
    len: usize,
    expected: &SocketAddr,
    from: &SocketAddr,
    truncated: bool,
    clients_count: usize,
    max_clients: usize,
    limits: &Limits,
) -> (r: Result<UdpStep, DoHError>)
    requires
        limits.wf(),
        len <= buffer@.len(),
    ensures
        if len < limits.min_dns_packet_len || *expected != *from {
            r matches Err(e) && e is UpstreamIssue
        } else if !truncated {
            r matches Ok(UdpStep::Answer(packet)) && packet@ == buffer@.take(len as int)
        } else if max_clients >= limits.udp_tcp_ratio && clients_count >= max_clients as int
            / limits.udp_tcp_ratio as int {
            r matches Err(e) && e is TooManyTcpSessions
        } else {
            r matches Ok(UdpStep::AskOverTcp)
        },
{
    match check_udp_reply(len, expected, from, limits) {
        Ok(_) => {},
        Err(e) => {
            return Err(e);
        },
    }
    if truncated {
        match check_tcp_sessions(clients_count, max_clients, limits) {
            Ok(_) => {},
            Err(e) => {
                return Err(e);
            },
        }
        return Ok(UdpStep::AskOverTcp);
    }
    let mut packet = buffer;
    packet.truncate(len);
    Ok(UdpStep::Answer(packet))
}

/// How long to wait, where there is a limit: no time at all stands for none.
pub fn time_limit(timeout: Duration) -> (limit: Option<Duration>)
    ensures
        limit == (if timeout.zero() {
            None
        } else {
            Some(timeout)
        }),
{
    if timeout.is_zero() {
        None
    } else {
        Some(timeout)
    }
}

/// How long to wait for a trial connection over QUIC: as for everything, or ten seconds where
/// there is no limit.
pub fn probe_quic_timeout(timeout: Duration) -> (limit: Duration)
    ensures
        limit == (if timeout.zero() {
            Duration { secs: DOH_PROBE_TLS_TIMEOUT_SECS, nanos: 0 }
        } else {
            timeout
        }),
{
    if timeout.is_zero() {
        Duration::from_secs(DOH_PROBE_TLS_TIMEOUT_SECS)
    } else {
        timeout
    }
}

/// On a stream two bytes with the length come first, and the query itself after them.
pub proof fn law_length_comes_first(query: Seq<u8>, hi: u8, lo: u8)
    requires
        query.len() == 256 * hi + lo,
    ensures
        framed(query) == seq![hi, lo] + query,
{
    wire::law_network_order(hi, lo, 0, 0);
    assert(wire::be16_bytes(query.len() as int) =~= seq![hi, lo]);
}

/// A response has to be as long as the limits say, and no longer; both are allowed themselves.
pub proof fn law_lengths_between_the_limits(len: int, limits: Limits)
    ensures
        limits.min_dns_packet_len <= len && len <= limits.max_dns_response_len <==> length_allowed(
            len,
            limits,
        ),
        DOH_PROBE_TLS_TIMEOUT_SECS == 10,
{
}

} // verus!
