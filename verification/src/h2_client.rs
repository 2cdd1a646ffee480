//! Requests to upstream servers over HTTP/2 and HTTP/3.

use crate::errors::DoHError;
use crate::headers;
use crate::headers::HeaderField;
use crate::net::{IpAddr, SocketAddr};
use crate::response;
use crate::response::HeaderLine;
use crate::retry::H2Failure;
use crate::text;
use crate::time::Duration;
use vstd::prelude::*;
use vstd::utf8::*;

verus! {

pub const DOH_H2_IDLE_CONN_TIMEOUT_SECS: u64 = 300;

pub const DOH_H2_READ_IDLE_TIMEOUT_SECS: u64 = 30;

pub const DOH_H2_MAX_IDLE_CONNS_PER_HOST: usize = 2;

/// An address and a port as they stand in a URL; `ip_text` is the text of the address.
pub open spec fn authority_text(addr: SocketAddr, ip_text: Seq<char>) -> Seq<char> {
    match addr {
        SocketAddr::V4 { port, .. } => ip_text + ":"@ + text::decimal(port as nat),
        SocketAddr::V6 { port, .. } => "["@ + ip_text + "]:"@ + text::decimal(port as nat),
    }
}

/// An address and a port as they stand in a URL; `ip_text` is the text of the address.
pub fn socket_addr_to_authority(addr: SocketAddr, ip_text: &str) -> (s: String)
    ensures
        s@ == authority_text(addr, ip_text@),
{
    match addr {
        SocketAddr::V4 { port, .. } => {
            let mut s = text::joined(ip_text, ":");
            s.append(text::decimal_text(port as u128).as_str());
            s
        },
        SocketAddr::V6 { port, .. } => {
            let mut s = text::joined("[", ip_text);
            s.append("]:");
            s.append(text::decimal_text(port as u128).as_str());
            s
        },
    }
}

/// The URL of a request: to the address that was looked up for the server, where one was, and to
/// the server's name otherwise.
pub open spec fn request_url(
    target: Option<(SocketAddr, String)>,
    authority: Seq<char>,
    path: Seq<char>,
) -> Seq<char> {
    "https://"@ + (match target {
        Some((addr, ip_text)) => authority_text(addr, ip_text@),
        None => authority,
    }) + path
}

/// Whether a text is a URI.
pub uninterp spec fn is_uri(s: Seq<char>) -> bool;

/// `Uri`'s `FromStr` of the `http` crate: whether it takes the text.
#[verifier::external_body]
fn parses_as_uri(s: &str) -> (yes: bool)
    ensures
        yes == is_uri(s@),
{
    s.parse::<hyper::Uri>().is_ok()
}

/// Takes the URL of a request; `valid` says whether it is one.
pub fn check_uri(uri: String, valid: bool) -> (r: Result<String, H2Failure>)
    ensures
        r == (if valid {
            Ok::<String, H2Failure>(uri)
        } else {
            Err(H2Failure { err: DoHError::InvalidData, retryable: false })
        }),
{
    if valid {
        Ok(uri)
    } else {
        Err(invalid_request())
    }
}

/// The URL of a request, where it is one.
pub fn h2_uri(target: Option<(SocketAddr, String)>, authority: &str, path: &str) -> (r: Result<
    String,
    H2Failure,
>)
    ensures
        if is_uri(request_url(target, authority@, path@)) {
            r matches Ok(uri) && uri@ == request_url(target, authority@, path@)
        } else {
            r == Err::<String, H2Failure>(
                H2Failure { err: DoHError::InvalidData, retryable: false },
            )
        },
{
    let connect_authority = match target {
        Some((addr, ip_text)) => socket_addr_to_authority(addr, ip_text.as_str()),
        None => authority.to_owned(),
    };
    let mut uri = text::joined("https://", connect_authority.as_str());
    uri.append(path);
    let valid = parses_as_uri(uri.as_str());
    check_uri(uri, valid)
}

/// Whether a host can be the name of a TLS server.
pub uninterp spec fn is_server_name(host: Seq<char>) -> bool;

/// `ServerName::try_from` of `rustls`: whether it takes the host.
#[verifier::external_body]
fn parses_as_server_name(host: &str) -> (yes: bool)
    ensures
        yes == is_server_name(host@),
{
    tokio_rustls::rustls::pki_types::ServerName::try_from(host).is_ok()
}

/// Takes a host that can be the name of a TLS server, or cannot.
pub fn check_host(valid: bool) -> (r: Result<(), DoHError>)
    ensures
        r == (if valid {
            Ok::<(), DoHError>(())
        } else {
            Err(DoHError::UpstreamIssue)
        }),
{
    if valid {
        Ok(())
    } else {
        Err(DoHError::UpstreamIssue)
    }
}

/// Checks that a host can be the name of a TLS server.
pub fn check_server_name(host: &str) -> (r: Result<(), DoHError>)
    ensures
        r == (if is_server_name(host@) {
            Ok::<(), DoHError>(())
        } else {
            Err(DoHError::UpstreamIssue)
        }),
{
    check_host(parses_as_server_name(host))
}

/// The headers of a request over HTTP/2: it names the server whatever address it goes to.
pub open spec fn h2_headers(query_len: nat, authority: Seq<char>) -> Seq<(Seq<char>, Seq<char>)> {
    seq![
        ("content-type"@, "application/dns-message"@),
        ("accept"@, "application/dns-message"@),
        ("content-length"@, text::decimal(query_len)),
        ("host"@, authority),
    ]
}

fn header_line(name: &str, value: &str) -> (h: HeaderLine)
    ensures
        response::line(h) == (name@, value@),
{
    HeaderLine { name: name.to_owned(), value: value.to_owned() }
}

/// The headers of a request over HTTP/2.
pub fn h2_request_headers(query_len: usize, authority: &str) -> (headers: Vec<HeaderLine>)
    ensures
        response::lines(headers@) == h2_headers(query_len as nat, authority@),
{
    let mut headers: Vec<HeaderLine> = Vec::new();
    headers.push(header_line("content-type", "application/dns-message"));
    headers.push(header_line("accept", "application/dns-message"));
    headers.push(header_line("content-length", text::decimal_text(query_len as u128).as_str()));
    headers.push(header_line("host", authority));
    assert(response::lines(headers@) =~= h2_headers(query_len as nat, authority@));
    headers
}

/// The failure of a request that could not be written.
pub fn invalid_request() -> (f: H2Failure)
    ensures
        f == (H2Failure { err: DoHError::InvalidData, retryable: false }),
{
    H2Failure::new(DoHError::InvalidData, false)
}

/// Checks the status of a response: only 200 is an answer, and another is not worth a further
/// attempt.
pub fn check_h2_status(status: u16) -> (r: Result<(), H2Failure>)
    ensures
        r == (if status == 200 {
            Ok::<(), H2Failure>(())
        } else {
            Err(H2Failure { err: DoHError::UpstreamIssue, retryable: false })
        }),
{
    if status != 200 {
        return Err(H2Failure::new(DoHError::UpstreamIssue, false));
    }
    Ok(())
}

/// The local addresses of connections over HTTP/2: any, or the one that is configured.
#[derive(Clone, Copy, Debug, PartialEq, Eq, Structural)]
pub enum LocalAddresses {
    Any,
    One(IpAddr),
}

/// The local addresses of connections over HTTP/2.
pub fn h2_local_addresses(local: SocketAddr) -> (r: LocalAddresses)
    ensures
        r == (if local.ip_spec().unspecified() {
            LocalAddresses::Any
        } else {
            LocalAddresses::One(local.ip_spec())
        }),
{
    let ip = local.ip();
    if ip.is_unspecified() {
        LocalAddresses::Any
    } else {
        LocalAddresses::One(ip)
    }
}

/// The fields of a request over HTTP/3.
pub open spec fn h3_request_fields(
    authority: Seq<char>,
    path: Seq<char>,
    query_len: nat,
) -> Seq<(Seq<u8>, Seq<u8>)> {
    seq![
        (encode_utf8(":method"@), encode_utf8("POST"@)),
        (encode_utf8(":scheme"@), encode_utf8("https"@)),
        (encode_utf8(":authority"@), encode_utf8(authority)),
        (encode_utf8(":path"@), encode_utf8(path)),
        (encode_utf8("content-type"@), encode_utf8("application/dns-message"@)),
        (encode_utf8("accept"@), encode_utf8("application/dns-message"@)),
        (encode_utf8("content-length"@), encode_utf8(text::decimal(query_len))),
    ]
}

fn header_field(name: &str, value: &str) -> (h: HeaderField)
    ensures
        headers::field(h) == (encode_utf8(name@), encode_utf8(value@)),
{
    HeaderField {
        name: vstd::slice::slice_to_vec(name.as_bytes()),
        value: vstd::slice::slice_to_vec(value.as_bytes()),
    }
}

/// The fields of a request over HTTP/3.
pub fn h3_request_headers(authority: &str, path: &str, query_len: usize) -> (h: Vec<HeaderField>)
    ensures
        headers::fields(h@) == h3_request_fields(authority@, path@, query_len as nat),
{
    let mut h: Vec<HeaderField> = Vec::new();
    h.push(header_field(":method", "POST"));
    h.push(header_field(":scheme", "https"));
    h.push(header_field(":authority", authority));
    h.push(header_field(":path", path));
    h.push(header_field("content-type", "application/dns-message"));
    h.push(header_field("accept", "application/dns-message"));
    h.push(header_field("content-length", text::decimal_text(query_len as u128).as_str()));
    assert(headers::fields(h@) =~= h3_request_fields(authority@, path@, query_len as nat));
    h
}

/// How long a client's connection is served at most: a second more than a query may take.
pub fn connection_timeout(timeout: Duration) -> (limit: Duration)
    requires
        timeout.secs < u64::MAX,
    ensures
        limit == (Duration { secs: (timeout.secs + 1) as u64, nanos: timeout.nanos }),
{
    Duration { secs: timeout.secs + 1, nanos: timeout.nanos }
}

/// An IPv6 address stands in brackets before its port, and an IPv4 address without.
pub proof fn law_brackets_around_ipv6(
    ip: u128,
    ip4: u32,
    port: u16,
    flowinfo: u32,
    scope_id: u32,
    ip_text: Seq<char>,
)
    ensures
        authority_text(SocketAddr::V4 { ip: ip4, port }, ip_text) == ip_text + seq![':']
            + text::decimal(port as nat),
        authority_text(SocketAddr::V6 { ip, port, flowinfo, scope_id }, ip_text) == seq!['[']
            + ip_text + seq![']', ':'] + text::decimal(port as nat),
{
    reveal_strlit(":");
    reveal_strlit("[");
    reveal_strlit("]:");
    assert(":"@ =~= seq![':'] && "["@ =~= seq!['['] && "]:"@ =~= seq![']', ':']);
}

/// The request goes to the address that was looked up, or to the name of the server where none
/// was; the path is the same.
pub proof fn law_targets_of_requests(
    addr: SocketAddr,
    ip_text: String,
    authority: Seq<char>,
    path: Seq<char>,
)
    ensures
        request_url(None, authority, path) == "https://"@ + authority + path,
        request_url(Some((addr, ip_text)), authority, path) == "https://"@ + authority_text(
            addr,
            ip_text@,
        ) + path,
{
}

/// The query is said to be a message of its length, a message is asked for, and the server is
/// named, in both versions of HTTP.
pub proof fn law_requests_say_what_they_are(
    query_len: nat,
    authority: Seq<char>,
    path: Seq<char>,
)
    ensures
        h2_headers(query_len, authority).len() == 4,
        h2_headers(query_len, authority).contains(("content-type"@, "application/dns-message"@)),
        h2_headers(query_len, authority).contains(("accept"@, "application/dns-message"@)),
        h2_headers(query_len, authority).contains(("content-length"@, text::decimal(query_len))),
        h2_headers(query_len, authority).contains(("host"@, authority)),
        ({
            let fields = h3_request_fields(authority, path, query_len);
            &&& fields.len() == 7
            &&& fields[0] == (encode_utf8(":method"@), encode_utf8("POST"@))
            &&& fields[1] == (encode_utf8(":scheme"@), encode_utf8("https"@))
            &&& fields[2] == (encode_utf8(":authority"@), encode_utf8(authority))
            &&& fields[3] == (encode_utf8(":path"@), encode_utf8(path))
            &&& fields.contains(
                (encode_utf8("content-type"@), encode_utf8("application/dns-message"@)),
            )
            &&& fields.contains(
                (encode_utf8("accept"@), encode_utf8("application/dns-message"@)),
            )
            &&& fields.contains(
                (encode_utf8("content-length"@), encode_utf8(text::decimal(query_len))),
            )
        }),
{
    let h2 = h2_headers(query_len, authority);
    assert(h2[0] == ("content-type"@, "application/dns-message"@));
    assert(h2[1] == ("accept"@, "application/dns-message"@));
    assert(h2[2] == ("content-length"@, text::decimal(query_len)));
    assert(h2[3] == ("host"@, authority));
    let h3 = h3_request_fields(authority, path, query_len);
    assert(h3[4] == (encode_utf8("content-type"@), encode_utf8("application/dns-message"@)));
    assert(h3[5] == (encode_utf8("accept"@), encode_utf8("application/dns-message"@)));
    assert(h3[6] == (encode_utf8("content-length"@), encode_utf8(text::decimal(query_len))));
}

/// Idle connections over HTTP/2 are kept for five minutes, two for each server.
pub proof fn law_idle_connections()
    ensures
        DOH_H2_IDLE_CONN_TIMEOUT_SECS == 300,
        DOH_H2_READ_IDLE_TIMEOUT_SECS == 30,
        DOH_H2_MAX_IDLE_CONNS_PER_HOST == 2,
{
}

} // verus!
