//! From command-line options to settings.

use crate::doh_upstream::{DohHealth, DohUpstream};
use crate::globals::{DotUpstream, Globals, Upstream};
use crate::net;
use crate::net::{IpAddr, SocketAddr};
use crate::text;
use crate::time::Duration;
use vstd::prelude::*;

verus! {

/// Why a text is no number.
#[derive(Clone, Copy, Debug, PartialEq, Eq, Structural)]
pub enum NumberError {
    Empty,
    InvalidDigit,
    TooLarge,
}

impl NumberError {
    /// The error in words.
    pub open spec fn words(self) -> Seq<char> {
        match self {
            NumberError::Empty => "cannot parse integer from empty string"@,
            NumberError::InvalidDigit => "invalid digit found in string"@,
            NumberError::TooLarge => "number too large to fit in target type"@,
        }
    }

    pub fn to_text(&self) -> (s: String)
        ensures
            s@ == self.words(),
    {
        match self {
            NumberError::Empty => "cannot parse integer from empty string".to_owned(),
            NumberError::InvalidDigit => "invalid digit found in string".to_owned(),
            NumberError::TooLarge => "number too large to fit in target type".to_owned(),
        }
    }
}

/// What is wrong with digits from the left on, when those before have the value `n`.
pub open spec fn digits_error(s: Seq<char>, n: nat, max: nat) -> Option<NumberError>
    decreases s.len(),
{
    if s.len() == 0 {
        None
    } else {
        match text::digit_value(s[0]) {
            None => Some(NumberError::InvalidDigit),
            Some(d) => if n * 10 + d > max {
                Some(NumberError::TooLarge)
            } else {
                digits_error(s.skip(1), n * 10 + d, max)
            },
        }
    }
}

/// What is wrong with a number of at most `max`: the first thing from the left.
pub open spec fn number_error(s: Seq<char>, max: nat) -> Option<NumberError> {
    let digits = if s.len() > 0 && s[0] == '+' {
        s.skip(1)
    } else {
        s
    };
    if s.len() == 0 {
        Some(NumberError::Empty)
    } else if digits.len() == 0 {
        Some(NumberError::InvalidDigit)
    } else {
        digits_error(digits, 0, max)
    }
}

proof fn lemma_digits_from(s: Seq<char>, k: int, max: nat)
    requires
        0 <= k <= s.len(),
        text::digits_value(s.take(k)) is Some,
        text::digits_value(s.take(k))->0 <= max,
    ensures
        digits_error(s.skip(k), text::digits_value(s.take(k))->0, max) is None <==> (
        text::digits_value(s) is Some && text::digits_value(s)->0 <= max),
    decreases s.len() - k,
{
    if k == s.len() {
        assert(s.take(k) =~= s);
    } else {
        let next = s.take(k + 1);
        assert(next.drop_last() =~= s.take(k));
        assert(next.last() == s[k]);
        assert(s.skip(k)[0] == s[k]);
        assert(s.skip(k).skip(1) =~= s.skip(k + 1));
        let d = text::digit_value(s[k]);
        if d is Some && text::digits_value(s.take(k))->0 * 10 + d->0 <= max {
            lemma_digits_from(s, k + 1, max);
        } else {
            lemma_digits_grow(s, k + 1);
        }
    }
}

/// The value of digits is that of the first of them at least.
proof fn lemma_digits_grow(s: Seq<char>, k: int)
    requires
        0 <= k <= s.len(),
    ensures
        text::digits_value(s) is Some ==> text::digits_value(s.take(k)) is Some
            && text::digits_value(s.take(k))->0 <= text::digits_value(s)->0,
    decreases s.len() - k,
{
    if k < s.len() {
        assert(s.drop_last().take(k) =~= s.take(k));
        lemma_digits_grow(s.drop_last(), k);
    } else {
        assert(s.take(k) =~= s);
    }
}

/// A text has nothing wrong with it exactly where it is a number.
pub proof fn law_numbers_have_no_error(s: Seq<char>, max: nat)
    ensures
        number_error(s, max) is None <==> text::parsed_number(s, max) is Some,
{
    let digits = if s.len() > 0 && s[0] == '+' {
        s.skip(1)
    } else {
        s
    };
    assert(digits.take(0) =~= Seq::empty());
    assert(digits.skip(0) =~= digits);
    lemma_digits_from(digits, 0, max);
}

/// What is wrong with a text that is no number.
fn find_number_error(s: &str, max: u64) -> (e: NumberError)
    requires
        text::parsed_number(s@, max as nat) is None,
    ensures
        number_error(s@, max as nat) == Some(e),
{
    let v = text::chars_of(s);
    proof {
        law_numbers_have_no_error(s@, max as nat);
    }
    if v.len() == 0 {
        return NumberError::Empty;
    }
    let from: usize = if v[0] == '+' {
        1
    } else {
        0
    };
    if from == v.len() {
        return NumberError::InvalidDigit;
    }
    let ghost digits = s@.skip(from as int);
    let mut n: u64 = 0;
    let mut i: usize = from;
    assert(digits.skip(0) =~= digits);
    assert(from == 0 ==> digits =~= s@);
    while i < v.len()
        invariant
            from <= i <= v@.len(),
            v@ == s@,
            digits == s@.skip(from as int),
            n <= max,
            number_error(s@, max as nat) is Some,
            number_error(s@, max as nat) == digits_error(
                digits.skip(i - from),
                n as nat,
                max as nat,
            ),
        decreases v@.len() - i,
    {
        let c = v[i];
        assert(digits.skip(i - from)[0] == c);
        assert(digits.skip(i - from).skip(1) =~= digits.skip(i - from + 1));
        if c < '0' || '9' < c {
            return NumberError::InvalidDigit;
        }
        let d: u64 = (c as u32 - 48) as u64;
        if n > max / 10 || d > max - n * 10 {
            return NumberError::TooLarge;
        }
        n = n * 10 + d;
        i = i + 1;
    }
    NumberError::InvalidDigit
}

/// The message about an option's value.
pub open spec fn option_message(what: Seq<char>, value: Seq<char>, reason: Seq<char>) -> Seq<char> {
    "Invalid "@ + what + " '"@ + value + "': "@ + reason
}

fn message(what: &str, value: &str, reason: &str) -> (s: String)
    ensures
        s@ == option_message(what@, value@, reason@),
{
    let mut s = text::joined("Invalid ", what);
    s.append(" '");
    s.append(value);
    s.append("': ");
    s.append(reason);
    s
}

/// The message about an option that should be a number, where it is none.
pub open spec fn number_message(what: Seq<char>, value: Seq<char>, max: nat) -> Option<Seq<char>> {
    match number_error(value, max) {
        Some(e) => Some(option_message(what, value, e.words())),
        None => None,
    }
}

/// The number that an option is, or the message about it.
pub fn number_option(what: &str, value: &str, max: u64) -> (r: Result<u64, String>)
    ensures
        match r {
            Ok(n) => text::parsed_number(value@, max as nat) == Some(n as nat) && n <= max
                && number_message(what@, value@, max as nat) is None,
            Err(m) => number_message(what@, value@, max as nat) == Some(m@),
        },
{
    proof {
        law_numbers_have_no_error(value@, max as nat);
    }
    match text::parse_number(value, max) {
        Some(n) => Ok(n),
        None => {
            let e = find_number_error(value, max);
            Err(message(what, value, e.to_text().as_str()))
        },
    }
}

/// The options of a command line as they were given.
#[derive(Debug)]
pub struct Options {
    pub upstream: String,
    pub path: String,
    pub max_clients: String,
    pub max_concurrent: String,
    pub timeout: String,
    pub min_ttl: String,
    pub max_ttl: String,
    pub err_ttl: String,
    pub disable_keepalive: bool,
    pub disable_post: bool,
    pub allow_odoh_post: bool,
    pub enable_ecs: bool,
    pub ecs_prefix_v4: String,
    pub ecs_prefix_v6: String,
    pub tls_cert_path: Option<String>,
    pub tls_cert_key_path: Option<String>,
}

/// A text that should be an address with a port: the address, or why it is none.
#[derive(Debug)]
pub struct AddressOption {
    pub value: String,
    pub parsed: Result<SocketAddr, String>,
}

/// The message about the first of the options that is no address.
pub open spec fn address_message(what: Seq<char>, options: Seq<AddressOption>) -> Option<Seq<char>>
    decreases options.len(),
{
    if options.len() == 0 {
        None
    } else {
        match options[0].parsed {
            Err(reason) => Some(option_message(what, options[0].value@, reason@)),
            Ok(_) => address_message(what, options.skip(1)),
        }
    }
}

/// The addresses of options that are all addresses.
pub open spec fn addresses(options: Seq<AddressOption>) -> Seq<SocketAddr> {
    options.map_values(|o: AddressOption| o.parsed->Ok_0)
}

fn address_options(what: &str, options: &Vec<AddressOption>) -> (r: Result<Vec<SocketAddr>, String>)
    ensures
        match r {
            Ok(found) => address_message(what@, options@) is None && found@ == addresses(options@),
            Err(m) => address_message(what@, options@) == Some(m@),
        },
{
    let mut found: Vec<SocketAddr> = Vec::new();
    let mut i: usize = 0;
    assert(options@.skip(0) =~= options@);
    while i < options.len()
        invariant
            i <= options@.len(),
            found@.len() == i,
            forall|j: int| 0 <= j < i ==> found@[j] == options@[j].parsed->Ok_0,
            address_message(what@, options@) == address_message(what@, options@.skip(i as int)),
        decreases options@.len() - i,
    {
        assert(options@.skip(i as int)[0] == options@[i as int]);
        assert(options@.skip(i as int).skip(1) =~= options@.skip(i + 1));
        match &options[i].parsed {
            Ok(addr) => {
                found.push(*addr);
            },
            Err(reason) => {
                return Err(message(what, options[i].value.as_str(), reason.as_str()));
            },
        }
        i = i + 1;
    }
    assert(found@ =~= addresses(options@));
    Ok(found)
}

/// The parts of a URL.
#[derive(Debug)]
pub struct UrlParts {
    pub text: String,
    pub scheme: String,
    pub host: Option<UrlHost>,
    pub host_str: Option<String>,
    pub port: Option<u16>,
    pub port_or_known_default: Option<u16>,
    pub path: String,
    pub query: Option<String>,
}

/// The host of a URL, in words.
#[derive(Debug)]
pub enum UrlHost {
    Domain(String),
    Ipv4(String),
    Ipv6(String),
}

/// What the parts of a URL are.
pub struct UrlView {
    pub text: Seq<char>,
    pub scheme: Seq<char>,
    pub host: Option<UrlHostView>,
    pub host_str: Option<Seq<char>>,
    pub port: Option<u16>,
    pub port_or_known_default: Option<u16>,
    pub path: Seq<char>,
    pub query: Option<Seq<char>>,
}

/// What the host of a URL is.
pub enum UrlHostView {
    Domain(Seq<char>),
    Ipv4(Seq<char>),
    Ipv6(Seq<char>),
}

impl View for UrlParts {
    type V = UrlView;

    open spec fn view(&self) -> UrlView {
        UrlView {
            text: self.text@,
            scheme: self.scheme@,
            host: match self.host {
                None => None,
                Some(UrlHost::Domain(s)) => Some(UrlHostView::Domain(s@)),
                Some(UrlHost::Ipv4(s)) => Some(UrlHostView::Ipv4(s@)),
                Some(UrlHost::Ipv6(s)) => Some(UrlHostView::Ipv6(s@)),
            },
            host_str: text::opt_text(self.host_str),
            port: self.port,
            port_or_known_default: self.port_or_known_default,
            path: self.path@,
            query: text::opt_text(self.query),
        }
    }
}

/// What a parsed URL is, or why a text is none.
pub open spec fn url_result(r: Result<UrlParts, String>) -> Result<UrlView, Seq<char>> {
    match r {
        Ok(parts) => Ok(parts@),
        Err(reason) => Err(reason@),
    }
}

/// What a text is as a URL, or why it is none.
pub uninterp spec fn parsed_url(s: Seq<char>) -> Result<UrlView, Seq<char>>;

/// `Url::parse` of the `url` crate, with the parts that the result's methods of the same names
/// give, and the texts of addresses and of the error as they are displayed.
#[verifier::external_body]
pub(crate) fn parse_url(s: &str) -> (r: Result<UrlParts, String>)
    ensures
        url_result(r) == parsed_url(s@),
{
    url::Url::parse(s).map_err(|e| e.to_string()).map(|url| UrlParts {
        scheme: url.scheme().into(),
        host: url.host().map(|host| match host {
            url::Host::Domain(domain) => UrlHost::Domain(domain.into()),
            url::Host::Ipv4(ip) => UrlHost::Ipv4(ip.to_string()),
            url::Host::Ipv6(ip) => UrlHost::Ipv6(ip.to_string()),
        }),
        host_str: url.host_str().map(String::from),
        port: url.port(),
        port_or_known_default: url.port_or_known_default(),
        path: url.path().into(),
        query: url.query().map(String::from),
        text: url.into(),
    })
}

/// A text that is to be taken as a URL.
pub open spec fn looks_like_url(s: Seq<char>) -> bool {
    text::has_prefix(s, "http://"@) || text::has_prefix(s, "https://"@) || text::has_prefix(
        s,
        "h3://"@,
    ) || text::has_prefix(s, "tls://"@)
}

/// Whether a text is to be taken as a URL.
pub fn is_url(s: &str) -> (yes: bool)
    ensures
        yes == looks_like_url(s@),
{
    text::starts_with(s, "http://") || text::starts_with(s, "https://") || text::starts_with(
        s,
        "h3://",
    ) || text::starts_with(s, "tls://")
}

/// What an upstream server is.
pub enum UpstreamView {
    Dns(SocketAddr),
    Doh {
        url: Seq<char>,
        host: Seq<char>,
        port: u16,
        path: Seq<char>,
        authority: Seq<char>,
        h3_only: bool,
        health: DohHealth,
    },
    Dot { host: Seq<char>, port: u16 },
}

impl View for Upstream {
    type V = UpstreamView;

    open spec fn view(&self) -> UpstreamView {
        match *self {
            Upstream::Dns(addr) => UpstreamView::Dns(addr),
            Upstream::Doh(doh) => UpstreamView::Doh {
                url: doh.url@,
                host: doh.host@,
                port: doh.port,
                path: doh.path@,
                authority: doh.authority@,
                h3_only: doh.h3_only,
                health: doh.health,
            },
            Upstream::Dot(dot) => UpstreamView::Dot { host: dot.host@, port: dot.port },
        }
    }
}

/// What an upstream server is, or why an option is none.
pub open spec fn upstream_result(r: Result<Upstream, String>) -> Result<UpstreamView, Seq<char>> {
    match r {
        Ok(upstream) => Ok(upstream@),
        Err(message) => Err(message@),
    }
}

/// A text in quotes between two others.
pub open spec fn quoted(before: Seq<char>, value: Seq<char>, after: Seq<char>) -> Seq<char> {
    before + value + after
}

fn quote(before: &str, value: &str, after: &str) -> (s: String)
    ensures
        s@ == quoted(before@, value@, after@),
{
    let mut s = text::joined(before, value);
    s.append(after);
    s
}

/// The host as it stands in a request.
pub open spec fn host_header(host: UrlHostView) -> Seq<char> {
    match host {
        UrlHostView::Domain(s) => s,
        UrlHostView::Ipv4(s) => s,
        UrlHostView::Ipv6(s) => "["@ + s + "]"@,
    }
}

/// The path of the queries to a server: that of the URL, or the usual one where the URL has none,
/// with the URL's query string.
pub open spec fn query_path(url: UrlView, default_path: Seq<char>) -> Seq<char> {
    let path = if url.path.len() == 0 || url.path == "/"@ {
        default_path
    } else {
        url.path
    };
    match url.query {
        Some(query) => path + "?"@ + query,
        None => path,
    }
}

/// The port of a URL.
pub open spec fn https_port(url: UrlView) -> u16 {
    let given = if url.scheme == "https"@ {
        url.port_or_known_default
    } else {
        url.port
    };
    match given {
        Some(port) => port,
        None => 443,
    }
}

/// The host and the port as they stand in a request: the port only where the URL has one.
pub open spec fn authority_of(url: UrlView, host: UrlHostView) -> Seq<char> {
    if url.port is Some {
        host_header(host) + ":"@ + text::decimal(https_port(url) as nat)
    } else {
        host_header(host)
    }
}

/// What is known of a server that was never asked.
pub open spec fn fresh_health() -> DohHealth {
    DohHealth {
        protocol_hint: crate::doh_upstream::DOH_PROTO_UNKNOWN,
        h3_failures: 0,
        h3_last_failure_ms: 0,
        h3_backoff_until_ms: 0,
        h2_last_rebuild_ms: 0,
        h3_last_rebuild_ms: 0,
        h2_target_addr: None,
    }
}

/// The server of a URL, or why it is none.
pub open spec fn url_upstream(
    url: UrlView,
    server: Seq<char>,
    default_path: Seq<char>,
) -> Result<UpstreamView, Seq<char>> {
    if url.scheme == "https"@ || url.scheme == "h3"@ {
        match (url.host_str, url.host) {
            (Some(name), Some(host)) => Ok(
                UpstreamView::Doh {
                    url: url.text,
                    host: name,
                    port: https_port(url),
                    path: query_path(url, default_path),
                    authority: authority_of(url, host),
                    h3_only: url.scheme == "h3"@,
                    health: fresh_health(),
                },
            ),
            _ => Err(quoted("DoH URL '"@, server, "' must include a host"@)),
        }
    } else if url.scheme == "tls"@ {
        match url.host_str {
            Some(name) => Ok(
                UpstreamView::Dot {
                    host: name,
                    port: match url.port {
                        Some(port) => port,
                        None => 853,
                    },
                },
            ),
            None => Err(quoted("DoT URL '"@, server, "' must include a host"@)),
        }
    } else if url.scheme == "http"@ {
        Err("Only https://, h3://, or tls:// URLs are supported for upstreams"@)
    } else {
        Err(quoted("Unsupported URL scheme '"@, url.scheme, "' for upstream"@))
    }
}

/// The server of an option that was parsed as a URL, or why it is none.
pub open spec fn parsed_upstream(
    parsed: Result<UrlView, Seq<char>>,
    server: Seq<char>,
    default_path: Seq<char>,
) -> Result<UpstreamView, Seq<char>> {
    match parsed {
        Ok(url) => url_upstream(url, server, default_path),
        Err(reason) => Err(option_message("URL"@, server, reason)),
    }
}

fn is_empty_text(s: &str) -> (empty: bool)
    ensures
        empty == (s@.len() == 0),
{
    let v = text::chars_of(s);
    v.len() == 0
}

/// The server of a URL's parts, or why it is none.
pub fn upstream_from_parts(
    parsed: Result<UrlParts, String>,
    server: &str,
    default_path: &str,
) -> (r: Result<Upstream, String>)
    ensures
        upstream_result(r) == parsed_upstream(url_result(parsed), server@, default_path@),
{
    let url = match parsed {
        Ok(url) => url,
        Err(reason) => {
            return Err(message("URL", server, reason.as_str()));
        },
    };
    let is_https = text::same_text(url.scheme.as_str(), "https");
    let h3_only = text::same_text(url.scheme.as_str(), "h3");
    if is_https || h3_only {
        let host = match &url.host_str {
            Some(host) => host.clone(),
            None => {
                return Err(quote("DoH URL '", server, "' must include a host"));
            },
        };
        let host_header = match &url.host {
            Some(UrlHost::Ipv6(ip)) => quote("[", ip.as_str(), "]"),
            Some(UrlHost::Ipv4(ip)) => ip.clone(),
            Some(UrlHost::Domain(domain)) => domain.clone(),
            None => {
                return Err(quote("DoH URL '", server, "' must include a host"));
            },
        };
        let given = if is_https {
            url.port_or_known_default
        } else {
            url.port
        };
        let port: u16 = match given {
            Some(port) => port,
            None => 443,
        };
        let mut path = if is_empty_text(url.path.as_str()) || text::same_text(
            url.path.as_str(),
            "/",
        ) {
            default_path.to_owned()
        } else {
            url.path.clone()
        };
        match &url.query {
            Some(query) => {
                path.append("?");
                path.append(query.as_str());
            },
            None => {},
        }
        let authority = if url.port.is_some() {
            let mut authority = text::joined(host_header.as_str(), ":");
            authority.append(text::decimal_text(port as u128).as_str());
            authority
        } else {
            host_header
        };
        return Ok(
            Upstream::Doh(
                DohUpstream {
                    url: url.text,
                    host,
                    port,
                    path,
                    authority,
                    h3_only,
                    health: DohHealth::new(),
                },
            ),
        );
    }
    if text::same_text(url.scheme.as_str(), "tls") {
        return match url.host_str {
            Some(host) => {
                let port: u16 = match url.port {
                    Some(port) => port,
                    None => 853,
                };
                Ok(Upstream::Dot(DotUpstream { host, port }))
            },
            None => Err(quote("DoT URL '", server, "' must include a host")),
        };
    }
    if text::same_text(url.scheme.as_str(), "http") {
        return Err(
            "Only https://, h3://, or tls:// URLs are supported for upstreams".to_owned(),
        );
    }
    Err(quote("Unsupported URL scheme '", url.scheme.as_str(), "' for upstream"))
}

/// The server of an option that is a URL, or why it is none.
pub fn upstream_from_url(server: &str, default_path: &str) -> (r: Result<Upstream, String>)
    ensures
        upstream_result(r) == parsed_upstream(parsed_url(server@), server@, default_path@),
{
    upstream_from_parts(parse_url(server), server, default_path)
}

/// The server of an option that is no URL: the first address that the name has, or why there is
/// none.
pub fn upstream_from_lookup(server: &str, found: Result<Option<SocketAddr>, String>) -> (r: Result<
    Upstream,
    String,
>)
    ensures
        upstream_result(r) == (match found {
            Ok(Some(addr)) => Ok::<UpstreamView, Seq<char>>(UpstreamView::Dns(addr)),
            Ok(None) => Err(quoted("Cannot resolve server address '"@, server@, "'"@)),
            Err(reason) => Err(option_message("server address"@, server@, reason@)),
        }),
{
    match found {
        Ok(Some(addr)) => Ok(Upstream::Dns(addr)),
        Ok(None) => Err(quote("Cannot resolve server address '", server, "'")),
        Err(reason) => Err(message("server address", server, reason.as_str())),
    }
}

/// The local address for an upstream server: any of its family, with the server's flow
/// information and scope; for one that is known by name, any IPv4 address.
pub open spec fn default_bind(upstream: UpstreamView) -> SocketAddr {
    match upstream {
        UpstreamView::Dns(SocketAddr::V6 { flowinfo, scope_id, .. }) => SocketAddr::V6 {
            ip: 0,
            port: 0,
            flowinfo,
            scope_id,
        },
        _ => SocketAddr::V4 { ip: 0, port: 0 },
    }
}

/// The local address for an upstream server.
pub fn default_local_bind(upstream: &Upstream) -> (addr: SocketAddr)
    ensures
        addr == default_bind(upstream@),
{
    match upstream {
        Upstream::Dns(server) => match *server {
            SocketAddr::V4 { .. } => SocketAddr::V4 { ip: 0, port: 0 },
            SocketAddr::V6 { flowinfo, scope_id, .. } => SocketAddr::V6 {
                ip: 0,
                port: 0,
                flowinfo,
                scope_id,
            },
        },
        Upstream::Doh(_) | Upstream::Dot(_) => SocketAddr::new(IpAddr::V4(0), 0),
    }
}

/// The default local address can be bound for the server that it is for.
pub proof fn law_default_bind_reaches_server(server: SocketAddr)
    ensures
        net::bind_for_peer(default_bind(UpstreamView::Dns(server)), server) == Some(
            default_bind(UpstreamView::Dns(server)),
        ),
{
}

/// A path that starts with a slash.
pub open spec fn rooted(path: Seq<char>) -> Seq<char> {
    if path.len() > 0 && path[0] == '/' {
        path
    } else {
        "/"@ + path
    }
}

/// Puts a slash before a path that has none.
pub fn root_path(path: &str) -> (r: String)
    ensures
        r@ == rooted(path@),
{
    let v = text::chars_of(path);
    if v.len() > 0 && v[0] == '/' {
        path.to_owned()
    } else {
        text::joined("/", path)
    }
}

/// A path keeps its slash: putting it in place twice is putting it in place once.
pub proof fn law_rooted_is_stable(path: Seq<char>)
    ensures
        rooted(path).len() > 0,
        rooted(path)[0] == '/',
        rooted(rooted(path)) == rooted(path),
{
    reveal_strlit("/");
}

/// The first of two messages.
pub open spec fn earlier(a: Option<Seq<char>>, b: Option<Seq<char>>) -> Option<Seq<char>> {
    if a is Some {
        a
    } else {
        b
    }
}

/// The first message about options, in the order in which they are looked at.
pub open spec fn options_message(
    o: Options,
    listen: Seq<AddressOption>,
    upstream: Result<Upstream, String>,
    bind: Option<AddressOption>,
    bootstrap: Seq<AddressOption>,
) -> Option<Seq<char>> {
    earlier(
        address_message("listen address"@, listen),
        earlier(
            match upstream {
                Err(m) => Some(m@),
                Ok(_) => None,
            },
            earlier(
                match bind {
                    Some(b) => address_message("local bind address"@, seq![b]),
                    None => None,
                },
                earlier(address_message("bootstrap address"@, bootstrap), numbers_message(o)),
            ),
        ),
    )
}

/// The first message about options that are numbers.
pub open spec fn numbers_message(o: Options) -> Option<Seq<char>> {
    earlier(
        number_message("max clients"@, o.max_clients@, usize::MAX as nat),
        earlier(
            number_message("timeout"@, o.timeout@, u64::MAX as nat),
            earlier(
                number_message("max concurrent streams"@, o.max_concurrent@, u32::MAX as nat),
                earlier(
                    number_message("min TTL"@, o.min_ttl@, u32::MAX as nat),
                    earlier(
                        number_message("max TTL"@, o.max_ttl@, u32::MAX as nat),
                        earlier(
                            number_message("error TTL"@, o.err_ttl@, u32::MAX as nat),
                            earlier(
                                number_message("ECS IPv4 prefix"@, o.ecs_prefix_v4@, 255),
                                number_message("ECS IPv6 prefix"@, o.ecs_prefix_v6@, 255),
                            ),
                        ),
                    ),
                ),
            ),
        ),
    )
}

/// The options that are numbers.
#[derive(Clone, Copy, Debug, PartialEq, Eq, Structural)]
pub struct Numbers {
    pub max_clients: usize,
    pub timeout_secs: u64,
    pub max_concurrent_streams: u32,
    pub min_ttl: u32,
    pub max_ttl: u32,
    pub err_ttl: u32,
    pub ecs_prefix_v4: u8,
    pub ecs_prefix_v6: u8,
}

impl Numbers {
    /// The numbers are those that the options say.
    pub open spec fn said_by(self, o: Options) -> bool {
        &&& text::parsed_number(o.max_clients@, usize::MAX as nat) == Some(self.max_clients as nat)
        &&& text::parsed_number(o.timeout@, u64::MAX as nat) == Some(self.timeout_secs as nat)
        &&& text::parsed_number(o.max_concurrent@, u32::MAX as nat) == Some(
            self.max_concurrent_streams as nat,
        )
        &&& text::parsed_number(o.min_ttl@, u32::MAX as nat) == Some(self.min_ttl as nat)
        &&& text::parsed_number(o.max_ttl@, u32::MAX as nat) == Some(self.max_ttl as nat)
        &&& text::parsed_number(o.err_ttl@, u32::MAX as nat) == Some(self.err_ttl as nat)
        &&& text::parsed_number(o.ecs_prefix_v4@, 255) == Some(self.ecs_prefix_v4 as nat)
        &&& text::parsed_number(o.ecs_prefix_v6@, 255) == Some(self.ecs_prefix_v6 as nat)
    }
}

fn number_options(o: &Options) -> (r: Result<Numbers, String>)
    ensures
        match r {
            Ok(n) => numbers_message(*o) is None && n.said_by(*o),
            Err(m) => numbers_message(*o) == Some(m@),
        },
{
    let max_clients: u64 = match number_option(
        "max clients",
        o.max_clients.as_str(),
        usize::MAX as u64,
    ) {
        Ok(n) => n,
        Err(m) => {
            return Err(m);
        },
    };
    let timeout_secs: u64 = match number_option("timeout", o.timeout.as_str(), u64::MAX) {
        Ok(n) => n,
        Err(m) => {
            return Err(m);
        },
    };
    let max_concurrent: u64 = match number_option(
        "max concurrent streams",
        o.max_concurrent.as_str(),
        u32::MAX as u64,
    ) {
        Ok(n) => n,
        Err(m) => {
            return Err(m);
        },
    };
    let min_ttl: u64 = match number_option("min TTL", o.min_ttl.as_str(), u32::MAX as u64) {
        Ok(n) => n,
        Err(m) => {
            return Err(m);
        },
    };
    let max_ttl: u64 = match number_option("max TTL", o.max_ttl.as_str(), u32::MAX as u64) {
        Ok(n) => n,
        Err(m) => {
            return Err(m);
        },
    };
    let err_ttl: u64 = match number_option("error TTL", o.err_ttl.as_str(), u32::MAX as u64) {
        Ok(n) => n,
        Err(m) => {
            return Err(m);
        },
    };
    let ecs_prefix_v4: u64 = match number_option(
        "ECS IPv4 prefix",
        o.ecs_prefix_v4.as_str(),
        255,
    ) {
        Ok(n) => n,
        Err(m) => {
            return Err(m);
        },
    };
    let ecs_prefix_v6: u64 = match number_option(
        "ECS IPv6 prefix",
        o.ecs_prefix_v6.as_str(),
        255,
    ) {
        Ok(n) => n,
        Err(m) => {
            return Err(m);
        },
    };
    Ok(
        Numbers {
            max_clients: max_clients as usize,
            timeout_secs,
            max_concurrent_streams: max_concurrent as u32,
            min_ttl: min_ttl as u32,
            max_ttl: max_ttl as u32,
            err_ttl: err_ttl as u32,
            ecs_prefix_v4: ecs_prefix_v4 as u8,
            ecs_prefix_v6: ecs_prefix_v6 as u8,
        },
    )
}

/// The file with the keys: the one that is named, or else that with the certificates.
pub open spec fn key_path(o: Options) -> Option<Seq<char>> {
    match o.tls_cert_key_path {
        Some(path) => Some(path@),
        None => text::opt_text(o.tls_cert_path),
    }
}

/// The settings that options make.
pub open spec fn settled(
    g: Globals,
    before: Globals,
    o: Options,
    listen: Seq<AddressOption>,
    upstream: Result<Upstream, String>,
    bind: Option<AddressOption>,
    bootstrap: Seq<AddressOption>,
) -> bool {
    &&& g.listen_addresses@ == addresses(listen)
    &&& g.upstreams@.len() == 1 && g.upstreams@[0] == upstream->Ok_0
    &&& g.local_bind_address == (match bind {
        Some(b) => b.parsed->Ok_0,
        None => default_bind(upstream->Ok_0@),
    })
    &&& g.bootstrap_dns@ == addresses(bootstrap)
    &&& g.path@ == rooted(o.path@)
    &&& exists|n: Numbers|
        #![trigger n.said_by(o)]
        n.said_by(o) && g.max_clients == n.max_clients && g.timeout == (Duration {
            secs: n.timeout_secs,
            nanos: 0,
        }) && g.max_concurrent_streams == n.max_concurrent_streams && g.min_ttl == n.min_ttl
            && g.max_ttl == n.max_ttl && g.err_ttl == n.err_ttl && g.ecs_prefix_v4
            == n.ecs_prefix_v4 && g.ecs_prefix_v6 == n.ecs_prefix_v6
    &&& g.keepalive == !o.disable_keepalive
    &&& g.disable_post == o.disable_post
    &&& g.allow_odoh_post == o.allow_odoh_post
    &&& g.enable_ecs == o.enable_ecs
    &&& text::opt_text(g.tls_cert_path) == text::opt_text(o.tls_cert_path)
    &&& text::opt_text(g.tls_cert_key_path) == key_path(o)
    &&& g.upstream_mode == before.upstream_mode
    &&& g.odoh_configs_path == before.odoh_configs_path
}

fn copy_opt(s: &Option<String>) -> (r: Option<String>)
    ensures
        text::opt_text(r) == text::opt_text(*s),
{
    match s {
        Some(x) => Some(x.clone()),
        None => None,
    }
}

/// Makes the settings that options say, or the message about the first option that is wrong.
/// `listen`, `bind` and `bootstrap` are the options that are addresses, and `upstream` is the
/// server that its option stands for.
pub fn parse_opts(
    globals: Globals,
    options: &Options,
    listen: &Vec<AddressOption>,
    upstream: Result<Upstream, String>,
    bind: Option<AddressOption>,
    bootstrap: &Vec<AddressOption>,
) -> (r: Result<Globals, String>)
    ensures
        match r {
            Ok(g) => options_message(*options, listen@, upstream, bind, bootstrap@) is None
                && settled(g, globals, *options, listen@, upstream, bind, bootstrap@),
            Err(m) => options_message(*options, listen@, upstream, bind, bootstrap@) == Some(m@),
        },
{
    let listen_addresses = match address_options("listen address", listen) {
        Ok(found) => found,
        Err(m) => {
            return Err(m);
        },
    };
    let server = match upstream {
        Ok(server) => server,
        Err(m) => {
            return Err(m);
        },
    };
    proof {
        if bind is Some {
            let one = seq![bind->0];
            assert(one.skip(1) =~= Seq::empty());
            assert(address_message("local bind address"@, one.skip(1)) is None);
        }
    }
    let local_bind_address = match bind {
        Some(b) => match b.parsed {
            Ok(addr) => addr,
            Err(reason) => {
                return Err(message("local bind address", b.value.as_str(), reason.as_str()));
            },
        },
        None => default_local_bind(&server),
    };
    let bootstrap_dns = match address_options("bootstrap address", bootstrap) {
        Ok(found) => found,
        Err(m) => {
            return Err(m);
        },
    };
    let path = root_path(options.path.as_str());
    let n = match number_options(options) {
        Ok(n) => n,
        Err(m) => {
            return Err(m);
        },
    };
    let tls_cert_path = copy_opt(&options.tls_cert_path);
    let tls_cert_key_path = match &options.tls_cert_key_path {
        Some(path) => Some(path.clone()),
        None => copy_opt(&options.tls_cert_path),
    };
    let mut upstreams: Vec<Upstream> = Vec::new();
    upstreams.push(server);
    Ok(
        Globals {
            tls_cert_path,
            tls_cert_key_path,
            listen_addresses,
            local_bind_address,
            bootstrap_dns,
            upstreams,
            upstream_mode: globals.upstream_mode,
            path,
            max_clients: n.max_clients,
            timeout: Duration::from_secs(n.timeout_secs),
            max_concurrent_streams: n.max_concurrent_streams,
            min_ttl: n.min_ttl,
            max_ttl: n.max_ttl,
            err_ttl: n.err_ttl,
            keepalive: !options.disable_keepalive,
            disable_post: options.disable_post,
            allow_odoh_post: options.allow_odoh_post,
            enable_ecs: options.enable_ecs,
            ecs_prefix_v4: n.ecs_prefix_v4,
            ecs_prefix_v6: n.ecs_prefix_v6,
            odoh_configs_path: globals.odoh_configs_path,
        },
    )
}

/// What is wrong with a text that is no number: it is empty, a character of it is no digit, or it
/// is too large.
pub proof fn law_errors_of_numbers(c: char, n: nat, max: nat)
    requires
        n > max,
    ensures
        number_error(Seq::empty(), max) == Some(NumberError::Empty),
        !('0' <= c <= '9') ==> number_error(seq![c], max) == Some(NumberError::InvalidDigit),
        number_error(text::decimal(n), max) == Some(NumberError::TooLarge),
        number_message("timeout"@, text::decimal(n), max) == Some(
            "Invalid "@ + "timeout"@ + " '"@ + text::decimal(n) + "': "@
                + "number too large to fit in target type"@,
        ),
{
    let s = text::decimal(n);
    let digits = if s.len() > 0 && s[0] == '+' {
        s.skip(1)
    } else {
        s
    };
    law_numbers_have_no_error(s, max);
    text::law_decimal_round_trip(n, n);
    lemma_digits_only(digits);
    lemma_only_too_large(digits, 0, max);
    if !('0' <= c <= '9') {
        if c == '+' {
            assert(seq![c].skip(1).len() == 0);
        } else {
            assert(seq![c][0] == c);
        }
    }
}

/// A text of digits has a value.
proof fn lemma_digits_only(s: Seq<char>)
    ensures
        text::digits_value(s) is Some ==> forall|i: int|
            0 <= i < s.len() ==> text::digit_value(#[trigger] s[i]) is Some,
    decreases s.len(),
{
    if s.len() > 0 {
        lemma_digits_only(s.drop_last());
        if text::digits_value(s) is Some {
            assert forall|i: int| 0 <= i < s.len() implies text::digit_value(#[trigger] s[i])
                is Some by {
                if i < s.len() - 1 {
                    assert(s.drop_last()[i] == s[i]);
                }
            }
        }
    }
}

/// Only its size can be wrong with a text of digits.
proof fn lemma_only_too_large(s: Seq<char>, n: nat, max: nat)
    requires
        forall|i: int| 0 <= i < s.len() ==> text::digit_value(#[trigger] s[i]) is Some,
    ensures
        digits_error(s, n, max) is None || digits_error(s, n, max) == Some(NumberError::TooLarge),
    decreases s.len(),
{
    if s.len() > 0 {
        assert(text::digit_value(s[0]) is Some);
        assert forall|i: int| 0 <= i < s.skip(1).len() implies text::digit_value(
            #[trigger] s.skip(1)[i],
        ) is Some by {
            assert(s.skip(1)[i] == s[i + 1]);
        }
        lemma_only_too_large(s.skip(1), n * 10 + text::digit_value(s[0])->0, max);
    }
}

/// The message about options that should be addresses is about the first that is none, and there
/// is none where all are.
pub proof fn law_first_bad_address_is_told(
    what: Seq<char>,
    options: Seq<AddressOption>,
    k: int,
    reason: String,
)
    requires
        0 <= k < options.len(),
        options[k].parsed == Err::<SocketAddr, String>(reason),
        forall|i: int| 0 <= i < k ==> (#[trigger] options[i]).parsed is Ok,
    ensures
        address_message(what, options) == Some(
            "Invalid "@ + what + " '"@ + options[k].value@ + "': "@ + reason@,
        ),
    decreases k,
{
    if k > 0 {
        assert(options[0].parsed is Ok);
        assert forall|i: int| 0 <= i < k - 1 implies (#[trigger] options.skip(1)[i]).parsed
            is Ok by {
            assert(options.skip(1)[i] == options[i + 1]);
        }
        law_first_bad_address_is_told(what, options.skip(1), k - 1, reason);
    }
}

/// Options that are all addresses are no reason for a message, and stand for these addresses.
pub proof fn law_good_addresses_are_taken(what: Seq<char>, options: Seq<AddressOption>)
    requires
        forall|i: int| 0 <= i < options.len() ==> (#[trigger] options[i]).parsed is Ok,
    ensures
        address_message(what, options) is None,
        addresses(options).len() == options.len(),
        forall|i: int|
            0 <= i < options.len() ==> #[trigger] options[i].parsed == Ok::<SocketAddr, String>(
                addresses(options)[i],
            ),
    decreases options.len(),
{
    if options.len() > 0 {
        assert forall|i: int| 0 <= i < options.skip(1).len() implies (
        #[trigger] options.skip(1)[i]).parsed is Ok by {
            assert(options.skip(1)[i] == options[i + 1]);
        }
        law_good_addresses_are_taken(what, options.skip(1));
    }
}

/// A text is taken as a URL exactly where it starts with one of four schemes.
pub proof fn law_urls_start_with_a_scheme(rest: Seq<char>)
    ensures
        looks_like_url("https://"@ + rest),
        looks_like_url("http://"@ + rest),
        looks_like_url("h3://"@ + rest),
        looks_like_url("tls://"@ + rest),
        rest.len() > 0 && '0' <= rest[0] <= '9' ==> !looks_like_url(rest),
        rest.len() == 0 ==> !looks_like_url(rest),
{
    reveal_strlit("https://");
    reveal_strlit("http://");
    reveal_strlit("h3://");
    reveal_strlit("tls://");
    assert(("https://"@ + rest).take(8) =~= "https://"@);
    assert(("http://"@ + rest).take(7) =~= "http://"@);
    assert(("h3://"@ + rest).take(5) =~= "h3://"@);
    assert(("tls://"@ + rest).take(6) =~= "tls://"@);
    assert("https://"@[0] == 'h' && "http://"@[0] == 'h' && "h3://"@[0] == 'h' && "tls://"@[0]
        == 't');
    if rest.len() >= 8 {
        assert(rest.take(8)[0] == rest[0]);
    }
    if rest.len() >= 7 {
        assert(rest.take(7)[0] == rest[0]);
    }
    if rest.len() >= 5 {
        assert(rest.take(5)[0] == rest[0]);
    }
    if rest.len() >= 6 {
        assert(rest.take(6)[0] == rest[0]);
    }
}

/// The server of an HTTPS URL: its name, the port that the URL says or 443, and the path that it
/// says, or the usual one, with the query string. It is asked over HTTP/3 alone exactly where the
/// scheme says so.
pub proof fn law_servers_over_https(
    url: UrlView,
    server: Seq<char>,
    default_path: Seq<char>,
    name: Seq<char>,
    domain: Seq<char>,
    port: u16,
)
    requires
        url.scheme == "https"@ || url.scheme == "h3"@,
        url.host_str == Some(name),
        url.host == Some(UrlHostView::Domain(domain)),
        url.port == Some(port),
        url.port_or_known_default == Some(port),
    ensures
        ({
            let plain = UrlView { port: None, port_or_known_default: Some(443), ..url };
            let r = url_upstream(url, server, default_path);
            let s = url_upstream(plain, server, default_path);
            &&& r is Ok && s is Ok && r->Ok_0 is Doh && s->Ok_0 is Doh
            &&& r->Ok_0->Doh_url == url.text && s->Ok_0->Doh_url == url.text
            &&& r->Ok_0->Doh_host == name && s->Ok_0->Doh_host == name
            &&& r->Ok_0->Doh_port == port && s->Ok_0->Doh_port == 443
            &&& r->Ok_0->Doh_h3_only == (url.scheme == "h3"@)
            &&& r->Ok_0->Doh_authority == domain + ":"@ + text::decimal(port as nat)
            &&& s->Ok_0->Doh_authority == domain
            &&& url.query is None && url.path == "/"@ ==> r->Ok_0->Doh_path == default_path
            &&& url.query is None && url.path.len() == 0 ==> r->Ok_0->Doh_path == default_path
            &&& url.query is None && url.path.len() > 1 ==> r->Ok_0->Doh_path == url.path
            &&& url.query is Some && url.path.len() > 1 ==> r->Ok_0->Doh_path == url.path + "?"@
                + url.query->0
            &&& url.query is Some && url.path == "/"@ ==> r->Ok_0->Doh_path == default_path + "?"@
                + url.query->0
        }),
{
    reveal_strlit("/");
    assert("/"@.len() == 1);
}

/// An IPv6 host stands in brackets in a request, and an IPv4 host or a name as it is.
pub proof fn law_hosts_in_requests(s: Seq<char>)
    ensures
        host_header(UrlHostView::Domain(s)) == s,
        host_header(UrlHostView::Ipv4(s)) == s,
        host_header(UrlHostView::Ipv6(s)) == seq!['['] + s + seq![']'],
{
    reveal_strlit("[");
    reveal_strlit("]");
    assert("["@ =~= seq!['['] && "]"@ =~= seq![']']);
}

/// The server of a TLS URL: its name, and the port that the URL says or 853.
pub proof fn law_servers_over_tls(
    url: UrlView,
    server: Seq<char>,
    default_path: Seq<char>,
    name: Seq<char>,
)
    requires
        url.scheme == "tls"@,
        url.host_str == Some(name),
    ensures
        url_upstream(url, server, default_path) == Ok::<UpstreamView, Seq<char>>(
            (UpstreamView::Dot {
                host: name,
                port: (if url.port is Some {
                    url.port->0
                } else {
                    853
                }),
            }),
        ),
{
    reveal_strlit("https");
    reveal_strlit("h3");
    reveal_strlit("tls");
    assert("https"@.len() == 5 && "h3"@.len() == 2 && "tls"@.len() == 3);
}

/// A new server was never asked: nothing is known of it.
pub proof fn law_new_servers_are_unknown()
    ensures
        fresh_health().protocol_hint == 0,
        fresh_health().h3_failures == 0,
        fresh_health().h3_last_failure_ms == 0,
        fresh_health().h2_last_rebuild_ms == 0,
        fresh_health().h3_last_rebuild_ms == 0,
        fresh_health().h3_backoff_until_ms == 0,
        fresh_health().h2_target_addr is None,
{
}

/// The local address for a server is any of its own family.
pub proof fn law_local_address_of_the_same_family(server: SocketAddr, host: Seq<char>, port: u16)
    ensures
        default_bind(UpstreamView::Dns(server)) is V4 <==> server is V4,
        default_bind(UpstreamView::Dns(server)).port_spec() == 0,
        default_bind(UpstreamView::Dns(server)).ip_spec().unspecified(),
        default_bind(UpstreamView::Dot { host, port }) == (SocketAddr::V4 { ip: 0, port: 0 }),
{
}

/// A path without a slash before it gets one, and nothing else.
pub proof fn law_paths_get_a_slash(path: Seq<char>)
    ensures
        rooted(seq!['/'] + path) == seq!['/'] + path,
        path.len() == 0 || path[0] != '/' ==> rooted(path) == seq!['/'] + path,
{
    reveal_strlit("/");
    assert("/"@ =~= seq!['/']);
}

/// Options without a fault are no reason for a message.
pub proof fn law_good_options_are_taken(
    o: Options,
    n: Numbers,
    listen: Seq<AddressOption>,
    upstream: Result<Upstream, String>,
    bind: Option<AddressOption>,
    bootstrap: Seq<AddressOption>,
)
    requires
        n.said_by(o),
        upstream is Ok,
        forall|i: int| 0 <= i < listen.len() ==> (#[trigger] listen[i]).parsed is Ok,
        forall|i: int| 0 <= i < bootstrap.len() ==> (#[trigger] bootstrap[i]).parsed is Ok,
        bind is Some ==> bind->0.parsed is Ok,
    ensures
        options_message(o, listen, upstream, bind, bootstrap) is None,
{
    law_good_addresses_are_taken("listen address"@, listen);
    law_good_addresses_are_taken("bootstrap address"@, bootstrap);
    if bind is Some {
        law_good_addresses_are_taken("local bind address"@, seq![bind->0]);
    }
    law_numbers_have_no_error(o.max_clients@, usize::MAX as nat);
    law_numbers_have_no_error(o.timeout@, u64::MAX as nat);
    law_numbers_have_no_error(o.max_concurrent@, u32::MAX as nat);
    law_numbers_have_no_error(o.min_ttl@, u32::MAX as nat);
    law_numbers_have_no_error(o.max_ttl@, u32::MAX as nat);
    law_numbers_have_no_error(o.err_ttl@, u32::MAX as nat);
    law_numbers_have_no_error(o.ecs_prefix_v4@, 255);
    law_numbers_have_no_error(o.ecs_prefix_v6@, 255);
}

/// Any fault among the options is told of: a bad address, a bad server or a bad number.
pub proof fn law_faults_are_told(
    o: Options,
    listen: Seq<AddressOption>,
    upstream: Result<Upstream, String>,
    bind: Option<AddressOption>,
    bootstrap: Seq<AddressOption>,
)
    requires
        options_message(o, listen, upstream, bind, bootstrap) is None,
    ensures
        forall|i: int| 0 <= i < listen.len() ==> (#[trigger] listen[i]).parsed is Ok,
        upstream is Ok,
        bind is Some ==> bind->0.parsed is Ok,
        forall|i: int| 0 <= i < bootstrap.len() ==> (#[trigger] bootstrap[i]).parsed is Ok,
        text::parsed_number(o.max_clients@, usize::MAX as nat) is Some,
        text::parsed_number(o.timeout@, u64::MAX as nat) is Some,
        text::parsed_number(o.max_concurrent@, u32::MAX as nat) is Some,
        text::parsed_number(o.min_ttl@, u32::MAX as nat) is Some,
        text::parsed_number(o.max_ttl@, u32::MAX as nat) is Some,
        text::parsed_number(o.err_ttl@, u32::MAX as nat) is Some,
        text::parsed_number(o.ecs_prefix_v4@, 255) is Some,
        text::parsed_number(o.ecs_prefix_v6@, 255) is Some,
{
    lemma_no_message("listen address"@, listen);
    lemma_no_message("bootstrap address"@, bootstrap);
    if bind is Some {
        lemma_no_message("local bind address"@, seq![bind->0]);
        assert(seq![bind->0][0].parsed is Ok);
    }
    law_numbers_have_no_error(o.max_clients@, usize::MAX as nat);
    law_numbers_have_no_error(o.timeout@, u64::MAX as nat);
    law_numbers_have_no_error(o.max_concurrent@, u32::MAX as nat);
    law_numbers_have_no_error(o.min_ttl@, u32::MAX as nat);
    law_numbers_have_no_error(o.max_ttl@, u32::MAX as nat);
    law_numbers_have_no_error(o.err_ttl@, u32::MAX as nat);
    law_numbers_have_no_error(o.ecs_prefix_v4@, 255);
    law_numbers_have_no_error(o.ecs_prefix_v6@, 255);
}

proof fn lemma_no_message(what: Seq<char>, options: Seq<AddressOption>)
    requires
        address_message(what, options) is None,
    ensures
        forall|i: int| 0 <= i < options.len() ==> (#[trigger] options[i]).parsed is Ok,
    decreases options.len(),
{
    if options.len() > 0 {
        lemma_no_message(what, options.skip(1));
        assert forall|i: int| 0 <= i < options.len() implies (#[trigger] options[i]).parsed
            is Ok by {
            if i > 0 {
                assert(options.skip(1)[i - 1] == options[i]);
            }
        }
    }
}

/// The settings are what the options say, each by itself: the numbers that are written, the flags
/// that are given, and the file with the keys that is named, or that with the certificates.
pub proof fn law_settings_are_what_options_say(
    g: Globals,
    before: Globals,
    o: Options,
    listen: Seq<AddressOption>,
    upstream: Result<Upstream, String>,
    bind: Option<AddressOption>,
    bootstrap: Seq<AddressOption>,
    n: Numbers,
)
    requires
        settled(g, before, o, listen, upstream, bind, bootstrap),
        o.max_clients@ == text::decimal(n.max_clients as nat),
        o.timeout@ == text::decimal(n.timeout_secs as nat),
        o.max_concurrent@ == text::decimal(n.max_concurrent_streams as nat),
        o.min_ttl@ == text::decimal(n.min_ttl as nat),
        o.max_ttl@ == text::decimal(n.max_ttl as nat),
        o.err_ttl@ == text::decimal(n.err_ttl as nat),
        o.ecs_prefix_v4@ == text::decimal(n.ecs_prefix_v4 as nat),
        o.ecs_prefix_v6@ == text::decimal(n.ecs_prefix_v6 as nat),
    ensures
        g.max_clients == n.max_clients,
        g.timeout.secs == n.timeout_secs && g.timeout.nanos == 0,
        g.max_concurrent_streams == n.max_concurrent_streams,
        g.min_ttl == n.min_ttl,
        g.max_ttl == n.max_ttl,
        g.err_ttl == n.err_ttl,
        g.ecs_prefix_v4 == n.ecs_prefix_v4,
        g.ecs_prefix_v6 == n.ecs_prefix_v6,
        g.listen_addresses@ == addresses(listen),
        g.bootstrap_dns@ == addresses(bootstrap),
        g.upstreams@ == seq![upstream->Ok_0],
        bind is Some ==> g.local_bind_address == bind->0.parsed->Ok_0,
        bind is None ==> g.local_bind_address == default_bind(upstream->Ok_0@),
        g.path@ == rooted(o.path@),
        g.keepalive == !o.disable_keepalive,
        g.disable_post == o.disable_post,
        g.allow_odoh_post == o.allow_odoh_post,
        g.enable_ecs == o.enable_ecs,
        o.tls_cert_path is Some ==> g.tls_cert_path is Some && g.tls_cert_path->0@
            == o.tls_cert_path->0@,
        o.tls_cert_path is None ==> g.tls_cert_path is None,
        o.tls_cert_key_path is Some ==> g.tls_cert_key_path is Some && g.tls_cert_key_path->0@
            == o.tls_cert_key_path->0@,
        o.tls_cert_key_path is None && o.tls_cert_path is Some ==> g.tls_cert_key_path is Some
            && g.tls_cert_key_path->0@ == o.tls_cert_path->0@,
        o.tls_cert_key_path is None && o.tls_cert_path is None ==> g.tls_cert_key_path is None,
        g.upstream_mode == before.upstream_mode,
{
    text::law_decimal_round_trip(n.max_clients as nat, usize::MAX as nat);
    text::law_decimal_round_trip(n.timeout_secs as nat, u64::MAX as nat);
    text::law_decimal_round_trip(n.max_concurrent_streams as nat, u32::MAX as nat);
    text::law_decimal_round_trip(n.min_ttl as nat, u32::MAX as nat);
    text::law_decimal_round_trip(n.max_ttl as nat, u32::MAX as nat);
    text::law_decimal_round_trip(n.err_ttl as nat, u32::MAX as nat);
    text::law_decimal_round_trip(n.ecs_prefix_v4 as nat, 255);
    text::law_decimal_round_trip(n.ecs_prefix_v6 as nat, 255);
    assert(g.upstreams@ =~= seq![upstream->Ok_0]);
}

/// What is wrong with a number is said in these words, after the option and its value.
pub proof fn law_words_about_numbers(what: Seq<char>, value: Seq<char>, max: nat)
    ensures
        number_error(value, max) is None <==> number_message(what, value, max) is None,
        number_error(value, max) == Some(NumberError::Empty) ==> number_message(what, value, max)
            == Some(
            "Invalid "@ + what + " '"@ + value + "': "@ + "cannot parse integer from empty string"@,
        ),
        number_error(value, max) == Some(NumberError::InvalidDigit) ==> number_message(
            what,
            value,
            max,
        ) == Some(
            "Invalid "@ + what + " '"@ + value + "': "@ + "invalid digit found in string"@,
        ),
        number_error(value, max) == Some(NumberError::TooLarge) ==> number_message(
            what,
            value,
            max,
        ) == Some(
            "Invalid "@ + what + " '"@ + value + "': "@ + "number too large to fit in target type"@,
        ),
{
}

/// The options are looked at in this order, and the message is that about the first with a fault:
/// the addresses to listen on, the server, the local address, the resolvers, and the numbers.
pub proof fn law_first_fault_is_told(
    o: Options,
    listen: Seq<AddressOption>,
    upstream: Result<Upstream, String>,
    bind: Option<AddressOption>,
    bootstrap: Seq<AddressOption>,
)
    ensures
        ({
            let m = options_message(o, listen, upstream, bind, bootstrap);
            let a = address_message("listen address"@, listen);
            let b = if bind is Some {
                address_message("local bind address"@, seq![bind->0])
            } else {
                None
            };
            let c = address_message("bootstrap address"@, bootstrap);
            &&& a is Some ==> m == a
            &&& a is None && upstream is Err ==> m == Some(upstream->Err_0@)
            &&& a is None && upstream is Ok && b is Some ==> m == b
            &&& a is None && upstream is Ok && b is None && c is Some ==> m == c
            &&& a is None && upstream is Ok && b is None && c is None ==> m == numbers_message(o)
        }),
{
}

/// The numbers are looked at in this order, each against the largest that its setting can hold,
/// and the message is that about the first with a fault.
pub proof fn law_first_bad_number_is_told(o: Options)
    ensures
        ({
            let m = numbers_message(o);
            let clients = number_message("max clients"@, o.max_clients@, usize::MAX as nat);
            let timeout = number_message("timeout"@, o.timeout@, u64::MAX as nat);
            let streams = number_message(
                "max concurrent streams"@,
                o.max_concurrent@,
                u32::MAX as nat,
            );
            let min = number_message("min TTL"@, o.min_ttl@, u32::MAX as nat);
            let max = number_message("max TTL"@, o.max_ttl@, u32::MAX as nat);
            let err = number_message("error TTL"@, o.err_ttl@, u32::MAX as nat);
            let v4 = number_message("ECS IPv4 prefix"@, o.ecs_prefix_v4@, 255);
            let v6 = number_message("ECS IPv6 prefix"@, o.ecs_prefix_v6@, 255);
            &&& clients is Some ==> m == clients
            &&& clients is None && timeout is Some ==> m == timeout
            &&& clients is None && timeout is None && streams is Some ==> m == streams
            &&& clients is None && timeout is None && streams is None ==> {
                &&& min is Some ==> m == min
                &&& min is None && max is Some ==> m == max
                &&& min is None && max is None && err is Some ==> m == err
                &&& min is None && max is None && err is None && v4 is Some ==> m == v4
                &&& min is None && max is None && err is None && v4 is None ==> m == v6
            }
        }),
{
}

/// A text that is no URL, or one that is no server's, is refused with the reason.
pub proof fn law_refused_servers(
    url: UrlView,
    server: Seq<char>,
    default_path: Seq<char>,
    reason: Seq<char>,
)
    ensures
        parsed_upstream(Err(reason), server, default_path) == Err::<UpstreamView, Seq<char>>(
            "Invalid "@ + "URL"@ + " '"@ + server + "': "@ + reason,
        ),
        parsed_upstream(Ok(url), server, default_path) == url_upstream(url, server, default_path),
        (url.scheme == "https"@ || url.scheme == "h3"@) && url.host_str is None ==> url_upstream(
            url,
            server,
            default_path,
        ) == Err::<UpstreamView, Seq<char>>("DoH URL '"@ + server + "' must include a host"@),
        url.scheme == "tls"@ && url.host_str is None ==> url_upstream(url, server, default_path)
            == Err::<UpstreamView, Seq<char>>("DoT URL '"@ + server + "' must include a host"@),
        url.scheme == "http"@ ==> url_upstream(url, server, default_path) == Err::<
            UpstreamView,
            Seq<char>,
        >("Only https://, h3://, or tls:// URLs are supported for upstreams"@),
        url.scheme != "https"@ && url.scheme != "h3"@ && url.scheme != "tls"@ && url.scheme
            != "http"@ ==> url_upstream(url, server, default_path) == Err::<
            UpstreamView,
            Seq<char>,
        >("Unsupported URL scheme '"@ + url.scheme + "' for upstream"@),
{
    reveal_strlit("http");
    reveal_strlit("https");
    reveal_strlit("h3");
    reveal_strlit("tls");
    assert("http"@.len() == 4 && "https"@.len() == 5 && "h3"@.len() == 2 && "tls"@.len() == 3);
}

} // verus!
