use base64::Engine;
use doh_proxy::config::{
    default_local_bind, is_url, number_option, parse_opts, root_path, upstream_from_lookup,
    upstream_from_parts, upstream_from_url, AddressOption, NumberError, Options, UrlParts,
};
use doh_proxy::errors::{DoHError, IoErrorKind, IoFailure};
use doh_proxy::globals::{upstream_address, ClientsCount, Globals, Upstream, UpstreamMode};
use doh_proxy::http3_server::{
    bind_listeners, concerns_certs, listening_line, on_http3_event, on_supervisor_event,
    run_http3_supervisor, start_http3, watch_dirs, H3ServerAction, H3ServerEvent, H3ServerState,
    SupervisorAction, SupervisorEvent, SupervisorState,
};
use doh_proxy::net::{local_bind_for_peer, IpAddr, SocketAddr};
use doh_proxy::stamps::{
    no_hostname_line, parse_public_port, stamp_lines, stamp_report, OutputLine,
};
use doh_proxy::time::Duration;
use doh_proxy::tls::{
    certificates, certs_unreadable, create_tls_acceptor, first_accepted, keys_unreadable,
    private_keys, tls_enabled, tls_paths, PrivateKey,
};
use doh_proxy::utils::{
    verify_remote_server, verify_sock_addr, verify_upstream, verify_url, UpstreamCheck,
};

fn addr(n: u32) -> SocketAddr {
    SocketAddr::new(IpAddr::V4(n), 53)
}

fn options() -> Options {
    Options {
        upstream: "9.9.9.9:53".to_string(),
        path: "dns-query".to_string(),
        max_clients: "512".to_string(),
        max_concurrent: "16".to_string(),
        timeout: "10".to_string(),
        min_ttl: "10".to_string(),
        max_ttl: "+604800".to_string(),
        err_ttl: "2".to_string(),
        disable_keepalive: true,
        disable_post: true,
        allow_odoh_post: false,
        enable_ecs: true,
        ecs_prefix_v4: "24".to_string(),
        ecs_prefix_v6: "56".to_string(),
        tls_cert_path: Some("/c.pem".to_string()),
        tls_cert_key_path: None,
    }
}

fn before() -> Globals {
    Globals {
        tls_cert_path: None,
        tls_cert_key_path: None,
        listen_addresses: vec![],
        local_bind_address: addr(0),
        bootstrap_dns: vec![],
        upstreams: vec![],
        upstream_mode: UpstreamMode::Parallel,
        path: String::new(),
        max_clients: 0,
        timeout: Duration::from_secs(0),
        max_concurrent_streams: 0,
        min_ttl: 0,
        max_ttl: 0,
        err_ttl: 0,
        keepalive: true,
        disable_post: false,
        allow_odoh_post: false,
        enable_ecs: false,
        ecs_prefix_v4: 0,
        ecs_prefix_v6: 0,
        odoh_configs_path: "/odoh".to_string(),
    }
}

fn good(n: u32) -> AddressOption {
    AddressOption { value: "x".to_string(), parsed: Ok(addr(n)) }
}

fn bad(value: &str) -> AddressOption {
    AddressOption {
        value: value.to_string(),
        parsed: Err("invalid socket address syntax".to_string()),
    }
}

#[test]
fn options_make_settings() {
    let g = parse_opts(
        before(),
        &options(),
        &vec![good(1), good(2)],
        upstream_from_lookup("9.9.9.9:53", Ok(Some(addr(9)))),
        None,
        &vec![good(3)],
    )
    .unwrap();
    assert_eq!(g.listen_addresses, vec![addr(1), addr(2)]);
    assert_eq!(g.local_bind_address, SocketAddr::new(IpAddr::V4(0), 0));
    assert_eq!(g.bootstrap_dns, vec![addr(3)]);
    assert!(matches!(g.upstreams[..], [Upstream::Dns(a)] if a == addr(9)));
    assert_eq!(g.path, "/dns-query");
    assert_eq!(g.max_clients, 512);
    assert_eq!(g.timeout, Duration::from_secs(10));
    assert_eq!(g.max_concurrent_streams, 16);
    assert_eq!((g.min_ttl, g.max_ttl, g.err_ttl), (10, 604800, 2));
    assert_eq!((g.ecs_prefix_v4, g.ecs_prefix_v6), (24, 56));
    assert!(!g.keepalive && g.disable_post && !g.allow_odoh_post && g.enable_ecs);
    assert_eq!(g.tls_cert_path.as_deref(), Some("/c.pem"));
    assert_eq!(g.tls_cert_key_path.as_deref(), Some("/c.pem"));
    assert_eq!(g.upstream_mode, UpstreamMode::Parallel);
    assert_eq!(g.odoh_configs_path, "/odoh");
}

fn first_message(
    o: Options,
    listen: Vec<AddressOption>,
    upstream: Result<Upstream, String>,
    bind: Option<AddressOption>,
    bootstrap: Vec<AddressOption>,
) -> String {
    parse_opts(before(), &o, &listen, upstream, bind, &bootstrap).unwrap_err()
}

#[test]
fn the_first_wrong_option_is_told() {
    let server = || upstream_from_lookup("s", Ok(Some(addr(9))));
    let mut o = options();
    o.max_clients = "x".to_string();
    assert_eq!(
        first_message(o, vec![good(1), bad("l")], server(), Some(bad("b")), vec![bad("d")]),
        "Invalid listen address 'l': invalid socket address syntax"
    );
    assert_eq!(
        first_message(options(), vec![], upstream_from_lookup("s", Ok(None)), Some(bad("b")), vec![]),
        "Cannot resolve server address 's'"
    );
    assert_eq!(
        first_message(options(), vec![], server(), Some(bad("b")), vec![bad("d")]),
        "Invalid local bind address 'b': invalid socket address syntax"
    );
    assert_eq!(
        first_message(options(), vec![], server(), Some(good(1)), vec![bad("d")]),
        "Invalid bootstrap address 'd': invalid socket address syntax"
    );
    let cases: Vec<(fn(&mut Options), &str)> = vec![
        (
            |o| o.max_clients = "x".to_string(),
            "Invalid max clients 'x': invalid digit found in string",
        ),
        (
            |o| o.timeout = "".to_string(),
            "Invalid timeout '': cannot parse integer from empty string",
        ),
        (
            |o| o.max_concurrent = "4294967296".to_string(),
            "Invalid max concurrent streams '4294967296': number too large to fit in target type",
        ),
        (
            |o| o.min_ttl = "-1".to_string(),
            "Invalid min TTL '-1': invalid digit found in string",
        ),
        (
            |o| o.max_ttl = "+".to_string(),
            "Invalid max TTL '+': invalid digit found in string",
        ),
        (
            |o| o.err_ttl = "99999999999999999999x".to_string(),
            "Invalid error TTL '99999999999999999999x': number too large to fit in target type",
        ),
        (
            |o| o.ecs_prefix_v4 = "256".to_string(),
            "Invalid ECS IPv4 prefix '256': number too large to fit in target type",
        ),
        (
            |o| o.ecs_prefix_v6 = "5 6".to_string(),
            "Invalid ECS IPv6 prefix '5 6': invalid digit found in string",
        ),
    ];
    for (spoil, message) in cases {
        let mut o = options();
        spoil(&mut o);
        assert_eq!(first_message(o, vec![], server(), None, vec![]), message);
    }
}

#[test]
fn numbers_are_those_of_the_standard_library() {
    for s in ["0", "+7", "007", "255", "256", "", "+", "-1", "1x", "9999x", "x9999", "++1", " 1"] {
        match (number_option("n", s, 255), s.parse::<u8>()) {
            (Ok(n), Ok(m)) => assert_eq!(n, m as u64),
            (Err(text), Err(e)) => assert_eq!(text, format!("Invalid n '{}': {}", s, e)),
            (a, b) => panic!("{:?} and {:?} for {:?}", a, b, s),
        }
    }
    assert_eq!(number_option("n", "18446744073709551615", u64::MAX), Ok(u64::MAX));
    assert!(number_option("n", "18446744073709551616", u64::MAX).is_err());
    assert_eq!(NumberError::Empty.to_text(), "cannot parse integer from empty string");
}

fn doh(server: &str) -> (String, String, u16, String, String, bool) {
    match upstream_from_url(server, "/dns-query").unwrap() {
        Upstream::Doh(d) => (d.url, d.host, d.port, d.path, d.authority, d.h3_only),
        other => panic!("expected HTTPS: {:?}", other),
    }
}

fn s(x: &str) -> String {
    x.to_string()
}

#[test]
fn urls_of_servers() {
    assert_eq!(
        doh("https://Dns.Example"),
        (s("https://dns.example/"), s("dns.example"), 443, s("/dns-query"), s("dns.example"), false)
    );
    assert_eq!(
        doh("https://dns.example:8443/q?x=1"),
        (
            s("https://dns.example:8443/q?x=1"),
            s("dns.example"),
            8443,
            s("/q?x=1"),
            s("dns.example:8443"),
            false
        )
    );
    assert_eq!(
        doh("https://[2001:db8::1]:444/"),
        (
            s("https://[2001:db8::1]:444/"),
            s("[2001:db8::1]"),
            444,
            s("/dns-query"),
            s("[2001:db8::1]:444"),
            false
        )
    );
    let (_, host, port, path, authority, h3_only) = doh("h3://dns.example/?y");
    assert_eq!((host, port, path, authority), (s("dns.example"), 443, s("/dns-query?y"), s("dns.example")));
    assert!(h3_only);
    match upstream_from_url("tls://dns.example", "/").unwrap() {
        Upstream::Dot(d) => assert_eq!((d.host, d.port), (s("dns.example"), 853)),
        other => panic!("expected TLS: {:?}", other),
    }
    match upstream_from_url("tls://dns.example:9853", "/").unwrap() {
        Upstream::Dot(d) => assert_eq!(d.port, 9853),
        other => panic!("expected TLS: {:?}", other),
    }
}

fn parts(scheme: &str) -> UrlParts {
    UrlParts {
        text: s("t"),
        scheme: s(scheme),
        host: None,
        host_str: None,
        port: None,
        port_or_known_default: None,
        path: s(""),
        query: None,
    }
}

#[test]
fn urls_that_are_no_servers() {
    assert_eq!(
        upstream_from_url("http://x", "/").unwrap_err(),
        "Only https://, h3://, or tls:// URLs are supported for upstreams"
    );
    assert_eq!(
        upstream_from_url("https://", "/").unwrap_err(),
        "Invalid URL 'https://': empty host"
    );
    let message = |p: UrlParts| upstream_from_parts(Ok(p), "u", "/").unwrap_err();
    assert_eq!(message(parts("https")), "DoH URL 'u' must include a host");
    assert_eq!(message(parts("h3")), "DoH URL 'u' must include a host");
    assert_eq!(message(parts("tls")), "DoT URL 'u' must include a host");
    assert_eq!(message(parts("ftp")), "Unsupported URL scheme 'ftp' for upstream");
    assert_eq!(
        upstream_from_lookup("h:1", Err(s("failed to lookup"))).unwrap_err(),
        "Invalid server address 'h:1': failed to lookup"
    );
    assert!(is_url("tls://x") && is_url("h3://x") && is_url("https://") && is_url("http://"));
    assert!(!is_url("9.9.9.9:53") && !is_url("HTTPS://x"));
}

#[test]
fn arguments_are_checked() {
    assert_eq!(verify_sock_addr("a", true), Ok(s("a")));
    assert_eq!(
        verify_sock_addr("a", false).unwrap_err(),
        "Could not parse \"a\" as a valid socket address (with port)."
    );
    assert_eq!(verify_remote_server("a", Ok(true)), Ok(s("a")));
    assert_eq!(
        verify_remote_server("a", Ok(false)).unwrap_err(),
        "Could not parse \"a\" as a valid remote uri"
    );
    assert_eq!(verify_remote_server("a", Err(s("why"))).unwrap_err(), "why");
    let verdict = |arg: &str| match verify_upstream(arg) {
        UpstreamCheck::Verdict(r) => r,
        UpstreamCheck::Lookup => panic!("no lookup for a URL"),
    };
    for ok in ["https://x/y", "h3://x", "tls://x:1"] {
        assert_eq!(verdict(ok), Ok(s(ok)));
    }
    assert_eq!(
        verdict("http://x").unwrap_err(),
        "Only https://, h3://, or tls:// URLs are supported for upstreams"
    );
    assert_eq!(verdict("https://").unwrap_err(), "Invalid URL: empty host");
    assert_eq!(verify_url("u", Ok(parts("tls"))).unwrap_err(), "URL must include a host");
    assert_eq!(
        verify_url("u", Ok(parts("ftp"))).unwrap_err(),
        "Unsupported URL scheme 'ftp'"
    );
    assert!(matches!(verify_upstream("9.9.9.9:53"), UpstreamCheck::Lookup));
}

#[test]
fn the_default_local_address() {
    let v6 = SocketAddr::V6 { ip: 5, port: 53, flowinfo: 1, scope_id: 2 };
    assert_eq!(
        default_local_bind(&Upstream::Dns(v6)),
        SocketAddr::V6 { ip: 0, port: 0, flowinfo: 1, scope_id: 2 }
    );
    assert_eq!(
        default_local_bind(&upstream_from_url("tls://x", "/").unwrap()),
        SocketAddr::V4 { ip: 0, port: 0 }
    );
    assert_eq!(root_path("/a"), "/a");
    assert_eq!(root_path("a"), "/a");
    assert_eq!(root_path(""), "/");
    assert_eq!(root_path(&root_path("a")), "/a");
}

#[test]
fn servers_are_known_by_their_addresses() {
    let dot = upstream_from_url("tls://x", "/").unwrap();
    assert_eq!(upstream_address(&dot, ""), "tls://x:853");
    let doh = upstream_from_url("https://x/q", "/").unwrap();
    assert_eq!(upstream_address(&doh, ""), "https://x/q");
    assert_eq!(upstream_address(&Upstream::Dns(addr(1)), "0.0.0.1:53"), "0.0.0.1:53");
}

#[test]
fn modes_by_name() {
    assert_eq!(UpstreamMode::from_str("load_balance"), Some(UpstreamMode::LoadBalance));
    assert_eq!(UpstreamMode::from_str("parallel"), Some(UpstreamMode::Parallel));
    assert_eq!(UpstreamMode::from_str("fastest_addr"), Some(UpstreamMode::FastestAddr));
    assert_eq!(UpstreamMode::from_str("Parallel"), None);
    assert_eq!(UpstreamMode::from_str(""), None);
}

#[test]
fn clients_are_counted() {
    let mut count = ClientsCount::default();
    assert_eq!(count.decrement(), 0);
    assert_eq!(count.increment(), 0);
    assert_eq!(count.increment(), 1);
    assert_eq!(count.current(), 2);
    assert!(!count.reserve(2));
    assert_eq!(count.current(), 2);
    assert!(count.reserve(3));
    assert_eq!(count.decrement(), 3);
    assert_eq!(count.current(), 2);
    // One that came and left leaves the count as it was.
    assert_eq!(count.increment(), 2);
    assert_eq!(count.decrement(), 3);
    assert_eq!(count.current(), 2);
}

fn out(lines: Vec<OutputLine>) -> Vec<String> {
    lines
        .into_iter()
        .map(|l| match l {
            OutputLine::Out(text) => text,
            OutputLine::Warning(text) => format!("! {}", text),
        })
        .collect()
}

#[test]
fn stamps_of_a_server() {
    assert_eq!(
        out(stamp_lines("example.com", "/dns", &vec![], None)),
        vec![
            "Test DNS stamp to reach [example.com] over DoH: \
             [sdns://AgAAAAAAAAAAAAALZXhhbXBsZS5jb20EL2Rucw]\n",
            "Test DNS stamp to reach [example.com] over Oblivious DoH: \
             [sdns://BQAAAAAAAAAAC2V4YW1wbGUuY29tBC9kbnM]\n",
            "Check out https://dnscrypt.info/stamps/ to compute the actual stamps.\n",
        ]
    );
    assert_eq!(
        out(stamp_lines("example.com", "/dns", &vec![], Some(443))),
        out(stamp_lines("example.com", "/dns", &vec![], None))
    );
    assert_eq!(
        out(stamp_lines("example.com", "/dns", &vec![s("127.0.0.1"), s("::1")], Some(8443))),
        vec![
            "Test DNS stamp to reach [example.com] via [127.0.0.1] over DoH: \
             [sdns://AgAAAAAAAAAACTEyNy4wLjAuMQAQZXhhbXBsZS5jb206ODQ0MwQvZG5z]",
            "Test DNS stamp to reach [example.com] via [::1] over DoH: \
             [sdns://AgAAAAAAAAAAAzo6MQAQZXhhbXBsZS5jb206ODQ0MwQvZG5z]",
            "",
            "Test DNS stamp to reach [example.com] over Oblivious DoH: \
             [sdns://BQAAAAAAAAAAEGV4YW1wbGUuY29tOjg0NDMEL2Rucw]\n",
            "Check out https://dnscrypt.info/stamps/ to compute the actual stamps.\n",
        ]
    );
}

#[test]
fn stamps_that_could_not_be_made() {
    let lines = out(stamp_report("h", &vec![], &vec![Err(s("e"))], &Err(s("f"))));
    assert_eq!(lines[0], "! Warning: Failed to generate DoH stamp: e");
    assert_eq!(lines[1], "! Warning: Failed to generate ODoH stamp: f");
    let lines = out(stamp_report("h", &vec![s("a")], &vec![Err(s("e"))], &Ok(s("f"))));
    assert_eq!(lines[0], "! Warning: Failed to generate DoH stamp for a: e");
    assert_eq!(parse_public_port(None), Ok(None));
    assert_eq!(parse_public_port(Some("8443")), Ok(Some(8443)));
    assert_eq!(
        parse_public_port(Some("65536")).unwrap_err(),
        "Invalid public port '65536': number too large to fit in target type"
    );
    match no_hostname_line() {
        OutputLine::Out(text) => assert!(text.starts_with("Please provide")),
        OutputLine::Warning(_) => panic!("no warning"),
    }
}

fn pem(label: &str, body: &str) -> String {
    format!("-----BEGIN {label}-----\n{body}\n-----END {label}-----\n")
}

#[test]
fn certificates_and_keys_are_read() {
    let text =
        pem("CERTIFICATE", "AQID") + &pem("PRIVATE KEY", "BAUG") + &pem("CERTIFICATE", "BwgJ");
    assert_eq!(certificates(text.as_bytes()).unwrap(), vec![vec![1, 2, 3], vec![7, 8, 9]]);
    let text = pem("RSA PRIVATE KEY", "AQID") + &pem("PRIVATE KEY", "BAUG");
    let keys = private_keys(text.as_bytes()).unwrap();
    assert!(matches!(&keys[0], PrivateKey::Pkcs8(k) if k == &vec![4, 5, 6]));
    assert!(matches!(&keys[1], PrivateKey::Pkcs1(k) if k == &vec![1, 2, 3]));
    assert_eq!(keys.len(), 2);
    // The bytes are no certificate and no key, so no pair of them is found.
    let certs = pem("CERTIFICATE", "AQID");
    let e = create_tls_acceptor(certs.as_bytes(), text.as_bytes()).unwrap_err();
    assert_eq!(e.message, "Unable to find a valid certificate and key");
    assert_eq!(e.kind, IoErrorKind::InvalidInput);
    let e = create_tls_acceptor(pem("CERTIFICATE", "!").as_bytes(), b"").unwrap_err();
    assert!(e.message.starts_with("Unable to parse the certificates: "));
    let e = create_tls_acceptor(certs.as_bytes(), b"").unwrap_err();
    assert!(e.message.starts_with("No private keys found"));
}

// The first two test vectors of RFC 8032: a seed and its public key, and another seed.
const SEED: [u8; 32] = [
    0x9d, 0x61, 0xb1, 0x9d, 0xef, 0xfd, 0x5a, 0x60, 0xba, 0x84, 0x4a, 0xf4,
    0x92, 0xec, 0x2c, 0xc4, 0x44, 0x49, 0xc5, 0x69, 0x7b, 0x32, 0x69, 0x19,
    0x70, 0x3b, 0xac, 0x03, 0x1c, 0xae, 0x7f, 0x60,
];
const PUBLIC: [u8; 32] = [
    0xd7, 0x5a, 0x98, 0x01, 0x82, 0xb1, 0x0a, 0xb7, 0xd5, 0x4b, 0xfe, 0xd3,
    0xc9, 0x64, 0x07, 0x3a, 0x0e, 0xe1, 0x72, 0xf3, 0xda, 0xa6, 0x23, 0x25,
    0xaf, 0x02, 0x1a, 0x68, 0xf7, 0x07, 0x51, 0x1a,
];
const OTHER_SEED: [u8; 32] = [
    0x4c, 0xcd, 0x08, 0x9b, 0x28, 0xff, 0x96, 0xda, 0x9d, 0xb6, 0xc3, 0x46,
    0xec, 0x11, 0x4e, 0x0f, 0x5b, 0x8a, 0x31, 0x9f, 0x35, 0xab, 0xa6, 0x24,
    0xda, 0x8c, 0xf6, 0xed, 0x4f, 0xb8, 0xa6, 0xfb,
];

fn der(tag: u8, parts: &[&[u8]]) -> Vec<u8> {
    let body = parts.concat();
    assert!(body.len() < 128);
    let mut out = vec![tag, body.len() as u8];
    out.extend_from_slice(&body);
    out
}

fn ed25519() -> Vec<u8> {
    der(0x30, &[&[6, 3, 0x2b, 0x65, 0x70]])
}

fn key_der(seed: &[u8; 32]) -> Vec<u8> {
    der(0x30, &[&[2, 1, 0], &ed25519(), &der(4, &[&der(4, &[seed])])])
}

/// A certificate for the public key, with nothing in it that a server looks at beyond that.
fn cert_der() -> Vec<u8> {
    let empty = der(0x30, &[]);
    let public = der(0x30, &[&ed25519(), &der(3, &[&[0], &PUBLIC])]);
    let body = der(
        0x30,
        &[&[0xa0, 3, 2, 1, 2], &[2, 1, 1], &ed25519(), &empty, &empty, &empty, &public],
    );
    der(0x30, &[&body, &ed25519(), &der(3, &[&[0]])])
}

fn pem_of(label: &str, bytes: &[u8]) -> String {
    pem(label, &base64::engine::general_purpose::STANDARD.encode(bytes))
}

#[test]
fn the_first_key_that_goes_with_the_certificates_is_used() {
    let certs = pem_of("CERTIFICATE", &cert_der());
    let fitting = pem_of("PRIVATE KEY", &key_der(&SEED));
    let other = pem_of("PRIVATE KEY", &key_der(&OTHER_SEED));
    let both = other.clone() + &fitting;
    for keys in [&fitting, &both] {
        let config = create_tls_acceptor(certs.as_bytes(), keys.as_bytes()).unwrap();
        assert_eq!(config.alpn_protocols, vec![b"h2".to_vec(), b"http/1.1".to_vec()]);
    }
    let e = create_tls_acceptor(certs.as_bytes(), other.as_bytes()).unwrap_err();
    assert_eq!(e.message, "Unable to find a valid certificate and key");
}

#[test]
fn keys_are_tried_in_their_order() {
    let certs = vec![vec![1]];
    let protocols = vec![b"p".to_vec()];
    let keys = vec![
        PrivateKey::Pkcs8(vec![1]),
        PrivateKey::Pkcs1(vec![2]),
        PrivateKey::Pkcs8(vec![3]),
    ];
    let good = create_tls_acceptor(
        pem_of("CERTIFICATE", &cert_der()).as_bytes(),
        pem_of("PRIVATE KEY", &key_der(&SEED)).as_bytes(),
    )
    .unwrap();
    let tried = std::cell::RefCell::new(Vec::new());
    let pair = |accepted: u8| {
        let (certs, protocols, tried, good) = (&certs, &protocols, &tried, &good);
        move |c: &Vec<Vec<u8>>, key: &PrivateKey, p: &Vec<Vec<u8>>| {
            assert_eq!((c, p), (certs, protocols));
            let (PrivateKey::Pkcs8(bytes) | PrivateKey::Pkcs1(bytes)) = key;
            tried.borrow_mut().push(bytes[0]);
            if bytes[0] == accepted {
                Some(good.clone())
            } else {
                None
            }
        }
    };
    assert!(first_accepted(pair(2), &certs, &keys, &protocols).is_ok());
    assert_eq!(tried.take(), vec![1, 2]);
    let e = first_accepted(pair(9), &certs, &keys, &protocols).unwrap_err();
    assert_eq!(e.message, "Unable to find a valid certificate and key");
    assert_eq!(e.kind, IoErrorKind::InvalidInput);
    assert_eq!(tried.take(), vec![1, 2, 3]);
}

#[test]
fn certificates_and_keys_that_cannot_be_read() {
    let broken = pem("CERTIFICATE", "!");
    let e = certificates(broken.as_bytes()).unwrap_err();
    assert_eq!(e.kind, IoErrorKind::InvalidInput);
    assert!(e.message.starts_with("Unable to parse the certificates: "));
    let broken = pem("PRIVATE KEY", "!");
    let e = private_keys(broken.as_bytes()).unwrap_err();
    assert!(e.message.starts_with("Unable to parse the certificates private keys (PKCS8): "));
    let e = private_keys(b"").unwrap_err();
    assert_eq!(
        e.message,
        "No private keys found - Make sure that they are in PKCS#8/PEM format"
    );
    let e = doh_proxy::tls::check_keys(Ok(vec![]), Err(s("why"))).unwrap_err();
    assert_eq!(e.message, "Unable to parse the certificates private keys (RSA): why");
    let missing = IoFailure { kind: IoErrorKind::NotFound, message: s("no file"), source: None };
    let e = certs_unreadable("/c", &missing);
    assert_eq!(e.message, "Unable to load the certificates [/c]: no file");
    assert_eq!(e.kind, IoErrorKind::NotFound);
    let e = keys_unreadable("/k", &missing);
    assert_eq!(e.message, "Unable to load the certificate keys [/k]: no file");
}

#[test]
fn the_files_for_tls() {
    let some = Some(s("/c"));
    assert!(tls_enabled(&some, &some) && !tls_enabled(&some, &None) && !tls_enabled(&None, &some));
    assert_eq!(tls_paths(&some, &Some(s("/k"))).unwrap(), (s("/c"), s("/k")));
    for (c, k, text) in [
        (&None, &some, "TLS certificate path not provided"),
        (&some, &None, "TLS certificate key path not provided"),
    ] {
        match tls_paths(c, k) {
            Err(DoHError::Io(e)) => {
                assert_eq!((e.kind, e.message.as_str()), (IoErrorKind::NotFound, text))
            }
            other => panic!("a path is missing: {:?}", other),
        }
    }
}

#[test]
fn the_http3_server_runs_through_its_states() {
    let some = Some(s("/c"));
    let (state, action) = start_http3(&some, &None);
    assert_eq!(state, H3ServerState::Finished);
    assert!(matches!(action, H3ServerAction::Fail(DoHError::InvalidData)));
    let (state, _) = start_http3(&some, &some);
    let (state, action) = on_http3_event(state, H3ServerEvent::Validated(false));
    assert!(matches!(action, H3ServerAction::WaitForReload));
    let (state, _) = on_http3_event(state, H3ServerEvent::Reload(true));
    let (state, action) = on_http3_event(state, H3ServerEvent::Validated(true));
    assert!(matches!(action, H3ServerAction::Bind));
    let (state, action) =
        on_http3_event(state, H3ServerEvent::Bound { sockets: 1, last_error: None });
    assert!(matches!(action, H3ServerAction::Listen));
    let (state, action) = on_http3_event(state, H3ServerEvent::ListenStarted(true));
    assert!(matches!(action, H3ServerAction::Serve));
    let (state, action) = on_http3_event(state, H3ServerEvent::Reload(true));
    assert!(matches!(action, H3ServerAction::Validate));
    let (state, action) = on_http3_event(state, H3ServerEvent::Validated(false));
    assert!(matches!(action, H3ServerAction::Serve));
    let (state, _) = on_http3_event(state, H3ServerEvent::Reload(true));
    let (state, action) = on_http3_event(state, H3ServerEvent::Validated(true));
    assert!(matches!(action, H3ServerAction::ShutDownAndJoin));
    let (state, action) = on_http3_event(state, H3ServerEvent::Joined(Ok(())));
    assert_eq!(state, H3ServerState::Validating);
    assert!(matches!(action, H3ServerAction::Validate));
}

#[test]
fn the_http3_server_ends_with_an_error() {
    let fail = |state: H3ServerState, event: H3ServerEvent| match on_http3_event(state, event) {
        (H3ServerState::Finished, H3ServerAction::Fail(e)) => e,
        other => panic!("expected an end: {:?}", other),
    };
    assert!(matches!(
        fail(H3ServerState::AwaitingReload, H3ServerEvent::Reload(false)),
        DoHError::UpstreamIssue
    ));
    match fail(H3ServerState::Binding, H3ServerEvent::Bound { sockets: 0, last_error: None }) {
        DoHError::Io(e) => assert_eq!(e.message, "No available HTTP/3 listen addresses"),
        other => panic!("expected a failure to bind: {:?}", other),
    }
    let last = IoFailure { kind: IoErrorKind::AddrInUse, message: s("in use"), source: None };
    match fail(H3ServerState::Binding, H3ServerEvent::Bound { sockets: 0, last_error: Some(last) }) {
        DoHError::Io(e) => assert_eq!(e.message, "in use"),
        other => panic!("expected a failure to bind: {:?}", other),
    }
    assert!(matches!(
        fail(H3ServerState::Listening, H3ServerEvent::ListenStarted(false)),
        DoHError::UpstreamIssue
    ));
    assert!(matches!(
        fail(H3ServerState::Serving, H3ServerEvent::Joined(Ok(()))),
        DoHError::UpstreamIssue
    ));
    assert!(matches!(
        fail(H3ServerState::Closing, H3ServerEvent::Joined(Err(DoHError::InvalidData))),
        DoHError::InvalidData
    ));
    assert!(matches!(
        fail(H3ServerState::Restarting, H3ServerEvent::Joined(Err(DoHError::InvalidData))),
        DoHError::InvalidData
    ));
    let (state, action) = on_http3_event(H3ServerState::Serving, H3ServerEvent::Reload(false));
    assert_eq!(state, H3ServerState::Closing);
    assert!(matches!(action, H3ServerAction::Join));
    let (state, action) = on_http3_event(H3ServerState::Finished, H3ServerEvent::Validated(true));
    assert_eq!(state, H3ServerState::Finished);
    assert!(matches!(action, H3ServerAction::Ignore));
}

#[test]
fn the_supervisor_restarts_and_stops() {
    let some = Some(s("/c"));
    assert_eq!(
        run_http3_supervisor(&None, &some),
        (SupervisorState::Stopped, SupervisorAction::Exit { end_watcher: false })
    );
    let (state, action) = run_http3_supervisor(&some, &some);
    assert_eq!(action, SupervisorAction::CheckStop);
    let (state, action) = on_supervisor_event(state, SupervisorEvent::StopRequested(false));
    assert_eq!(action, SupervisorAction::StartWatcher);
    let (delayed, action) = on_supervisor_event(state, SupervisorEvent::WatcherStarted(false));
    assert_eq!(action, SupervisorAction::Delay { end_watcher: false });
    assert_eq!(
        on_supervisor_event(delayed, SupervisorEvent::DelayOver),
        (SupervisorState::Checking, SupervisorAction::CheckStop)
    );
    assert_eq!(
        on_supervisor_event(delayed, SupervisorEvent::Stop),
        (SupervisorState::Stopped, SupervisorAction::Exit { end_watcher: false })
    );
    let (running, action) = on_supervisor_event(state, SupervisorEvent::WatcherStarted(true));
    assert_eq!(action, SupervisorAction::RunServer);
    assert_eq!(
        on_supervisor_event(running, SupervisorEvent::ServerEnded { failed: true }),
        (SupervisorState::Delaying, SupervisorAction::Delay { end_watcher: true })
    );
    for event in [SupervisorEvent::Stop, SupervisorEvent::ServerEnded { failed: false }] {
        assert_eq!(
            on_supervisor_event(running, event),
            (SupervisorState::Stopped, SupervisorAction::Exit { end_watcher: true })
        );
    }
    assert_eq!(
        on_supervisor_event(SupervisorState::Checking, SupervisorEvent::StopRequested(true)).0,
        SupervisorState::Stopped
    );
    assert_eq!(
        on_supervisor_event(SupervisorState::Stopped, SupervisorEvent::DelayOver),
        (SupervisorState::Stopped, SupervisorAction::Ignore)
    );
}

#[test]
fn listeners_are_bound() {
    match bind_listeners(0, 0, None) {
        Err(DoHError::Io(e)) => {
            assert_eq!((e.kind, e.message.as_str()), (IoErrorKind::InvalidInput, "No listen addresses configured"))
        }
        other => panic!("nothing to bind: {:?}", other),
    }
    match bind_listeners(2, 0, None) {
        Err(DoHError::Io(e)) => assert_eq!(e.message, "No available listen addresses"),
        other => panic!("nothing bound: {:?}", other),
    }
    assert_eq!(
        bind_listeners(3, 2, None).unwrap().as_deref(),
        Some("Warning: Bound 2 of 3 configured listen addresses.")
    );
    assert_eq!(bind_listeners(2, 2, None).unwrap(), None);
    assert_eq!(listening_line(true, "a:1", "/p"), "Listening on https://a:1/p");
    assert_eq!(listening_line(false, "a:1", "/p"), "Listening on http://a:1/p");
    assert_eq!(watch_dirs(s("/a"), s("/a")), vec![s("/a")]);
    assert_eq!(watch_dirs(s("/a"), s("/b")), vec![s("/a"), s("/b")]);
    assert!(concerns_certs(&vec![s("x"), s("/k")], "/c", "/k"));
    assert!(!concerns_certs(&vec![s("x")], "/c", "/k"));
}

#[test]
fn default_bind_reaches_its_server() {
    let v6 = SocketAddr::V6 { ip: 1, port: 53, flowinfo: 3, scope_id: 4 };
    for server in [addr(1), v6] {
        let local = default_local_bind(&Upstream::Dns(server));
        assert_eq!(local_bind_for_peer(local, &server), Some(local));
    }
    assert_eq!(
        default_local_bind(&Upstream::Dns(v6)),
        SocketAddr::V6 { ip: 0, port: 0, flowinfo: 3, scope_id: 4 }
    );
}
