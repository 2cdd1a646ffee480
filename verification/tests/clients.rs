use doh_proxy::bootstrap::{
    bootstrap_dns_query, build_bootstrap_dns_query, normalize_bootstrap_host,
    parse_bootstrap_dns_response, parse_dns_name_lower,
};
use doh_proxy::dns_client::{
    check_tcp_sessions, frame_query, frame_tcp_query, on_udp_reply, probe_quic_timeout,
    response_len, time_limit, UdpStep,
};
use doh_proxy::doh_upstream::{
    can_rebuild, on_h2_result, on_h3_result, on_protocol, on_timeout, proxy_doh,
    select_doh_protocol, select_without_probe, DohAction, DohHealth, ProbeOutcome, DOH_PROTO_H2,
    DOH_PROTO_H3, DOH_PROTO_UNKNOWN,
};
use doh_proxy::errors::{
    Cause, DoHError, H3ConnectionFailure, H3ErrorKind, HyperFailure, IoErrorKind, IoFailure,
    StatusCode, UpstreamAttemptError, UpstreamErrorKind,
};
use doh_proxy::h2_client::{
    check_h2_status, check_server_name, check_uri, connection_timeout, h2_local_addresses,
    h2_request_headers, h2_uri, h3_request_headers, invalid_request, socket_addr_to_authority,
    LocalAddresses,
};
use doh_proxy::h3_client::{
    BodyReader, ClientAction, ClientChoice, ClientEvent, DohH3Pending, DohH3Pool,
};
use doh_proxy::h3_pools::DohH3Pools;
use doh_proxy::headers::HeaderField;
use doh_proxy::limits::Limits;
use doh_proxy::net::{IpAddr, SocketAddr};
use doh_proxy::resolve::{
    bind_for, find_target, last_failure, plan_resolution, system_addrs,
    use_bootstrap_for_upstream_host, with_port, AddrSearch, BootstrapRace, RaceStep, ResolvePlan,
};
use doh_proxy::retry::{
    is_no_rebuild_doh_error, is_retryable_doh_error, is_retryable_h2_client_error,
    is_retryable_h3_connection_error, is_retryable_h3_error, is_retryable_io_error,
    is_retryable_quic_error, is_retryable_std_error, ClientFailure, H2Failure, H3Failure, Retries,
    RetryStep,
};
use doh_proxy::text;
use doh_proxy::time::Duration;
use doh_proxy::upstream::msg::Name;
use doh_proxy::upstream::msg::Msg;
use doh_proxy::upstream::rr_types::RrType;

fn limits() -> Limits {
    Limits {
        min_dns_packet_len: 17,
        max_dns_response_len: 4096,
        max_dns_question_len: 512,
        udp_tcp_ratio: 8,
        stale_if_error_secs: 1,
        stale_while_revalidate_secs: 2,
        odoh_key_rotation_secs: 3,
    }
}

fn io(kind: IoErrorKind) -> IoFailure {
    IoFailure { kind, message: "m".to_string(), source: None }
}

fn hyper() -> HyperFailure {
    HyperFailure {
        parse: false,
        parse_too_large: false,
        parse_status: false,
        user: false,
        timeout: false,
        message: "h".to_string(),
    }
}

#[test]
fn errors_have_texts_statuses_and_kinds() {
    let cases: Vec<(DoHError, &str, u16, UpstreamErrorKind, &str)> = vec![
        (DoHError::Incomplete, "Incomplete", 422, UpstreamErrorKind::Incomplete, "incomplete"),
        (DoHError::InvalidData, "Invalid data", 400, UpstreamErrorKind::InvalidData, "invalid_data"),
        (DoHError::TooLarge, "Too large", 413, UpstreamErrorKind::TooLarge, "too_large"),
        (
            DoHError::UpstreamIssue,
            "Upstream error",
            502,
            UpstreamErrorKind::UpstreamIssue,
            "upstream_issue",
        ),
        (
            DoHError::UpstreamTimeout,
            "Upstream timeout",
            502,
            UpstreamErrorKind::UpstreamTimeout,
            "upstream_timeout",
        ),
        (DoHError::StaleKey, "Stale key material", 401, UpstreamErrorKind::StaleKey, "stale_key"),
        (DoHError::Hyper(hyper()), "HTTP error: h", 503, UpstreamErrorKind::Hyper, "hyper"),
        (DoHError::Io(io(IoErrorKind::Other)), "IO error: m", 500, UpstreamErrorKind::Io, "io"),
        (
            DoHError::ODoHConfigError("k".to_string()),
            "ODoH config error: k",
            500,
            UpstreamErrorKind::ODoHConfigError,
            "odoh_config_error",
        ),
        (
            DoHError::TooManyTcpSessions,
            "Too many TCP sessions",
            503,
            UpstreamErrorKind::TooManyTcpSessions,
            "too_many_tcp_sessions",
        ),
        (
            DoHError::UpstreamJoined(vec![]),
            "All upstreams failed",
            502,
            UpstreamErrorKind::UpstreamIssue,
            "upstream_issue",
        ),
    ];
    for (err, message, status, kind, name) in cases {
        let attempt =
            UpstreamAttemptError::from_doh_error("a".to_string(), Duration::from_secs(1), &err);
        assert_eq!(attempt.error_kind, kind);
        assert_eq!(attempt.error_message, message);
        assert_eq!(kind.to_text(), name);
        assert_eq!(err.to_text(), message);
        assert_eq!(StatusCode::from(err).code, status);
    }
}

#[test]
fn joined_errors_name_every_attempt() {
    assert!(matches!(DoHError::from_upstream_attempts(vec![]), DoHError::UpstreamIssue));
    let long = Duration { secs: u64::MAX, nanos: 999_999_999 };
    let one = UpstreamAttemptError::from_doh_error("a".to_string(), long, &DoHError::TooLarge);
    assert_eq!(
        DoHError::from_upstream_attempts(vec![one]).to_text(),
        "All upstreams failed; a (kind=too_large, duration_ms=18446744073709551615999): Too large"
    );
}

#[test]
fn lasting_failures_are_not_retried() {
    for kind in [
        IoErrorKind::InvalidInput,
        IoErrorKind::InvalidData,
        IoErrorKind::Unsupported,
        IoErrorKind::PermissionDenied,
        IoErrorKind::AlreadyExists,
        IoErrorKind::AddrInUse,
    ] {
        assert!(!is_retryable_io_error(&io(kind)));
        assert!(is_no_rebuild_doh_error(&DoHError::Io(io(kind))));
    }
    for kind in [IoErrorKind::NotFound, IoErrorKind::AddrNotAvailable, IoErrorKind::Other] {
        assert!(is_retryable_io_error(&io(kind)));
        assert!(is_retryable_doh_error(&DoHError::Io(io(kind))));
    }
    for err in [
        DoHError::Incomplete,
        DoHError::InvalidData,
        DoHError::TooLarge,
        DoHError::StaleKey,
        DoHError::TooManyTcpSessions,
    ] {
        assert!(!is_retryable_doh_error(&err));
    }
    assert!(is_retryable_doh_error(&DoHError::UpstreamIssue));
    assert!(!is_retryable_h3_error(H3ErrorKind::TlsFail));
    assert!(!is_retryable_h3_error(H3ErrorKind::CryptoFail));
    assert!(is_retryable_h3_error(H3ErrorKind::Other));
    assert!(!is_retryable_h3_connection_error(H3ConnectionFailure::NonexistentStream));
    assert!(!is_retryable_h3_connection_error(H3ConnectionFailure::H3(H3ErrorKind::TlsFail)));
    assert!(is_retryable_h3_connection_error(H3ConnectionFailure::Other));
}

#[test]
fn failures_are_judged_by_what_they_stem_from() {
    let wrapped = |source: Cause| IoFailure {
        kind: IoErrorKind::Other,
        message: "w".to_string(),
        source: Some(Box::new(source)),
    };
    assert!(!is_retryable_io_error(&wrapped(Cause::H3(H3ErrorKind::TlsFail))));
    assert!(!is_retryable_io_error(&wrapped(Cause::Io(Box::new(io(IoErrorKind::AddrInUse))))));
    let twice = wrapped(Cause::Io(Box::new(wrapped(Cause::Hyper(HyperFailure {
        user: true,
        ..hyper()
    })))));
    assert!(!is_retryable_io_error(&twice));
    assert!(is_retryable_io_error(&wrapped(Cause::Handshake)));
    let parse = Cause::Hyper(HyperFailure { parse: true, ..hyper() });
    assert!(!is_retryable_std_error(&parse));
    assert!(is_retryable_quic_error(&parse));
    assert!(is_retryable_std_error(&Cause::Other));
    assert!(!is_retryable_quic_error(&Cause::H3Connection(
        H3ConnectionFailure::NonexistentStream
    )));
    assert!(is_retryable_h2_client_error(&ClientFailure { connect: true, source: Some(parse) }));
    assert!(is_retryable_h2_client_error(&ClientFailure { connect: false, source: None }));
}

#[test]
fn failures_of_requests() {
    let f = H2Failure::from_hyper_legacy_error(ClientFailure {
        connect: false,
        source: Some(Cause::Hyper(HyperFailure { timeout: true, ..hyper() })),
    });
    assert!(f.retryable && matches!(f.err, DoHError::UpstreamTimeout));
    let f = H2Failure::from_hyper_error(HyperFailure { parse_status: true, ..hyper() });
    assert!(!f.retryable && matches!(f.err, DoHError::UpstreamIssue));
    let f = H2Failure::from_doh_error(DoHError::TooLarge);
    assert!(!f.retryable && matches!(f.err, DoHError::TooLarge));
    let f = H3Failure::from_doh_error(DoHError::UpstreamTimeout);
    assert!(f.retryable);
    let f = H3Failure::from_io(io(IoErrorKind::PermissionDenied));
    assert!(!f.retryable && matches!(f.err, DoHError::Io(_)));
    let f = H3Failure::from_boxed_sync(Cause::Io(Box::new(io(IoErrorKind::Other))));
    assert!(f.retryable && matches!(f.err, DoHError::Io(_)));
    let f = H3Failure::from_boxed_sync(Cause::H3(H3ErrorKind::CryptoFail));
    assert!(!f.retryable && matches!(f.err, DoHError::UpstreamIssue));
    let f = H3Failure::from_send_error(Cause::Io(Box::new(io(IoErrorKind::NotFound))));
    match f.err {
        DoHError::Io(e) => assert_eq!((e.kind, e.message.as_str()), (IoErrorKind::NotFound, "m")),
        other => panic!("expected the failure: {:?}", other),
    }
    let f = H3Failure::from_send_error(Cause::Other);
    assert!(f.retryable && matches!(f.err, DoHError::UpstreamIssue));
}

#[test]
fn requests_are_tried_again_twice() {
    let mut r = Retries::new(true);
    assert_eq!(r.after_failure(true), RetryStep::Again);
    assert_eq!(r.after_failure(true), RetryStep::Again);
    assert_eq!(r.after_failure(true), RetryStep::GiveUp { reset: true });
    let mut r = Retries::new(true);
    assert_eq!(r.after_failure(false), RetryStep::GiveUp { reset: false });
    let mut r = Retries::new(false);
    assert_eq!(r.after_failure(true), RetryStep::GiveUp { reset: true });
}

#[test]
fn three_failures_make_h3_be_left_alone() {
    let mut h = DohHealth::new();
    assert!(!h.record_h3_failure(1000));
    assert!(!h.record_h3_failure(61_000));
    assert!(h.record_h3_failure(121_000));
    assert!(h.h3_backoff_active(150_999));
    assert!(!h.h3_backoff_active(151_000));
    // After more than the window the count starts over.
    let mut h = DohHealth::new();
    assert!(!h.record_h3_failure(1000));
    assert!(!h.record_h3_failure(2000));
    assert!(!h.record_h3_failure(62_001));
    assert!(!h.record_h3_failure(62_002));
    assert!(h.record_h3_failure(62_003));
    h.reset_h3_failure_counter();
    assert!(h.h3_backoff_active(62_004));
    h.clear_h3_failures();
    assert!(!h.h3_backoff_active(62_004));
}

#[test]
fn connections_are_dropped_once_a_second() {
    let mut last: u64 = 0;
    assert!(can_rebuild(&mut last, 500));
    assert!(!can_rebuild(&mut last, 1499));
    assert!(!can_rebuild(&mut last, 100));
    assert_eq!(last, 500);
    assert!(can_rebuild(&mut last, 1500));
    let mut h = DohHealth::new();
    h.h2_target_addr = Some(SocketAddr::new(IpAddr::V4(1), 443));
    assert!(h.maybe_reset_doh_h2_client(5000));
    assert_eq!(h.h2_target_addr, None);
    assert!(!h.maybe_reset_doh_h2_client(5001));
    assert!(h.maybe_reset_doh_h3_client(5001));
}

#[test]
fn queries_take_the_protocol_that_works() {
    let mut h = DohHealth::new();
    assert!(matches!(proxy_doh(true, &h, 0), DohAction::PostH3));
    assert!(matches!(proxy_doh(false, &h, 0), DohAction::SelectProtocol));
    assert!(matches!(on_protocol(&mut h, DOH_PROTO_H3, 0), DohAction::PostH3));
    assert_eq!(h.protocol_hint, DOH_PROTO_H3);
    assert!(matches!(proxy_doh(false, &h, 0), DohAction::PostH3));
    h.h3_backoff_until_ms = 10;
    assert!(matches!(proxy_doh(false, &h, 9), DohAction::PostH2));
    assert!(matches!(proxy_doh(true, &h, 9), DohAction::PostH3));
    assert!(matches!(on_protocol(&mut h, DOH_PROTO_H2, 9), DohAction::PostH2));
    assert_eq!(h.protocol_hint, DOH_PROTO_H3);
    assert!(matches!(on_protocol(&mut h, DOH_PROTO_H2, 10), DohAction::PostH2));
    assert_eq!(h.protocol_hint, DOH_PROTO_H2);
    assert!(matches!(proxy_doh(false, &h, 10), DohAction::PostH2));
}

#[test]
fn h3_failures_fall_back_to_h2() {
    let mut h = DohHealth::new();
    h.protocol_hint = DOH_PROTO_H3;
    let failure = |retryable: bool| Err(H3Failure { err: DoHError::UpstreamIssue, retryable });
    assert!(matches!(on_h3_result(false, &mut h, failure(true), 5), DohAction::PostH2));
    assert_eq!((h.protocol_hint, h.h3_failures), (DOH_PROTO_UNKNOWN, 1));
    assert!(matches!(on_h3_result(false, &mut h, failure(false), 6), DohAction::PostH2));
    assert_eq!((h.protocol_hint, h.h3_failures), (DOH_PROTO_H2, 0));
    assert!(matches!(
        on_h3_result(true, &mut h, failure(true), 7),
        DohAction::Finish(Err(DoHError::UpstreamIssue))
    ));
    h.h3_failures = 2;
    assert!(matches!(
        on_h3_result(false, &mut h, Ok(vec![1]), 7),
        DohAction::Finish(Ok(p)) if p == vec![1]
    ));
    assert_eq!(h.h3_failures, 0);
    assert!(matches!(on_h2_result(Ok(vec![2])), DohAction::Finish(Ok(p)) if p == vec![2]));
}

#[test]
fn timeouts_drop_connections() {
    let mut h = DohHealth::new();
    h.protocol_hint = DOH_PROTO_H2;
    h.h3_last_rebuild_ms = 4500;
    let (dropped, err) = on_timeout(false, &mut h, 5000);
    assert!(dropped.h2 && !dropped.h3);
    assert!(matches!(err, DoHError::UpstreamTimeout));
    assert_eq!(h.protocol_hint, DOH_PROTO_UNKNOWN);
    h.protocol_hint = DOH_PROTO_H3;
    on_timeout(true, &mut h, 5001);
    assert_eq!(h.protocol_hint, DOH_PROTO_H3);
}

#[test]
fn the_protocol_is_found_by_trial() {
    assert_eq!(select_doh_protocol(ProbeOutcome::H3(true)), DOH_PROTO_H3);
    assert_eq!(select_doh_protocol(ProbeOutcome::H3(false)), DOH_PROTO_H2);
    assert_eq!(select_doh_protocol(ProbeOutcome::Tls(true)), DOH_PROTO_H2);
    assert_eq!(select_doh_protocol(ProbeOutcome::Tls(false)), DOH_PROTO_H3);
    let mut h = DohHealth::new();
    assert_eq!(select_without_probe(&h, true, 0), None);
    assert_eq!(select_without_probe(&h, false, 0), Some(DOH_PROTO_H2));
    h.h3_backoff_until_ms = 1;
    assert_eq!(select_without_probe(&h, true, 0), Some(DOH_PROTO_H2));
}

fn status_headers(value: &[u8]) -> Vec<HeaderField> {
    vec![HeaderField { name: b":status".to_vec(), value: value.to_vec() }]
}

#[test]
fn pending_requests_are_answered() {
    let mut p: DohH3Pending<&str> = DohH3Pending::new();
    p.add_request(1, "one");
    p.add_request(2, "two");
    assert!(matches!(
        p.on_event(ClientEvent::NewOutboundRequest { stream_id: 10, request_id: 1 }),
        ClientAction::Nothing
    ));
    p.on_event(ClientEvent::NewOutboundRequest { stream_id: 30, request_id: 3 });
    p.on_event(ClientEvent::NewOutboundRequest { stream_id: 20, request_id: 2 });
    assert!(matches!(
        p.on_event(ClientEvent::Headers { stream_id: 10, headers: status_headers(b"200") }),
        ClientAction::ReadBody { stream_id: 10 }
    ));
    match p.on_event(ClientEvent::BodyRead { stream_id: 10, result: Ok(vec![7]) }) {
        ClientAction::Answer { reply, result } => {
            assert_eq!((reply, result.unwrap()), ("one", vec![7]))
        }
        other => panic!("expected an answer: {:?}", other),
    }
    assert!(matches!(
        p.on_event(ClientEvent::StreamClosed { stream_id: 10 }),
        ClientAction::Nothing
    ));
    assert!(matches!(
        p.on_event(ClientEvent::StreamClosed { stream_id: 30 }),
        ClientAction::Nothing
    ));
    match p.on_event(ClientEvent::Headers { stream_id: 20, headers: status_headers(b"404") }) {
        ClientAction::Answer { reply, result } => {
            assert_eq!(reply, "two");
            assert!(!result.unwrap_err().retryable);
        }
        other => panic!("expected an answer: {:?}", other),
    }
    assert!(matches!(p.on_event(ClientEvent::Other), ClientAction::Nothing));
}

#[test]
fn statuses_that_are_no_numbers_are_errors() {
    for value in [&b"x"[..], &b"\xff"[..], &b"65536"[..]] {
        let mut p: DohH3Pending<u8> = DohH3Pending::new();
        p.add_request(1, 1);
        p.open_stream(5, 1);
        assert!(matches!(
            p.on_event(ClientEvent::Headers { stream_id: 5, headers: status_headers(value) }),
            ClientAction::Answer { reply: 1, result: Err(_) }
        ));
    }
    let mut p: DohH3Pending<u8> = DohH3Pending::new();
    p.add_request(1, 1);
    p.open_stream(5, 1);
    match p.on_event(ClientEvent::ResetStream { stream_id: 5 }) {
        ClientAction::Answer { result: Err(f), .. } => assert!(f.retryable),
        other => panic!("expected a failure: {:?}", other),
    }
}

#[test]
fn all_pending_requests_fail_together() {
    let events: Vec<(ClientEvent, bool)> = vec![
        (ClientEvent::EndOfEvents, true),
        (ClientEvent::ConnectionError(H3ErrorKind::TlsFail), false),
        (ClientEvent::ConnectionError(H3ErrorKind::Other), true),
        (ClientEvent::ConnectionShutdown(None), true),
        (
            ClientEvent::ConnectionShutdown(Some(H3ConnectionFailure::NonexistentStream)),
            false,
        ),
    ];
    for (event, expected) in events {
        let mut p: DohH3Pending<u64> = DohH3Pending::new();
        for id in 0..5 {
            p.add_request(id, id * 10);
            p.open_stream(100 + id, id);
        }
        match p.on_event(event) {
            ClientAction::FailAll { mut replies, retryable } => {
                replies.sort();
                assert_eq!(replies, vec![0, 10, 20, 30, 40]);
                assert_eq!(retryable, expected);
            }
            other => panic!("expected that all fail: {:?}", other),
        }
        assert_eq!(p.complete_pending_h3_stream(100), None);
    }
}

#[test]
fn a_forgotten_request_leaves_no_stream() {
    let mut p: DohH3Pending<u64> = DohH3Pending::new();
    p.add_request(1, 1);
    p.add_request(2, 2);
    p.open_stream(10, 1);
    p.open_stream(11, 1);
    p.open_stream(20, 2);
    p.clear_pending_h3_request(1);
    assert_eq!(p.complete_pending_h3_stream(10), None);
    assert_eq!(p.complete_pending_h3_stream(11), None);
    assert_eq!(p.complete_pending_h3_stream(20), Some(2));
}

#[test]
fn bodies_of_responses() {
    let mut r = BodyReader::new();
    assert!(!r.on_frame(&[1, 2], false));
    assert!(r.on_frame(&[3], true));
    assert_eq!(r.finish().unwrap(), vec![1, 2, 3]);
    let mut r = BodyReader::new();
    r.on_frame(&[1], false);
    let f = r.finish().unwrap_err();
    assert!(f.retryable && matches!(f.err, DoHError::UpstreamIssue));
}

#[test]
fn pools_take_turns() {
    let mut pool: DohH3Pool<char> = DohH3Pool::new();
    assert!(!pool.has_clients() && pool.needs_new_client());
    assert_eq!(pool.pick_client(), None);
    assert_eq!(pool.choose_client(&vec![]), ClientChoice::Create { fallback: true });
    assert_eq!(pool.choose_without_new(true, &vec![]), ClientChoice::Fail);
    assert_eq!(pool.add_or_pick('a'), (0, true));
    assert_eq!(pool.choose_client(&vec![false]), ClientChoice::Create { fallback: true });
    assert_eq!(pool.add_or_pick('b'), (1, true));
    assert!(!pool.needs_new_client());
    // One turn was taken so far.
    assert_eq!(pool.pick_client(), Some(1));
    assert_eq!(pool.pick_client(), Some(0));
    assert_eq!(pool.try_pick_client_with_slot(&vec![true, false]), Some(0));
    assert_eq!(pool.try_pick_client_with_slot(&vec![true, true]), Some(0));
    assert_eq!(pool.try_pick_client_with_slot(&vec![false, false]), None);
    assert_eq!(pool.choose_client(&vec![false, true]), ClientChoice::Use(1));
    assert_eq!(pool.choose_client(&vec![false, false]), ClientChoice::WaitFor(1));
    assert_eq!(pool.choose_without_new(true, &vec![true, true]), ClientChoice::Use(0));
    assert_eq!(pool.choose_without_new(true, &vec![false, false]), ClientChoice::WaitFor(0));
    assert_eq!(pool.choose_without_new(false, &vec![true, true]), ClientChoice::Fail);
    assert_eq!(pool.add_or_pick('c'), (1, false));
    assert_eq!((*pool.client(0), pool.len()), ('a', 2));
    assert_eq!(pool.drain_clients(), vec!['a', 'b']);
    assert!(!pool.has_clients());
}

#[test]
fn pools_by_url() {
    let mut pools: DohH3Pools<u8> = DohH3Pools::new();
    assert!(!pools.doh_h3_client_cached("u"));
    assert!(pools.pool_mut("u").is_none());
    pools.load_or_init_doh_h3_pool("u");
    pools.load_or_init_doh_h3_pool("v");
    assert!(!pools.doh_h3_client_cached("u"));
    pools.pool_mut("u").unwrap().add_or_pick(7);
    pools.load_or_init_doh_h3_pool("u");
    assert!(pools.doh_h3_client_cached("u"));
    assert!(!pools.doh_h3_client_cached("v"));
    assert_eq!(pools.reset_doh_h3_client("u"), vec![7]);
    assert!(!pools.doh_h3_client_cached("u"));
    assert!(pools.pool_mut("v").is_some());
    assert!(pools.reset_doh_h3_client("u").is_empty());
}

#[test]
fn bootstrap_queries_ask_for_the_host() {
    let packet = bootstrap_dns_query("Dns.example..", 28, 0xabcd).unwrap();
    let m = Msg::unpack(&packet).unwrap();
    assert_eq!(m.header.id, 0xabcd);
    assert!(m.header.recursion_desired && !m.header.response);
    assert_eq!(m.questions.len(), 1);
    assert_eq!(m.questions[0].name.labels, vec![b"Dns".to_vec(), b"example".to_vec()]);
    assert_eq!((m.questions[0].qtype, m.questions[0].qclass), (RrType::AAAA, 1));
    for bad in ["", "..", "a..b", "a\0b", &"x".repeat(64)] {
        assert!(matches!(bootstrap_dns_query(bad, 1, 0), Err(DoHError::UpstreamIssue)));
    }
    let (packet, id) = build_bootstrap_dns_query("a", 1).unwrap();
    assert_eq!(packet, bootstrap_dns_query("a", 1, id).unwrap());
}

fn response(id: u16, owner: &[u8], rr_type: u8, data: &[u8]) -> Vec<u8> {
    let mut p = vec![
        (id >> 8) as u8, id as u8, 0x81, 0x80, 0, 1, 0, 1, 0, 0, 0, 0,
        1, b'A', 1, b'b', 0, 0, rr_type, 0, 1,
    ];
    p.extend_from_slice(owner);
    p.extend_from_slice(&[0, rr_type, 0, 1, 0, 0, 0, 60, 0, data.len() as u8]);
    p.extend_from_slice(data);
    p
}

fn skip(packet: &[u8], offset: usize) -> Option<usize> {
    doh_proxy::upstream::msg::Name::skip_wire(packet, offset).ok()
}

#[test]
fn bootstrap_responses_are_read() {
    let p = response(7, &[0xc0, 12], 1, &[1, 2, 3, 4]);
    let r = parse_bootstrap_dns_response(&p, 7, 1, skip).unwrap();
    assert_eq!(r.addrs, vec![IpAddr::V4(0x01020304)]);
    assert_eq!(r.min_ttl_secs, 60);
    let v6: Vec<u8> = (0..16).collect();
    let p = response(7, &[1, b'a', 1, b'B', 0], 28, &v6);
    let r = parse_bootstrap_dns_response(&p, 7, 28, skip).unwrap();
    assert_eq!(r.addrs, vec![IpAddr::V6(0x000102030405060708090a0b0c0d0e0f)]);
    // Another owner, and another length, give nothing.
    let p = response(7, &[1, b'a', 0], 1, &[1, 2, 3, 4]);
    let r = parse_bootstrap_dns_response(&p, 7, 1, skip).unwrap();
    assert!(r.addrs.is_empty());
    assert_eq!(r.min_ttl_secs, u32::MAX);
    let p = response(7, &[0xc0, 12], 1, &[1, 2, 3]);
    assert!(parse_bootstrap_dns_response(&p, 7, 1, skip).unwrap().addrs.is_empty());
    assert!(parse_bootstrap_dns_response(&p, 7, 28, skip).unwrap().addrs.is_empty());
}

#[test]
fn only_the_answers_of_a_response_count() {
    let p = response(7, &[0xc0, 12], 1, &[1, 2, 3, 4]);
    for more in [&[0u8][..], &[0xff; 40][..], &p[19..]] {
        let mut longer = p.clone();
        longer.extend_from_slice(more);
        let r = parse_bootstrap_dns_response(&longer, 7, 1, skip).unwrap();
        assert_eq!(r.addrs, vec![IpAddr::V4(0x01020304)]);
        assert_eq!(r.min_ttl_secs, 60);
    }
}

#[test]
fn a_query_names_its_host_however_long() {
    for host in ["A.example..".to_string(), vec!["Ab".repeat(31); 9].join(".")] {
        let p = bootstrap_dns_query(&host, 28, 0x0102).unwrap();
        let bare = host.trim_end_matches('.').to_ascii_lowercase() + ".";
        assert_eq!(parse_dns_name_lower(&p, 12).unwrap(), (bare.into_bytes(), p.len() - 4));
        assert_eq!(p[..2], [1, 2]);
        assert_eq!(p[p.len() - 4..], [0, 28, 0, 1]);
    }
}

#[test]
fn bootstrap_responses_that_are_refused() {
    let p = response(7, &[0xc0, 12], 1, &[1, 2, 3, 4]);
    let refused = |p: &[u8]| {
        matches!(
            parse_bootstrap_dns_response(p, 7, 1, skip),
            Err(DoHError::UpstreamIssue)
        )
    };
    assert!(matches!(
        parse_bootstrap_dns_response(&p, 8, 1, skip),
        Err(DoHError::UpstreamIssue)
    ));
    assert!(refused(&p[..11]));
    assert!(refused(&p[..20]));
    assert!(refused(&p[..30]));
    assert!(refused(&p[..p.len() - 1]));
    let mut query = p.clone();
    query[2] = 0x01;
    assert!(refused(&query));
    let mut no_question = p.clone();
    no_question[5] = 0;
    assert!(refused(&no_question));
}

#[test]
fn further_questions_are_skipped() {
    let mut p = response(7, &[0xc0, 12], 1, &[1, 2, 3, 4]);
    p[5] = 2;
    for b in [1, 0, 1, 0, b'x', 1] {
        p.insert(21, b);
    }
    // The second question: one label and its type and class.
    p.insert(23, 0);
    let r = parse_bootstrap_dns_response(&p, 7, 1, skip).unwrap();
    assert_eq!(r.addrs, vec![IpAddr::V4(0x01020304)]);
    assert!(parse_bootstrap_dns_response(&p, 7, 1, |_: &[u8], _: usize| None).is_err());
    assert!(parse_bootstrap_dns_response(&p, 7, 1, |_: &[u8], _: usize| Some(usize::MAX)).is_err());
}

#[test]
fn names_are_read_in_lower_case() {
    let packet = [1, b'A', 2, b'B', b'9', 0, 0xc0, 0, 0];
    assert_eq!(parse_dns_name_lower(&packet, 0).unwrap(), (b"a.b9.".to_vec(), 6));
    assert_eq!(parse_dns_name_lower(&packet, 6).unwrap(), (b"a.b9.".to_vec(), 8));
    assert_eq!(parse_dns_name_lower(&packet, 8).unwrap(), (b".".to_vec(), 9));
    for (packet, at) in [
        (&[0xc0u8, 0][..], 0),
        (&[0xc0, 9][..], 0),
        (&[0xc0][..], 0),
        (&[2, b'a'][..], 0),
        (&[0x40][..], 0),
        (&[][..], 0),
        (&[1, b'a'][..], 0),
    ] {
        assert!(matches!(parse_dns_name_lower(packet, at), Err(DoHError::UpstreamIssue)));
    }
}

#[test]
fn hosts_are_normalised() {
    assert_eq!(normalize_bootstrap_host(" Dns.EXAMPLE\t").unwrap(), "dns.example.");
    assert_eq!(normalize_bootstrap_host("dns.example.").unwrap(), "dns.example.");
    assert_eq!(
        normalize_bootstrap_host(&normalize_bootstrap_host("A").unwrap()).unwrap(),
        "a."
    );
    assert!(matches!(normalize_bootstrap_host("\u{a0} "), Err(DoHError::UpstreamIssue)));
}

#[test]
fn the_first_resolver_wins() {
    let race = match BootstrapRace::new(2).on_result(Err(DoHError::UpstreamTimeout)) {
        RaceStep::Waiting(race) => race,
        RaceStep::Done(_) => panic!("one more is to come"),
    };
    match race.on_result(Ok(vec![IpAddr::V4(1)])) {
        RaceStep::Done(r) => assert_eq!(r.unwrap(), vec![IpAddr::V4(1)]),
        RaceStep::Waiting(_) => panic!("there is an answer"),
    }
    match BootstrapRace::new(1).on_result(Err(DoHError::UpstreamTimeout)) {
        RaceStep::Done(r) => assert!(matches!(r, Err(DoHError::UpstreamTimeout))),
        RaceStep::Waiting(_) => panic!("nobody is left"),
    }
    assert!(matches!(BootstrapRace::new(0).finish(), DoHError::UpstreamIssue));
}

fn v4(n: u32) -> SocketAddr {
    SocketAddr::new(IpAddr::V4(n), 443)
}

fn v6(n: u128) -> SocketAddr {
    SocketAddr::new(IpAddr::V6(n), 443)
}

#[test]
fn addresses_of_servers_are_found() {
    match plan_resolution(Some(IpAddr::V4(1)), 443, &vec![v4(9)]) {
        ResolvePlan::Known(addrs) => assert_eq!(addrs, vec![v4(1)]),
        other => panic!("the address is given: {:?}", other),
    }
    assert!(matches!(plan_resolution(None, 1, &vec![]), ResolvePlan::SystemLookup));
    assert!(matches!(plan_resolution(None, 1, &vec![v4(9)]), ResolvePlan::Bootstrap));
    assert!(use_bootstrap_for_upstream_host(&vec![v4(9)], false));
    assert!(!use_bootstrap_for_upstream_host(&vec![v4(9)], true));
    assert!(!use_bootstrap_for_upstream_host(&vec![], false));
    assert_eq!(
        with_port(&vec![IpAddr::V4(1), IpAddr::V6(2)], 443).unwrap(),
        vec![v4(1), v6(2)]
    );
    assert!(matches!(with_port(&vec![], 443), Err(DoHError::UpstreamIssue)));
    assert_eq!(system_addrs(Some(vec![v4(1)])).unwrap(), vec![v4(1)]);
    assert!(matches!(system_addrs(Some(vec![])), Err(DoHError::UpstreamIssue)));
    assert!(matches!(system_addrs(None), Err(DoHError::UpstreamIssue)));
    assert!(matches!(last_failure(Some(DoHError::TooLarge)), DoHError::TooLarge));
    assert!(matches!(last_failure(None), DoHError::UpstreamIssue));
}

#[test]
fn addresses_of_the_other_family_are_passed_over() {
    let local = v4(5);
    assert_eq!(find_target(&vec![v6(1), v4(2), v4(3)], local).unwrap(), v4(2));
    match find_target(&vec![v6(1)], local) {
        Err(DoHError::Io(e)) => {
            assert_eq!(e.kind, IoErrorKind::AddrNotAvailable);
            assert_eq!(e.message, "local bind address family mismatch");
        }
        other => panic!("none can be reached: {:?}", other),
    }
    assert_eq!(bind_for(local, &v4(1)).unwrap(), local);
    assert!(bind_for(local, &v6(1)).is_err());
    let mut search = AddrSearch::new(vec![v6(1), v4(2), v6(3), v4(4)], local);
    assert_eq!(search.next(), Some((v4(2), local)));
    search.on_error(io(IoErrorKind::Other));
    assert_eq!(search.next(), Some((v4(4), local)));
    assert_eq!(search.next(), None);
    assert!(matches!(search.finish(), DoHError::Io(e) if e.kind == IoErrorKind::Other));
    let mut search = AddrSearch::new(vec![v6(1)], local);
    assert_eq!(search.next(), None);
    assert!(
        matches!(search.finish(), DoHError::Io(e) if e.kind == IoErrorKind::AddrNotAvailable)
    );
    let mut search = AddrSearch::new(vec![], local);
    assert_eq!(search.next(), None);
    assert!(matches!(search.finish(), DoHError::UpstreamIssue));
}

#[test]
fn queries_are_framed() {
    assert_eq!(frame_query(&[9, 8, 7]).unwrap(), vec![0, 3, 9, 8, 7]);
    assert!(matches!(frame_query(&vec![0; 65536]), Err(DoHError::TooLarge)));
    let framed = frame_tcp_query(&vec![1; 65537]);
    assert_eq!((framed[0], framed[1], framed.len()), (0, 1, 65539));
    assert_eq!(response_len([0, 17], &limits()).unwrap(), 17);
    assert_eq!(response_len([16, 0], &limits()).unwrap(), 4096);
    assert!(matches!(response_len([0, 16], &limits()), Err(DoHError::UpstreamIssue)));
    assert!(matches!(response_len([16, 1], &limits()), Err(DoHError::UpstreamIssue)));
}

#[test]
fn replies_over_udp() {
    let reply = |len: usize, from: SocketAddr, truncated: bool, clients: usize| {
        on_udp_reply(vec![1; 20], len, &v4(1), &from, truncated, clients, 16, &limits())
    };
    assert!(matches!(reply(18, v4(1), false, 0), Ok(UdpStep::Answer(p)) if p == vec![1; 18]));
    assert!(matches!(reply(16, v4(1), false, 0), Err(DoHError::UpstreamIssue)));
    assert!(matches!(reply(18, v4(2), false, 0), Err(DoHError::UpstreamIssue)));
    assert!(matches!(reply(18, v4(1), true, 1), Ok(UdpStep::AskOverTcp)));
    assert!(matches!(reply(18, v4(1), true, 2), Err(DoHError::TooManyTcpSessions)));
    assert!(check_tcp_sessions(100, 7, &limits()).is_ok());
}

#[test]
fn limits_of_time() {
    let ten = Duration::from_secs(10);
    let zero = Duration::from_secs(0);
    assert_eq!(time_limit(zero), None);
    assert_eq!(time_limit(ten), Some(ten));
    assert_eq!(probe_quic_timeout(zero), ten);
    assert_eq!(probe_quic_timeout(Duration::from_secs(3)), Duration::from_secs(3));
    assert_eq!(connection_timeout(ten), Duration::from_secs(11));
    assert_eq!(Duration::from_millis(1500), Duration { secs: 1, nanos: 500_000_000 });
    assert_eq!(Duration::from_millis(1500).as_millis(), 1500);
}

#[test]
fn requests_to_servers() {
    assert_eq!(socket_addr_to_authority(v4(1), "0.0.0.1"), "0.0.0.1:443");
    assert_eq!(socket_addr_to_authority(v6(1), "::1"), "[::1]:443");
    assert_eq!(h2_uri(None, "dns.example:8443", "/q").unwrap(), "https://dns.example:8443/q");
    assert_eq!(
        h2_uri(Some((v6(1), "::1".to_string())), "dns.example", "/q?x").unwrap(),
        "https://[::1]:443/q?x"
    );
    let f = h2_uri(None, "dns example", "/q").unwrap_err();
    assert!(!f.retryable && matches!(f.err, DoHError::InvalidData));
    assert!(matches!(check_uri("x".to_string(), true), Ok(u) if u == "x"));
    assert!(check_uri("x".to_string(), false).is_err());
    assert!(check_server_name("dns.example").is_ok());
    assert!(check_server_name("127.0.0.1").is_ok());
    assert!(matches!(check_server_name("not a name"), Err(DoHError::UpstreamIssue)));
    let headers = h2_request_headers(30, "dns.example");
    let all: Vec<(&str, &str)> =
        headers.iter().map(|h| (h.name.as_str(), h.value.as_str())).collect();
    assert_eq!(
        all,
        vec![
            ("content-type", "application/dns-message"),
            ("accept", "application/dns-message"),
            ("content-length", "30"),
            ("host", "dns.example"),
        ]
    );
    let fields = h3_request_headers("dns.example", "/q", 30);
    assert_eq!(fields.len(), 7);
    assert_eq!((&fields[0].name[..], &fields[0].value[..]), (&b":method"[..], &b"POST"[..]));
    assert_eq!((&fields[2].name[..], &fields[2].value[..]), (&b":authority"[..], &b"dns.example"[..]));
    assert_eq!((&fields[3].name[..], &fields[3].value[..]), (&b":path"[..], &b"/q"[..]));
    assert_eq!((&fields[6].name[..], &fields[6].value[..]), (&b"content-length"[..], &b"30"[..]));
    assert!(check_h2_status(200).is_ok());
    let f = check_h2_status(503).unwrap_err();
    assert!(!f.retryable && matches!(f.err, DoHError::UpstreamIssue));
    assert!(matches!(invalid_request().err, DoHError::InvalidData));
    assert_eq!(h2_local_addresses(v4(0)), LocalAddresses::Any);
    assert_eq!(h2_local_addresses(v6(0)), LocalAddresses::Any);
    assert_eq!(h2_local_addresses(v6(2)), LocalAddresses::One(IpAddr::V6(2)));
}

#[test]
fn texts() {
    assert_eq!(text::split("a&&b", '&'), vec!["a", "", "b"]);
    assert_eq!(text::split("", '&'), vec![""]);
    assert_eq!(text::trim(" \u{3000}a b\n"), "a b");
    assert_eq!(text::trim_end_matches("a..", '.'), "a");
    assert_eq!(text::to_ascii_lowercase("AbC\u{c9}"), "abc\u{c9}");
    assert_eq!(text::decimal_text(0), "0");
    assert_eq!(text::decimal_text(u128::MAX), u128::MAX.to_string());
    assert_eq!(text::parse_number("+042", 42), Some(42));
    assert_eq!(text::parse_number("43", 42), None);
    assert_eq!(text::joined("a", "b"), "ab");
    assert!(text::starts_with("abc", "ab") && !text::starts_with("a", "ab"));
}

#[test]
fn both_name_readers_end_at_the_same_place() {
    let packet = [1, b'A', 2, b'b', b'9', 0, 0xc0, 0x02, 1, b'x', 0xc0, 0x06];
    for (at, lower) in [(0, "a.b9."), (2, "b9."), (6, "b9."), (8, "x.b9.")] {
        let (name, end) = Name::from_wire(&packet, at).unwrap();
        let (text, next) = parse_dns_name_lower(&packet, at).unwrap();
        assert_eq!(text, lower.as_bytes());
        assert_eq!(end, next);
        assert_eq!(name.wire_len(), lower.len() + 1);
    }
}
