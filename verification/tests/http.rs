use doh_proxy::content_type::{
    acceptable_content_type, parse_content_type, parse_h3_content_type, DoHType,
};
use doh_proxy::errors::{DoHError, StatusCode};
use doh_proxy::globals::{Globals, UpstreamMode};
use doh_proxy::headers::{h3_header_value, HeaderField};
use doh_proxy::json_query::{
    json_invalid_query, parse_json_query, serve_json_query, start_json_query, JsonStart,
};
use doh_proxy::limits::Limits;
use doh_proxy::net::{IpAddr, SocketAddr};
use doh_proxy::query_string::{
    check_body_hint, encoded_question, query_from_path, query_from_query_string, question_param,
    read_body,
};
use doh_proxy::request::{
    body_too_large, call, client_ip, handle_h3_request, payload_action, upstream_client, BodyStep,
    H3Action, Method, RequestBody, Route,
};
use doh_proxy::response::{
    build_response, cache_control, h3_odoh_configs, h3_payload_response, http_error,
    http_error_with_cache, json_http_response, refusal, required_query, send_h3_error,
    send_h3_response, serve_doh_query, serve_odoh, serve_odoh_configs, HeaderLine,
};
use doh_proxy::time::Duration;

fn limits() -> Limits {
    Limits {
        min_dns_packet_len: 17,
        max_dns_response_len: 4096,
        max_dns_question_len: 9,
        udp_tcp_ratio: 8,
        stale_if_error_secs: 11,
        stale_while_revalidate_secs: 22,
        odoh_key_rotation_secs: 33,
    }
}

fn globals() -> Globals {
    Globals {
        tls_cert_path: None,
        tls_cert_key_path: None,
        listen_addresses: vec![],
        local_bind_address: SocketAddr::new(IpAddr::V4(0), 0),
        bootstrap_dns: vec![],
        upstreams: vec![],
        upstream_mode: UpstreamMode::LoadBalance,
        path: "/dns-query".to_string(),
        max_clients: 10,
        timeout: Duration::from_secs(10),
        max_concurrent_streams: 16,
        min_ttl: 10,
        max_ttl: 100,
        err_ttl: 2,
        keepalive: true,
        disable_post: false,
        allow_odoh_post: false,
        enable_ecs: false,
        ecs_prefix_v4: 24,
        ecs_prefix_v6: 56,
        odoh_configs_path: "/odohconfigs".to_string(),
    }
}

fn lines(headers: &[HeaderLine]) -> Vec<(String, String)> {
    headers.iter().map(|h| (h.name.clone(), h.value.clone())).collect()
}

fn pair(name: &str, value: &str) -> (String, String) {
    (name.to_string(), value.to_string())
}

fn status(code: u16) -> StatusCode {
    StatusCode { code }
}

#[test]
fn content_types_name_their_kinds() {
    for t in [DoHType::Standard, DoHType::Oblivious, DoHType::Json] {
        assert_eq!(parse_content_type(Some(t.as_str().as_bytes()), None), Ok(t));
        assert_eq!(parse_h3_content_type(Some(t.as_str()), None), Ok(t));
        assert_eq!(acceptable_content_type(t.as_str()), Some(t));
    }
    assert_eq!(
        parse_content_type(Some(b"Application/DNS-Message"), Some(b"application/dns-json")),
        Ok(DoHType::Standard)
    );
}

#[test]
fn content_types_that_are_refused() {
    assert_eq!(parse_content_type(Some(b"text/html"), None), Err(status(415)));
    assert_eq!(parse_content_type(Some(&[0x80, b'a']), None), Err(status(400)));
    assert_eq!(parse_content_type(None, None), Err(status(406)));
    assert_eq!(parse_content_type(None, Some(b"text/html, */*")), Err(status(406)));
    assert_eq!(parse_content_type(None, Some(&[0xff])), Err(status(406)));
    // Parameters count over HTTP/1 and HTTP/2 only.
    assert_eq!(
        parse_content_type(Some(b"application/dns-message; x=1"), None),
        Err(status(415))
    );
    assert_eq!(
        parse_h3_content_type(Some(" application/DNS-message ; x=1"), None),
        Ok(DoHType::Standard)
    );
    assert_eq!(parse_h3_content_type(Some("text/html"), None), Err(status(415)));
    assert_eq!(parse_h3_content_type(None, None), Err(status(406)));
    assert_eq!(parse_h3_content_type(None, Some("text/html")), Err(status(406)));
}

#[test]
fn the_first_accepted_kind_counts() {
    let accept = "text/html;q=0.9, application/DNS-JSON; q=1 ,application/dns-message";
    assert_eq!(acceptable_content_type(accept), Some(DoHType::Json));
    assert_eq!(parse_content_type(None, Some(accept.as_bytes())), Ok(DoHType::Json));
    assert_eq!(parse_h3_content_type(None, Some(accept)), Ok(DoHType::Json));
    assert_eq!(acceptable_content_type(""), None);
}

#[test]
fn parameters_of_a_query_string() {
    assert_eq!(question_param("a=1&dns=x&b", "dns").as_deref(), Some("x"));
    assert_eq!(question_param("dns=x&dns=y", "dns").as_deref(), Some("y"));
    assert_eq!(question_param("dns=x&dns", "dns"), None);
    assert_eq!(question_param("dns=x=y", "dns").as_deref(), Some("x"));
    assert_eq!(question_param("", "dns"), None);
    // Nine bytes make twelve characters at most.
    assert_eq!(
        encoded_question("dns=AAAAAAAAAAAA", "dns", &limits()).as_deref(),
        Some("AAAAAAAAAAAA")
    );
    assert_eq!(encoded_question("dns=AAAAAAAAAAAAA", "dns", &limits()), None);
}

#[test]
fn queries_are_decoded_from_base64() {
    let expected = Some(vec![0x12, 0x34, 0x01, 0x00, 0xff]);
    assert_eq!(query_from_query_string("dns=EjQBAP8", "dns", &limits()), expected);
    assert_eq!(query_from_query_string("dns=_-8", "dns", &limits()), Some(vec![0xff, 0xef]));
    assert_eq!(query_from_query_string("dns=+/8", "dns", &limits()), None);
    assert_eq!(query_from_query_string("dns=!", "dns", &limits()), None);
    assert_eq!(query_from_query_string("x=EjQBAP8", "dns", &limits()), None);
    assert_eq!(query_from_path("/dns-query?dns=EjQBAP8?x", "dns", &limits()), expected);
    assert_eq!(query_from_path("/dns-query", "dns", &limits()), None);
}

#[test]
fn bodies_have_to_be_short() {
    assert!(check_body_hint(None, &limits()).is_ok());
    assert!(check_body_hint(Some(8), &limits()).is_ok());
    assert!(matches!(check_body_hint(Some(9), &limits()), Err(DoHError::TooLarge)));
    assert_eq!(read_body(Some(vec![1; 8]), &limits()).unwrap(), vec![1; 8]);
    assert!(matches!(read_body(Some(vec![1; 9]), &limits()), Err(DoHError::TooLarge)));
    assert!(matches!(read_body(None, &limits()), Err(DoHError::TooLarge)));
}

#[test]
fn requests_are_routed() {
    let g = globals();
    let doh: Option<&[u8]> = Some(b"application/dns-message");
    let odoh: Option<&[u8]> = Some(b"application/oblivious-dns-message");
    let json: Option<&[u8]> = Some(b"application/dns-json");
    let refuse = |code: u16, long_cache: bool| Route::Refuse { status: status(code), long_cache };
    assert_eq!(call(Method::Get, "/dns-query", doh, None, &g), Route::DohGet);
    assert_eq!(call(Method::Get, "/dns-query", odoh, None, &g), Route::OdohGet);
    assert_eq!(call(Method::Get, "/dns-query", None, json, &g), Route::JsonGet);
    assert_eq!(call(Method::Post, "/dns-query", doh, None, &g), Route::DohPost);
    assert_eq!(call(Method::Post, "/dns-query", odoh, None, &g), Route::OdohPost);
    assert_eq!(call(Method::Post, "/dns-query", json, None, &g), refuse(405, false));
    assert_eq!(call(Method::Other, "/dns-query", doh, None, &g), refuse(405, false));
    assert_eq!(call(Method::Get, "/dns-query", None, None, &g), refuse(406, true));
    assert_eq!(call(Method::Get, "/odohconfigs", None, None, &g), Route::OdohConfigs);
    assert_eq!(call(Method::Post, "/odohconfigs", None, None, &g), refuse(405, false));
    assert_eq!(call(Method::Get, "/", doh, None, &g), refuse(404, false));
}

#[test]
fn disabled_posts_are_refused() {
    let mut g = globals();
    g.disable_post = true;
    let doh: Option<&[u8]> = Some(b"application/dns-message");
    let odoh: Option<&[u8]> = Some(b"application/oblivious-dns-message");
    let refused = Route::Refuse { status: status(405), long_cache: false };
    assert_eq!(call(Method::Post, "/dns-query", doh, None, &g), refused);
    assert_eq!(call(Method::Post, "/dns-query", odoh, None, &g), refused);
    g.allow_odoh_post = true;
    assert_eq!(call(Method::Post, "/dns-query", doh, None, &g), refused);
    assert_eq!(call(Method::Post, "/dns-query", odoh, None, &g), Route::OdohPost);
}

fn h3(fields: &[(&str, &str)], g: &Globals) -> H3Action {
    let headers: Vec<HeaderField> = fields
        .iter()
        .map(|(n, v)| HeaderField { name: n.as_bytes().to_vec(), value: v.as_bytes().to_vec() })
        .collect();
    handle_h3_request(&headers, g, "dns", &limits())
}

fn refused(action: H3Action) -> (u16, bool) {
    match action {
        H3Action::Refuse { status, long_cache } => (status.code, long_cache),
        other => panic!("expected a refusal: {:?}", other),
    }
}

#[test]
fn requests_over_h3_are_routed() {
    let g = globals();
    let ct = ("content-type", "application/dns-message; charset=x");
    let odoh = ("content-type", "application/oblivious-dns-message");
    let json = ("accept", "application/dns-json");
    match h3(&[(":path", "/dns-query?dns=EjQBAP8"), ct], &g) {
        H3Action::Payload { payload, doh_type } => {
            assert_eq!(payload, vec![0x12, 0x34, 0x01, 0x00, 0xff]);
            assert_eq!(doh_type, DoHType::Standard);
        }
        other => panic!("expected a query: {:?}", other),
    }
    match h3(&[(":method", "GET"), (":path", "/dns-query?name=a"), json], &g) {
        H3Action::Json { query } => assert_eq!(query, "name=a"),
        other => panic!("expected a query: {:?}", other),
    }
    assert!(matches!(
        h3(&[(":method", "POST"), (":path", "/dns-query"), odoh], &g),
        H3Action::ReadBody { doh_type: DoHType::Oblivious }
    ));
    assert!(matches!(h3(&[(":path", "/odohconfigs?x")], &g), H3Action::OdohConfigs));
    assert_eq!(refused(h3(&[], &g)), (404, true));
    assert_eq!(
        refused(h3(&[(":method", "PUT"), (":path", "/odohconfigs")], &g)),
        (405, false)
    );
    assert_eq!(refused(h3(&[(":path", "/dns-query")], &g)), (406, true));
    assert_eq!(refused(h3(&[(":path", "/dns-query"), ct], &g)), (400, true));
    assert_eq!(
        refused(h3(&[(":method", "POST"), (":path", "/dns-query"), json], &g)),
        (405, false)
    );
    assert_eq!(
        refused(h3(&[(":method", "get"), (":path", "/dns-query"), ct], &g)),
        (405, false)
    );
}

#[test]
fn disabled_posts_are_refused_over_h3() {
    let mut g = globals();
    g.disable_post = true;
    let doh = ("content-type", "application/dns-message");
    let odoh = ("content-type", "application/oblivious-dns-message");
    let post = (":method", "POST");
    let path = (":path", "/dns-query");
    assert_eq!(refused(h3(&[post, path, doh], &g)), (405, false));
    assert_eq!(refused(h3(&[post, path, odoh], &g)), (405, false));
    g.allow_odoh_post = true;
    assert_eq!(refused(h3(&[post, path, doh], &g)), (405, false));
    assert!(matches!(
        h3(&[post, path, odoh], &g),
        H3Action::ReadBody { doh_type: DoHType::Oblivious }
    ));
}

#[test]
fn header_values_are_text() {
    let headers = vec![
        HeaderField { name: b"a".to_vec(), value: vec![0xff] },
        HeaderField { name: b"b".to_vec(), value: "\u{e9}".as_bytes().to_vec() },
        HeaderField { name: b"b".to_vec(), value: b"second".to_vec() },
    ];
    assert_eq!(h3_header_value(&headers, "a"), None);
    assert_eq!(h3_header_value(&headers, "b").as_deref(), Some("\u{e9}"));
    assert_eq!(h3_header_value(&headers, "c"), None);
}

#[test]
fn bodies_over_h3_come_in_frames() {
    let mut body = RequestBody::new();
    assert_eq!(body.on_frame(&[1, 2, 3, 4], false, &limits()), BodyStep::More);
    assert_eq!(body.on_frame(&[5, 6, 7, 8, 9], true, &limits()), BodyStep::Complete);
    assert_eq!(body.on_frame(&[1], true, &limits()), BodyStep::TooLarge);
    match body.finish(DoHType::Standard) {
        H3Action::Payload { payload, .. } => assert_eq!(payload, vec![1, 2, 3, 4, 5, 6, 7, 8, 9]),
        other => panic!("expected a query: {:?}", other),
    }
    assert_eq!(refused(RequestBody::new().finish(DoHType::Standard)), (400, true));
    assert_eq!(refused(payload_action(None, DoHType::Standard)), (400, true));
    assert_eq!(
        lines(&body_too_large().headers),
        vec![pair(":status", "413"), pair("content-type", "text/plain"), pair("content-length", "0")]
    );
}

#[test]
fn the_address_of_a_client_is_passed_on_where_asked() {
    let remote = Some(SocketAddr::new(IpAddr::V4(7), 1));
    assert_eq!(client_ip(true, remote), Some(IpAddr::V4(7)));
    assert_eq!(client_ip(false, remote), None);
    assert_eq!(client_ip(true, None), None);
}

#[test]
fn responses_with_packets() {
    assert_eq!(
        cache_control(60, &limits()),
        "max-age=60, stale-if-error=11, stale-while-revalidate=22"
    );
    let r = build_response(vec![1, 2, 3], 60, "application/dns-message", true, &limits());
    assert_eq!(r.status.code, 200);
    assert_eq!(r.body, vec![1, 2, 3]);
    assert_eq!(
        lines(&r.headers),
        vec![
            pair("content-length", "3"),
            pair("content-type", "application/dns-message"),
            pair("cache-control", "max-age=60, stale-if-error=11, stale-while-revalidate=22"),
            pair("access-control-allow-origin", "*"),
        ]
    );
    let r = serve_doh_query(Ok((vec![7], 5)), &limits());
    assert_eq!((r.status.code, r.body.clone(), r.headers.len()), (200, vec![7], 4));
    let r = serve_doh_query(Err(DoHError::Incomplete), &limits());
    assert_eq!((r.status.code, r.body.len(), r.headers.len()), (422, 0, 0));
    let r = serve_odoh(Ok(vec![7]), &limits());
    assert_eq!((r.status.code, r.headers.len()), (200, 3));
    assert_eq!(r.headers[1].value, "application/oblivious-dns-message");
    assert!(r.headers[2].value.starts_with("max-age=0,"));
    assert_eq!(serve_odoh(Err(DoHError::StaleKey), &limits()).status.code, 401);
    let r = serve_odoh_configs(vec![1], &limits());
    assert!(r.headers[2].value.starts_with("max-age=33,"));
    assert_eq!(r.headers[1].value, "application/octet-stream");
}

#[test]
fn responses_without_packets() {
    let r = http_error(status(404));
    assert_eq!((r.status.code, r.headers.len(), r.body.len()), (404, 0, 0));
    let r = http_error_with_cache(status(400));
    assert_eq!(
        lines(&r.headers),
        vec![pair("cache-control", "max-age=31536000, immutable")]
    );
    assert_eq!(refusal(status(405), false).headers.len(), 0);
    assert_eq!(refusal(status(406), true).headers.len(), 1);
    assert_eq!(required_query(Some(vec![1])).unwrap(), vec![1]);
    let r = required_query(None).unwrap_err();
    assert_eq!((r.status.code, r.headers.len()), (400, 1));
}

#[test]
fn messages_over_h3() {
    let m = send_h3_response(status(200), "text/x", vec![1, 2], Some("c".to_string()), true);
    assert_eq!(m.body, Some(vec![1, 2]));
    assert_eq!(
        lines(&m.headers),
        vec![
            pair(":status", "200"),
            pair("content-type", "text/x"),
            pair("content-length", "2"),
            pair("cache-control", "c"),
            pair("access-control-allow-origin", "*"),
        ]
    );
    let m = send_h3_error(status(404), true);
    assert_eq!(m.body, None);
    assert_eq!(m.headers[3].value, "max-age=31536000, immutable");
    let m = h3_payload_response(DoHType::Standard, vec![1], 60, true, &limits());
    assert_eq!(m.headers.len(), 5);
    let m = h3_payload_response(DoHType::Oblivious, vec![1], 60, true, &limits());
    assert_eq!(m.headers.len(), 4);
    assert!(m.headers[3].value.starts_with("max-age=0,"));
    let m = h3_payload_response(DoHType::Json, vec![1], 60, true, &limits());
    assert_eq!((m.headers[0].value.as_str(), m.body), ("405", None));
    let m = h3_odoh_configs(vec![1], &limits());
    assert!(m.headers[3].value.starts_with("max-age=33,"));
}

#[test]
fn queries_in_json_are_read() {
    let q = parse_json_query(
        "name=ex%41mple.com&type=28&cd=1&ct=x&do=true&edns_client_subnet=1.2.3.4/24&z=1&cd",
    );
    assert_eq!(q.name, "exAmple.com");
    assert_eq!(q.qtype, Some(28));
    assert_eq!((q.cd, q.do_), (Some(true), Some(true)));
    assert_eq!(q.ct.as_deref(), Some("x"));
    assert_eq!(q.edns_client_subnet.as_deref(), Some("1.2.3.4/24"));
    let q = parse_json_query("name=a+b%2&type=A&cd=yes&do=0");
    assert_eq!(q.name, "a+b%2");
    assert_eq!(q.qtype, None);
    assert_eq!((q.cd, q.do_), (Some(false), Some(false)));
    assert_eq!(parse_json_query("type=65536").qtype, None);
    assert_eq!(parse_json_query("name=%ff").name, "");
    assert_eq!(parse_json_query("name=%C3%A9%4").name, "\u{e9}%4");
    assert_eq!(parse_json_query("name=%%41%4g").name, "%A%4g");
}

/// The two members that an error has, and no others.
fn comment(body: &[u8]) -> (u64, String) {
    let value: serde_json::Value = serde_json::from_slice(body).unwrap();
    assert_eq!(value.as_object().unwrap().len(), 2);
    (
        value["Status"].as_u64().unwrap(),
        value["Comment"].as_str().unwrap().to_string(),
    )
}

#[test]
fn queries_in_json_are_answered() {
    let respond = match start_json_query("type=1") {
        JsonStart::Respond(r) => r,
        JsonStart::Send(_) => panic!("there is no name"),
    };
    assert_eq!(respond.status.code, 400);
    assert_eq!(respond.content_type, "application/dns-json");
    assert_eq!(comment(&respond.body), (400, "Missing 'name' parameter".to_string()));
    assert!(respond.cache_control.is_none());
    assert!(matches!(start_json_query("name=a"), JsonStart::Send(_)));
    let invalid = json_invalid_query("no \"such\" type");
    assert_eq!(invalid.status.code, 400);
    assert_eq!(
        comment(&invalid.body),
        (400, "Invalid query: no \"such\" type".to_string())
    );
    let answer = serve_json_query(Ok(Some("{}".to_string())), 60, &limits()).unwrap();
    assert_eq!((answer.status.code, answer.body.clone()), (200, b"{}".to_vec()));
    assert_eq!(
        answer.cache_control.as_deref(),
        Some("max-age=60, stale-if-error=11, stale-while-revalidate=22")
    );
    let r = json_http_response(answer);
    assert_eq!(r.headers.len(), 3);
    assert_eq!(r.headers[2].name, "access-control-allow-origin");
    assert!(matches!(serve_json_query(Ok(None), 1, &limits()), Err(DoHError::InvalidData)));
    let failed = serve_json_query(Err("short".to_string()), 1, &limits()).unwrap();
    assert_eq!(failed.status.code, 500);
    assert_eq!(
        comment(&failed.body),
        (500, "Failed to parse DNS response: short".to_string())
    );
    assert_eq!(json_http_response(failed).headers.len(), 2);
}

#[test]
fn clients_of_oblivious_queries_stay_unknown() {
    let ip = Some(IpAddr::V4(7));
    assert_eq!(upstream_client(true, false, ip), ip);
    assert_eq!(upstream_client(false, false, ip), None);
    assert_eq!(upstream_client(true, true, ip), None);
    assert_eq!(upstream_client(true, true, None), None);
    let plain = serve_odoh(Ok(vec![1]), &limits());
    let h3 = h3_payload_response(DoHType::Oblivious, vec![1], 60, true, &limits());
    for headers in [&plain.headers, &h3.headers] {
        let value = |name: &str| headers.iter().find(|h| h.name == name).map(|h| h.value.as_str());
        assert_eq!(value("content-type"), Some("application/oblivious-dns-message"));
        assert!(value("cache-control").unwrap().starts_with("max-age=0,"));
        assert_eq!(value("access-control-allow-origin"), None);
    }
}
