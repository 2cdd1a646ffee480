//! Responses to clients.

use crate::content_type::DoHType;
use crate::errors::{DoHError, StatusCode};
use crate::limits::Limits;
use crate::text;
use vstd::prelude::*;

verus! {

/// A header of a response.
#[derive(Clone, Debug)]
pub struct HeaderLine {
    pub name: String,
    pub value: String,
}

/// A response.
#[derive(Debug)]
pub struct HttpResponse {
    pub status: StatusCode,
    pub headers: Vec<HeaderLine>,
    pub body: Vec<u8>,
}

/// The name and the value of a header.
pub open spec fn line(h: HeaderLine) -> (Seq<char>, Seq<char>) {
    (h.name@, h.value@)
}

/// The names and the values of headers.
pub open spec fn lines(headers: Seq<HeaderLine>) -> Seq<(Seq<char>, Seq<char>)> {
    headers.map_values(|h: HeaderLine| line(h))
}

impl HttpResponse {
    /// The response has this status, these headers and this body.
    pub open spec fn is(
        &self,
        status: u16,
        headers: Seq<(Seq<char>, Seq<char>)>,
        body: Seq<u8>,
    ) -> bool {
        self.status.code == status && lines(self.headers@) == headers && self.body@ == body
    }
}

fn add_header(headers: &mut Vec<HeaderLine>, name: &str, value: &str)
    ensures
        lines(final(headers)@) == lines(old(headers)@).push((name@, value@)),
{
    headers.push(HeaderLine { name: name.to_owned(), value: value.to_owned() });
    assert(lines(headers@) =~= lines(old(headers)@).push((name@, value@)));
}

fn no_headers() -> (headers: Vec<HeaderLine>)
    ensures
        lines(headers@) == Seq::<(Seq<char>, Seq<char>)>::empty(),
{
    let headers: Vec<HeaderLine> = Vec::new();
    assert(lines(headers@) =~= Seq::<(Seq<char>, Seq<char>)>::empty());
    headers
}

/// The empty response with a status.
pub fn http_error(status: StatusCode) -> (r: HttpResponse)
    ensures
        r.is(status.code, Seq::empty(), Seq::empty()),
{
    let r = HttpResponse { status, headers: no_headers(), body: Vec::new() };
    assert(r.body@ =~= Seq::empty());
    r
}

/// The empty response with a status, to be kept for a year: crawlers are not to come again.
pub fn http_error_with_cache(status: StatusCode) -> (r: HttpResponse)
    ensures
        r.is(
            status.code,
            seq![("cache-control"@, "max-age=31536000, immutable"@)],
            Seq::empty(),
        ),
{
    let mut headers = no_headers();
    add_header(&mut headers, "cache-control", "max-age=31536000, immutable");
    let r = HttpResponse { status, headers, body: Vec::new() };
    assert(lines(r.headers@) =~= seq![("cache-control"@, "max-age=31536000, immutable"@)]);
    assert(r.body@ =~= Seq::empty());
    r
}

/// The empty response that refuses a request, to be kept for a year or not.
pub fn refusal(status: StatusCode, long_cache: bool) -> (r: HttpResponse)
    ensures
        r.is(
            status.code,
            if long_cache {
                seq![("cache-control"@, "max-age=31536000, immutable"@)]
            } else {
                Seq::empty()
            },
            Seq::empty(),
        ),
{
    if long_cache {
        http_error_with_cache(status)
    } else {
        http_error(status)
    }
}

/// The query of a request, which has to have one.
pub fn required_query(query: Option<Vec<u8>>) -> (r: Result<Vec<u8>, HttpResponse>)
    ensures
        match query {
            Some(q) => r == Ok::<Vec<u8>, HttpResponse>(q),
            None => r matches Err(refused) && refused.is(
                400,
                seq![("cache-control"@, "max-age=31536000, immutable"@)],
                Seq::empty(),
            ),
        },
{
    match query {
        Some(q) => Ok(q),
        None => Err(http_error_with_cache(StatusCode { code: 400 })),
    }
}

/// How long a response may be kept, and used when it is stale.
pub open spec fn cache_control_text(ttl: u32, limits: Limits) -> Seq<char> {
    "max-age="@ + text::decimal(ttl as nat) + ", stale-if-error="@ + text::decimal(
        limits.stale_if_error_secs as nat,
    ) + ", stale-while-revalidate="@ + text::decimal(limits.stale_while_revalidate_secs as nat)
}

/// How long a response may be kept, and used when it is stale.
pub fn cache_control(ttl: u32, limits: &Limits) -> (s: String)
    ensures
        s@ == cache_control_text(ttl, *limits),
{
    let mut s = text::joined("max-age=", text::decimal_text(ttl as u128).as_str());
    s.append(", stale-if-error=");
    s.append(text::decimal_text(limits.stale_if_error_secs as u128).as_str());
    s.append(", stale-while-revalidate=");
    s.append(text::decimal_text(limits.stale_while_revalidate_secs as u128).as_str());
    s
}

/// The headers of a response with a packet.
pub open spec fn packet_headers(
    len: nat,
    content_type: Seq<char>,
    ttl: u32,
    cors: bool,
    limits: Limits,
) -> Seq<(Seq<char>, Seq<char>)> {
    let headers = seq![
        ("content-length"@, text::decimal(len)),
        ("content-type"@, content_type),
        ("cache-control"@, cache_control_text(ttl, limits)),
    ];
    if cors {
        headers.push(("access-control-allow-origin"@, "*"@))
    } else {
        headers
    }
}

/// The response with a packet.
pub fn build_response(
    packet: Vec<u8>,
    ttl: u32,
    content_type: &str,
    cors: bool,
    limits: &Limits,
) -> (r: HttpResponse)
    ensures
        r.is(
            200,
            packet_headers(packet@.len(), content_type@, ttl, cors, *limits),
            packet@,
        ),
{
    let mut headers = no_headers();
    add_header(
        &mut headers,
        "content-length",
        text::decimal_text(packet.len() as u128).as_str(),
    );
    add_header(&mut headers, "content-type", content_type);
    add_header(&mut headers, "cache-control", cache_control(ttl, limits).as_str());
    if cors {
        add_header(&mut headers, "access-control-allow-origin", "*");
    }
    let r = HttpResponse { status: StatusCode { code: 200 }, headers, body: packet };
    assert(lines(r.headers@) =~= packet_headers(
        packet@.len(),
        content_type@,
        ttl,
        cors,
        *limits,
    ));
    r
}

/// Answers a query in the standard format: with the packet, or the status of the error.
pub fn serve_doh_query(resolved: Result<(Vec<u8>, u32), DoHError>, limits: &Limits) -> (r:
    HttpResponse)
    ensures
        match resolved {
            Ok((packet, ttl)) => r.is(
                200,
                packet_headers(packet@.len(), DoHType::Standard.name(), ttl, true, *limits),
                packet@,
            ),
            Err(e) => r.is(crate::errors::status_of(e).code, Seq::empty(), Seq::empty()),
        },
{
    match resolved {
        Ok((packet, ttl)) => build_response(
            packet,
            ttl,
            DoHType::Standard.as_str(),
            true,
            limits,
        ),
        Err(e) => http_error(StatusCode::from(e)),
    }
}

/// Answers an oblivious query: with the encrypted packet, which is not to be kept, or the status
/// of the error.
pub fn serve_odoh(encrypted: Result<Vec<u8>, DoHError>, limits: &Limits) -> (r: HttpResponse)
    ensures
        match encrypted {
            Ok(packet) => r.is(
                200,
                packet_headers(packet@.len(), DoHType::Oblivious.name(), 0, false, *limits),
                packet@,
            ),
            Err(e) => r.is(crate::errors::status_of(e).code, Seq::empty(), Seq::empty()),
        },
{
    match encrypted {
        Ok(packet) => build_response(packet, 0, DoHType::Oblivious.as_str(), false, limits),
        Err(e) => http_error(StatusCode::from(e)),
    }
}

/// The headers give the content type, say that nothing is to be kept, and do not open the
/// response to other origins.
pub open spec fn private_headers(
    headers: Seq<(Seq<char>, Seq<char>)>,
    content_type: Seq<char>,
) -> bool {
    &&& headers.contains(("content-type"@, content_type))
    &&& exists|i: int|
        0 <= i < headers.len() && (#[trigger] headers[i]).0 == "cache-control"@
            && "max-age=0,"@.is_prefix_of(headers[i].1)
    &&& forall|i: int|
        0 <= i < headers.len() ==> (#[trigger] headers[i]).0 != "access-control-allow-origin"@
}

/// The reply to an oblivious query, over any version of HTTP, has the type of such replies, is
/// not to be kept, and is not opened to other origins.
pub proof fn law_oblivious_replies_are_private(len: nat, limits: Limits)
    ensures
        private_headers(
            packet_headers(len, DoHType::Oblivious.name(), 0, false, limits),
            "application/oblivious-dns-message"@,
        ),
        private_headers(
            h3_headers(
                200,
                DoHType::Oblivious.name(),
                len,
                Some(cache_control_text(0, limits)),
                false,
            ),
            "application/oblivious-dns-message"@,
        ),
{
    let plain = packet_headers(len, DoHType::Oblivious.name(), 0, false, limits);
    let h3 = h3_headers(
        200,
        DoHType::Oblivious.name(),
        len,
        Some(cache_control_text(0, limits)),
        false,
    );
    reveal_strlit("max-age=0,");
    reveal_strlit("max-age=");
    reveal_strlit(", stale-if-error=");
    reveal_strlit(":status");
    reveal_strlit("content-type");
    reveal_strlit("content-length");
    reveal_strlit("cache-control");
    reveal_strlit("access-control-allow-origin");
    let value = cache_control_text(0, limits);
    assert("max-age=0,"@ =~= value.take("max-age=0,"@.len() as int));
    assert("access-control-allow-origin"@.len() == 27);
    assert(forall|i: int| 0 <= i < plain.len() ==> (#[trigger] plain[i]).0.len() < 27);
    assert(forall|i: int| 0 <= i < h3.len() ==> (#[trigger] h3[i]).0.len() < 27);
    assert(plain[1] == ("content-type"@, DoHType::Oblivious.name()));
    assert(plain[2] == ("cache-control"@, value));
    assert(h3[1] == ("content-type"@, DoHType::Oblivious.name()));
    assert(h3[3] == ("cache-control"@, value));
}

/// Answers with the public keys for oblivious queries, to be kept until they change.
pub fn serve_odoh_configs(configs: Vec<u8>, limits: &Limits) -> (r: HttpResponse)
    ensures
        r.is(
            200,
            packet_headers(
                configs@.len(),
                "application/octet-stream"@,
                limits.odoh_key_rotation_secs,
                true,
                *limits,
            ),
            configs@,
        ),
{
    build_response(configs, limits.odoh_key_rotation_secs, "application/octet-stream", true, limits)
}

/// A response that any version of HTTP can carry.
#[derive(Debug)]
pub struct H3Response {
    pub status: StatusCode,
    pub content_type: String,
    pub body: Vec<u8>,
    pub cache_control: Option<String>,
}

/// The headers of a response over HTTP/3.
pub open spec fn h3_headers(
    status: u16,
    content_type: Seq<char>,
    len: nat,
    cache_control: Option<Seq<char>>,
    cors: bool,
) -> Seq<(Seq<char>, Seq<char>)> {
    let first = seq![
        (":status"@, text::decimal(status as nat)),
        ("content-type"@, content_type),
        ("content-length"@, text::decimal(len)),
    ];
    let cached = match cache_control {
        Some(value) => first.push(("cache-control"@, value)),
        None => first,
    };
    if cors {
        cached.push(("access-control-allow-origin"@, "*"@))
    } else {
        cached
    }
}

/// What is sent over HTTP/3: the headers, and a body frame where there is a body.
#[derive(Debug)]
pub struct H3Message {
    pub headers: Vec<HeaderLine>,
    pub body: Option<Vec<u8>>,
}

impl H3Message {
    /// The message has these headers and this body.
    pub open spec fn is(&self, headers: Seq<(Seq<char>, Seq<char>)>, body: Seq<u8>) -> bool {
        &&& lines(self.headers@) == headers
        &&& match self.body {
            Some(b) => b@ == body && body.len() > 0,
            None => body.len() == 0,
        }
    }
}

/// What is sent over HTTP/3 for a response.
pub fn send_h3_response(
    status: StatusCode,
    content_type: &str,
    body: Vec<u8>,
    cache_control: Option<String>,
    cors: bool,
) -> (m: H3Message)
    ensures
        m.is(
            h3_headers(
                status.code,
                content_type@,
                body@.len(),
                text::opt_text(cache_control),
                cors,
            ),
            body@,
        ),
{
    let mut headers = no_headers();
    add_header(&mut headers, ":status", text::decimal_text(status.code as u128).as_str());
    add_header(&mut headers, "content-type", content_type);
    add_header(&mut headers, "content-length", text::decimal_text(body.len() as u128).as_str());
    match &cache_control {
        Some(value) => {
            add_header(&mut headers, "cache-control", value.as_str());
        },
        None => {},
    }
    if cors {
        add_header(&mut headers, "access-control-allow-origin", "*");
    }
    assert(lines(headers@) =~= h3_headers(
        status.code,
        content_type@,
        body@.len(),
        text::opt_text(cache_control),
        cors,
    ));
    if body.len() == 0 {
        H3Message { headers, body: None }
    } else {
        H3Message { headers, body: Some(body) }
    }
}

/// The text of a header that lets an error be kept for a year.
pub open spec fn long_cache_text(long_cache: bool) -> Option<Seq<char>> {
    if long_cache {
        Some("max-age=31536000, immutable"@)
    } else {
        None
    }
}

/// What is sent over HTTP/3 for an error.
pub fn send_h3_error(status: StatusCode, long_cache: bool) -> (m: H3Message)
    ensures
        m.is(
            h3_headers(status.code, "text/plain"@, 0, long_cache_text(long_cache), false),
            Seq::empty(),
        ),
{
    let cache_control = if long_cache {
        Some("max-age=31536000, immutable".to_owned())
    } else {
        None
    };
    let body: Vec<u8> = Vec::new();
    send_h3_response(status, "text/plain", body, cache_control, false)
}

/// What is sent over HTTP/3 for the answer to a query: that to a standard query may be kept for
/// its time to live, that to an oblivious one not at all. Queries in JSON are not answered so.
pub fn h3_payload_response(
    doh_type: DoHType,
    packet: Vec<u8>,
    ttl: u32,
    cors: bool,
    limits: &Limits,
) -> (m: H3Message)
    ensures
        match doh_type {
            DoHType::Standard => m.is(
                h3_headers(
                    200,
                    DoHType::Standard.name(),
                    packet@.len(),
                    Some(cache_control_text(ttl, *limits)),
                    cors,
                ),
                packet@,
            ),
            DoHType::Oblivious => m.is(
                h3_headers(
                    200,
                    DoHType::Oblivious.name(),
                    packet@.len(),
                    Some(cache_control_text(0, *limits)),
                    false,
                ),
                packet@,
            ),
            DoHType::Json => m.is(
                h3_headers(405, "text/plain"@, 0, None, false),
                Seq::empty(),
            ),
        },
{
    match doh_type {
        DoHType::Standard => send_h3_response(
            StatusCode { code: 200 },
            DoHType::Standard.as_str(),
            packet,
            Some(cache_control(ttl, limits)),
            cors,
        ),
        DoHType::Oblivious => send_h3_response(
            StatusCode { code: 200 },
            DoHType::Oblivious.as_str(),
            packet,
            Some(cache_control(0, limits)),
            false,
        ),
        DoHType::Json => send_h3_error(StatusCode { code: 405 }, false),
    }
}

/// What is sent over HTTP/3 for the public keys for oblivious queries.
pub fn h3_odoh_configs(configs: Vec<u8>, limits: &Limits) -> (m: H3Message)
    ensures
        m.is(
            h3_headers(
                200,
                "application/octet-stream"@,
                configs@.len(),
                Some(cache_control_text(limits.odoh_key_rotation_secs, *limits)),
                true,
            ),
            configs@,
        ),
{
    let value = cache_control(limits.odoh_key_rotation_secs, limits);
    send_h3_response(
        StatusCode { code: 200 },
        "application/octet-stream",
        configs,
        Some(value),
        true,
    )
}

/// The answer to a query in JSON, over HTTP/1 or HTTP/2.
pub fn json_http_response(response: H3Response) -> (r: HttpResponse)
    ensures
        r.is(
            response.status.code,
            match response.cache_control {
                Some(value) => seq![
                    ("content-type"@, response.content_type@),
                    ("cache-control"@, value@),
                    ("access-control-allow-origin"@, "*"@),
                ],
                None => seq![
                    ("content-type"@, response.content_type@),
                    ("access-control-allow-origin"@, "*"@),
                ],
            },
            response.body@,
        ),
{
    let mut headers = no_headers();
    add_header(&mut headers, "content-type", response.content_type.as_str());
    match &response.cache_control {
        Some(value) => {
            add_header(&mut headers, "cache-control", value.as_str());
        },
        None => {},
    }
    add_header(&mut headers, "access-control-allow-origin", "*");
    let r = HttpResponse { status: response.status, headers, body: response.body };
    assert(lines(r.headers@) =~= match response.cache_control {
        Some(value) => seq![
            ("content-type"@, response.content_type@),
            ("cache-control"@, value@),
            ("access-control-allow-origin"@, "*"@),
        ],
        None => seq![
            ("content-type"@, response.content_type@),
            ("access-control-allow-origin"@, "*"@),
        ],
    });
    r
}

/// What a response is: its status, its headers line by line, and its body.
pub proof fn law_responses_are_what_they_say(
    r: HttpResponse,
    m: H3Message,
    status: u16,
    headers: Seq<(Seq<char>, Seq<char>)>,
    body: Seq<u8>,
)
    ensures
        r.is(status, headers, body) <==> r.status.code == status && r.body@ == body
            && r.headers@.len() == headers.len() && forall|i: int|
            0 <= i < headers.len() ==> (#[trigger] r.headers@[i]).name@ == headers[i].0
                && r.headers@[i].value@ == headers[i].1,
        m.is(headers, body) <==> m.headers@.len() == headers.len() && (forall|i: int|
            0 <= i < headers.len() ==> (#[trigger] m.headers@[i]).name@ == headers[i].0
                && m.headers@[i].value@ == headers[i].1) && (m.body is None <==> body.len() == 0)
            && (m.body matches Some(b) ==> b@ == body),
{
    if r.headers@.len() == headers.len() && forall|i: int|
        0 <= i < headers.len() ==> (#[trigger] r.headers@[i]).name@ == headers[i].0
            && r.headers@[i].value@ == headers[i].1 {
        assert(lines(r.headers@) =~= headers);
    }
    if lines(r.headers@) == headers {
        assert forall|i: int| 0 <= i < headers.len() implies (#[trigger] r.headers@[i]).name@
            == headers[i].0 && r.headers@[i].value@ == headers[i].1 by {
            assert(lines(r.headers@)[i] == line(r.headers@[i]));
        }
    }
    if m.headers@.len() == headers.len() && forall|i: int|
        0 <= i < headers.len() ==> (#[trigger] m.headers@[i]).name@ == headers[i].0
            && m.headers@[i].value@ == headers[i].1 {
        assert(lines(m.headers@) =~= headers);
    }
    if lines(m.headers@) == headers {
        assert forall|i: int| 0 <= i < headers.len() implies (#[trigger] m.headers@[i]).name@
            == headers[i].0 && m.headers@[i].value@ == headers[i].1 by {
            assert(lines(m.headers@)[i] == line(m.headers@[i]));
        }
    }
}

/// The value of a header.
pub open spec fn value_is(
    headers: Seq<(Seq<char>, Seq<char>)>,
    name: Seq<char>,
    value: Seq<char>,
) -> bool {
    headers.contains((name, value))
}

/// The answer to a query tells its length, its type and how long it may be kept: its time to live,
/// and the times for which it may be used when it is stale. Every origin may read it where that is
/// asked for.
pub proof fn law_answers_tell_their_time(
    len: nat,
    content_type: Seq<char>,
    ttl: u32,
    cors: bool,
    limits: Limits,
)
    ensures
        ({
            let kept = "max-age="@ + text::decimal(ttl as nat) + ", stale-if-error="@
                + text::decimal(limits.stale_if_error_secs as nat) + ", stale-while-revalidate="@
                + text::decimal(limits.stale_while_revalidate_secs as nat);
            let plain = packet_headers(len, content_type, ttl, cors, limits);
            let h3 = h3_headers(200, content_type, len, Some(kept), cors);
            &&& cache_control_text(ttl, limits) == kept
            &&& value_is(plain, "content-length"@, text::decimal(len)) && value_is(
                h3,
                "content-length"@,
                text::decimal(len),
            )
            &&& value_is(plain, "content-type"@, content_type) && value_is(
                h3,
                "content-type"@,
                content_type,
            )
            &&& value_is(plain, "cache-control"@, kept) && value_is(h3, "cache-control"@, kept)
            &&& cors ==> value_is(plain, "access-control-allow-origin"@, "*"@) && value_is(
                h3,
                "access-control-allow-origin"@,
                "*"@,
            )
            &&& h3[0] == (":status"@, text::decimal(200))
        }),
{
    let plain = packet_headers(len, content_type, ttl, cors, limits);
    let kept = cache_control_text(ttl, limits);
    let h3 = h3_headers(200, content_type, len, Some(kept), cors);
    assert(plain[0] == ("content-length"@, text::decimal(len)));
    assert(plain[1] == ("content-type"@, content_type));
    assert(plain[2] == ("cache-control"@, kept));
    assert(h3[1] == ("content-type"@, content_type));
    assert(h3[2] == ("content-length"@, text::decimal(len)));
    assert(h3[3] == ("cache-control"@, kept));
    if cors {
        assert(plain[3] == ("access-control-allow-origin"@, "*"@));
        assert(h3[4] == ("access-control-allow-origin"@, "*"@));
    }
}

/// The headers of an error over HTTP/3: its status, an empty text, and for those that come again
/// and again that they may be kept for a year.
pub proof fn law_errors_over_h3(status: u16, long_cache: bool)
    ensures
        h3_headers(status, "text/plain"@, 0, long_cache_text(long_cache), false) == (if long_cache {
            seq![
                (":status"@, text::decimal(status as nat)),
                ("content-type"@, "text/plain"@),
                ("content-length"@, text::decimal(0)),
                ("cache-control"@, "max-age=31536000, immutable"@),
            ]
        } else {
            seq![
                (":status"@, text::decimal(status as nat)),
                ("content-type"@, "text/plain"@),
                ("content-length"@, text::decimal(0)),
            ]
        }),
{
    assert(h3_headers(status, "text/plain"@, 0, long_cache_text(long_cache), false) =~= (
    if long_cache {
        seq![
            (":status"@, text::decimal(status as nat)),
            ("content-type"@, "text/plain"@),
            ("content-length"@, text::decimal(0)),
            ("cache-control"@, "max-age=31536000, immutable"@),
        ]
    } else {
        seq![
            (":status"@, text::decimal(status as nat)),
            ("content-type"@, "text/plain"@),
            ("content-length"@, text::decimal(0)),
        ]
    }));
}

} // verus!
