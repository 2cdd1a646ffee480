//! Where requests go.

use crate::content_type;
use crate::content_type::DoHType;
use crate::errors::StatusCode;
use crate::globals::Globals;
use crate::headers;
use crate::headers::HeaderField;
use crate::limits::Limits;
use crate::net::{IpAddr, SocketAddr};
use crate::query_string;
use crate::response;
use crate::response::H3Message;
use crate::text;
use crate::wire;
use vstd::prelude::*;

verus! {

/// The method of a request over HTTP/1 or HTTP/2.
#[derive(Clone, Copy, Debug, PartialEq, Eq, Structural)]
pub enum Method {
    Get,
    Post,
    Other,
}

/// Where a request over HTTP/1 or HTTP/2 goes.
#[derive(Clone, Copy, Debug, PartialEq, Eq, Structural)]
pub enum Route {
    DohGet,
    OdohGet,
    JsonGet,
    DohPost,
    OdohPost,
    OdohConfigs,
    Refuse { status: StatusCode, long_cache: bool },
}

/// A refusal.
pub open spec fn refused(code: u16, long_cache: bool) -> Route {
    Route::Refuse { status: StatusCode { code }, long_cache }
}

/// Whether queries of a kind may be posted.
pub open spec fn post_allowed(
    doh_type: DoHType,
    disable_post: bool,
    allow_odoh_post: bool,
) -> bool {
    match doh_type {
        DoHType::Standard => !disable_post,
        DoHType::Oblivious => !disable_post || allow_odoh_post,
        DoHType::Json => false,
    }
}

fn may_post(doh_type: DoHType, disable_post: bool, allow_odoh_post: bool) -> (yes: bool)
    ensures
        yes == post_allowed(doh_type, disable_post, allow_odoh_post),
{
    match doh_type {
        DoHType::Standard => !disable_post,
        DoHType::Oblivious => !disable_post || allow_odoh_post,
        DoHType::Json => false,
    }
}

/// Where a request over HTTP/1 or HTTP/2 goes: by its path, its method and its kind.
pub open spec fn route_of(
    method: Method,
    path: Seq<char>,
    content_type: Option<Seq<u8>>,
    accept: Option<Seq<u8>>,
    globals: Globals,
) -> Route {
    if path == globals.path@ {
        match (method, content_type::request_type(content_type, accept)) {
            (Method::Other, _) => refused(405, false),
            (_, Err(status)) => Route::Refuse { status, long_cache: true },
            (Method::Get, Ok(DoHType::Standard)) => Route::DohGet,
            (Method::Get, Ok(DoHType::Oblivious)) => Route::OdohGet,
            (Method::Get, Ok(DoHType::Json)) => Route::JsonGet,
            (Method::Post, Ok(t)) => if !post_allowed(
                t,
                globals.disable_post,
                globals.allow_odoh_post,
            ) {
                refused(405, false)
            } else if t is Standard {
                Route::DohPost
            } else {
                Route::OdohPost
            },
        }
    } else if path == globals.odoh_configs_path@ {
        if method is Get {
            Route::OdohConfigs
        } else {
            refused(405, false)
        }
    } else {
        refused(404, false)
    }
}

/// Where a request over HTTP/1 or HTTP/2 goes.
pub fn call(
    method: Method,
    path: &str,
    content_type: Option<&[u8]>,
    accept: Option<&[u8]>,
    globals: &Globals,
) -> (route: Route)
    ensures
        route == route_of(
            method,
            path@,
            content_type::opt_bytes(content_type),
            content_type::opt_bytes(accept),
            *globals,
        ),
{
    if text::same_text(path, globals.path.as_str()) {
        match method {
            Method::Get => serve_get(content_type, accept),
            Method::Post => serve_post(content_type, accept, globals),
            Method::Other => Route::Refuse { status: StatusCode { code: 405 }, long_cache: false },
        }
    } else if text::same_text(path, globals.odoh_configs_path.as_str()) {
        match method {
            Method::Get => Route::OdohConfigs,
            _ => Route::Refuse { status: StatusCode { code: 405 }, long_cache: false },
        }
    } else {
        Route::Refuse { status: StatusCode { code: 404 }, long_cache: false }
    }
}

fn serve_get(content_type: Option<&[u8]>, accept: Option<&[u8]>) -> (route: Route)
    ensures
        route == (match content_type::request_type(
            content_type::opt_bytes(content_type),
            content_type::opt_bytes(accept),
        ) {
            Ok(DoHType::Standard) => Route::DohGet,
            Ok(DoHType::Oblivious) => Route::OdohGet,
            Ok(DoHType::Json) => Route::JsonGet,
            Err(status) => Route::Refuse { status, long_cache: true },
        }),
{
    match content_type::parse_content_type(content_type, accept) {
        Ok(DoHType::Standard) => Route::DohGet,
        Ok(DoHType::Oblivious) => Route::OdohGet,
        Ok(DoHType::Json) => Route::JsonGet,
        Err(status) => Route::Refuse { status, long_cache: true },
    }
}

fn serve_post(content_type: Option<&[u8]>, accept: Option<&[u8]>, globals: &Globals) -> (route:
    Route)
    ensures
        route == (match content_type::request_type(
            content_type::opt_bytes(content_type),
            content_type::opt_bytes(accept),
        ) {
            Ok(t) => if !post_allowed(t, globals.disable_post, globals.allow_odoh_post) {
                refused(405, false)
            } else if t is Standard {
                Route::DohPost
            } else {
                Route::OdohPost
            },
            Err(status) => Route::Refuse { status, long_cache: true },
        }),
{
    match content_type::parse_content_type(content_type, accept) {
        Ok(t) => {
            if !may_post(t, globals.disable_post, globals.allow_odoh_post) {
                return Route::Refuse { status: StatusCode { code: 405 }, long_cache: false };
            }
            match t {
                DoHType::Standard => Route::DohPost,
                _ => Route::OdohPost,
            }
        },
        Err(status) => Route::Refuse { status, long_cache: true },
    }
}

/// What is to be done for a request over HTTP/3.
#[derive(Debug)]
pub enum H3Action {
    OdohConfigs,
    Json { query: String },
    Payload { payload: Vec<u8>, doh_type: DoHType },
    ReadBody { doh_type: DoHType },
    Refuse { status: StatusCode, long_cache: bool },
}

/// What is to be done for a request over HTTP/3.
pub enum H3Plan {
    OdohConfigs,
    Json(Seq<char>),
    Payload(Seq<u8>, DoHType),
    ReadBody(DoHType),
    Refuse(u16, bool),
}

impl View for H3Action {
    type V = H3Plan;

    open spec fn view(&self) -> H3Plan {
        match *self {
            H3Action::OdohConfigs => H3Plan::OdohConfigs,
            H3Action::Json { query } => H3Plan::Json(query@),
            H3Action::Payload { payload, doh_type } => H3Plan::Payload(payload@, doh_type),
            H3Action::ReadBody { doh_type } => H3Plan::ReadBody(doh_type),
            H3Action::Refuse { status, long_cache } => H3Plan::Refuse(status.code, long_cache),
        }
    }
}

fn refuse(code: u16, long_cache: bool) -> (action: H3Action)
    ensures
        action@ == H3Plan::Refuse(code, long_cache),
{
    H3Action::Refuse { status: StatusCode { code }, long_cache }
}

/// What is to be done with the query of a request over HTTP/3 that came in its path, where there
/// is one.
pub open spec fn payload_plan(decoded: Option<Seq<u8>>, doh_type: DoHType) -> H3Plan {
    match decoded {
        Some(payload) => H3Plan::Payload(payload, doh_type),
        None => H3Plan::Refuse(400, true),
    }
}

/// What is to be done with the query of a request over HTTP/3 that came in its path.
pub fn payload_action(decoded: Option<Vec<u8>>, doh_type: DoHType) -> (action: H3Action)
    ensures
        action@ == payload_plan(query_string::opt_packet(decoded), doh_type),
{
    match decoded {
        Some(payload) => H3Action::Payload { payload, doh_type },
        None => refuse(400, true),
    }
}

/// What is to be done for a request over HTTP/3, by its method, path and kind.
pub open spec fn h3_plan(
    method: Seq<char>,
    path: Seq<char>,
    content_type: Option<Seq<char>>,
    accept: Option<Seq<char>>,
    globals: Globals,
    param: Seq<char>,
    limits: Limits,
) -> H3Plan {
    let bare = query_string::bare_path(path);
    if bare == globals.odoh_configs_path@ {
        if method == "GET"@ {
            H3Plan::OdohConfigs
        } else {
            H3Plan::Refuse(405, false)
        }
    } else if bare != globals.path@ {
        H3Plan::Refuse(404, true)
    } else {
        match content_type::h3_request_type(content_type, accept) {
            Err(status) => H3Plan::Refuse(status.code, true),
            Ok(t) => if method == "GET"@ {
                if t is Json {
                    H3Plan::Json(query_string::query_of_path(path))
                } else {
                    payload_plan(
                        query_string::decoded_query(
                            query_string::query_of_path(path),
                            param,
                            limits,
                        ),
                        t,
                    )
                }
            } else if method == "POST"@ {
                if post_allowed(t, globals.disable_post, globals.allow_odoh_post) {
                    H3Plan::ReadBody(t)
                } else {
                    H3Plan::Refuse(405, false)
                }
            } else {
                H3Plan::Refuse(405, false)
            },
        }
    }
}

/// A text, or another where there is none.
pub open spec fn text_or(s: Option<Seq<char>>, other: Seq<char>) -> Seq<char> {
    match s {
        Some(x) => x,
        None => other,
    }
}

/// What is to be done for a request over HTTP/3. One without a method is a `GET`, one without a
/// path is for the root.
pub fn handle_h3_request(
    headers: &Vec<HeaderField>,
    globals: &Globals,
    param: &str,
    limits: &Limits,
) -> (action: H3Action)
    requires
        limits.wf(),
    ensures
        ({
            let fields = headers::fields(headers@);
            action@ == h3_plan(
                text_or(headers::header_text(fields, ":method"@), "GET"@),
                text_or(headers::header_text(fields, ":path"@), "/"@),
                headers::header_text(fields, "content-type"@),
                headers::header_text(fields, "accept"@),
                *globals,
                param@,
                *limits,
            )
        }),
{
    let method = match headers::h3_header_value(headers, ":method") {
        Some(method) => method,
        None => "GET".to_owned(),
    };
    let path = match headers::h3_header_value(headers, ":path") {
        Some(path) => path,
        None => "/".to_owned(),
    };
    let content_type = headers::h3_header_value(headers, "content-type");
    let accept = headers::h3_header_value(headers, "accept");
    let path_only = query_string::path_only(path.as_str());
    if text::same_text(path_only.as_str(), globals.odoh_configs_path.as_str()) {
        return if text::same_text(method.as_str(), "GET") {
            H3Action::OdohConfigs
        } else {
            refuse(405, false)
        };
    }
    if !text::same_text(path_only.as_str(), globals.path.as_str()) {
        return refuse(404, true);
    }
    let content_type_str = match &content_type {
        Some(value) => Some(value.as_str()),
        None => None,
    };
    let accept_str = match &accept {
        Some(value) => Some(value.as_str()),
        None => None,
    };
    let doh_type = match content_type::parse_h3_content_type(content_type_str, accept_str) {
        Ok(doh_type) => doh_type,
        Err(status) => {
            return H3Action::Refuse { status, long_cache: true };
        },
    };
    if text::same_text(method.as_str(), "GET") {
        match doh_type {
            DoHType::Json => H3Action::Json { query: query_string::path_query(path.as_str()) },
            _ => payload_action(
                query_string::query_from_path(path.as_str(), param, limits),
                doh_type,
            ),
        }
    } else if text::same_text(method.as_str(), "POST") {
        if may_post(doh_type, globals.disable_post, globals.allow_odoh_post) {
            H3Action::ReadBody { doh_type }
        } else {
            refuse(405, false)
        }
    } else {
        refuse(405, false)
    }
}

/// The body of a request over HTTP/3 as its frames come in.
pub struct RequestBody {
    body: Vec<u8>,
}

/// After a frame: more are to come, the body is complete, or it is too long.
#[derive(Clone, Copy, Debug, PartialEq, Eq, Structural)]
pub enum BodyStep {
    More,
    Complete,
    TooLarge,
}

impl RequestBody {
    /// The bytes so far.
    pub closed spec fn bytes(&self) -> Seq<u8> {
        self.body@
    }

    pub fn new() -> (b: Self)
        ensures
            b.bytes().len() == 0,
    {
        RequestBody { body: Vec::new() }
    }

    /// Takes a frame. A body may be as long as the limit.
    pub fn on_frame(&mut self, data: &[u8], fin: bool, limits: &Limits) -> (step: BodyStep)
        ensures
            if old(self).bytes().len() + data@.len() > limits.max_dns_question_len {
                step is TooLarge && final(self).bytes() == old(self).bytes()
            } else {
                step == (if fin {
                    BodyStep::Complete
                } else {
                    BodyStep::More
                }) && final(self).bytes() == old(self).bytes() + data@
            },
    {
        let max: usize = limits.max_dns_question_len;
        if self.body.len() > max || data.len() > max - self.body.len() {
            return BodyStep::TooLarge;
        }
        wire::push_all(&mut self.body, data);
        if fin {
            BodyStep::Complete
        } else {
            BodyStep::More
        }
    }

    /// What is to be done with the body. An empty one is no query.
    pub fn finish(self, doh_type: DoHType) -> (action: H3Action)
        ensures
            action@ == (if self.bytes().len() == 0 {
                H3Plan::Refuse(400, true)
            } else {
                H3Plan::Payload(self.bytes(), doh_type)
            }),
    {
        if self.body.len() == 0 {
            refuse(400, true)
        } else {
            H3Action::Payload { payload: self.body, doh_type }
        }
    }
}

/// What is sent for a body that is too long.
pub fn body_too_large() -> (m: H3Message)
    ensures
        m.is(response::h3_headers(413, "text/plain"@, 0, None, false), Seq::empty()),
{
    response::send_h3_error(StatusCode { code: 413 }, false)
}

/// The client's address that goes upstream with a query: none where that is not asked for, and
/// none with an oblivious query.
pub open spec fn client_sent(
    enable_ecs: bool,
    oblivious: bool,
    client_ip: Option<IpAddr>,
) -> Option<IpAddr> {
    if enable_ecs && !oblivious {
        client_ip
    } else {
        None
    }
}

/// The client's address that goes upstream with a query.
pub fn upstream_client(enable_ecs: bool, oblivious: bool, client_ip: Option<IpAddr>) -> (ip: Option<
    IpAddr,
>)
    ensures
        ip == client_sent(enable_ecs, oblivious, client_ip),
{
    if enable_ecs && !oblivious {
        client_ip
    } else {
        None
    }
}

/// What goes upstream for an oblivious query does not depend on the client: its address never
/// goes along, whatever the settings are.
pub proof fn law_oblivious_queries_hide_the_client(
    enable_ecs: bool,
    one: Option<IpAddr>,
    other: Option<IpAddr>,
)
    ensures
        client_sent(enable_ecs, true, one) is None,
        client_sent(enable_ecs, true, one) == client_sent(enable_ecs, true, other),
{
}

/// The address of a client that is passed on with its query, where that is asked for.
pub fn client_ip(enable_ecs: bool, remote_addr: Option<SocketAddr>) -> (ip: Option<IpAddr>)
    ensures
        ip == (match remote_addr {
            Some(addr) => if enable_ecs {
                Some(addr.ip_spec())
            } else {
                None
            },
            None => None,
        }),
{
    match remote_addr {
        Some(addr) => if enable_ecs {
            Some(addr.ip())
        } else {
            None
        },
        None => None,
    }
}

/// Where posting is off, no standard query is posted over any version of HTTP, and no oblivious
/// one either unless that is allowed on its own.
pub proof fn law_disabled_posts_are_refused(
    path: Seq<char>,
    content_type: Option<Seq<u8>>,
    accept: Option<Seq<u8>>,
    globals: Globals,
)
    requires
        globals.disable_post,
    ensures
        route_of(Method::Post, path, content_type, accept, globals) !is DohPost,
        !globals.allow_odoh_post ==> route_of(Method::Post, path, content_type, accept, globals)
            !is OdohPost,
{
}

/// The same over HTTP/3.
pub proof fn law_disabled_posts_are_refused_over_h3(
    path: Seq<char>,
    content_type: Option<Seq<char>>,
    accept: Option<Seq<char>>,
    globals: Globals,
    param: Seq<char>,
    limits: Limits,
)
    requires
        globals.disable_post,
    ensures
        h3_plan("POST"@, path, content_type, accept, globals, param, limits) != H3Plan::ReadBody(
            DoHType::Standard,
        ),
        !globals.allow_odoh_post ==> h3_plan(
            "POST"@,
            path,
            content_type,
            accept,
            globals,
            param,
            limits,
        ) !is ReadBody,
{
    reveal_strlit("GET");
    reveal_strlit("POST");
}

/// A request for another path than the two that are served is answered with 404, over every
/// version of HTTP.
pub proof fn law_other_paths_are_not_found(
    method: Method,
    h3_method: Seq<char>,
    path: Seq<char>,
    kind: (Option<Seq<u8>>, Option<Seq<u8>>),
    h3_kind: (Option<Seq<char>>, Option<Seq<char>>),
    globals: Globals,
    param: Seq<char>,
    limits: Limits,
)
    requires
        query_string::bare_path(path) == path,
        path != globals.path@,
        path != globals.odoh_configs_path@,
    ensures
        route_of(method, path, kind.0, kind.1, globals) == refused(404, false),
        h3_plan(h3_method, path, h3_kind.0, h3_kind.1, globals, param, limits) == H3Plan::Refuse(
            404,
            true,
        ),
{
}

/// Over HTTP/1 and HTTP/2, a query goes where its method and its kind lead, and is refused where
/// it may not be posted.
pub proof fn law_queries_are_served(
    path: Seq<char>,
    content_type: Option<Seq<u8>>,
    accept: Option<Seq<u8>>,
    globals: Globals,
    t: DoHType,
)
    requires
        path == globals.path@,
        content_type::request_type(content_type, accept) == Ok::<DoHType, StatusCode>(t),
    ensures
        route_of(Method::Get, path, content_type, accept, globals) == (match t {
            DoHType::Standard => Route::DohGet,
            DoHType::Oblivious => Route::OdohGet,
            DoHType::Json => Route::JsonGet,
        }),
        t is Standard && !globals.disable_post ==> route_of(
            Method::Post,
            path,
            content_type,
            accept,
            globals,
        ) is DohPost,
        t is Oblivious && (!globals.disable_post || globals.allow_odoh_post) ==> route_of(
            Method::Post,
            path,
            content_type,
            accept,
            globals,
        ) is OdohPost,
        t is Json || globals.disable_post && (t is Standard || !globals.allow_odoh_post)
            ==> route_of(Method::Post, path, content_type, accept, globals) == (Route::Refuse {
            status: StatusCode { code: 405 },
            long_cache: false,
        }),
        route_of(Method::Other, path, content_type, accept, globals) == (Route::Refuse {
            status: StatusCode { code: 405 },
            long_cache: false,
        }),
{
}

/// Over HTTP/3, the query of a `GET` is taken from the path and that of a `POST` from the body,
/// where it may be posted.
pub proof fn law_queries_are_served_over_h3(
    path: Seq<char>,
    content_type: Option<Seq<char>>,
    accept: Option<Seq<char>>,
    globals: Globals,
    param: Seq<char>,
    limits: Limits,
    t: DoHType,
)
    requires
        query_string::bare_path(path) == globals.path@,
        globals.path@ != globals.odoh_configs_path@,
        content_type::h3_request_type(content_type, accept) == Ok::<DoHType, StatusCode>(t),
    ensures
        t is Standard && !globals.disable_post ==> h3_plan(
            "POST"@,
            path,
            content_type,
            accept,
            globals,
            param,
            limits,
        ) == H3Plan::ReadBody(DoHType::Standard),
        t is Oblivious && (!globals.disable_post || globals.allow_odoh_post) ==> h3_plan(
            "POST"@,
            path,
            content_type,
            accept,
            globals,
            param,
            limits,
        ) == H3Plan::ReadBody(DoHType::Oblivious),
        t is Json || globals.disable_post && (t is Standard || !globals.allow_odoh_post) ==> h3_plan(
            "POST"@,
            path,
            content_type,
            accept,
            globals,
            param,
            limits,
        ) == H3Plan::Refuse(405, false),
        t is Json ==> h3_plan("GET"@, path, content_type, accept, globals, param, limits)
            == H3Plan::Json(query_string::query_of_path(path)),
        t !is Json ==> h3_plan("GET"@, path, content_type, accept, globals, param, limits) == (
        match query_string::decoded_query(query_string::query_of_path(path), param, limits) {
            Some(query) => H3Plan::Payload(query, t),
            None => H3Plan::Refuse(400, true),
        }),
        forall|method: Seq<char>|
            method != "GET"@ && method != "POST"@ ==> #[trigger] h3_plan(
                method,
                path,
                content_type,
                accept,
                globals,
                param,
                limits,
            ) == H3Plan::Refuse(405, false),
{
    reveal_strlit("GET");
    reveal_strlit("POST");
    assert("GET"@.len() == 3 && "POST"@.len() == 4);
}

/// A post is taken over HTTP/3 exactly where it is over the other versions.
pub proof fn law_versions_take_the_same_posts(
    path: Seq<char>,
    kind: (Option<Seq<u8>>, Option<Seq<u8>>),
    h3_kind: (Option<Seq<char>>, Option<Seq<char>>),
    globals: Globals,
    param: Seq<char>,
    limits: Limits,
)
    requires
        query_string::bare_path(path) == path,
        globals.path@ != globals.odoh_configs_path@,
        content_type::request_type(kind.0, kind.1) == content_type::h3_request_type(
            h3_kind.0,
            h3_kind.1,
        ),
    ensures
        route_of(Method::Post, path, kind.0, kind.1, globals) is DohPost <==> h3_plan(
            "POST"@,
            path,
            h3_kind.0,
            h3_kind.1,
            globals,
            param,
            limits,
        ) == H3Plan::ReadBody(DoHType::Standard),
        route_of(Method::Post, path, kind.0, kind.1, globals) is OdohPost <==> h3_plan(
            "POST"@,
            path,
            h3_kind.0,
            h3_kind.1,
            globals,
            param,
            limits,
        ) == H3Plan::ReadBody(DoHType::Oblivious),
{
    reveal_strlit("GET");
    reveal_strlit("POST");
    assert("GET"@.len() == 3 && "POST"@.len() == 4);
}

/// A request of no known kind is refused with the status that says why, to be kept for long.
pub proof fn law_unknown_kinds_are_refused(
    method: Method,
    h3_method: Seq<char>,
    path: Seq<char>,
    kind: (Option<Seq<u8>>, Option<Seq<u8>>),
    h3_kind: (Option<Seq<char>>, Option<Seq<char>>),
    globals: Globals,
    param: Seq<char>,
    limits: Limits,
)
    requires
        query_string::bare_path(path) == path,
        path == globals.path@,
        path != globals.odoh_configs_path@,
    ensures
        content_type::request_type(kind.0, kind.1) matches Err(status) ==> method !is Other
            ==> route_of(method, path, kind.0, kind.1, globals) == (Route::Refuse {
            status,
            long_cache: true,
        }),
        content_type::h3_request_type(h3_kind.0, h3_kind.1) matches Err(status) ==> h3_plan(
            h3_method,
            path,
            h3_kind.0,
            h3_kind.1,
            globals,
            param,
            limits,
        ) == H3Plan::Refuse(status.code, true),
{
}

/// The public keys for oblivious queries are given to a `GET` of their path, over every version of
/// HTTP and whatever the request accepts, and to nothing else.
pub proof fn law_keys_are_given(
    method: Method,
    h3_method: Seq<char>,
    path: Seq<char>,
    kind: (Option<Seq<u8>>, Option<Seq<u8>>),
    h3_kind: (Option<Seq<char>>, Option<Seq<char>>),
    globals: Globals,
    param: Seq<char>,
    limits: Limits,
)
    requires
        query_string::bare_path(path) == path,
        globals.path@ != globals.odoh_configs_path@,
    ensures
        route_of(method, path, kind.0, kind.1, globals) is OdohConfigs <==> path
            == globals.odoh_configs_path@ && method is Get,
        h3_plan(h3_method, path, h3_kind.0, h3_kind.1, globals, param, limits) is OdohConfigs <==> (
        path == globals.odoh_configs_path@ && h3_method == "GET"@),
        path == globals.odoh_configs_path@ && method !is Get ==> route_of(
            method,
            path,
            kind.0,
            kind.1,
            globals,
        ) == (Route::Refuse { status: StatusCode { code: 405 }, long_cache: false }),
        path == globals.odoh_configs_path@ && h3_method != "GET"@ ==> h3_plan(
            h3_method,
            path,
            h3_kind.0,
            h3_kind.1,
            globals,
            param,
            limits,
        ) == H3Plan::Refuse(405, false),
{
}

/// The client's address goes along with every other query where that is asked for.
pub proof fn law_clients_are_told_where_asked(client: Option<IpAddr>)
    ensures
        client_sent(true, false, client) == client,
        client_sent(false, false, client) is None,
{
}

} // verus!
