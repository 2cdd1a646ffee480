//! Errors of the server, their texts and the HTTP statuses that answer them.

use crate::text;
use crate::time::Duration;
use vstd::prelude::*;

verus! {

/// What kind of input or output went wrong, as far as the server tells kinds apart.
#[derive(Clone, Copy, Debug, PartialEq, Eq, Structural)]
pub enum IoErrorKind {
    NotFound,
    PermissionDenied,
    AddrInUse,
    AddrNotAvailable,
    AlreadyExists,
    InvalidInput,
    InvalidData,
    Unsupported,
    Other,
}

/// A failure of input or output, and the failure behind it where there is one.
#[derive(Debug)]
pub struct IoFailure {
    pub kind: IoErrorKind,
    pub message: String,
    pub source: Option<Box<Cause>>,
}

/// A failure of the HTTP implementation.
#[derive(Debug)]
pub struct HyperFailure {
    pub parse: bool,
    pub parse_too_large: bool,
    pub parse_status: bool,
    pub user: bool,
    pub timeout: bool,
    pub message: String,
}

/// A failure of HTTP/3 itself.
#[derive(Clone, Copy, Debug, PartialEq, Eq, Structural)]
pub enum H3ErrorKind {
    TlsFail,
    CryptoFail,
    Other,
}

/// A failure of an HTTP/3 connection.
#[derive(Clone, Copy, Debug, PartialEq, Eq, Structural)]
pub enum H3ConnectionFailure {
    H3(H3ErrorKind),
    NonexistentStream,
    Other,
}

/// A failure that another one may stem from.
#[derive(Debug)]
pub enum Cause {
    Io(Box<IoFailure>),
    Hyper(HyperFailure),
    Handshake,
    H3Connection(H3ConnectionFailure),
    H3(H3ErrorKind),
    Other,
}

/// What kind of failure ended an attempt.
#[derive(Clone, Copy, Debug, PartialEq, Eq, Structural)]
pub enum UpstreamErrorKind {
    Incomplete,
    InvalidData,
    TooLarge,
    UpstreamIssue,
    UpstreamTimeout,
    StaleKey,
    Hyper,
    Io,
    ODoHConfigError,
    TooManyTcpSessions,
}

impl UpstreamErrorKind {
    /// The kind of an error.
    pub open spec fn of(err: DoHError) -> UpstreamErrorKind {
        match err {
            DoHError::Incomplete => UpstreamErrorKind::Incomplete,
            DoHError::InvalidData => UpstreamErrorKind::InvalidData,
            DoHError::TooLarge => UpstreamErrorKind::TooLarge,
            DoHError::UpstreamIssue => UpstreamErrorKind::UpstreamIssue,
            DoHError::UpstreamTimeout => UpstreamErrorKind::UpstreamTimeout,
            DoHError::StaleKey => UpstreamErrorKind::StaleKey,
            DoHError::Hyper(_) => UpstreamErrorKind::Hyper,
            DoHError::Io(_) => UpstreamErrorKind::Io,
            DoHError::ODoHConfigError(_) => UpstreamErrorKind::ODoHConfigError,
            DoHError::TooManyTcpSessions => UpstreamErrorKind::TooManyTcpSessions,
            DoHError::UpstreamJoined(_) => UpstreamErrorKind::UpstreamIssue,
        }
    }

    /// The name of a kind.
    pub open spec fn name(self) -> Seq<char> {
        match self {
            UpstreamErrorKind::Incomplete => "incomplete"@,
            UpstreamErrorKind::InvalidData => "invalid_data"@,
            UpstreamErrorKind::TooLarge => "too_large"@,
            UpstreamErrorKind::UpstreamIssue => "upstream_issue"@,
            UpstreamErrorKind::UpstreamTimeout => "upstream_timeout"@,
            UpstreamErrorKind::StaleKey => "stale_key"@,
            UpstreamErrorKind::Hyper => "hyper"@,
            UpstreamErrorKind::Io => "io"@,
            UpstreamErrorKind::ODoHConfigError => "odoh_config_error"@,
            UpstreamErrorKind::TooManyTcpSessions => "too_many_tcp_sessions"@,
        }
    }

    fn from_doh_error(err: &DoHError) -> (kind: Self)
        ensures
            kind == UpstreamErrorKind::of(*err),
    {
        match err {
            DoHError::Incomplete => UpstreamErrorKind::Incomplete,
            DoHError::InvalidData => UpstreamErrorKind::InvalidData,
            DoHError::TooLarge => UpstreamErrorKind::TooLarge,
            DoHError::UpstreamIssue => UpstreamErrorKind::UpstreamIssue,
            DoHError::UpstreamTimeout => UpstreamErrorKind::UpstreamTimeout,
            DoHError::StaleKey => UpstreamErrorKind::StaleKey,
            DoHError::Hyper(_) => UpstreamErrorKind::Hyper,
            DoHError::Io(_) => UpstreamErrorKind::Io,
            DoHError::ODoHConfigError(_) => UpstreamErrorKind::ODoHConfigError,
            DoHError::TooManyTcpSessions => UpstreamErrorKind::TooManyTcpSessions,
            DoHError::UpstreamJoined(_) => UpstreamErrorKind::UpstreamIssue,
        }
    }

    /// The name of the kind, as it stands in messages.
    pub fn to_text(&self) -> (s: String)
        ensures
            s@ == self.name(),
    {
        match self {
            UpstreamErrorKind::Incomplete => "incomplete".to_owned(),
            UpstreamErrorKind::InvalidData => "invalid_data".to_owned(),
            UpstreamErrorKind::TooLarge => "too_large".to_owned(),
            UpstreamErrorKind::UpstreamIssue => "upstream_issue".to_owned(),
            UpstreamErrorKind::UpstreamTimeout => "upstream_timeout".to_owned(),
            UpstreamErrorKind::StaleKey => "stale_key".to_owned(),
            UpstreamErrorKind::Hyper => "hyper".to_owned(),
            UpstreamErrorKind::Io => "io".to_owned(),
            UpstreamErrorKind::ODoHConfigError => "odoh_config_error".to_owned(),
            UpstreamErrorKind::TooManyTcpSessions => "too_many_tcp_sessions".to_owned(),
        }
    }
}

/// A failed attempt to ask an upstream server.
#[derive(Clone, Debug)]
pub struct UpstreamAttemptError {
    pub address: String,
    pub duration: Duration,
    pub error_kind: UpstreamErrorKind,
    pub error_message: String,
}

/// What a failed attempt says.
pub struct AttemptView {
    pub address: Seq<char>,
    pub duration: Duration,
    pub error_kind: UpstreamErrorKind,
    pub error_message: Seq<char>,
}

impl View for UpstreamAttemptError {
    type V = AttemptView;

    open spec fn view(&self) -> AttemptView {
        AttemptView {
            address: self.address@,
            duration: self.duration,
            error_kind: self.error_kind,
            error_message: self.error_message@,
        }
    }
}

/// What each attempt of a list says.
pub open spec fn attempt_views(attempts: Seq<UpstreamAttemptError>) -> Seq<AttemptView> {
    attempts.map_values(|a: UpstreamAttemptError| a@)
}

/// What a failed attempt says of an error.
pub open spec fn attempt_of(
    address: Seq<char>,
    duration: Duration,
    err: DoHError,
) -> AttemptView {
    AttemptView {
        address,
        duration,
        error_kind: UpstreamErrorKind::of(err),
        error_message: err.message(),
    }
}

impl UpstreamAttemptError {
    pub fn from_doh_error(address: String, duration: Duration, err: &DoHError) -> (a: Self)
        ensures
            a@ == attempt_of(address@, duration, *err),
            a.address == address,
    {
        UpstreamAttemptError {
            address,
            duration,
            error_kind: UpstreamErrorKind::from_doh_error(err),
            error_message: err.to_text(),
        }
    }
}

/// Why a request could not be answered.
#[derive(Debug)]
pub enum DoHError {
    Incomplete,
    InvalidData,
    TooLarge,
    UpstreamIssue,
    UpstreamTimeout,
    StaleKey,
    Hyper(HyperFailure),
    Io(IoFailure),
    ODoHConfigError(String),
    TooManyTcpSessions,
    UpstreamJoined(Vec<UpstreamAttemptError>),
}

/// The text of one attempt in the list of attempts.
pub open spec fn attempt_text(a: AttemptView) -> Seq<char> {
    "; "@ + a.address + " (kind="@ + a.error_kind.name() + ", duration_ms="@ + text::decimal(
        a.duration.millis(),
    ) + "): "@ + a.error_message
}

/// The texts of attempts, one after the other.
pub open spec fn attempts_text(attempts: Seq<AttemptView>) -> Seq<char>
    decreases attempts.len(),
{
    if attempts.len() == 0 {
        Seq::empty()
    } else {
        attempts_text(attempts.drop_last()) + attempt_text(attempts.last())
    }
}

impl DoHError {
    /// The text of an error.
    pub open spec fn message(self) -> Seq<char> {
        match self {
            DoHError::Incomplete => "Incomplete"@,
            DoHError::InvalidData => "Invalid data"@,
            DoHError::TooLarge => "Too large"@,
            DoHError::UpstreamIssue => "Upstream error"@,
            DoHError::UpstreamTimeout => "Upstream timeout"@,
            DoHError::StaleKey => "Stale key material"@,
            DoHError::Hyper(e) => "HTTP error: "@ + e.message@,
            DoHError::Io(e) => "IO error: "@ + e.message@,
            DoHError::ODoHConfigError(e) => "ODoH config error: "@ + e@,
            DoHError::TooManyTcpSessions => "Too many TCP sessions"@,
            DoHError::UpstreamJoined(attempts) => "All upstreams failed"@ + attempts_text(
                attempt_views(attempts@),
            ),
        }
    }

    /// The text of the error, as it stands in logs.
    pub fn to_text(&self) -> (s: String)
        ensures
            s@ == self.message(),
    {
        match self {
            DoHError::Incomplete => "Incomplete".to_owned(),
            DoHError::InvalidData => "Invalid data".to_owned(),
            DoHError::TooLarge => "Too large".to_owned(),
            DoHError::UpstreamIssue => "Upstream error".to_owned(),
            DoHError::UpstreamTimeout => "Upstream timeout".to_owned(),
            DoHError::StaleKey => "Stale key material".to_owned(),
            DoHError::Hyper(e) => text::joined("HTTP error: ", e.message.as_str()),
            DoHError::Io(e) => text::joined("IO error: ", e.message.as_str()),
            DoHError::ODoHConfigError(e) => text::joined("ODoH config error: ", e.as_str()),
            DoHError::TooManyTcpSessions => "Too many TCP sessions".to_owned(),
            DoHError::UpstreamJoined(attempts) => joined_text(attempts),
        }
    }

    /// The error of a request after every attempt failed.
    pub fn from_upstream_attempts(attempts: Vec<UpstreamAttemptError>) -> (err: Self)
        ensures
            err == (if attempts@.len() == 0 {
                DoHError::UpstreamIssue
            } else {
                DoHError::UpstreamJoined(attempts)
            }),
    {
        if attempts.len() == 0 {
            DoHError::UpstreamIssue
        } else {
            DoHError::UpstreamJoined(attempts)
        }
    }
}

fn joined_text(attempts: &Vec<UpstreamAttemptError>) -> (s: String)
    ensures
        s@ == "All upstreams failed"@ + attempts_text(attempt_views(attempts@)),
{
    let ghost views = attempt_views(attempts@);
    let mut s = "All upstreams failed".to_owned();
    let mut i: usize = 0;
    assert(views.take(0) =~= Seq::empty());
    assert(s@ =~= "All upstreams failed"@ + attempts_text(views.take(0)));
    while i < attempts.len()
        invariant
            i <= attempts@.len(),
            views == attempt_views(attempts@),
            s@ == "All upstreams failed"@ + attempts_text(views.take(i as int)),
        decreases attempts@.len() - i,
    {
        let ghost before = s@;
        let a = &attempts[i];
        s.append("; ");
        s.append(a.address.as_str());
        s.append(" (kind=");
        s.append(a.error_kind.to_text().as_str());
        s.append(", duration_ms=");
        s.append(text::decimal_text(a.duration.as_millis()).as_str());
        s.append("): ");
        s.append(a.error_message.as_str());
        proof {
            assert(views.take(i + 1).drop_last() =~= views.take(i as int));
            assert(views.take(i + 1).last() == a@);
            assert(s@ =~= before + attempt_text(a@));
            assert(s@ =~= "All upstreams failed"@ + (attempts_text(views.take(i as int))
                + attempt_text(a@)));
        }
        i = i + 1;
    }
    assert(views.take(i as int) =~= views);
    s
}

/// An HTTP status.
#[derive(Clone, Copy, Debug, PartialEq, Eq, Structural)]
pub struct StatusCode {
    pub code: u16,
}

/// The status that answers an error.
pub open spec fn status_of(err: DoHError) -> StatusCode {
    match err {
        DoHError::Incomplete => StatusCode { code: 422 },
        DoHError::InvalidData => StatusCode { code: 400 },
        DoHError::TooLarge => StatusCode { code: 413 },
        DoHError::UpstreamIssue => StatusCode { code: 502 },
        DoHError::UpstreamTimeout => StatusCode { code: 502 },
        DoHError::StaleKey => StatusCode { code: 401 },
        DoHError::Hyper(_) => StatusCode { code: 503 },
        DoHError::Io(_) => StatusCode { code: 500 },
        DoHError::ODoHConfigError(_) => StatusCode { code: 500 },
        DoHError::TooManyTcpSessions => StatusCode { code: 503 },
        DoHError::UpstreamJoined(_) => StatusCode { code: 502 },
    }
}

impl From<DoHError> for StatusCode {
    fn from(e: DoHError) -> (status: StatusCode) {
        match e {
            DoHError::Incomplete => StatusCode { code: 422 },
            DoHError::InvalidData => StatusCode { code: 400 },
            DoHError::TooLarge => StatusCode { code: 413 },
            DoHError::UpstreamIssue => StatusCode { code: 502 },
            DoHError::UpstreamTimeout => StatusCode { code: 502 },
            DoHError::StaleKey => StatusCode { code: 401 },
            DoHError::Hyper(_) => StatusCode { code: 503 },
            DoHError::Io(_) => StatusCode { code: 500 },
            DoHError::ODoHConfigError(_) => StatusCode { code: 500 },
            DoHError::TooManyTcpSessions => StatusCode { code: 503 },
            DoHError::UpstreamJoined(_) => StatusCode { code: 502 },
        }
    }
}

impl vstd::std_specs::convert::FromSpecImpl<DoHError> for StatusCode {
    open spec fn obeys_from_spec() -> bool {
        true
    }

    open spec fn from_spec(e: DoHError) -> StatusCode {
        status_of(e)
    }
}

/// Every error is answered with the status of a client's or of a server's error.
pub proof fn law_errors_have_error_statuses(err: DoHError)
    ensures
        400 <= status_of(err).code < 600,
{
}

/// After failed attempts the error names every one of them; with no attempt there is nothing to
/// name.
pub proof fn law_joined_error_names_every_attempt(attempts: Seq<AttemptView>, i: int)
    requires
        0 <= i < attempts.len(),
    ensures
        exists|from: int|
            0 <= from && from + attempt_text(attempts[i]).len() <= attempts_text(attempts).len()
                && #[trigger] attempts_text(attempts).subrange(
                from,
                from + attempt_text(attempts[i]).len(),
            ) == attempt_text(attempts[i]),
    decreases attempts.len(),
{
    let all = attempts_text(attempts);
    let before = attempts_text(attempts.drop_last());
    let one = attempt_text(attempts[i]);
    if i == attempts.len() - 1 {
        let from = before.len() as int;
        assert(all.subrange(from, from + one.len()) =~= one);
    } else {
        law_joined_error_names_every_attempt(attempts.drop_last(), i);
        let from = choose|from: int|
            0 <= from && from + one.len() <= before.len() && #[trigger] before.subrange(
                from,
                from + one.len(),
            ) == one;
        assert(all.subrange(from, from + one.len()) =~= before.subrange(from, from + one.len()));
    }
}

/// The status tells whose fault it was: bad queries are the client's, failed servers a gateway's,
/// and too much work or a failed connection say that the service is not there.
pub proof fn law_statuses_of_errors(
    hyper: HyperFailure,
    io: IoFailure,
    text: String,
    attempts: Vec<UpstreamAttemptError>,
)
    ensures
        status_of(DoHError::Incomplete).code == 422,
        status_of(DoHError::InvalidData).code == 400,
        status_of(DoHError::TooLarge).code == 413,
        status_of(DoHError::StaleKey).code == 401,
        status_of(DoHError::UpstreamIssue).code == 502,
        status_of(DoHError::UpstreamTimeout).code == 502,
        status_of(DoHError::UpstreamJoined(attempts)).code == 502,
        status_of(DoHError::Hyper(hyper)).code == 503,
        status_of(DoHError::TooManyTcpSessions).code == 503,
        status_of(DoHError::Io(io)).code == 500,
        status_of(DoHError::ODoHConfigError(text)).code == 500,
{
}

/// Errors keep their kind when they are told of in a list of attempts.
pub proof fn law_kinds_of_errors(err: DoHError)
    ensures
        err is UpstreamIssue || err is UpstreamJoined <==> UpstreamErrorKind::of(err)
            is UpstreamIssue,
        err is UpstreamTimeout <==> UpstreamErrorKind::of(err) is UpstreamTimeout,
        err is Incomplete <==> UpstreamErrorKind::of(err) is Incomplete,
        err is InvalidData <==> UpstreamErrorKind::of(err) is InvalidData,
        err is TooLarge <==> UpstreamErrorKind::of(err) is TooLarge,
        err is StaleKey <==> UpstreamErrorKind::of(err) is StaleKey,
        err is Hyper <==> UpstreamErrorKind::of(err) is Hyper,
        err is Io <==> UpstreamErrorKind::of(err) is Io,
        err is ODoHConfigError <==> UpstreamErrorKind::of(err) is ODoHConfigError,
        err is TooManyTcpSessions <==> UpstreamErrorKind::of(err) is TooManyTcpSessions,
{
}

/// The attempts of a list are told of one after the other, in their order, and each with where it
/// went, how long it took, its kind and its text.
pub proof fn law_attempts_are_told_in_order(first: Seq<AttemptView>, second: Seq<AttemptView>)
    ensures
        attempts_text(first + second) == attempts_text(first) + attempts_text(second),
        first.len() == 1 ==> attempts_text(first) == "; "@ + first[0].address + " (kind="@
            + first[0].error_kind.name() + ", duration_ms="@ + text::decimal(
            first[0].duration.millis(),
        ) + "): "@ + first[0].error_message,
    decreases second.len(),
{
    if second.len() > 0 {
        law_attempts_are_told_in_order(first, second.drop_last());
        assert((first + second).drop_last() =~= first + second.drop_last());
        assert((first + second).last() == second.last());
        assert(attempts_text(first + second) =~= attempts_text(first) + attempts_text(second));
    } else {
        assert(first + second =~= first);
        assert(attempts_text(first) + attempts_text(second) =~= attempts_text(first));
    }
    if first.len() == 1 {
        assert(first.drop_last() =~= Seq::empty());
        assert(attempts_text(Seq::empty()) + attempt_text(first.last()) =~= attempt_text(
            first.last(),
        ));
    }
}

/// The text of each error, with what it stems from where there is something.
pub proof fn law_texts_of_errors(
    hyper: HyperFailure,
    io: IoFailure,
    reason: String,
    attempts: Vec<UpstreamAttemptError>,
)
    ensures
        DoHError::Incomplete.message() == "Incomplete"@,
        DoHError::InvalidData.message() == "Invalid data"@,
        DoHError::TooLarge.message() == "Too large"@,
        DoHError::UpstreamIssue.message() == "Upstream error"@,
        DoHError::UpstreamTimeout.message() == "Upstream timeout"@,
        DoHError::StaleKey.message() == "Stale key material"@,
        DoHError::TooManyTcpSessions.message() == "Too many TCP sessions"@,
        DoHError::Hyper(hyper).message() == "HTTP error: "@ + hyper.message@,
        DoHError::Io(io).message() == "IO error: "@ + io.message@,
        DoHError::ODoHConfigError(reason).message() == "ODoH config error: "@ + reason@,
        "All upstreams failed"@.is_prefix_of(DoHError::UpstreamJoined(attempts).message()),
        attempts@.len() == 1 ==> DoHError::UpstreamJoined(attempts).message()
            == "All upstreams failed"@ + ("; "@ + attempts@[0].address@ + " (kind="@
            + attempts@[0].error_kind.name() + ", duration_ms="@ + text::decimal(
            attempts@[0].duration.millis(),
        ) + "): "@ + attempts@[0].error_message@),
{
    let m = DoHError::UpstreamJoined(attempts).message();
    assert(m.take("All upstreams failed"@.len() as int) =~= "All upstreams failed"@);
    if attempts@.len() == 1 {
        let views = attempt_views(attempts@);
        assert(views.len() == 1 && views.last() == attempts@[0]@);
        assert(views.drop_last() =~= Seq::empty());
        assert(attempts_text(views.drop_last()) =~= Seq::empty());
        assert(attempts_text(views) =~= attempt_text(attempts@[0]@));
    }
}

/// The name of each kind of error.
pub proof fn law_names_of_kinds()
    ensures
        UpstreamErrorKind::Incomplete.name() == "incomplete"@,
        UpstreamErrorKind::InvalidData.name() == "invalid_data"@,
        UpstreamErrorKind::TooLarge.name() == "too_large"@,
        UpstreamErrorKind::UpstreamIssue.name() == "upstream_issue"@,
        UpstreamErrorKind::UpstreamTimeout.name() == "upstream_timeout"@,
        UpstreamErrorKind::StaleKey.name() == "stale_key"@,
        UpstreamErrorKind::Hyper.name() == "hyper"@,
        UpstreamErrorKind::Io.name() == "io"@,
        UpstreamErrorKind::ODoHConfigError.name() == "odoh_config_error"@,
        UpstreamErrorKind::TooManyTcpSessions.name() == "too_many_tcp_sessions"@,
{
}

} // verus!
