//! Which failures are worth another attempt over a fresh connection.

use crate::errors::{
    Cause, DoHError, H3ConnectionFailure, H3ErrorKind, HyperFailure, IoErrorKind, IoFailure,
};
use vstd::prelude::*;

verus! {

pub const DOH_REQUEST_RETRY_LIMIT: usize = 2;

/// Kinds of input or output failures that a fresh connection would meet again.
pub open spec fn lasting_io_kind(kind: IoErrorKind) -> bool {
    kind is InvalidInput || kind is InvalidData || kind is Unsupported || kind is PermissionDenied
        || kind is AlreadyExists || kind is AddrInUse
}

/// HTTP failures that a fresh connection would meet again.
pub open spec fn lasting_hyper(e: HyperFailure) -> bool {
    e.parse || e.parse_too_large || e.parse_status || e.user
}

/// HTTP/3 failures that a fresh connection would meet again.
pub open spec fn lasting_h3(e: H3ErrorKind) -> bool {
    e is TlsFail || e is CryptoFail
}

/// Failures of an HTTP/3 connection that a fresh connection would meet again.
pub open spec fn lasting_h3_connection(e: H3ConnectionFailure) -> bool {
    match e {
        H3ConnectionFailure::H3(inner) => lasting_h3(inner),
        H3ConnectionFailure::NonexistentStream => true,
        H3ConnectionFailure::Other => false,
    }
}

/// An input or output failure is worth another attempt where neither it nor what it stems from
/// would come again.
pub open spec fn retryable_io(e: IoFailure) -> bool
    decreases e,
{
    !lasting_io_kind(e.kind) && match e.source {
        Some(source) => retryable_cause(*source),
        None => true,
    }
}

/// A failure is worth another attempt unless it is known to come again.
pub open spec fn retryable_cause(e: Cause) -> bool
    decreases e,
{
    match e {
        Cause::Io(io) => retryable_io(*io),
        Cause::Hyper(hyper) => !lasting_hyper(hyper),
        Cause::Handshake => true,
        Cause::H3Connection(connection) => !lasting_h3_connection(connection),
        Cause::H3(h3) => !lasting_h3(h3),
        Cause::Other => true,
    }
}

/// The same for a failure to connect over QUIC, to which an HTTP failure says nothing.
pub open spec fn retryable_quic(e: Cause) -> bool {
    e is Hyper || retryable_cause(e)
}

/// Errors that a fresh connection would meet again.
pub open spec fn lasting_error(e: DoHError) -> bool {
    match e {
        DoHError::Incomplete
        | DoHError::InvalidData
        | DoHError::TooLarge
        | DoHError::StaleKey
        | DoHError::TooManyTcpSessions => true,
        DoHError::Hyper(hyper) => lasting_hyper(hyper),
        DoHError::Io(io) => lasting_io_kind(io.kind),
        _ => false,
    }
}

pub fn is_no_rebuild_io_error(err: &IoFailure) -> (lasting: bool)
    ensures
        lasting == lasting_io_kind(err.kind),
{
    match err.kind {
        IoErrorKind::InvalidInput
        | IoErrorKind::InvalidData
        | IoErrorKind::Unsupported
        | IoErrorKind::PermissionDenied
        | IoErrorKind::AlreadyExists
        | IoErrorKind::AddrInUse => true,
        _ => false,
    }
}

pub fn is_no_rebuild_hyper_error(err: &HyperFailure) -> (lasting: bool)
    ensures
        lasting == lasting_hyper(*err),
{
    err.parse || err.parse_too_large || err.parse_status || err.user
}

pub fn is_retryable_hyper_error(err: &HyperFailure) -> (retryable: bool)
    ensures
        retryable == !lasting_hyper(*err),
{
    !is_no_rebuild_hyper_error(err)
}

pub fn is_no_rebuild_h3_error(err: H3ErrorKind) -> (lasting: bool)
    ensures
        lasting == lasting_h3(err),
{
    match err {
        H3ErrorKind::TlsFail | H3ErrorKind::CryptoFail => true,
        H3ErrorKind::Other => false,
    }
}

pub fn is_retryable_h3_error(err: H3ErrorKind) -> (retryable: bool)
    ensures
        retryable == !lasting_h3(err),
{
    !is_no_rebuild_h3_error(err)
}

pub fn is_no_rebuild_h3_connection_error(err: H3ConnectionFailure) -> (lasting: bool)
    ensures
        lasting == lasting_h3_connection(err),
{
    match err {
        H3ConnectionFailure::H3(inner) => is_no_rebuild_h3_error(inner),
        H3ConnectionFailure::NonexistentStream => true,
        H3ConnectionFailure::Other => false,
    }
}

pub fn is_retryable_h3_connection_error(err: H3ConnectionFailure) -> (retryable: bool)
    ensures
        retryable == !lasting_h3_connection(err),
{
    !is_no_rebuild_h3_connection_error(err)
}

pub fn is_retryable_io_error(err: &IoFailure) -> (retryable: bool)
    ensures
        retryable == retryable_io(*err),
    decreases err,
{
    if is_no_rebuild_io_error(err) {
        return false;
    }
    match &err.source {
        Some(source) => is_retryable_std_error(source),
        None => true,
    }
}

pub fn is_retryable_std_error(err: &Cause) -> (retryable: bool)
    ensures
        retryable == retryable_cause(*err),
    decreases err,
{
    match err {
        Cause::Io(io) => is_retryable_io_error(io),
        Cause::Hyper(hyper) => is_retryable_hyper_error(hyper),
        Cause::Handshake => true,
        Cause::H3Connection(connection) => is_retryable_h3_connection_error(*connection),
        Cause::H3(h3) => is_retryable_h3_error(*h3),
        Cause::Other => true,
    }
}

pub fn is_retryable_quic_error(err: &Cause) -> (retryable: bool)
    ensures
        retryable == retryable_quic(*err),
{
    match err {
        Cause::Handshake => true,
        Cause::H3Connection(connection) => is_retryable_h3_connection_error(*connection),
        Cause::Io(io) => is_retryable_io_error(io),
        Cause::H3(h3) => is_retryable_h3_error(*h3),
        Cause::Hyper(_) | Cause::Other => true,
    }
}

pub fn is_no_rebuild_doh_error(err: &DoHError) -> (lasting: bool)
    ensures
        lasting == lasting_error(*err),
{
    match err {
        DoHError::Incomplete
        | DoHError::InvalidData
        | DoHError::TooLarge
        | DoHError::StaleKey
        | DoHError::TooManyTcpSessions => true,
        DoHError::Hyper(hyper) => is_no_rebuild_hyper_error(hyper),
        DoHError::Io(io) => is_no_rebuild_io_error(io),
        _ => false,
    }
}

pub fn is_retryable_doh_error(err: &DoHError) -> (retryable: bool)
    ensures
        retryable == !lasting_error(*err),
{
    !is_no_rebuild_doh_error(err)
}

/// A failure of a pooled HTTP client.
#[derive(Debug)]
pub struct ClientFailure {
    pub connect: bool,
    pub source: Option<Cause>,
}

/// A client's failure is worth another attempt where it could not connect, or where what it
/// stems from is.
pub open spec fn retryable_client(e: ClientFailure) -> bool {
    e.connect || match e.source {
        Some(source) => retryable_cause(source),
        None => true,
    }
}

pub fn is_retryable_h2_client_error(err: &ClientFailure) -> (retryable: bool)
    ensures
        retryable == retryable_client(*err),
{
    if err.connect {
        return true;
    }
    match &err.source {
        Some(source) => is_retryable_std_error(source),
        None => true,
    }
}

/// A failed request over HTTP/2, and whether it is worth another attempt.
#[derive(Debug)]
pub struct H2Failure {
    pub err: DoHError,
    pub retryable: bool,
}

/// The error that a timeout, or anything else, stands for.
pub open spec fn timeout_or_issue(timeout: bool) -> DoHError {
    if timeout {
        DoHError::UpstreamTimeout
    } else {
        DoHError::UpstreamIssue
    }
}

impl H2Failure {
    pub fn new(err: DoHError, retryable: bool) -> (f: Self)
        ensures
            f == (H2Failure { err, retryable }),
    {
        H2Failure { err, retryable }
    }

    pub fn from_doh_error(err: DoHError) -> (f: Self)
        ensures
            f == (H2Failure { err, retryable: !lasting_error(err) }),
    {
        let retryable = is_retryable_doh_error(&err);
        H2Failure::new(err, retryable)
    }

    pub fn from_hyper_legacy_error(err: ClientFailure) -> (f: Self)
        ensures
            f == (H2Failure {
                err: timeout_or_issue(
                    err.source matches Some(Cause::Hyper(hyper)) && hyper.timeout,
                ),
                retryable: retryable_client(err),
            }),
    {
        let retryable = is_retryable_h2_client_error(&err);
        let timeout = match &err.source {
            Some(Cause::Hyper(hyper)) => hyper.timeout,
            _ => false,
        };
        let doh_error = if timeout {
            DoHError::UpstreamTimeout
        } else {
            DoHError::UpstreamIssue
        };
        H2Failure::new(doh_error, retryable)
    }

    pub fn from_hyper_error(err: HyperFailure) -> (f: Self)
        ensures
            f == (H2Failure { err: timeout_or_issue(err.timeout), retryable: !lasting_hyper(err) }),
    {
        let retryable = is_retryable_hyper_error(&err);
        let doh_error = if err.timeout {
            DoHError::UpstreamTimeout
        } else {
            DoHError::UpstreamIssue
        };
        H2Failure::new(doh_error, retryable)
    }
}

/// A failed request over HTTP/3, and whether it is worth another attempt.
#[derive(Debug)]
pub struct H3Failure {
    pub err: DoHError,
    pub retryable: bool,
}

impl H3Failure {
    pub fn new(err: DoHError, retryable: bool) -> (f: Self)
        ensures
            f == (H3Failure { err, retryable }),
    {
        H3Failure { err, retryable }
    }

    pub fn retryable(err: DoHError) -> (f: Self)
        ensures
            f == (H3Failure { err, retryable: true }),
    {
        H3Failure::new(err, true)
    }

    pub fn from_doh_error(err: DoHError) -> (f: Self)
        ensures
            f == (H3Failure { err, retryable: !lasting_error(err) }),
    {
        let retryable = is_retryable_doh_error(&err);
        H3Failure { err, retryable }
    }

    pub fn from_io(err: IoFailure) -> (f: Self)
        ensures
            f == (H3Failure { err: DoHError::Io(err), retryable: retryable_io(err) }),
    {
        let retryable = is_retryable_io_error(&err);
        H3Failure { err: DoHError::Io(err), retryable }
    }

    /// A failure to connect over QUIC.
    pub fn from_boxed_sync(err: Cause) -> (f: Self)
        ensures
            f.retryable == retryable_quic(err),
            f.err == (match err {
                Cause::Io(io) => DoHError::Io(*io),
                _ => DoHError::UpstreamIssue,
            }),
    {
        let retryable = is_retryable_quic_error(&err);
        match err {
            Cause::Io(io) => H3Failure { err: DoHError::Io(*io), retryable },
            _ => H3Failure { err: DoHError::UpstreamIssue, retryable },
        }
    }

    /// A failure to hand a request over. The error keeps the kind and the text of an input or
    /// output failure.
    pub fn from_send_error(err: Cause) -> (f: Self)
        ensures
            f.retryable == retryable_cause(err),
            match err {
                Cause::Io(io) => f.err matches DoHError::Io(kept) && kept.kind == io.kind
                    && kept.message == io.message && kept.source == Some(Box::new(Cause::Other)),
                _ => f.err is UpstreamIssue,
            },
    {
        let retryable = is_retryable_std_error(&err);
        match err {
            Cause::Io(io) => {
                let io = *io;
                H3Failure {
                    err: DoHError::Io(
                        IoFailure {
                            kind: io.kind,
                            message: io.message,
                            source: Some(Box::new(Cause::Other)),
                        },
                    ),
                    retryable,
                }
            },
            _ => H3Failure { err: DoHError::UpstreamIssue, retryable },
        }
    }
}

pub fn is_retryable_h3_failure(failure: &H3Failure) -> (retryable: bool)
    ensures
        retryable == failure.retryable,
{
    failure.retryable
}

pub fn doh_h3_error_to_doh_error(failure: H3Failure) -> (err: DoHError)
    ensures
        err == failure.err,
{
    failure.err
}

/// What to do after a failed attempt: try again, or give up. Where `reset` is set, the kept
/// connection is to be dropped first.
#[derive(Clone, Copy, Debug, PartialEq, Eq, Structural)]
pub enum RetryStep {
    Again,
    GiveUp { reset: bool },
}

/// The attempts of one request: whether it started on a kept connection, and how often it was
/// tried again.
#[derive(Clone, Copy, Debug, PartialEq, Eq, Structural)]
pub struct Retries {
    pub had_cached_client: bool,
    pub retries: usize,
}

impl Retries {
    pub open spec fn wf(self) -> bool {
        self.retries <= DOH_REQUEST_RETRY_LIMIT
    }

    /// A request that failed is tried again only where it started on a kept connection, the
    /// failure is worth it and the limit is not reached.
    pub open spec fn again(self, retryable: bool) -> bool {
        self.had_cached_client && retryable && self.retries < DOH_REQUEST_RETRY_LIMIT
    }

    pub fn new(had_cached_client: bool) -> (r: Self)
        ensures
            r == (Retries { had_cached_client, retries: 0 }),
            r.wf(),
    {
        Retries { had_cached_client, retries: 0 }
    }

    /// Decides after a failed attempt. Before another attempt the kept connection is dropped.
    pub fn after_failure(&mut self, retryable: bool) -> (step: RetryStep)
        requires
            old(self).wf(),
        ensures
            final(self).wf(),
            final(self).had_cached_client == old(self).had_cached_client,
            if old(self).again(retryable) {
                step is Again && final(self).retries == old(self).retries + 1
            } else {
                step == (RetryStep::GiveUp { reset: retryable }) && final(self).retries == old(
                    self,
                ).retries
            },
    {
        if self.had_cached_client && retryable && self.retries < DOH_REQUEST_RETRY_LIMIT {
            self.retries = self.retries + 1;
            RetryStep::Again
        } else {
            RetryStep::GiveUp { reset: retryable }
        }
    }
}

/// How often a request is tried again when its attempts fail one after the other as `failures`
/// says (whether each is worth another attempt).
pub open spec fn times_again(start: Retries, failures: Seq<bool>) -> nat
    decreases failures.len(),
{
    if failures.len() == 0 || !start.again(failures[0]) {
        0
    } else {
        1 + times_again(
            Retries {
                had_cached_client: start.had_cached_client,
                retries: (start.retries + 1) as usize,
            },
            failures.skip(1),
        )
    }
}

/// No request is tried again more often than the limit, and one that did not start on a kept
/// connection never is.
pub proof fn law_retries_are_bounded(start: Retries, failures: Seq<bool>)
    requires
        start.wf(),
    ensures
        start.retries + times_again(start, failures) <= DOH_REQUEST_RETRY_LIMIT,
        !start.had_cached_client ==> times_again(start, failures) == 0,
    decreases failures.len(),
{
    if failures.len() > 0 && start.again(failures[0]) {
        law_retries_are_bounded(
            Retries {
                had_cached_client: start.had_cached_client,
                retries: (start.retries + 1) as usize,
            },
            failures.skip(1),
        );
    }
}

/// A failure that stems from a lasting one is lasting too: wrapping a failure in another of
/// input or output never makes it worth another attempt.
pub proof fn law_wrapping_keeps_lasting(e: IoFailure, inner: Cause)
    requires
        e.source == Some(Box::new(inner)),
        !retryable_cause(inner),
    ensures
        !retryable_io(e),
        !retryable_cause(Cause::Io(Box::new(e))),
{
}

/// The failures that a fresh connection would meet again: those of what was asked, not of the
/// connection.
pub proof fn law_lasting_failures(kind: IoErrorKind, hyper: HyperFailure)
    ensures
        lasting_io_kind(kind) <==> (kind is InvalidInput || kind is InvalidData
            || kind is Unsupported || kind is PermissionDenied || kind is AlreadyExists
            || kind is AddrInUse),
        lasting_hyper(hyper) <==> hyper.parse || hyper.parse_too_large || hyper.parse_status
            || hyper.user,
        lasting_h3(H3ErrorKind::TlsFail) && lasting_h3(H3ErrorKind::CryptoFail),
        !lasting_h3(H3ErrorKind::Other),
        lasting_h3_connection(H3ConnectionFailure::NonexistentStream),
        !lasting_h3_connection(H3ConnectionFailure::Other),
        forall|e: H3ErrorKind| #[trigger]
            lasting_h3_connection(H3ConnectionFailure::H3(e)) == lasting_h3(e),
{
}

/// Which errors of a request are worth another attempt: those of the server or of the way to it.
pub proof fn law_errors_worth_another_attempt(e: DoHError)
    ensures
        e is UpstreamIssue || e is UpstreamTimeout || e is UpstreamJoined || e is ODoHConfigError
            ==> !lasting_error(e),
        e is Incomplete || e is InvalidData || e is TooLarge || e is StaleKey
            || e is TooManyTcpSessions ==> lasting_error(e),
        e matches DoHError::Io(io) ==> lasting_error(e) == lasting_io_kind(io.kind),
        e matches DoHError::Hyper(hyper) ==> lasting_error(e) == lasting_hyper(hyper),
{
}

/// A failure is worth another attempt exactly where it is not lasting itself and what it stems
/// from is worth one.
pub proof fn law_causes_decide(
    e: IoFailure,
    inner: Cause,
    hyper: HyperFailure,
    connection: H3ConnectionFailure,
    h3: H3ErrorKind,
)
    ensures
        e.source is None ==> retryable_io(e) == !lasting_io_kind(e.kind),
        e.source == Some(Box::new(inner)) ==> retryable_io(e) == (!lasting_io_kind(e.kind)
            && retryable_cause(inner)),
        retryable_cause(Cause::Io(Box::new(e))) == retryable_io(e),
        retryable_cause(Cause::Hyper(hyper)) == !lasting_hyper(hyper),
        retryable_cause(Cause::H3Connection(connection)) == !lasting_h3_connection(connection),
        retryable_cause(Cause::H3(h3)) == !lasting_h3(h3),
        retryable_cause(Cause::Handshake) && retryable_cause(Cause::Other),
        retryable_quic(Cause::Hyper(hyper)),
        inner !is Hyper ==> retryable_quic(inner) == retryable_cause(inner),
        retryable_client(ClientFailure { connect: true, source: Some(inner) }),
        retryable_client(ClientFailure { connect: false, source: None }),
        retryable_client(ClientFailure { connect: false, source: Some(inner) })
            == retryable_cause(inner),
        timeout_or_issue(true) is UpstreamTimeout,
        timeout_or_issue(false) is UpstreamIssue,
{
}

/// A request that started on a kept connection is tried again twice while its failures are worth
/// it, and not once more; the first that is not ends it.
pub proof fn law_requests_are_tried_again_twice(failures: Seq<bool>)
    ensures
        failures.len() >= 2 && failures[0] && failures[1] ==> times_again(
            Retries { had_cached_client: true, retries: 0 },
            failures,
        ) == 2,
        failures.len() >= 2 && failures[0] && !failures[1] ==> times_again(
            Retries { had_cached_client: true, retries: 0 },
            failures,
        ) == 1,
        failures.len() >= 1 && !failures[0] ==> times_again(
            Retries { had_cached_client: true, retries: 0 },
            failures,
        ) == 0,
{
    if failures.len() >= 2 {
        assert(failures.skip(1)[0] == failures[1]);
    }
    reveal_with_fuel(times_again, 4);
}

} // verus!
