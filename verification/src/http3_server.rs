//! Running the listeners: binding, certificates that change, and restarts.

use crate::errors::{Cause, DoHError, IoErrorKind, IoFailure};
use crate::text;
use crate::tls;
use vstd::prelude::*;

verus! {

pub const H3_SUPERVISOR_RESTART_DELAY_MS: u64 = 500;

/// What the HTTP/3 server waits for.
#[derive(Clone, Copy, Debug, PartialEq, Eq, Structural)]
pub enum H3ServerState {
    Validating,
    AwaitingReload,
    Binding,
    Listening,
    Serving,
    Revalidating,
    Restarting,
    Closing,
    Finished,
}

/// What happens to it.
#[derive(Debug)]
pub enum H3ServerEvent {
    /// The certificates were looked at, and are in order or not.
    Validated(bool),
    /// The certificates changed, or will never change again.
    Reload(bool),
    /// So many sockets were bound; the last that could not be failed with this.
    Bound { sockets: usize, last_error: Option<IoFailure> },
    /// The sockets are being listened on, or cannot be.
    ListenStarted(bool),
    /// All listeners have ended.
    Joined(Result<(), DoHError>),
}

/// What it has to do next.
#[derive(Debug)]
pub enum H3ServerAction {
    Validate,
    WaitForReload,
    Bind,
    Listen,
    Serve,
    ShutDownAndJoin,
    Join,
    Fail(DoHError),
    Ignore,
}

/// The failure to bind any address.
pub open spec fn is_bind_failure(
    err: DoHError,
    last_error: Option<IoFailure>,
    message: Seq<char>,
) -> bool {
    match last_error {
        Some(e) => err == DoHError::Io(e),
        None => err matches DoHError::Io(e) && tls::is_failure(
            e,
            IoErrorKind::AddrNotAvailable,
            message,
        ),
    }
}

fn bind_failure(last_error: Option<IoFailure>, message: &str) -> (err: DoHError)
    ensures
        is_bind_failure(err, last_error, message@),
{
    match last_error {
        Some(e) => DoHError::Io(e),
        None => DoHError::Io(
            IoFailure {
                kind: IoErrorKind::AddrNotAvailable,
                message: message.to_owned(),
                source: Some(Box::new(Cause::Other)),
            },
        ),
    }
}

/// The error with which a server ends after its listeners did.
pub open spec fn end_error(joined: Result<(), DoHError>) -> DoHError {
    match joined {
        Ok(_) => DoHError::UpstreamIssue,
        Err(e) => e,
    }
}

fn error_at_end(joined: Result<(), DoHError>) -> (err: DoHError)
    ensures
        err == end_error(joined),
{
    match joined {
        Ok(_) => DoHError::UpstreamIssue,
        Err(e) => e,
    }
}

/// What an event comes to in a state: the next state and what has to be done.
pub open spec fn serves(
    state: H3ServerState,
    event: H3ServerEvent,
    next: H3ServerState,
    action: H3ServerAction,
) -> bool {
    match (state, event) {
        (H3ServerState::Validating, H3ServerEvent::Validated(ok)) => if ok {
            next is Binding && action is Bind
        } else {
            next is AwaitingReload && action is WaitForReload
        },
        (H3ServerState::AwaitingReload, H3ServerEvent::Reload(changed)) => if changed {
            next is Validating && action is Validate
        } else {
            next is Finished && action == H3ServerAction::Fail(DoHError::UpstreamIssue)
        },
        (H3ServerState::Binding, H3ServerEvent::Bound { sockets, last_error }) => if sockets == 0 {
            next is Finished && (action matches H3ServerAction::Fail(err) && is_bind_failure(
                err,
                last_error,
                "No available HTTP/3 listen addresses"@,
            ))
        } else {
            next is Listening && action is Listen
        },
        (H3ServerState::Listening, H3ServerEvent::ListenStarted(ok)) => if ok {
            next is Serving && action is Serve
        } else {
            next is Finished && action == H3ServerAction::Fail(DoHError::UpstreamIssue)
        },
        (H3ServerState::Serving, H3ServerEvent::Joined(joined)) => next is Finished && action
            == H3ServerAction::Fail(end_error(joined)),
        (H3ServerState::Serving, H3ServerEvent::Reload(changed)) => if changed {
            next is Revalidating && action is Validate
        } else {
            next is Closing && action is Join
        },
        (H3ServerState::Revalidating, H3ServerEvent::Validated(ok)) => if ok {
            next is Restarting && action is ShutDownAndJoin
        } else {
            next is Serving && action is Serve
        },
        (H3ServerState::Restarting, H3ServerEvent::Joined(joined)) => match joined {
            Ok(_) => next is Validating && action is Validate,
            Err(e) => next is Finished && action == H3ServerAction::Fail(e),
        },
        (H3ServerState::Closing, H3ServerEvent::Joined(joined)) => next is Finished && action
            == H3ServerAction::Fail(end_error(joined)),
        _ => next == state && action is Ignore,
    }
}

/// Starts the HTTP/3 server. It needs both files for TLS.
pub fn start_http3(cert_path: &Option<String>, key_path: &Option<String>) -> (r: (
    H3ServerState,
    H3ServerAction,
))
    ensures
        if cert_path is Some && key_path is Some {
            r.0 is Validating && r.1 is Validate
        } else {
            r.0 is Finished && r.1 == H3ServerAction::Fail(DoHError::InvalidData)
        },
{
    if cert_path.is_some() && key_path.is_some() {
        (H3ServerState::Validating, H3ServerAction::Validate)
    } else {
        (H3ServerState::Finished, H3ServerAction::Fail(DoHError::InvalidData))
    }
}

/// Takes what happened to the HTTP/3 server. Certificates that are not in order are not used: at
/// the start it waits for others, and later it goes on with those it has.
pub fn on_http3_event(state: H3ServerState, event: H3ServerEvent) -> (r: (
    H3ServerState,
    H3ServerAction,
))
    ensures
        serves(state, event, r.0, r.1),
{
    match (state, event) {
        (H3ServerState::Validating, H3ServerEvent::Validated(ok)) => if ok {
            (H3ServerState::Binding, H3ServerAction::Bind)
        } else {
            (H3ServerState::AwaitingReload, H3ServerAction::WaitForReload)
        },
        (H3ServerState::AwaitingReload, H3ServerEvent::Reload(changed)) => if changed {
            (H3ServerState::Validating, H3ServerAction::Validate)
        } else {
            (H3ServerState::Finished, H3ServerAction::Fail(DoHError::UpstreamIssue))
        },
        (H3ServerState::Binding, H3ServerEvent::Bound { sockets, last_error }) => if sockets == 0 {
            (
                H3ServerState::Finished,
                H3ServerAction::Fail(
                    bind_failure(last_error, "No available HTTP/3 listen addresses"),
                ),
            )
        } else {
            (H3ServerState::Listening, H3ServerAction::Listen)
        },
        (H3ServerState::Listening, H3ServerEvent::ListenStarted(ok)) => if ok {
            (H3ServerState::Serving, H3ServerAction::Serve)
        } else {
            (H3ServerState::Finished, H3ServerAction::Fail(DoHError::UpstreamIssue))
        },
        (H3ServerState::Serving, H3ServerEvent::Joined(joined)) => (
            H3ServerState::Finished,
            H3ServerAction::Fail(error_at_end(joined)),
        ),
        (H3ServerState::Serving, H3ServerEvent::Reload(changed)) => if changed {
            (H3ServerState::Revalidating, H3ServerAction::Validate)
        } else {
            (H3ServerState::Closing, H3ServerAction::Join)
        },
        (H3ServerState::Revalidating, H3ServerEvent::Validated(ok)) => if ok {
            (H3ServerState::Restarting, H3ServerAction::ShutDownAndJoin)
        } else {
            (H3ServerState::Serving, H3ServerAction::Serve)
        },
        (H3ServerState::Restarting, H3ServerEvent::Joined(joined)) => match joined {
            Ok(_) => (H3ServerState::Validating, H3ServerAction::Validate),
            Err(e) => (H3ServerState::Finished, H3ServerAction::Fail(e)),
        },
        (H3ServerState::Closing, H3ServerEvent::Joined(joined)) => (
            H3ServerState::Finished,
            H3ServerAction::Fail(error_at_end(joined)),
        ),
        (state, _) => (state, H3ServerAction::Ignore),
    }
}

/// The HTTP/3 server never ends by itself but with an error, and an ended one stays so.
pub proof fn law_http3_ends_with_an_error(
    state: H3ServerState,
    event: H3ServerEvent,
    next: H3ServerState,
    action: H3ServerAction,
)
    requires
        serves(state, event, next, action),
    ensures
        next is Finished && state !is Finished ==> action is Fail,
        state is Finished ==> next is Finished && action is Ignore,
{
}

/// Sockets are bound only once the certificates were found in order.
pub proof fn law_no_bind_before_certificates(
    state: H3ServerState,
    event: H3ServerEvent,
    next: H3ServerState,
    action: H3ServerAction,
)
    requires
        serves(state, event, next, action),
        action is Bind,
    ensures
        state is Validating,
        event == H3ServerEvent::Validated(true),
{
}

/// What the supervisor of the HTTP/3 server waits for.
#[derive(Clone, Copy, Debug, PartialEq, Eq, Structural)]
pub enum SupervisorState {
    Checking,
    Watching,
    Running,
    Delaying,
    Stopped,
}

/// What happens to the supervisor.
#[derive(Clone, Copy, Debug, PartialEq, Eq, Structural)]
pub enum SupervisorEvent {
    /// Whether a stop was asked for so far.
    StopRequested(bool),
    /// Whether the watcher of the certificates runs.
    WatcherStarted(bool),
    /// A stop was asked for now.
    Stop,
    /// The server ended, with an error or without.
    ServerEnded { failed: bool },
    /// The delay is over.
    DelayOver,
}

/// What the supervisor has to do next.
#[derive(Clone, Copy, Debug, PartialEq, Eq, Structural)]
pub enum SupervisorAction {
    CheckStop,
    StartWatcher,
    RunServer,
    /// Wait before the next try; where a server ran, its watcher is told to end.
    Delay { end_watcher: bool },
    /// End; where a server ran, its watcher is told to end.
    Exit { end_watcher: bool },
    Ignore,
}

/// What an event comes to for the supervisor.
pub open spec fn supervised(state: SupervisorState, event: SupervisorEvent) -> (
    SupervisorState,
    SupervisorAction,
) {
    match (state, event) {
        (SupervisorState::Checking, SupervisorEvent::StopRequested(stop)) => if stop {
            (SupervisorState::Stopped, SupervisorAction::Exit { end_watcher: false })
        } else {
            (SupervisorState::Watching, SupervisorAction::StartWatcher)
        },
        (SupervisorState::Watching, SupervisorEvent::WatcherStarted(started)) => if started {
            (SupervisorState::Running, SupervisorAction::RunServer)
        } else {
            (SupervisorState::Delaying, SupervisorAction::Delay { end_watcher: false })
        },
        (SupervisorState::Running, SupervisorEvent::Stop) => (
            SupervisorState::Stopped,
            SupervisorAction::Exit { end_watcher: true },
        ),
        (SupervisorState::Running, SupervisorEvent::ServerEnded { failed }) => if failed {
            (SupervisorState::Delaying, SupervisorAction::Delay { end_watcher: true })
        } else {
            (SupervisorState::Stopped, SupervisorAction::Exit { end_watcher: true })
        },
        (SupervisorState::Delaying, SupervisorEvent::Stop) => (
            SupervisorState::Stopped,
            SupervisorAction::Exit { end_watcher: false },
        ),
        (SupervisorState::Delaying, SupervisorEvent::DelayOver) => (
            SupervisorState::Checking,
            SupervisorAction::CheckStop,
        ),
        _ => (state, SupervisorAction::Ignore),
    }
}

/// Starts the supervisor. Without both files for TLS there is nothing to run.
pub fn run_http3_supervisor(cert_path: &Option<String>, key_path: &Option<String>) -> (r: (
    SupervisorState,
    SupervisorAction,
))
    ensures
        r == (if cert_path is Some && key_path is Some {
            (SupervisorState::Checking, SupervisorAction::CheckStop)
        } else {
            (SupervisorState::Stopped, SupervisorAction::Exit { end_watcher: false })
        }),
{
    if cert_path.is_some() && key_path.is_some() {
        (SupervisorState::Checking, SupervisorAction::CheckStop)
    } else {
        (SupervisorState::Stopped, SupervisorAction::Exit { end_watcher: false })
    }
}

/// Takes what happened to the supervisor.
pub fn on_supervisor_event(state: SupervisorState, event: SupervisorEvent) -> (r: (
    SupervisorState,
    SupervisorAction,
))
    ensures
        r == supervised(state, event),
{
    match (state, event) {
        (SupervisorState::Checking, SupervisorEvent::StopRequested(stop)) => if stop {
            (SupervisorState::Stopped, SupervisorAction::Exit { end_watcher: false })
        } else {
            (SupervisorState::Watching, SupervisorAction::StartWatcher)
        },
        (SupervisorState::Watching, SupervisorEvent::WatcherStarted(started)) => if started {
            (SupervisorState::Running, SupervisorAction::RunServer)
        } else {
            (SupervisorState::Delaying, SupervisorAction::Delay { end_watcher: false })
        },
        (SupervisorState::Running, SupervisorEvent::Stop) => (
            SupervisorState::Stopped,
            SupervisorAction::Exit { end_watcher: true },
        ),
        (SupervisorState::Running, SupervisorEvent::ServerEnded { failed }) => if failed {
            (SupervisorState::Delaying, SupervisorAction::Delay { end_watcher: true })
        } else {
            (SupervisorState::Stopped, SupervisorAction::Exit { end_watcher: true })
        },
        (SupervisorState::Delaying, SupervisorEvent::Stop) => (
            SupervisorState::Stopped,
            SupervisorAction::Exit { end_watcher: false },
        ),
        (SupervisorState::Delaying, SupervisorEvent::DelayOver) => (
            SupervisorState::Checking,
            SupervisorAction::CheckStop,
        ),
        _ => (state, SupervisorAction::Ignore),
    }
}

/// The supervisor ends only where a stop was asked for or the server ended without an error: a
/// server that failed is run again.
pub proof fn law_supervisor_ends_only_on_request(state: SupervisorState, event: SupervisorEvent)
    requires
        state !is Stopped,
        supervised(state, event).0 is Stopped,
    ensures
        event is Stop || event == SupervisorEvent::StopRequested(true) || event == (
        SupervisorEvent::ServerEnded { failed: false }),
{
}

/// Once stopped, the supervisor stays so; and a stop is heard whenever it runs a server or waits.
pub proof fn law_stop_is_final(state: SupervisorState, event: SupervisorEvent)
    ensures
        state is Stopped ==> supervised(state, event) == (state, SupervisorAction::Ignore),
        state is Running || state is Delaying ==> supervised(state, SupervisorEvent::Stop).0
            is Stopped,
{
}

/// What binding the listeners comes to: `total` addresses are configured, `bound` could be bound.
/// Some that could not be are worth a warning.
pub fn bind_listeners(total: usize, bound: usize, last_error: Option<IoFailure>) -> (r: Result<
    Option<String>,
    DoHError,
>)
    ensures
        if total == 0 {
            r matches Err(DoHError::Io(e)) && tls::is_failure(
                e,
                IoErrorKind::InvalidInput,
                "No listen addresses configured"@,
            )
        } else if bound == 0 {
            r matches Err(err) && is_bind_failure(
                err,
                last_error,
                "No available listen addresses"@,
            )
        } else if total > 1 && bound < total {
            r matches Ok(Some(warning)) && warning@ == "Warning: Bound "@ + text::decimal(
                bound as nat,
            ) + " of "@ + text::decimal(total as nat) + " configured listen addresses."@
        } else {
            r matches Ok(warning) && warning is None
        },
{
    if total == 0 {
        return Err(
            DoHError::Io(
                IoFailure {
                    kind: IoErrorKind::InvalidInput,
                    message: "No listen addresses configured".to_owned(),
                    source: Some(Box::new(Cause::Other)),
                },
            ),
        );
    }
    if bound == 0 {
        return Err(bind_failure(last_error, "No available listen addresses"));
    }
    if total > 1 && bound < total {
        let mut warning = text::joined(
            "Warning: Bound ",
            text::decimal_text(bound as u128).as_str(),
        );
        warning.append(" of ");
        warning.append(text::decimal_text(total as u128).as_str());
        warning.append(" configured listen addresses.");
        return Ok(Some(warning));
    }
    Ok(None)
}

/// The line that tells where the server listens.
pub fn listening_line(tls_enabled: bool, address: &str, path: &str) -> (line: String)
    ensures
        line@ == "Listening on "@ + (if tls_enabled {
            "https://"@
        } else {
            "http://"@
        }) + address@ + path@,
{
    let mut line = text::joined(
        "Listening on ",
        if tls_enabled {
            "https://"
        } else {
            "http://"
        },
    );
    line.append(address);
    line.append(path);
    line
}

/// The directories to watch for two files: both, or the one where they are the same.
pub fn watch_dirs(cert_dir: String, key_dir: String) -> (dirs: Vec<String>)
    ensures
        text::texts(dirs@) == (if cert_dir@ == key_dir@ {
            seq![cert_dir@]
        } else {
            seq![cert_dir@, key_dir@]
        }),
{
    let same = text::same_text(cert_dir.as_str(), key_dir.as_str());
    let mut dirs: Vec<String> = Vec::new();
    dirs.push(cert_dir);
    if !same {
        dirs.push(key_dir);
    }
    assert(text::texts(dirs@) =~= if cert_dir@ == key_dir@ {
        seq![cert_dir@]
    } else {
        seq![cert_dir@, key_dir@]
    });
    dirs
}

/// One of the changed files is that with the certificates or that with the keys.
pub open spec fn certs_changed(paths: Seq<Seq<char>>, cert: Seq<char>, key: Seq<char>) -> bool {
    paths.contains(cert) || paths.contains(key)
}

/// Whether one of the changed files is that with the certificates or that with the keys.
pub fn concerns_certs(paths: &Vec<String>, cert_path: &str, key_path: &str) -> (yes: bool)
    ensures
        yes == certs_changed(text::texts(paths@), cert_path@, key_path@),
{
    let ghost all = text::texts(paths@);
    let mut i: usize = 0;
    while i < paths.len()
        invariant
            i <= paths@.len(),
            all == text::texts(paths@),
            forall|j: int| 0 <= j < i ==> all[j] != cert_path@ && all[j] != key_path@,
        decreases paths@.len() - i,
    {
        assert(all[i as int] == paths@[i as int]@);
        if text::same_text(paths[i].as_str(), cert_path) || text::same_text(
            paths[i].as_str(),
            key_path,
        ) {
            return true;
        }
        i = i + 1;
    }
    false
}

/// With certificates in order, the server binds, listens and serves, one after the other.
pub proof fn law_good_certificates_are_served(
    sockets: usize,
    last_error: Option<IoFailure>,
    a: (H3ServerState, H3ServerAction),
    b: (H3ServerState, H3ServerAction),
    c: (H3ServerState, H3ServerAction),
)
    requires
        sockets > 0,
        serves(H3ServerState::Validating, H3ServerEvent::Validated(true), a.0, a.1),
        serves(a.0, H3ServerEvent::Bound { sockets, last_error }, b.0, b.1),
        serves(b.0, H3ServerEvent::ListenStarted(true), c.0, c.1),
    ensures
        a.1 is Bind,
        b.1 is Listen,
        c.1 is Serve && c.0 is Serving,
{
}

/// Certificates that are not in order at the start are waited for, and looked at again once they
/// change; where they never will, the server ends.
pub proof fn law_certificates_are_waited_for(
    a: (H3ServerState, H3ServerAction),
    b: (H3ServerState, H3ServerAction),
    c: (H3ServerState, H3ServerAction),
)
    requires
        serves(H3ServerState::Validating, H3ServerEvent::Validated(false), a.0, a.1),
        serves(a.0, H3ServerEvent::Reload(true), b.0, b.1),
        serves(a.0, H3ServerEvent::Reload(false), c.0, c.1),
    ensures
        a.1 is WaitForReload,
        b.1 is Validate && b.0 is Validating,
        c.0 is Finished && c.1 == H3ServerAction::Fail(DoHError::UpstreamIssue),
{
}

/// While it serves, changed certificates are looked at. Those that are not in order change
/// nothing; for those that are, the server ends its listeners and starts anew.
pub proof fn law_changed_certificates_restart(
    a: (H3ServerState, H3ServerAction),
    bad: (H3ServerState, H3ServerAction),
    good: (H3ServerState, H3ServerAction),
    again: (H3ServerState, H3ServerAction),
)
    requires
        serves(H3ServerState::Serving, H3ServerEvent::Reload(true), a.0, a.1),
        serves(a.0, H3ServerEvent::Validated(false), bad.0, bad.1),
        serves(a.0, H3ServerEvent::Validated(true), good.0, good.1),
        serves(good.0, H3ServerEvent::Joined(Ok(())), again.0, again.1),
    ensures
        a.1 is Validate,
        bad.0 is Serving && bad.1 is Serve,
        good.1 is ShutDownAndJoin,
        again.0 is Validating && again.1 is Validate,
{
}

/// The error of a server is that of what failed: of its listeners, of the last socket that could
/// not be bound, or of its own.
pub proof fn law_errors_of_the_server(
    e: DoHError,
    last: IoFailure,
    state: H3ServerState,
    a: (H3ServerState, H3ServerAction),
    b: (H3ServerState, H3ServerAction),
    c: (H3ServerState, H3ServerAction),
    d: (H3ServerState, H3ServerAction),
)
    requires
        state is Serving || state is Restarting || state is Closing,
        serves(state, H3ServerEvent::Joined(Err(e)), a.0, a.1),
        serves(
            H3ServerState::Binding,
            H3ServerEvent::Bound { sockets: 0, last_error: Some(last) },
            b.0,
            b.1,
        ),
        serves(H3ServerState::Listening, H3ServerEvent::ListenStarted(false), c.0, c.1),
        serves(H3ServerState::Serving, H3ServerEvent::Joined(Ok(())), d.0, d.1),
    ensures
        a.0 is Finished && a.1 == H3ServerAction::Fail(e),
        b.0 is Finished && b.1 == H3ServerAction::Fail(DoHError::Io(last)),
        c.0 is Finished && c.1 == H3ServerAction::Fail(DoHError::UpstreamIssue),
        d.0 is Finished && d.1 == H3ServerAction::Fail(DoHError::UpstreamIssue),
{
}

/// The supervisor runs a server again after it failed: it ends the watcher, waits half a second,
/// starts a watcher and then a server. A watcher that does not start is waited for likewise.
pub proof fn law_failed_servers_are_run_again()
    ensures
        supervised(SupervisorState::Running, SupervisorEvent::ServerEnded { failed: true }) == (
            SupervisorState::Delaying,
            SupervisorAction::Delay { end_watcher: true },
        ),
        supervised(SupervisorState::Delaying, SupervisorEvent::DelayOver) == (
            SupervisorState::Checking,
            SupervisorAction::CheckStop,
        ),
        supervised(SupervisorState::Checking, SupervisorEvent::StopRequested(false)) == (
            SupervisorState::Watching,
            SupervisorAction::StartWatcher,
        ),
        supervised(SupervisorState::Watching, SupervisorEvent::WatcherStarted(true)) == (
            SupervisorState::Running,
            SupervisorAction::RunServer,
        ),
        supervised(SupervisorState::Watching, SupervisorEvent::WatcherStarted(false)) == (
            SupervisorState::Delaying,
            SupervisorAction::Delay { end_watcher: false },
        ),
        H3_SUPERVISOR_RESTART_DELAY_MS == 500,
{
}

/// The supervisor tells a watcher to end exactly where a server ran.
pub proof fn law_watchers_end_with_their_server(state: SupervisorState, event: SupervisorEvent)
    ensures
        supervised(state, event).1 matches SupervisorAction::Exit { end_watcher } ==> end_watcher
            == (state is Running),
        supervised(state, event).1 matches SupervisorAction::Delay { end_watcher } ==> end_watcher
            == (state is Running),
        state is Running && (event is Stop || event == (SupervisorEvent::ServerEnded {
            failed: false,
        })) ==> supervised(state, event).1 is Exit,
        state is Checking && event == SupervisorEvent::StopRequested(true) ==> supervised(
            state,
            event,
        ).1 is Exit,
        supervised(state, event).1 is Ignore ==> supervised(state, event).0 == state,
{
}

/// A change concerns the certificates exactly where it is one of either file.
pub proof fn law_changes_of_either_file_count(
    paths: Seq<Seq<char>>,
    cert: Seq<char>,
    key: Seq<char>,
)
    ensures
        certs_changed(paths, cert, key) <==> exists|i: int|
            0 <= i < paths.len() && (#[trigger] paths[i] == cert || paths[i] == key),
{
    if paths.contains(cert) {
        let i = choose|i: int| 0 <= i < paths.len() && paths[i] == cert;
        assert(paths[i] == cert);
    }
    if paths.contains(key) {
        let i = choose|i: int| 0 <= i < paths.len() && paths[i] == key;
        assert(paths[i] == key);
    }
}

/// Where no address could be bound, the last failure is told as it is; without one, that no
/// address is available.
pub proof fn law_failures_to_bind(err: DoHError, last: IoFailure, message: Seq<char>)
    ensures
        is_bind_failure(err, Some(last), message) <==> err == DoHError::Io(last),
        is_bind_failure(err, None, message) ==> err is Io && err->Io_0.kind is AddrNotAvailable
            && err->Io_0.message@ == message,
{
}

} // verus!
