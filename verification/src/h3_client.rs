//! Requests over HTTP/3 connections: which are pending, what their events mean, and which
//! connection of a pool takes the next one.

use crate::errors::{DoHError, H3ConnectionFailure, H3ErrorKind};
use crate::headers;
use crate::headers::HeaderField;
use crate::retry;
use crate::retry::H3Failure;
use crate::text;
use crate::wire;
use std::collections::HashMap;
use vstd::prelude::*;
use vstd::std_specs::iter::IteratorSpec;

verus! {

pub const DOH_H3_POOL_SIZE: usize = 2;

pub const DOH_H3_MAX_INFLIGHT_PER_CONN: usize = 64;

/// The identifiers in a table, each once.
fn keys_of<T>(m: &HashMap<u64, T>) -> (ids: Vec<u64>)
    ensures
        ids@.no_duplicates(),
        forall|id: u64| #[trigger] ids@.contains(id) <==> m@.contains_key(id),
        forall|j: int| 0 <= j < ids@.len() ==> m@.contains_key(#[trigger] ids@[j]),
{
    let mut ids: Vec<u64> = Vec::new();
    for k in it: m.keys()
        invariant
            it.seq() == m.keys().remaining(),
            ids@.len() == it.index(),
            forall|i: int| 0 <= i < ids@.len() ==> ids@[i] == *it.seq()[i],
    {
        ids.push(*k);
    }
    proof {
        let keys = m.keys().remaining();
        assert(ids@ =~= keys.unref());
        assert(keys.unref().to_set() == m@.dom());
        assert forall|id: u64| #[trigger] ids@.contains(id) <==> m@.contains_key(id) by {
            assert(ids@.contains(id) <==> ids@.to_set().contains(id));
        }
        assert forall|j: int| 0 <= j < ids@.len() implies m@.contains_key(#[trigger] ids@[j]) by {
            assert(ids@.contains(ids@[j]));
        }
    }
    ids
}


/// The requests that wait for an answer, by their identifiers, and the streams that were opened
/// for them.
pub struct DohH3Pending<T> {
    by_request: HashMap<u64, T>,
    by_stream: HashMap<u64, u64>,
}

/// What is pending.
pub struct PendingView<T> {
    pub requests: Map<u64, T>,
    pub streams: Map<u64, u64>,
}

impl<T> View for DohH3Pending<T> {
    type V = PendingView<T>;

    closed spec fn view(&self) -> PendingView<T> {
        PendingView { requests: self.by_request@, streams: self.by_stream@ }
    }
}

/// Streams without those of one request.
pub open spec fn streams_without(streams: Map<u64, u64>, request_id: u64) -> Map<u64, u64> {
    streams.restrict(Set::new(|s: u64| streams.contains_key(s) && streams[s] != request_id))
}

/// The replies of all requests, each once, in some order.
pub open spec fn all_of<T>(requests: Map<u64, T>, replies: Seq<T>) -> bool {
    exists|ids: Seq<u64>| #[trigger]
        ids.no_duplicates() && (forall|id: u64| #[trigger]
            ids.contains(id) <==> requests.contains_key(id)) && replies == ids.map_values(
            |id: u64| requests[id],
        )
}

impl<T> DohH3Pending<T> {
    pub fn new() -> (p: Self)
        ensures
            p@.requests == Map::<u64, T>::empty(),
            p@.streams == Map::<u64, u64>::empty(),
    {
        DohH3Pending { by_request: HashMap::new(), by_stream: HashMap::new() }
    }

    /// Notes a request and where its answer goes.
    pub fn add_request(&mut self, request_id: u64, reply: T)
        ensures
            final(self)@ == (PendingView {
                requests: old(self)@.requests.insert(request_id, reply),
                ..old(self)@
            }),
    {
        self.by_request.insert(request_id, reply);
    }

    /// Notes the stream of a request that still waits.
    pub fn open_stream(&mut self, stream_id: u64, request_id: u64)
        ensures
            final(self)@ == (if old(self)@.requests.contains_key(request_id) {
                PendingView {
                    streams: old(self)@.streams.insert(stream_id, request_id),
                    ..old(self)@
                }
            } else {
                old(self)@
            }),
    {
        if self.by_request.contains_key(&request_id) {
            self.by_stream.insert(stream_id, request_id);
        }
    }

    /// Forgets a request and its streams.
    pub fn clear_pending_h3_request(&mut self, request_id: u64)
        ensures
            final(self)@ == (PendingView {
                requests: old(self)@.requests.remove(request_id),
                streams: streams_without(old(self)@.streams, request_id),
            }),
    {
        self.by_request.remove(&request_id);
        let ids = keys_of(&self.by_stream);
        let ghost before = self.by_stream@;
        let mut i: usize = 0;
        while i < ids.len()
            invariant
                i <= ids@.len(),
                ids@.no_duplicates(),
                forall|id: u64| #[trigger] ids@.contains(id) <==> before.contains_key(id),
                self.by_request@ == old(self).by_request@.remove(request_id),
                before == old(self).by_stream@,
                forall|s: u64| #[trigger]
                    self.by_stream@.contains_key(s) ==> before.contains_key(s)
                        && self.by_stream@[s] == before[s],
                forall|s: u64|
                    before.contains_key(s) && before[s] != request_id ==> #[trigger]
                        self.by_stream@.contains_key(s),
                forall|j: int|
                    0 <= j < i ==> before[#[trigger] ids@[j]] == request_id
                        ==> !self.by_stream@.contains_key(ids@[j]),
                forall|j: int|
                    i <= j < ids@.len() ==> self.by_stream@.contains_key(#[trigger] ids@[j]),
            decreases ids@.len() - i,
        {
            let id: u64 = ids[i];
            let ghost now = self.by_stream@;
            let drop_it = match self.by_stream.get(&id) {
                Some(rid) => *rid == request_id,
                None => false,
            };
            if drop_it {
                self.by_stream.remove(&id);
                assert(self.by_stream@ =~= now.remove(id));
            }
            i = i + 1;
        }
        proof {
            let want = streams_without(before, request_id);
            assert forall|s: u64| self.by_stream@.contains_key(s) implies want.contains_key(s) by {
                assert(before.contains_key(s));
                assert(ids@.contains(s));
                let j = choose|j: int| 0 <= j < ids@.len() && ids@[j] == s;
                assert(ids@[j] == s);
            }
            assert(self.by_stream@ =~= want);
        }
    }

    /// Takes a stream and its request out; the answer goes where the request said.
    pub fn complete_pending_h3_stream(&mut self, stream_id: u64) -> (reply: Option<T>)
        ensures
            if !old(self)@.streams.contains_key(stream_id) {
                reply is None && final(self)@ == old(self)@
            } else {
                let request_id = old(self)@.streams[stream_id];
                &&& final(self)@ == (PendingView {
                    requests: old(self)@.requests.remove(request_id),
                    streams: old(self)@.streams.remove(stream_id),
                })
                &&& match reply {
                    Some(to) => old(self)@.requests.contains_key(request_id)
                        && old(self)@.requests[request_id] == to,
                    None => !old(self)@.requests.contains_key(request_id),
                }
            },
    {
        match self.by_stream.remove(&stream_id) {
            Some(request_id) => {
                let reply = self.by_request.remove(&request_id);
                assert(self.by_stream@ =~= old(self).by_stream@.remove(stream_id));
                assert(self.by_request@ =~= old(self).by_request@.remove(request_id));
                reply
            },
            None => {
                assert(self.by_stream@ =~= old(self).by_stream@);
                None
            },
        }
    }

    /// Takes everything out.
    pub fn take_all(&mut self) -> (replies: Vec<T>)
        ensures
            final(self)@.requests == Map::<u64, T>::empty(),
            final(self)@.streams == Map::<u64, u64>::empty(),
            all_of(old(self)@.requests, replies@),
    {
        self.by_stream.clear();
        let ids = keys_of(&self.by_request);
        let ghost before = self.by_request@;
        let mut replies: Vec<T> = Vec::new();
        let mut i: usize = 0;
        while i < ids.len()
            invariant
                i <= ids@.len(),
                ids@.no_duplicates(),
                forall|id: u64| #[trigger] ids@.contains(id) <==> before.contains_key(id),
                before == old(self).by_request@,
                self.by_stream@ == Map::<u64, u64>::empty(),
                replies@.len() == i,
                forall|j: int| 0 <= j < i ==> replies@[j] == before[ids@[j]],
                forall|id: u64| #[trigger]
                    self.by_request@.contains_key(id) ==> before.contains_key(id)
                        && self.by_request@[id] == before[id],
                forall|j: int| 0 <= j < i ==> !self.by_request@.contains_key(#[trigger] ids@[j]),
                forall|j: int|
                    i <= j < ids@.len() ==> self.by_request@.contains_key(#[trigger] ids@[j]),
            decreases ids@.len() - i,
        {
            let id: u64 = ids[i];
            let ghost now = self.by_request@;
            let found = self.by_request.remove(&id);
            assert(self.by_request@ =~= now.remove(id));
            match found {
                Some(reply) => {
                    replies.push(reply);
                },
                None => {
                    assert(now.contains_key(ids@[i as int]));
                },
            }
            i = i + 1;
        }
        proof {
            assert forall|id: u64| !self.by_request@.contains_key(id) by {
                if self.by_request@.contains_key(id) {
                    assert(ids@.contains(id));
                    let j = choose|j: int| 0 <= j < ids@.len() && ids@[j] == id;
                    assert(!self.by_request@.contains_key(ids@[j]));
                }
            }
            assert(self.by_request@ =~= Map::<u64, T>::empty());
            assert(replies@ =~= ids@.map_values(|id: u64| before[id]));
            assert(all_of(before, replies@));
        }
        replies
    }
}


/// What happens on a connection.
#[derive(Debug)]
pub enum ClientEvent {
    NewOutboundRequest { stream_id: u64, request_id: u64 },
    Headers { stream_id: u64, headers: Vec<HeaderField> },
    BodyRead { stream_id: u64, result: Result<Vec<u8>, H3Failure> },
    ConnectionError(H3ErrorKind),
    ConnectionShutdown(Option<H3ConnectionFailure>),
    ResetStream { stream_id: u64 },
    StreamClosed { stream_id: u64 },
    Other,
    EndOfEvents,
}

/// What is to be done about it: nothing, read the body of a response, answer one request, or let
/// all fail and stop.
#[derive(Debug)]
pub enum ClientAction<T> {
    Nothing,
    ReadBody { stream_id: u64 },
    Answer { reply: T, result: Result<Vec<u8>, H3Failure> },
    FailAll { replies: Vec<T>, retryable: bool },
}

/// The status of a response: that of its first `:status` field, or 500 where that is no number.
pub open spec fn status_of_response(headers: Seq<(Seq<u8>, Seq<u8>)>) -> u16 {
    match headers::header_text(headers, ":status"@) {
        Some(value) => match text::parsed_number(value, 65535) {
            Some(n) => n as u16,
            None => 500,
        },
        None => 500,
    }
}

/// The status of a response.
pub fn h3_response_status(headers: &Vec<HeaderField>) -> (status: u16)
    ensures
        status == status_of_response(headers::fields(headers@)),
{
    match headers::h3_header_value(headers, ":status") {
        Some(value) => match text::parse_number(value.as_str(), 65535) {
            Some(n) => n as u16,
            None => 500,
        },
        None => 500,
    }
}

/// A stream was completed with `result`: its request is no longer pending, and is answered where
/// it still waited.
pub open spec fn completed<T>(
    before: PendingView<T>,
    after: PendingView<T>,
    stream_id: u64,
    result: Result<Vec<u8>, H3Failure>,
    action: ClientAction<T>,
) -> bool {
    if !before.streams.contains_key(stream_id) {
        after == before && action is Nothing
    } else {
        let request_id = before.streams[stream_id];
        &&& after == (PendingView {
            requests: before.requests.remove(request_id),
            streams: before.streams.remove(stream_id),
        })
        &&& if before.requests.contains_key(request_id) {
            action == ClientAction::Answer { reply: before.requests[request_id], result }
        } else {
            action is Nothing
        }
    }
}

/// All requests fail, and nothing is pending any more.
pub open spec fn all_failed<T>(
    before: PendingView<T>,
    after: PendingView<T>,
    retryable: bool,
    action: ClientAction<T>,
) -> bool {
    &&& after.requests == Map::<u64, T>::empty()
    &&& after.streams == Map::<u64, u64>::empty()
    &&& action matches ClientAction::FailAll { replies, retryable: r }
    &&& r == retryable
    &&& all_of(before.requests, replies@)
}

/// What an event comes to.
pub open spec fn reacts<T>(
    before: PendingView<T>,
    after: PendingView<T>,
    event: ClientEvent,
    action: ClientAction<T>,
) -> bool {
    match event {
        ClientEvent::NewOutboundRequest { stream_id, request_id } => action is Nothing && after
            == (if before.requests.contains_key(request_id) {
            PendingView { streams: before.streams.insert(stream_id, request_id), ..before }
        } else {
            before
        }),
        ClientEvent::Headers { stream_id, headers } => if status_of_response(
            headers::fields(headers@),
        ) == 200 {
            after == before && action == ClientAction::<T>::ReadBody { stream_id }
        } else {
            completed(
                before,
                after,
                stream_id,
                Err(H3Failure { err: DoHError::UpstreamIssue, retryable: false }),
                action,
            )
        },
        ClientEvent::BodyRead { stream_id, result } => completed(
            before,
            after,
            stream_id,
            result,
            action,
        ),
        ClientEvent::ConnectionError(err) => all_failed(
            before,
            after,
            !retry::lasting_h3(err),
            action,
        ),
        ClientEvent::ConnectionShutdown(reason) => all_failed(
            before,
            after,
            match reason {
                Some(err) => !retry::lasting_h3_connection(err),
                None => true,
            },
            action,
        ),
        ClientEvent::ResetStream { stream_id } => completed(
            before,
            after,
            stream_id,
            Err(H3Failure { err: DoHError::UpstreamIssue, retryable: true }),
            action,
        ),
        ClientEvent::StreamClosed { stream_id } => completed(
            before,
            after,
            stream_id,
            Err(H3Failure { err: DoHError::UpstreamIssue, retryable: true }),
            action,
        ),
        ClientEvent::Other => after == before && action is Nothing,
        ClientEvent::EndOfEvents => all_failed(before, after, true, action),
    }
}

impl<T> DohH3Pending<T> {
    fn complete(&mut self, stream_id: u64, result: Result<Vec<u8>, H3Failure>) -> (action:
        ClientAction<T>)
        ensures
            completed(old(self)@, final(self)@, stream_id, result, action),
    {
        match self.complete_pending_h3_stream(stream_id) {
            Some(reply) => ClientAction::Answer { reply, result },
            None => ClientAction::Nothing,
        }
    }

    fn fail_all_pending_h3_requests(&mut self, retryable: bool) -> (action: ClientAction<T>)
        ensures
            all_failed(old(self)@, final(self)@, retryable, action),
    {
        let replies = self.take_all();
        ClientAction::FailAll { replies, retryable }
    }

    /// Takes what happened on a connection, and says what is to be done.
    pub fn on_event(&mut self, event: ClientEvent) -> (action: ClientAction<T>)
        ensures
            reacts(old(self)@, final(self)@, event, action),
    {
        match event {
            ClientEvent::NewOutboundRequest { stream_id, request_id } => {
                self.open_stream(stream_id, request_id);
                ClientAction::Nothing
            },
            ClientEvent::Headers { stream_id, headers } => {
                let status: u16 = h3_response_status(&headers);
                if status != 200 {
                    self.complete(stream_id, Err(H3Failure::new(DoHError::UpstreamIssue, false)))
                } else {
                    ClientAction::ReadBody { stream_id }
                }
            },
            ClientEvent::BodyRead { stream_id, result } => self.complete(stream_id, result),
            ClientEvent::ConnectionError(err) => {
                let retryable = retry::is_retryable_h3_error(err);
                self.fail_all_pending_h3_requests(retryable)
            },
            ClientEvent::ConnectionShutdown(reason) => {
                let retryable = match reason {
                    Some(err) => retry::is_retryable_h3_connection_error(err),
                    None => true,
                };
                self.fail_all_pending_h3_requests(retryable)
            },
            ClientEvent::ResetStream { stream_id } => self.complete(
                stream_id,
                Err(H3Failure::retryable(DoHError::UpstreamIssue)),
            ),
            ClientEvent::StreamClosed { stream_id } => self.complete(
                stream_id,
                Err(H3Failure::retryable(DoHError::UpstreamIssue)),
            ),
            ClientEvent::Other => ClientAction::Nothing,
            ClientEvent::EndOfEvents => self.fail_all_pending_h3_requests(true),
        }
    }
}

/// Every stream leads to a request that waits.
pub open spec fn streams_live<T>(p: PendingView<T>) -> bool {
    forall|s: u64| #[trigger]
        p.streams.contains_key(s) ==> p.requests.contains_key(p.streams[s])
}

/// No two streams lead to one request.
pub open spec fn streams_distinct<T>(p: PendingView<T>) -> bool {
    forall|s: u64, t: u64| #[trigger]
        p.streams.contains_key(s) && #[trigger] p.streams.contains_key(t) && s != t
            ==> p.streams[s] != p.streams[t]
}

/// Where every stream leads to a waiting request of its own, that stays so: whatever happens on
/// the connection, as long as no second stream is opened for a request.
pub proof fn law_streams_lead_to_waiting_requests<T>(
    before: PendingView<T>,
    after: PendingView<T>,
    event: ClientEvent,
    action: ClientAction<T>,
)
    requires
        streams_live(before),
        streams_distinct(before),
        reacts(before, after, event, action),
        event matches ClientEvent::NewOutboundRequest { stream_id, request_id } ==> forall|s: u64|
            #[trigger] before.streams.contains_key(s) && s != stream_id ==> before.streams[s]
                != request_id,
    ensures
        streams_live(after),
        streams_distinct(after),
{
}

/// Forgetting a request leaves no stream that leads to it.
pub proof fn law_cleared_request_has_no_stream<T>(p: PendingView<T>, request_id: u64)
    requires
        streams_live(p),
    ensures
        streams_live(
            PendingView {
                requests: p.requests.remove(request_id),
                streams: streams_without(p.streams, request_id),
            },
        ),
        forall|s: u64| #[trigger]
            streams_without(p.streams, request_id).contains_key(s) ==> streams_without(
                p.streams,
                request_id,
            )[s] != request_id,
{
}

/// A request is answered once: after its answer it is no longer pending, and neither is the
/// stream that the answer came on.
pub proof fn law_answered_request_is_gone<T>(
    before: PendingView<T>,
    after: PendingView<T>,
    stream_id: u64,
    result: Result<Vec<u8>, H3Failure>,
    action: ClientAction<T>,
)
    requires
        completed(before, after, stream_id, result, action),
        before.streams.contains_key(stream_id),
    ensures
        !after.requests.contains_key(before.streams[stream_id]),
        !after.streams.contains_key(stream_id),
{
}

/// The body of a response as its frames come in.
#[derive(Debug)]
pub struct BodyReader {
    body: Vec<u8>,
    seen_fin: bool,
}

impl BodyReader {
    /// The bytes so far.
    pub closed spec fn bytes(&self) -> Seq<u8> {
        self.body@
    }

    /// The last frame is in.
    pub closed spec fn complete(&self) -> bool {
        self.seen_fin
    }

    pub fn new() -> (r: Self)
        ensures
            r.bytes().len() == 0,
            !r.complete(),
    {
        BodyReader { body: Vec::new(), seen_fin: false }
    }

    /// Takes a frame; whether the body is complete is the answer.
    pub fn on_frame(&mut self, data: &[u8], fin: bool) -> (complete: bool)
        ensures
            final(self).bytes() == old(self).bytes() + data@,
            final(self).complete() == (old(self).complete() || fin),
            complete == final(self).complete(),
    {
        wire::push_all(&mut self.body, data);
        if fin {
            self.seen_fin = true;
        }
        self.seen_fin
    }

    /// The body, or the failure where the frames ended before the last.
    pub fn finish(self) -> (r: Result<Vec<u8>, H3Failure>)
        ensures
            match r {
                Ok(body) => self.complete() && body@ == self.bytes(),
                Err(f) => !self.complete() && f == (H3Failure {
                    err: DoHError::UpstreamIssue,
                    retryable: true,
                }),
            },
    {
        if self.seen_fin {
            Ok(self.body)
        } else {
            Err(H3Failure::retryable(DoHError::UpstreamIssue))
        }
    }
}

/// The connections to one server, of which requests take turns.
pub struct DohH3Pool<C> {
    clients: Vec<C>,
    next: u64,
}

/// The position from which the next choice starts.
pub open spec fn turn(next: u64, len: nat) -> int {
    next as int % len as int
}

/// The next turn; after the largest number the turns start over.
pub open spec fn next_turn(next: u64) -> u64 {
    if next == u64::MAX {
        0
    } else {
        (next + 1) as u64
    }
}

/// The first of the connections from `start` on, in a circle, that has room; `seen` have been
/// looked at.
pub open spec fn first_free(free: Seq<bool>, start: int, seen: int) -> Option<int>
    decreases free.len() - seen,
{
    if !(0 <= seen < free.len()) {
        None
    } else if free[(start + seen) % (free.len() as int)] {
        Some((start + seen) % (free.len() as int))
    } else {
        first_free(free, start, seen + 1)
    }
}

/// The index of a choice.
pub open spec fn chosen(r: Option<usize>) -> Option<int> {
    match r {
        Some(i) => Some(i as int),
        None => None,
    }
}

/// Which connection takes a request: one that has room, one that room has to be waited for at, or
/// a new one. Where no new one can be made, another may do if `fallback` is set.
#[derive(Clone, Copy, Debug, PartialEq, Eq, Structural)]
pub enum ClientChoice {
    Use(usize),
    WaitFor(usize),
    Create { fallback: bool },
    Fail,
}

impl<C> DohH3Pool<C> {
    pub closed spec fn connections(&self) -> Seq<C> {
        self.clients@
    }

    pub closed spec fn counter(&self) -> u64 {
        self.next
    }

    pub fn new() -> (p: Self)
        ensures
            p.connections().len() == 0,
            p.counter() == 0,
    {
        DohH3Pool { clients: Vec::new(), next: 0 }
    }

    pub fn client(&self, idx: usize) -> (c: &C)
        requires
            idx < self.connections().len(),
        ensures
            *c == self.connections()[idx as int],
    {
        &self.clients[idx]
    }

    pub fn len(&self) -> (n: usize)
        ensures
            n == self.connections().len(),
    {
        self.clients.len()
    }

    pub fn has_clients(&self) -> (yes: bool)
        ensures
            yes == (self.connections().len() > 0),
    {
        self.clients.len() > 0
    }

    pub fn needs_new_client(&self) -> (yes: bool)
        ensures
            yes == (self.connections().len() < DOH_H3_POOL_SIZE),
    {
        self.clients.len() < DOH_H3_POOL_SIZE
    }

    fn advance(&mut self) -> (start: usize)
        requires
            old(self).connections().len() > 0,
        ensures
            start == turn(old(self).counter(), old(self).connections().len()),
            start < old(self).connections().len(),
            final(self).connections() == old(self).connections(),
            final(self).counter() == next_turn(old(self).counter()),
    {
        let len: u64 = self.clients.len() as u64;
        let start: u64 = self.next % len;
        self.next = self.next.wrapping_add(1);
        start as usize
    }

    /// The connection whose turn it is.
    pub fn pick_client(&mut self) -> (r: Option<usize>)
        ensures
            final(self).connections() == old(self).connections(),
            if old(self).connections().len() == 0 {
                r is None && final(self).counter() == old(self).counter()
            } else {
                chosen(r) == Some(turn(old(self).counter(), old(self).connections().len()))
                    && final(self).counter() == next_turn(old(self).counter())
            },
    {
        if self.clients.len() == 0 {
            return None;
        }
        Some(self.advance())
    }

    /// The first connection that has room, from the one on whose turn it is; `free` says which
    /// have.
    pub fn try_pick_client_with_slot(&mut self, free: &Vec<bool>) -> (r: Option<usize>)
        requires
            free@.len() == old(self).connections().len(),
        ensures
            final(self).connections() == old(self).connections(),
            if old(self).connections().len() == 0 {
                r is None && final(self).counter() == old(self).counter()
            } else {
                chosen(r) == first_free(
                    free@,
                    turn(old(self).counter(), old(self).connections().len()),
                    0,
                ) && final(self).counter() == next_turn(old(self).counter())
            },
            r matches Some(i) ==> i < free@.len() && free@[i as int],
    {
        if self.clients.len() == 0 {
            return None;
        }
        let len: usize = self.clients.len();
        let start: usize = self.advance();
        let mut offset: usize = 0;
        while offset < len
            invariant
                offset <= len,
                len == free@.len(),
                start < len,
                first_free(free@, start as int, 0) == first_free(
                    free@,
                    start as int,
                    offset as int,
                ),
                start == turn(old(self).counter(), old(self).connections().len()),
                self.connections() == old(self).connections(),
                old(self).connections().len() == len,
                self.counter() == next_turn(old(self).counter()),
            decreases len - offset,
        {
            let idx: usize = if offset < len - start {
                start + offset
            } else {
                offset - (len - start)
            };
            assert(idx == (start + offset) % (len as int)) by {
                lemma_wrap(start as int, offset as int, len as int);
            }
            if free[idx] {
                return Some(idx);
            }
            offset = offset + 1;
        }
        None
    }

    /// Takes a new connection in where there is a place for it; otherwise the one whose turn it is
    /// serves. Whether it was taken in is the second answer.
    pub fn add_or_pick(&mut self, candidate: C) -> (r: (usize, bool))
        ensures
            if old(self).connections().len() < DOH_H3_POOL_SIZE {
                &&& r.0 == old(self).connections().len() && r.1
                &&& final(self).connections() == old(self).connections().push(candidate)
                &&& final(self).counter() == old(self).counter()
            } else {
                &&& r.0 == turn(old(self).counter(), old(self).connections().len()) && !r.1
                &&& final(self).connections() == old(self).connections()
                &&& final(self).counter() == next_turn(old(self).counter())
            },
            r.0 < final(self).connections().len(),
    {
        if self.clients.len() < DOH_H3_POOL_SIZE {
            let idx: usize = self.clients.len();
            self.clients.push(candidate);
            return (idx, true);
        }
        (self.advance(), false)
    }

    /// Takes all connections out.
    pub fn drain_clients(&mut self) -> (clients: Vec<C>)
        ensures
            clients@ == old(self).connections(),
            final(self).connections().len() == 0,
            final(self).counter() == old(self).counter(),
    {
        let mut clients: Vec<C> = Vec::new();
        clients.append(&mut self.clients);
        assert(clients@ =~= old(self).connections());
        clients
    }

    /// Chooses a connection for a request.
    pub fn choose_client(&mut self, free: &Vec<bool>) -> (choice: ClientChoice)
        requires
            free@.len() == old(self).connections().len(),
        ensures
            final(self).connections() == old(self).connections(),
            ({
                let n = old(self).connections().len();
                let once = next_turn(old(self).counter());
                let first = first_free(free@, turn(old(self).counter(), n), 0);
                if n == 0 {
                    choice == (ClientChoice::Create { fallback: true }) && final(self).counter()
                        == old(self).counter()
                } else if first is Some {
                    (choice matches ClientChoice::Use(i) && Some(i as int) == first) && final(
                        self).counter() == once
                } else if n < DOH_H3_POOL_SIZE {
                    choice == (ClientChoice::Create { fallback: true }) && final(self).counter()
                        == once
                } else {
                    match first_free(free@, turn(once, n), 0) {
                        Some(k) => (choice matches ClientChoice::Use(i) && i == k) && final(
                            self).counter() == next_turn(once),
                        None => (choice matches ClientChoice::WaitFor(i) && i == turn(
                            next_turn(once),
                            n,
                        )) && final(self).counter() == next_turn(next_turn(once)),
                    }
                }
            }),
    {
        match self.try_pick_client_with_slot(free) {
            Some(i) => {
                return ClientChoice::Use(i);
            },
            None => {},
        }
        if self.needs_new_client() {
            return ClientChoice::Create { fallback: true };
        }
        match self.try_pick_client_with_slot(free) {
            Some(i) => {
                return ClientChoice::Use(i);
            },
            None => {},
        }
        match self.pick_client() {
            Some(i) => ClientChoice::WaitFor(i),
            None => ClientChoice::Create { fallback: false },
        }
    }

    /// Chooses a connection after no new one could be made.
    pub fn choose_without_new(&mut self, fallback: bool, free: &Vec<bool>) -> (choice: ClientChoice)
        requires
            free@.len() == old(self).connections().len(),
        ensures
            final(self).connections() == old(self).connections(),
            ({
                let n = old(self).connections().len();
                let once = next_turn(old(self).counter());
                if !fallback || n == 0 {
                    choice is Fail && final(self).counter() == old(self).counter()
                } else {
                    match first_free(free@, turn(old(self).counter(), n), 0) {
                        Some(k) => (choice matches ClientChoice::Use(i) && i == k) && final(
                            self).counter() == once,
                        None => (choice matches ClientChoice::WaitFor(i) && i == turn(once, n))
                            && final(self).counter() == next_turn(once),
                    }
                }
            }),
    {
        if !fallback {
            return ClientChoice::Fail;
        }
        match self.try_pick_client_with_slot(free) {
            Some(i) => {
                return ClientChoice::Use(i);
            },
            None => {},
        }
        match self.pick_client() {
            Some(i) => ClientChoice::WaitFor(i),
            None => ClientChoice::Fail,
        }
    }
}

proof fn lemma_wrap(start: int, offset: int, len: int)
    requires
        0 <= start < len,
        0 <= offset < len,
    ensures
        (start + offset) % len == (if offset < len - start {
            start + offset
        } else {
            offset - (len - start)
        }),
{
    if offset < len - start {
        vstd::arithmetic::div_mod::lemma_small_mod((start + offset) as nat, len as nat);
    } else {
        let r = offset - (len - start);
        vstd::arithmetic::div_mod::lemma_mod_add_multiples_vanish(r, len);
        vstd::arithmetic::div_mod::lemma_small_mod(r as nat, len as nat);
    }
}

/// A connection with room is found wherever there is one.
pub proof fn law_free_connection_is_found(free: Seq<bool>, start: int, i: int)
    requires
        0 <= start < free.len(),
        0 <= i < free.len(),
        free[i],
    ensures
        first_free(free, start, 0) matches Some(k) && 0 <= k < free.len() && free[k],
{
    let n = free.len() as int;
    let seen = if i >= start {
        i - start
    } else {
        i + n - start
    };
    lemma_wrap(start, seen, n);
    lemma_first_free(free, start, 0, seen);
}

proof fn lemma_first_free(free: Seq<bool>, start: int, from: int, seen: int)
    requires
        0 <= start < free.len(),
        0 <= from <= seen < free.len(),
        free[(start + seen) % (free.len() as int)],
    ensures
        first_free(free, start, from) matches Some(k) && 0 <= k < free.len() && free[k],
    decreases seen - from,
{
    lemma_wrap(start, from, free.len() as int);
    if !free[(start + from) % (free.len() as int)] {
        lemma_first_free(free, start, from + 1, seen);
    }
}

/// The reply of a server goes to the request for which its stream was opened, whatever else waits,
/// and to no other.
pub proof fn law_replies_reach_their_requests<T>(
    before: PendingView<T>,
    after: PendingView<T>,
    stream_id: u64,
    result: Result<Vec<u8>, H3Failure>,
    action: ClientAction<T>,
)
    requires
        reacts(before, after, ClientEvent::BodyRead { stream_id, result }, action),
        before.streams.contains_key(stream_id),
        before.requests.contains_key(before.streams[stream_id]),
    ensures
        action == (ClientAction::Answer {
            reply: before.requests[before.streams[stream_id]],
            result,
        }),
        forall|id: u64|
            id != before.streams[stream_id] ==> (#[trigger] after.requests.contains_key(id)
                <==> before.requests.contains_key(id)) && (after.requests.contains_key(id)
                ==> after.requests[id] == before.requests[id]),
        forall|s: u64|
            s != stream_id ==> (#[trigger] after.streams.contains_key(s)
                <==> before.streams.contains_key(s)) && (after.streams.contains_key(s)
                ==> after.streams[s] == before.streams[s]),
{
}

/// A failure of a server, told to the one request of a stream.
pub open spec fn told_of_failure<T>(
    before: PendingView<T>,
    stream_id: u64,
    retryable: bool,
    action: ClientAction<T>,
) -> bool {
    before.streams.contains_key(stream_id) && before.requests.contains_key(
        before.streams[stream_id],
    ) ==> action == (ClientAction::Answer {
        reply: before.requests[before.streams[stream_id]],
        result: Err::<Vec<u8>, H3Failure>(H3Failure { err: DoHError::UpstreamIssue, retryable }),
    })
}

/// A body is read exactly for status 200. Any other status ends the request at once, and is not
/// worth another attempt; a stream that is reset or closed ends it too, and is.
pub proof fn law_other_statuses_end_the_request<T>(
    before: PendingView<T>,
    after: PendingView<T>,
    event: ClientEvent,
    action: ClientAction<T>,
)
    requires
        reacts(before, after, event, action),
    ensures
        match event {
            ClientEvent::Headers { stream_id, headers } => {
                let status = status_of_response(headers::fields(headers@));
                &&& status == 200 <==> action is ReadBody
                &&& status == 200 ==> after == before && action->stream_id == stream_id
                &&& status != 200 ==> told_of_failure(before, stream_id, false, action)
            },
            ClientEvent::ResetStream { stream_id } => told_of_failure(
                before,
                stream_id,
                true,
                action,
            ),
            ClientEvent::StreamClosed { stream_id } => told_of_failure(
                before,
                stream_id,
                true,
                action,
            ),
            ClientEvent::Other => after == before && action is Nothing,
            _ => !(action is ReadBody),
        },
{
}

/// When a connection ends, every request that waits on it fails, each once, and nothing waits any
/// more. They are worth another attempt, unless the error will last.
pub proof fn law_ended_connections_fail_all<T>(
    before: PendingView<T>,
    after: PendingView<T>,
    event: ClientEvent,
    action: ClientAction<T>,
)
    requires
        reacts(before, after, event, action),
        event is ConnectionError || event is ConnectionShutdown || event is EndOfEvents,
    ensures
        after.requests == Map::<u64, T>::empty(),
        after.streams == Map::<u64, u64>::empty(),
        action is FailAll,
        exists|ids: Seq<u64>|
            #![trigger ids.no_duplicates()]
            ids.no_duplicates() && (forall|id: u64| #[trigger]
                ids.contains(id) <==> before.requests.contains_key(id)) && ids.len()
                == action->replies@.len() && forall|i: int|
                0 <= i < ids.len() ==> #[trigger] action->replies@[i] == before.requests[ids[i]],
        match event {
            ClientEvent::ConnectionError(e) => action->retryable == !retry::lasting_h3(e),
            ClientEvent::ConnectionShutdown(Some(e)) => action->retryable
                == !retry::lasting_h3_connection(e),
            _ => action->retryable,
        },
{
    let replies = action->replies;
    let ids = choose|ids: Seq<u64>| #[trigger]
        ids.no_duplicates() && (forall|id: u64| #[trigger]
            ids.contains(id) <==> before.requests.contains_key(id)) && replies@ == ids.map_values(
            |id: u64| before.requests[id],
        );
    assert(ids.no_duplicates() && ids.len() == replies@.len());
}

/// A stream is noted for a request that waits, and then leads to it.
pub proof fn law_opened_streams_lead_to_their_request<T>(
    before: PendingView<T>,
    after: PendingView<T>,
    stream_id: u64,
    request_id: u64,
    action: ClientAction<T>,
)
    requires
        reacts(before, after, ClientEvent::NewOutboundRequest { stream_id, request_id }, action),
    ensures
        action is Nothing,
        after.requests == before.requests,
        before.requests.contains_key(request_id) ==> after.streams == before.streams.insert(
            stream_id,
            request_id,
        ),
        !before.requests.contains_key(request_id) ==> after == before,
{
}

/// Forgetting a request keeps the streams of all others.
pub proof fn law_other_streams_stay(streams: Map<u64, u64>, request_id: u64, s: u64)
    ensures
        streams_without(streams, request_id).contains_key(s) <==> streams.contains_key(s)
            && streams[s] != request_id,
        streams_without(streams, request_id).contains_key(s) ==> streams_without(
            streams,
            request_id,
        )[s] == streams[s],
{
}

/// The status of a response is the number in its first `:status` field, and 500 where there is
/// none.
pub proof fn law_status_of_responses(headers: Seq<(Seq<u8>, Seq<u8>)>, n: nat)
    requires
        n <= 65535,
    ensures
        headers::header_text(headers, ":status"@) == Some(text::decimal(n)) ==> status_of_response(
            headers,
        ) == n,
        headers::header_text(headers, ":status"@) is None ==> status_of_response(headers) == 500,
        headers::header_text(headers, ":status"@) matches Some(value) ==> text::parsed_number(
            value,
            65535,
        ) is None ==> status_of_response(headers) == 500,
{
    text::law_decimal_round_trip(n, 65535);
}

/// The connections take turns: after one comes the next, and after the last the first.
pub proof fn law_connections_take_turns(next: u64, len: nat)
    requires
        len > 0,
    ensures
        0 <= turn(next, len) < len,
        turn(0, len) == 0,
        next < u64::MAX ==> turn(next_turn(next), len) == (if turn(next, len) == len - 1 {
            0
        } else {
            turn(next, len) + 1
        }),
        next_turn(u64::MAX) == 0,
        next < u64::MAX ==> next_turn(next) == next + 1,
{
    let n = len as int;
    let r = next as int % n;
    vstd::arithmetic::div_mod::lemma_mod_bound(next as int, n);
    vstd::arithmetic::div_mod::lemma_small_mod(0, len);
    if next < u64::MAX {
        vstd::arithmetic::div_mod::lemma_add_mod_noop_right(1, next as int, n);
        assert((next as int + 1) % n == (1 + r) % n);
        if r == n - 1 {
            vstd::arithmetic::div_mod::lemma_mod_self_0(n);
        } else {
            vstd::arithmetic::div_mod::lemma_small_mod((1 + r) as nat, len);
        }
    }
}

/// The connection that is chosen is the first with room, from the one on whose turn it is; none is
/// only where none has room.
pub proof fn law_first_free_connection_is_chosen(free: Seq<bool>, start: int)
    requires
        0 <= start < free.len(),
    ensures
        match first_free(free, start, 0) {
            Some(k) => 0 <= k < free.len() && free[k] && forall|i: int|
                0 <= i < free.len() && #[trigger] free[i] ==> distance(start, k, free.len() as int)
                    <= distance(start, i, free.len() as int),
            None => forall|i: int| 0 <= i < free.len() ==> !#[trigger] free[i],
        },
{
    let n = free.len() as int;
    lemma_first_in_circle(free, start, 0);
    assert forall|i: int| 0 <= i < n implies 0 <= #[trigger] distance(start, i, n) < n && (start
        + distance(start, i, n)) % n == i by {
        lemma_wrap(start, distance(start, i, n), n);
    }
    if first_free(free, start, 0) is None {
        assert forall|i: int| 0 <= i < n implies !#[trigger] free[i] by {
            let seen = distance(start, i, n);
            assert(!free[(start + seen) % n]);
        }
    } else {
        let k = first_free(free, start, 0)->0;
        assert(free[k] && 0 <= k < n);
        assert forall|i: int| 0 <= i < n && #[trigger] free[i] implies distance(start, k, n)
            <= distance(start, i, n) by {
            let seen = distance(start, i, n);
            if seen < distance(start, k, n) {
                assert(!free[(start + seen) % n]);
            }
        }
    }
}

/// How many steps it takes from one of `n` places in a circle to another.
pub open spec fn distance(from: int, to: int, n: int) -> int {
    if to >= from {
        to - from
    } else {
        to + n - from
    }
}

proof fn lemma_first_in_circle(free: Seq<bool>, start: int, seen: int)
    requires
        0 <= start < free.len(),
        0 <= seen <= free.len(),
    ensures
        match first_free(free, start, seen) {
            Some(k) => 0 <= k < free.len() && free[k] && seen <= distance(
                start,
                k,
                free.len() as int,
            ) && forall|s: int|
                seen <= s < distance(start, k, free.len() as int) ==> !#[trigger] free[(start + s)
                    % (free.len() as int)],
            None => forall|s: int|
                seen <= s < free.len() ==> !#[trigger] free[(start + s) % (free.len() as int)],
        },
    decreases free.len() - seen,
{
    if seen < free.len() {
        lemma_wrap(start, seen, free.len() as int);
        if !free[(start + seen) % (free.len() as int)] {
            lemma_first_in_circle(free, start, seen + 1);
        }
    }
}

/// Two connections to a server are kept, and 64 requests may wait on each.
pub proof fn law_connections_are_limited()
    ensures
        DOH_H3_POOL_SIZE == 2,
        DOH_H3_MAX_INFLIGHT_PER_CONN == 64,
{
}

} // verus!
