//! The attempts of one query at several upstream servers, as they come in.

use super::dns_packet;
use super::msg;
use super::stats;
use super::stats::{QueryStatistics, StatView, UpstreamStatistics};
use crate::errors;
use crate::errors::{AttemptView, DoHError, UpstreamAttemptError};
use crate::text;
use crate::time::Duration;
use vstd::prelude::*;

verus! {

/// What a query came to.
#[derive(Debug)]
pub struct ExchangeOutcome {
    pub packet: Result<Vec<u8>, DoHError>,
    pub query_stats: QueryStatistics,
}

impl ExchangeOutcome {
    /// The statistics of the main attempts.
    pub open spec fn main_stats(&self) -> Seq<StatView> {
        stats::stat_views(self.query_stats.main_attempts())
    }

    /// Answered with these bytes, in an attempt with these statistics.
    pub open spec fn answered(&self, packet: Seq<u8>, stat: StatView) -> bool {
        &&& self.packet matches Ok(p) && p@ == packet
        &&& self.main_stats() == seq![stat]
        &&& self.query_stats.fallback_attempts().len() == 0
    }

    /// Failed with this error, after attempts with these statistics.
    pub open spec fn failed(&self, err: DoHError, main: Seq<StatView>) -> bool {
        &&& self.packet matches Err(e) && e == err
        &&& self.main_stats() == main
        &&& self.query_stats.fallback_attempts().len() == 0
    }
}

/// What an upstream server's reply comes to: a packet that is no message is none.
pub open spec fn checked(reply: Result<Vec<u8>, DoHError>) -> Result<Vec<u8>, DoHError> {
    match reply {
        Ok(packet) => if msg::decode_message(packet@) is Ok {
            Ok(packet)
        } else {
            Err(DoHError::UpstreamIssue)
        },
        Err(e) => Err(e),
    }
}

/// Refuses a packet that is no message.
pub fn validate_exchange_packet(packet: Vec<u8>) -> (r: Result<Vec<u8>, DoHError>)
    ensures
        r == checked(Ok(packet)),
{
    if dns_packet::validate_response_packet(packet.as_slice()) {
        Ok(packet)
    } else {
        Err(DoHError::UpstreamIssue)
    }
}

/// Refuses a reply that is no message.
pub fn validate_reply(reply: Result<Vec<u8>, DoHError>) -> (r: Result<Vec<u8>, DoHError>)
    ensures
        r == checked(reply),
{
    match reply {
        Ok(packet) => validate_exchange_packet(packet),
        Err(e) => Err(e),
    }
}

/// A reply as it came in: from which server, what, and after how long.
pub struct Arrival {
    pub idx: int,
    pub reply: Result<Vec<u8>, DoHError>,
    pub duration: Duration,
}

impl Arrival {
    /// The statistics of the attempt.
    pub open spec fn stat(self, addresses: Seq<Seq<char>>) -> StatView {
        match checked(self.reply) {
            Ok(_) => stats::success_stat(addresses[self.idx], self.duration),
            Err(e) => stats::failure_stat(addresses[self.idx], self.duration, e.message()),
        }
    }
}

/// What the failed attempts among `arrivals` say, in the order in which they came in.
pub open spec fn failures_of(addresses: Seq<Seq<char>>, arrivals: Seq<Arrival>) -> Seq<AttemptView>
    decreases arrivals.len(),
{
    if arrivals.len() == 0 {
        Seq::empty()
    } else {
        let before = failures_of(addresses, arrivals.drop_last());
        let last = arrivals.last();
        match checked(last.reply) {
            Ok(_) => before,
            Err(e) => before.push(errors::attempt_of(addresses[last.idx], last.duration, e)),
        }
    }
}

/// The statistics of the last attempt at server `idx` among `arrivals`.
pub open spec fn stat_at(addresses: Seq<Seq<char>>, arrivals: Seq<Arrival>, idx: int) -> Option<
    StatView,
>
    decreases arrivals.len(),
{
    if arrivals.len() == 0 {
        None
    } else if arrivals.last().idx == idx {
        Some(arrivals.last().stat(addresses))
    } else {
        stat_at(addresses, arrivals.drop_last(), idx)
    }
}

/// The statistics of the attempts at the first `count` servers, in the servers' order.
pub open spec fn stats_in_order(
    addresses: Seq<Seq<char>>,
    arrivals: Seq<Arrival>,
    count: nat,
) -> Seq<StatView>
    decreases count,
{
    if count == 0 {
        Seq::empty()
    } else {
        let before = stats_in_order(addresses, arrivals, (count - 1) as nat);
        match stat_at(addresses, arrivals, count - 1) {
            Some(stat) => before.push(stat),
            None => before,
        }
    }
}

/// The error after `failures`: one that names them all.
pub open spec fn is_joined(err: DoHError, failures: Seq<AttemptView>) -> bool {
    if failures.len() == 0 {
        err is UpstreamIssue
    } else {
        err matches DoHError::UpstreamJoined(attempts) && errors::attempt_views(attempts@)
            == failures
    }
}

/// The attempts of one query so far.
pub struct Attempts {
    addresses: Vec<String>,
    failures: Vec<UpstreamAttemptError>,
    attempts: Vec<Option<UpstreamStatistics>>,
    arrived: Ghost<Seq<Arrival>>,
}

spec fn opt_stat(s: Option<UpstreamStatistics>) -> Option<StatView> {
    match s {
        Some(x) => Some(x@),
        None => None,
    }
}

impl Attempts {
    /// The addresses of the servers.
    pub closed spec fn servers(&self) -> Seq<Seq<char>> {
        text::texts(self.addresses@)
    }

    /// The replies so far, in the order in which they came in.
    pub closed spec fn arrivals(&self) -> Seq<Arrival> {
        self.arrived@
    }

    pub closed spec fn wf(&self) -> bool {
        &&& self.attempts@.len() == self.addresses@.len()
        &&& errors::attempt_views(self.failures@) == failures_of(self.servers(), self.arrived@)
        &&& forall|i: int|
            0 <= i < self.attempts@.len() ==> opt_stat(#[trigger] self.attempts@[i]) == stat_at(
                self.servers(),
                self.arrived@,
                i,
            )
    }

    pub fn new(addresses: Vec<String>) -> (a: Self)
        ensures
            a.wf(),
            a.servers() == text::texts(addresses@),
            a.arrivals().len() == 0,
    {
        let mut attempts: Vec<Option<UpstreamStatistics>> = Vec::new();
        let mut i: usize = 0;
        while i < addresses.len()
            invariant
                i <= addresses@.len(),
                attempts@.len() == i,
                forall|j: int| 0 <= j < i ==> (#[trigger] attempts@[j]) is None,
            decreases addresses@.len() - i,
        {
            attempts.push(None);
            i = i + 1;
        }
        let a = Attempts {
            addresses,
            failures: Vec::new(),
            attempts,
            arrived: Ghost(Seq::empty()),
        };
        assert(errors::attempt_views(a.failures@) =~= failures_of(a.servers(), a.arrived@));
        a
    }

    /// Notes a reply. What it comes to is handed back where it is an answer.
    pub fn arrive(
        &mut self,
        idx: usize,
        reply: Result<Vec<u8>, DoHError>,
        duration: Duration,
    ) -> (answer: Option<Vec<u8>>)
        requires
            old(self).wf(),
            idx < old(self).servers().len(),
        ensures
            final(self).wf(),
            final(self).servers() == old(self).servers(),
            final(self).arrivals() == old(self).arrivals().push(
                Arrival { idx: idx as int, reply, duration },
            ),
            match checked(reply) {
                Ok(packet) => answer == Some(packet),
                Err(_) => answer is None,
            },
    {
        let ghost arrival = Arrival { idx: idx as int, reply, duration };
        let ghost now = self.arrived@.push(arrival);
        let ghost failures = errors::attempt_views(self.failures@);
        assert(self.servers()[idx as int] == self.addresses@[idx as int]@);
        assert(now.drop_last() =~= self.arrived@);
        let address = self.addresses[idx].clone();
        let result = validate_reply(reply);
        let answer = match result {
            Ok(packet) => {
                self.attempts.set(idx, Some(UpstreamStatistics::success(address, duration)));
                Some(packet)
            },
            Err(err) => {
                let failure = UpstreamAttemptError::from_doh_error(address.clone(), duration, &err);
                self.failures.push(failure);
                assert(errors::attempt_views(self.failures@) =~= failures.push(failure@));
                self.attempts.set(
                    idx,
                    Some(UpstreamStatistics::failure(address, duration, err.to_text())),
                );
                None
            },
        };
        self.arrived = Ghost(now);
        answer
    }

    /// The statistics of the attempts, in the servers' order.
    fn flattened(&self) -> (main: Vec<UpstreamStatistics>)
        requires
            self.wf(),
        ensures
            stats::stat_views(main@) == stats_in_order(
                self.servers(),
                self.arrivals(),
                self.servers().len(),
            ),
    {
        let mut main: Vec<UpstreamStatistics> = Vec::new();
        let mut i: usize = 0;
        assert(stats::stat_views(main@) =~= Seq::empty());
        while i < self.attempts.len()
            invariant
                i <= self.attempts@.len(),
                self.wf(),
                stats::stat_views(main@) == stats_in_order(
                    self.servers(),
                    self.arrivals(),
                    i as nat,
                ),
            decreases self.attempts@.len() - i,
        {
            let ghost before = stats::stat_views(main@);
            match &self.attempts[i] {
                Some(stat) => {
                    let stat = copy_stat(stat);
                    main.push(stat);
                    assert(stats::stat_views(main@) =~= before.push(stat@));
                },
                None => {},
            }
            i = i + 1;
        }
        main
    }

    /// The statistics and, where an attempt failed, the error that names the failed attempts.
    pub fn collect(self) -> (r: (Vec<UpstreamStatistics>, Option<DoHError>))
        requires
            self.wf(),
        ensures
            stats::stat_views(r.0@) == stats_in_order(
                self.servers(),
                self.arrivals(),
                self.servers().len(),
            ),
            match r.1 {
                Some(err) => failures_of(self.servers(), self.arrivals()).len() > 0 && is_joined(
                    err,
                    failures_of(self.servers(), self.arrivals()),
                ),
                None => failures_of(self.servers(), self.arrivals()).len() == 0,
            },
    {
        let main = self.flattened();
        if self.failures.len() == 0 {
            (main, None)
        } else {
            (main, Some(DoHError::from_upstream_attempts(self.failures)))
        }
    }

    /// What the query came to where no attempt was answered.
    pub fn give_up(self) -> (outcome: ExchangeOutcome)
        requires
            self.wf(),
        ensures
            exists|err: DoHError| #[trigger]
                is_joined(err, failures_of(self.servers(), self.arrivals())) && outcome.failed(
                    err,
                    stats_in_order(self.servers(), self.arrivals(), self.servers().len()),
                ),
    {
        let main = self.flattened();
        let err = DoHError::from_upstream_attempts(self.failures);
        assert(is_joined(err, failures_of(self.servers(), self.arrivals())));
        ExchangeOutcome { packet: Err(err), query_stats: QueryStatistics::with_main(main) }
    }
}

fn copy_text(s: &Option<String>) -> (r: Option<String>)
    ensures
        text::opt_text(r) == text::opt_text(*s),
{
    match s {
        Some(x) => Some(x.clone()),
        None => None,
    }
}

fn copy_stat(stat: &UpstreamStatistics) -> (r: UpstreamStatistics)
    ensures
        r@ == stat@,
{
    UpstreamStatistics {
        error: copy_text(&stat.error),
        address: stat.address.clone(),
        query_duration: stat.query_duration,
        is_cached: stat.is_cached,
    }
}

/// What an answered query came to: the packet, with the statistics of the attempt alone.
pub fn answered_outcome(address: String, packet: Vec<u8>, duration: Duration) -> (outcome:
    ExchangeOutcome)
    ensures
        outcome.answered(packet@, stats::success_stat(address@, duration)),
{
    let stat = UpstreamStatistics::success(address, duration);
    let mut main: Vec<UpstreamStatistics> = Vec::new();
    main.push(stat);
    let outcome = ExchangeOutcome {
        packet: Ok(packet),
        query_stats: QueryStatistics::with_main(main),
    };
    assert(outcome.main_stats() =~= seq![stat@]);
    outcome
}

/// What a query came to that had one server to go to.
pub fn single_outcome(
    address: String,
    reply: Result<Vec<u8>, DoHError>,
    duration: Duration,
) -> (outcome: ExchangeOutcome)
    ensures
        match checked(reply) {
            Ok(packet) => outcome.answered(packet@, stats::success_stat(address@, duration)),
            Err(err) => outcome.failed(
                err,
                seq![stats::failure_stat(address@, duration, err.message())],
            ),
        },
{
    match validate_reply(reply) {
        Ok(packet) => answered_outcome(address, packet, duration),
        Err(err) => {
            let stat = UpstreamStatistics::failure(address, duration, err.to_text());
            let mut main: Vec<UpstreamStatistics> = Vec::new();
            main.push(stat);
            let outcome = ExchangeOutcome {
                packet: Err(err),
                query_stats: QueryStatistics::with_main(main),
            };
            assert(outcome.main_stats() =~= seq![stat@]);
            outcome
        },
    }
}

/// Where every server replied once and every reply was a failure, the statistics and the failures
/// are complete: one of each for every server.
pub proof fn law_every_failure_is_counted(addresses: Seq<Seq<char>>, arrivals: Seq<Arrival>)
    requires
        forall|k: int| 0 <= k < arrivals.len() ==> checked((#[trigger] arrivals[k]).reply) is Err,
        forall|i: int| 0 <= i < addresses.len() ==> #[trigger] replied(arrivals, i),
    ensures
        failures_of(addresses, arrivals).len() == arrivals.len(),
        stats_in_order(addresses, arrivals, addresses.len()).len() == addresses.len(),
        forall|i: int|
            0 <= i < addresses.len() ==> (#[trigger] stats_in_order(
                addresses,
                arrivals,
                addresses.len(),
            )[i]).error is Some,
{
    lemma_failures_counted(addresses, arrivals);
    lemma_stats_counted(addresses, arrivals, addresses.len());
}

/// Server `i` is among those that replied.
pub open spec fn replied(arrivals: Seq<Arrival>, i: int) -> bool {
    exists|k: int| 0 <= k < arrivals.len() && (#[trigger] arrivals[k]).idx == i
}

proof fn lemma_failures_counted(addresses: Seq<Seq<char>>, arrivals: Seq<Arrival>)
    requires
        forall|k: int| 0 <= k < arrivals.len() ==> checked((#[trigger] arrivals[k]).reply) is Err,
    ensures
        failures_of(addresses, arrivals).len() == arrivals.len(),
    decreases arrivals.len(),
{
    if arrivals.len() > 0 {
        let rest = arrivals.drop_last();
        assert forall|k: int| 0 <= k < rest.len() implies checked((#[trigger] rest[k]).reply)
            is Err by {
            assert(rest[k] == arrivals[k]);
        }
        lemma_failures_counted(addresses, rest);
    }
}

proof fn lemma_stat_failed(addresses: Seq<Seq<char>>, arrivals: Seq<Arrival>, i: int)
    requires
        forall|k: int| 0 <= k < arrivals.len() ==> checked((#[trigger] arrivals[k]).reply) is Err,
        replied(arrivals, i),
    ensures
        stat_at(addresses, arrivals, i) matches Some(stat) && stat.error is Some,
    decreases arrivals.len(),
{
    if arrivals.last().idx != i {
        let rest = arrivals.drop_last();
        let k = choose|k: int| 0 <= k < arrivals.len() && (#[trigger] arrivals[k]).idx == i;
        assert(rest[k] == arrivals[k]);
        assert forall|k: int| 0 <= k < rest.len() implies checked((#[trigger] rest[k]).reply)
            is Err by {
            assert(rest[k] == arrivals[k]);
        }
        lemma_stat_failed(addresses, rest, i);
    }
}

proof fn lemma_stats_counted(addresses: Seq<Seq<char>>, arrivals: Seq<Arrival>, count: nat)
    requires
        forall|k: int| 0 <= k < arrivals.len() ==> checked((#[trigger] arrivals[k]).reply) is Err,
        forall|i: int| 0 <= i < count ==> #[trigger] replied(arrivals, i),
    ensures
        stats_in_order(addresses, arrivals, count).len() == count,
        forall|i: int|
            0 <= i < count ==> (#[trigger] stats_in_order(addresses, arrivals, count)[i]).error
                is Some,
    decreases count,
{
    if count > 0 {
        lemma_stats_counted(addresses, arrivals, (count - 1) as nat);
        assert(replied(arrivals, count - 1));
        lemma_stat_failed(addresses, arrivals, count - 1);
    }
}

/// A reply is an answer exactly where it is a message, and then it is that message as it came. A
/// packet that is none is the server's fault; a failure stays what it was.
pub proof fn law_only_messages_are_answers(packet: Vec<u8>, err: DoHError)
    ensures
        msg::decode_message(packet@) is Ok ==> checked(Ok(packet)) == Ok::<Vec<u8>, DoHError>(
            packet,
        ),
        msg::decode_message(packet@) is Err ==> (checked(Ok(packet)) matches Err(e)
            && e is UpstreamIssue),
        checked(Err(err)) == Err::<Vec<u8>, DoHError>(err),
{
}

/// What a query came to is told in full: with the packet or the error, with every attempt, and
/// with none at other servers.
pub proof fn law_outcomes_are_what_they_say(
    outcome: ExchangeOutcome,
    packet: Seq<u8>,
    stat: StatView,
    err: DoHError,
    main: Seq<StatView>,
)
    ensures
        outcome.answered(packet, stat) <==> (outcome.packet matches Ok(p) && p@ == packet)
            && outcome.query_stats.main_attempts().len() == 1
            && outcome.query_stats.main_attempts()[0]@ == stat
            && outcome.query_stats.fallback_attempts().len() == 0,
        outcome.failed(err, main) <==> outcome.packet == Err::<Vec<u8>, DoHError>(err)
            && outcome.query_stats.main_attempts().len() == main.len() && (forall|i: int|
            0 <= i < main.len() ==> (#[trigger] outcome.query_stats.main_attempts()[i])@ == main[i])
            && outcome.query_stats.fallback_attempts().len() == 0,
{
    let all = outcome.query_stats.main_attempts();
    if all.len() == 1 && all[0]@ == stat {
        assert(outcome.main_stats() =~= seq![stat]);
    }
    if outcome.main_stats() == seq![stat] {
        assert(seq![stat].len() == 1);
        assert(outcome.main_stats().len() == all.len());
        assert(outcome.main_stats()[0] == all[0]@);
    }
    if all.len() == main.len() && forall|i: int|
        0 <= i < main.len() ==> (#[trigger] all[i])@ == main[i] {
        assert(outcome.main_stats() =~= main);
    }
    if outcome.main_stats() == main {
        assert forall|i: int| 0 <= i < main.len() implies (#[trigger] all[i])@ == main[i] by {
            assert(outcome.main_stats()[i] == all[i]@);
        }
    }
}

/// Every failed reply is told of, in the order in which they came in, and no other: with the
/// address of its server, how long it took, and its kind and text.
pub proof fn law_failures_are_told_of(addresses: Seq<Seq<char>>, arrivals: Seq<Arrival>)
    ensures
        failures_of(addresses, arrivals) == arrivals.filter(
            |a: Arrival| checked(a.reply) is Err,
        ).map_values(
            |a: Arrival|
                AttemptView {
                    address: addresses[a.idx],
                    duration: a.duration,
                    error_kind: errors::UpstreamErrorKind::of(checked(a.reply)->Err_0),
                    error_message: checked(a.reply)->Err_0.message(),
                },
        ),
    decreases arrivals.len(),
{
    reveal(Seq::filter);
    let failed = |a: Arrival| checked(a.reply) is Err;
    let told = |a: Arrival|
        AttemptView {
            address: addresses[a.idx],
            duration: a.duration,
            error_kind: errors::UpstreamErrorKind::of(checked(a.reply)->Err_0),
            error_message: checked(a.reply)->Err_0.message(),
        };
    if arrivals.len() > 0 {
        let rest = arrivals.drop_last();
        law_failures_are_told_of(addresses, rest);
        if failed(arrivals.last()) {
            assert(arrivals.filter(failed) =~= rest.filter(failed).push(arrivals.last()));
            assert(arrivals.filter(failed).map_values(told) =~= rest.filter(failed).map_values(
                told,
            ).push(told(arrivals.last())));
        } else {
            assert(arrivals.filter(failed) =~= rest.filter(failed));
        }
    } else {
        assert(arrivals.filter(failed).map_values(told) =~= Seq::empty());
    }
}

/// The statistics of a server are those of its last reply: its address, how long it took, and the
/// text of the error where it failed. There are none where it did not reply.
pub proof fn law_statistics_of_a_server(
    addresses: Seq<Seq<char>>,
    arrivals: Seq<Arrival>,
    idx: int,
)
    ensures
        stat_at(addresses, arrivals, idx) is None <==> !replied(arrivals, idx),
        stat_at(addresses, arrivals, idx) matches Some(stat) ==> exists|k: int|
            0 <= k < arrivals.len() && (#[trigger] arrivals[k]).idx == idx && (forall|j: int|
                k < j < arrivals.len() ==> (#[trigger] arrivals[j]).idx != idx) && stat.address
                == addresses[idx] && stat.query_duration == arrivals[k].duration && !stat.is_cached
                && stat.error == (match checked(arrivals[k].reply) {
                Ok(_) => None,
                Err(e) => Some(e.message()),
            }),
    decreases arrivals.len(),
{
    if arrivals.len() > 0 {
        let last = arrivals.len() - 1;
        let rest = arrivals.drop_last();
        if arrivals[last].idx == idx {
            assert(replied(arrivals, idx));
            assert(arrivals[last].idx == idx);
        } else {
            law_statistics_of_a_server(addresses, rest, idx);
            assert forall|j: int| 0 <= j < rest.len() implies #[trigger] arrivals[j]
                == rest[j] by {}
            if replied(arrivals, idx) {
                let k = choose|k: int|
                    0 <= k < arrivals.len() && (#[trigger] arrivals[k]).idx == idx;
                assert(rest[k].idx == idx);
            }
            if let Some(stat) = stat_at(addresses, rest, idx) {
                let k = choose|k: int|
                    0 <= k < rest.len() && (#[trigger] rest[k]).idx == idx && (forall|j: int|
                        k < j < rest.len() ==> (#[trigger] rest[j]).idx != idx) && stat.address
                        == addresses[idx] && stat.query_duration == rest[k].duration
                        && !stat.is_cached && stat.error == (match checked(rest[k].reply) {
                        Ok(_) => None,
                        Err(e) => Some(e.message()),
                    });
                assert(arrivals[k].idx == idx);
                assert forall|j: int| k < j < arrivals.len() implies (#[trigger] arrivals[j]).idx
                    != idx by {
                    if j < rest.len() {
                        assert(rest[j].idx != idx);
                    }
                }
            }
        }
    }
}

/// The statistics of a query are those of all servers that replied, in the servers' order.
pub proof fn law_statistics_in_order(
    addresses: Seq<Seq<char>>,
    arrivals: Seq<Arrival>,
    count: nat,
)
    ensures
        stats_in_order(addresses, arrivals, count) == Seq::new(count, |i: int| i).filter(
            |i: int| replied(arrivals, i),
        ).map_values(|i: int| stat_at(addresses, arrivals, i)->0),
    decreases count,
{
    reveal(Seq::filter);
    let has = |i: int| replied(arrivals, i);
    let stat = |i: int| stat_at(addresses, arrivals, i)->0;
    let all = Seq::new(count, |i: int| i);
    if count > 0 {
        let less = (count - 1) as nat;
        let rest = Seq::new(less, |i: int| i);
        law_statistics_in_order(addresses, arrivals, less);
        law_statistics_of_a_server(addresses, arrivals, count - 1);
        assert(all.drop_last() =~= rest);
        assert(all.last() == count - 1);
        if has(count - 1) {
            assert(all.filter(has) =~= rest.filter(has).push(count - 1));
            assert(all.filter(has).map_values(stat) =~= rest.filter(has).map_values(stat).push(
                stat(count - 1),
            ));
        } else {
            assert(all.filter(has) =~= rest.filter(has));
        }
    } else {
        assert(all.filter(has).map_values(stat) =~= Seq::empty());
    }
}

/// The error of several failures holds each of them, in their order; without any it is the
/// server's fault.
pub proof fn law_joined_errors_hold_all(err: DoHError, failures: Seq<AttemptView>)
    ensures
        is_joined(err, failures) ==> (failures.len() == 0 <==> err is UpstreamIssue) && (err
            matches DoHError::UpstreamJoined(attempts) ==> attempts@.len() == failures.len()
            && forall|i: int|
            0 <= i < failures.len() ==> (#[trigger] attempts@[i])@ == failures[i]) && (failures.len()
            > 0 ==> err is UpstreamJoined),
{
    if is_joined(err, failures) {
        if let DoHError::UpstreamJoined(attempts) = err {
            if failures.len() > 0 {
                assert forall|i: int| 0 <= i < failures.len() implies (#[trigger] attempts@[i])@
                    == failures[i] by {
                    assert(errors::attempt_views(attempts@)[i] == attempts@[i]@);
                }
            }
        }
    }
}

} // verus!
