//! Asking one upstream server after the other until one answers.

use super::attempts;
use super::attempts::{Arrival, Attempts, ExchangeOutcome};
use super::parallel;
use super::stats;
use crate::errors::DoHError;
use crate::text;
use crate::time::Duration;
use vstd::prelude::*;

verus! {

/// What a failed attempt counts for in a server's round-trip times, in seconds.
pub const LOAD_BALANCE_FAILURE_PENALTY_SECS: u64 = 10;

/// A query between two attempts, or in one.
pub struct LoadBalanceExchange {
    attempts: Attempts,
    addresses: Vec<String>,
    remaining: Vec<usize>,
    current: Option<usize>,
}

/// After an attempt: the query has come to an end, or goes on to another server.
pub enum LoadBalanceStep {
    Done(ExchangeOutcome),
    Next(LoadBalanceExchange),
}

/// A round-trip time to add to those of a server.
#[derive(Clone, Copy, Debug, PartialEq, Eq, Structural)]
pub struct RttSample {
    pub idx: usize,
    pub elapsed: Duration,
}

impl LoadBalanceExchange {
    /// The addresses of the servers.
    pub closed spec fn servers(&self) -> Seq<Seq<char>> {
        self.attempts.servers()
    }

    /// The replies so far, all of them failures.
    pub closed spec fn arrivals(&self) -> Seq<Arrival> {
        self.attempts.arrivals()
    }

    /// The servers that have not been asked yet.
    pub closed spec fn left(&self) -> Seq<usize> {
        self.remaining@
    }

    /// The server that is being asked.
    pub closed spec fn asking(&self) -> Option<usize> {
        self.current
    }

    /// Every server is asked once at most: it is left, being asked, or has failed.
    pub closed spec fn wf(&self) -> bool {
        &&& self.attempts.wf()
        &&& text::texts(self.addresses@) == self.servers()
        &&& self.left().no_duplicates()
        &&& forall|j: int|
            0 <= j < self.left().len() ==> (#[trigger] self.left()[j]) < self.servers().len()
        &&& self.asking() matches Some(idx) ==> idx < self.servers().len() && !self.left().contains(
            idx,
        )
        &&& forall|k: int|
            0 <= k < self.arrivals().len() ==> attempts::checked(
                (#[trigger] self.arrivals()[k]).reply,
            ) is Err
        &&& forall|k: int|
            0 <= k < self.arrivals().len() ==> 0 <= (#[trigger] self.arrivals()[k]).idx
                < self.servers().len() && !self.left().contains(self.arrivals()[k].idx as usize)
                && self.asking() != Some(self.arrivals()[k].idx as usize)
        &&& forall|j: int, k: int|
            0 <= j < k < self.arrivals().len() ==> (#[trigger] self.arrivals()[j]).idx != (
            #[trigger] self.arrivals()[k]).idx
        &&& forall|i: usize|
            i < self.servers().len() ==> #[trigger] self.left().contains(i) || self.asking()
                == Some(i) || attempts::replied(self.arrivals(), i as int)
        &&& self.left().len() + self.arrivals().len() + (if self.asking() is Some {
            1nat
        } else {
            0
        }) == self.servers().len()
    }

    /// A query to the servers of these addresses.
    pub fn new(addresses: Vec<String>) -> (e: Self)
        requires
            addresses@.len() >= 1,
        ensures
            e.wf(),
            e.servers() == text::texts(addresses@),
            e.arrivals().len() == 0,
            e.asking() is None,
            e.left().len() == addresses@.len(),
            forall|i: int| 0 <= i < addresses@.len() ==> e.left()[i] == i,
    {
        let copies = parallel::copy_texts(&addresses);
        let mut remaining: Vec<usize> = Vec::new();
        let mut i: usize = 0;
        while i < addresses.len()
            invariant
                i <= addresses@.len(),
                remaining@.len() == i,
                forall|j: int| 0 <= j < i ==> remaining@[j] == j,
            decreases addresses@.len() - i,
        {
            remaining.push(i);
            i = i + 1;
        }
        let ghost n = addresses@.len();
        let e = LoadBalanceExchange {
            attempts: Attempts::new(addresses),
            addresses: copies,
            remaining,
            current: None,
        };
        assert forall|i: usize| i < e.servers().len() implies #[trigger] e.left().contains(i) by {
            assert(e.left()[i as int] == i);
        }
        e
    }

    /// The servers that have not been asked yet.
    pub fn remaining(&self) -> (left: &[usize])
        ensures
            left@ == self.left(),
    {
        self.remaining.as_slice()
    }

    /// Takes the server at `position` of those that are left as the next to ask.
    pub fn pick(&mut self, position: usize) -> (idx: usize)
        requires
            old(self).wf(),
            old(self).asking() is None,
            position < old(self).left().len(),
        ensures
            final(self).wf(),
            final(self).servers() == old(self).servers(),
            final(self).arrivals() == old(self).arrivals(),
            idx == old(self).left()[position as int],
            idx < old(self).servers().len(),
            final(self).asking() == Some(idx),
            final(self).left().len() + 1 == old(self).left().len(),
            forall|i: usize| #[trigger]
                final(self).left().contains(i) <==> old(self).left().contains(i) && i != idx,
    {
        let ghost before = self.remaining@;
        let idx: usize = self.remaining.swap_remove(position);
        proof {
            lemma_swap_removed(before, self.remaining@, position as int);
        }
        self.current = Some(idx);
        assert forall|i: usize| i < self.servers().len() implies #[trigger] self.left().contains(i)
            || self.asking() == Some(i) || attempts::replied(self.arrivals(), i as int) by {
            assert(before.contains(i) || attempts::replied(self.arrivals(), i as int));
        }
        assert forall|j: int| 0 <= j < self.left().len() implies (#[trigger] self.left()[j])
            < self.servers().len() by {
            assert(self.left().contains(self.left()[j]));
            let k = choose|k: int| 0 <= k < before.len() && before[k] == self.left()[j];
            assert(before[k] < self.servers().len());
        }
        idx
    }

    /// Takes the reply of the server that is being asked. An answer ends the query; a failure
    /// does where no server is left, and the error then names every failure, unless there is one
    /// server only. The server's round-trip times get the time that the answer took, or the
    /// penalty for a failure; with one server they are not kept.
    pub fn on_reply(self, reply: Result<Vec<u8>, DoHError>, duration: Duration) -> (r: (
        LoadBalanceStep,
        Option<RttSample>,
    ))
        requires
            self.wf(),
            self.asking() is Some,
        ensures
            ({
                let idx = self.asking()->0;
                let servers = self.servers();
                let now = self.arrivals().push(Arrival { idx: idx as int, reply, duration });
                &&& r.1 == (if servers.len() == 1 {
                    None
                } else {
                    Some(
                        RttSample {
                            idx,
                            elapsed: if attempts::checked(reply) is Ok {
                                duration
                            } else {
                                Duration { secs: LOAD_BALANCE_FAILURE_PENALTY_SECS, nanos: 0 }
                            },
                        },
                    )
                })
                &&& match attempts::checked(reply) {
                    Ok(packet) => r.0 matches LoadBalanceStep::Done(outcome) && outcome.answered(
                        packet@,
                        stats::success_stat(servers[idx as int], duration),
                    ),
                    Err(err) => if servers.len() == 1 {
                        r.0 matches LoadBalanceStep::Done(outcome) && outcome.failed(
                            err,
                            seq![
                                stats::failure_stat(servers[idx as int], duration, err.message()),
                            ],
                        )
                    } else if self.left().len() == 0 {
                        r.0 matches LoadBalanceStep::Done(outcome) && (exists|joined: DoHError|
                            #[trigger] attempts::is_joined(
                                joined,
                                attempts::failures_of(servers, now),
                            ) && outcome.failed(
                                joined,
                                attempts::stats_in_order(servers, now, servers.len()),
                            )) && attempts::failures_of(servers, now).len() == servers.len()
                            && outcome.main_stats().len() == servers.len()
                    } else {
                        r.0 matches LoadBalanceStep::Next(next) && next.wf() && next.servers()
                            == servers && next.arrivals() == now && next.left() == self.left()
                            && next.asking() is None
                    },
                }
            }),
    {
        let mut exchange = self;
        let idx: usize = match exchange.current {
            Some(idx) => idx,
            None => 0,
        };
        assert(exchange.servers()[idx as int] == exchange.addresses@[idx as int]@);
        let address = exchange.addresses[idx].clone();
        if exchange.addresses.len() == 1 {
            return (
                LoadBalanceStep::Done(attempts::single_outcome(address, reply, duration)),
                None,
            );
        }
        match exchange.attempts.arrive(idx, reply, duration) {
            Some(packet) => {
                (
                    LoadBalanceStep::Done(attempts::answered_outcome(address, packet, duration)),
                    Some(RttSample { idx, elapsed: duration }),
                )
            },
            None => {
                let sample = Some(
                    RttSample {
                        idx,
                        elapsed: Duration::from_secs(LOAD_BALANCE_FAILURE_PENALTY_SECS),
                    },
                );
                exchange.current = None;
                let ghost now = exchange.arrivals();
                proof {
                    assert(now.drop_last() =~= self.arrivals());
                    lemma_note_reply(self.arrivals(), now);
                    assert forall|i: usize|
                        i < exchange.servers().len() implies #[trigger] exchange.left().contains(i)
                        || attempts::replied(now, i as int) by {
                        assert(self.left().contains(i) || self.asking() == Some(i)
                            || attempts::replied(self.arrivals(), i as int));
                    }
                }
                if exchange.remaining.len() == 0 {
                    proof {
                        assert forall|i: int|
                            0 <= i < exchange.servers().len() implies #[trigger] attempts::replied(
                            now,
                            i,
                        ) by {
                            assert(!exchange.left().contains(i as usize));
                        }
                        attempts::law_every_failure_is_counted(exchange.servers(), now);
                    }
                    (LoadBalanceStep::Done(exchange.attempts.give_up()), sample)
                } else {
                    (LoadBalanceStep::Next(exchange), sample)
                }
            },
        }
    }
}

/// No server is asked twice: those that are left, the one that is being asked and those that have
/// failed are different ones; and together they are all servers.
pub proof fn law_each_server_is_asked_once(exchange: &LoadBalanceExchange)
    requires
        exchange.wf(),
    ensures
        exchange.left().no_duplicates(),
        exchange.asking() matches Some(idx) ==> !exchange.left().contains(idx),
        forall|k: int|
            0 <= k < exchange.arrivals().len() ==> attempts::checked(
                (#[trigger] exchange.arrivals()[k]).reply,
            ) is Err && !exchange.left().contains(exchange.arrivals()[k].idx as usize)
                && exchange.asking() != Some(exchange.arrivals()[k].idx as usize),
        forall|j: int, k: int|
            0 <= j < k < exchange.arrivals().len() ==> (#[trigger] exchange.arrivals()[j]).idx != (
            #[trigger] exchange.arrivals()[k]).idx,
        forall|i: usize|
            i < exchange.servers().len() ==> #[trigger] exchange.left().contains(i)
                || exchange.asking() == Some(i) || attempts::replied(
                exchange.arrivals(),
                i as int,
            ),
{
}

proof fn lemma_note_reply(before: Seq<Arrival>, now: Seq<Arrival>)
    requires
        now.len() == before.len() + 1,
        now.drop_last() == before,
        attempts::checked(now.last().reply) is Err,
        forall|k: int| 0 <= k < before.len() ==> attempts::checked((#[trigger] before[k]).reply)
            is Err,
    ensures
        forall|k: int| 0 <= k < now.len() ==> attempts::checked((#[trigger] now[k]).reply) is Err,
        forall|i: int| #[trigger] attempts::replied(before, i) ==> attempts::replied(now, i),
        attempts::replied(now, now.last().idx),
{
    assert forall|k: int| 0 <= k < now.len() implies attempts::checked((#[trigger] now[k]).reply)
        is Err by {
        if k < before.len() {
            assert(now[k] == before[k]);
        }
    }
    assert forall|i: int| #[trigger] attempts::replied(before, i) implies attempts::replied(
        now,
        i,
    ) by {
        let k = choose|k: int| 0 <= k < before.len() && (#[trigger] before[k]).idx == i;
        assert(now[k] == before[k]);
    }
    assert(now[now.len() - 1].idx == now.last().idx);
}

proof fn lemma_swap_removed(before: Seq<usize>, after: Seq<usize>, position: int)
    requires
        before.no_duplicates(),
        0 <= position < before.len(),
        after == before.update(position, before.last()).drop_last(),
    ensures
        after.no_duplicates(),
        forall|i: usize| #[trigger]
            after.contains(i) <==> before.contains(i) && i != before[position],
{
    assert forall|i: usize| #[trigger] after.contains(i) implies before.contains(i) && i
        != before[position] by {
        let k = choose|k: int| 0 <= k < after.len() && after[k] == i;
        if k == position {
            assert(before[before.len() - 1] == i);
        } else {
            assert(before[k] == i);
        }
    }
    assert forall|i: usize| before.contains(i) && i != before[position] implies #[trigger]
        after.contains(i) by {
        let k = choose|k: int| 0 <= k < before.len() && before[k] == i;
        if k == before.len() - 1 {
            assert(after[position] == i);
        } else {
            assert(after[k] == i);
        }
    }
}

} // verus!
