//! Asking every upstream server at once: the first answer counts.

use super::attempts;
use super::attempts::{Arrival, Attempts, ExchangeOutcome};
use super::stats;
use crate::errors::DoHError;
use crate::text;
use crate::time::Duration;
use vstd::prelude::*;

verus! {

/// A query that waits for replies.
pub struct ParallelExchange {
    attempts: Attempts,
    addresses: Vec<String>,
    waiting: usize,
}

/// After a reply: the query has come to an end, or goes on waiting.
pub enum ParallelStep {
    Done(ExchangeOutcome),
    Waiting(ParallelExchange),
}

impl ParallelExchange {
    /// The addresses of the servers.
    pub closed spec fn servers(&self) -> Seq<Seq<char>> {
        self.attempts.servers()
    }

    /// The replies so far, all of them failures.
    pub closed spec fn arrivals(&self) -> Seq<Arrival> {
        self.attempts.arrivals()
    }

    pub closed spec fn wf(&self) -> bool {
        &&& self.attempts.wf()
        &&& text::texts(self.addresses@) == self.servers()
        &&& self.waiting >= 1
        &&& self.arrivals().len() + self.waiting == self.servers().len()
        &&& forall|k: int|
            0 <= k < self.arrivals().len() ==> attempts::checked(
                (#[trigger] self.arrivals()[k]).reply,
            ) is Err
    }

    /// A query to the servers of these addresses.
    pub fn new(addresses: Vec<String>) -> (e: Self)
        requires
            addresses@.len() >= 1,
        ensures
            e.wf(),
            e.servers() == text::texts(addresses@),
            e.arrivals().len() == 0,
    {
        let copies = copy_texts(&addresses);
        let waiting: usize = addresses.len();
        ParallelExchange { attempts: Attempts::new(addresses), addresses: copies, waiting }
    }

    /// Takes the reply of server `idx`. The first answer ends the query; so does the last
    /// failure, and the error then names all failures, unless there is one server only.
    pub fn on_reply(
        self,
        idx: usize,
        reply: Result<Vec<u8>, DoHError>,
        duration: Duration,
    ) -> (step: ParallelStep)
        requires
            self.wf(),
            idx < self.servers().len(),
        ensures
            ({
                let now = self.arrivals().push(Arrival { idx: idx as int, reply, duration });
                let servers = self.servers();
                match attempts::checked(reply) {
                    Ok(packet) => step matches ParallelStep::Done(outcome) && outcome.answered(
                        packet@,
                        stats::success_stat(servers[idx as int], duration),
                    ),
                    Err(err) => if servers.len() == 1 {
                        step matches ParallelStep::Done(outcome) && outcome.failed(
                            err,
                            seq![
                                stats::failure_stat(servers[idx as int], duration, err.message()),
                            ],
                        )
                    } else if now.len() == servers.len() {
                        step matches ParallelStep::Done(outcome) && exists|joined: DoHError|
                            #[trigger] attempts::is_joined(
                                joined,
                                attempts::failures_of(servers, now),
                            ) && outcome.failed(
                                joined,
                                attempts::stats_in_order(servers, now, servers.len()),
                            )
                    } else {
                        step matches ParallelStep::Waiting(next) && next.wf() && next.servers()
                            == servers && next.arrivals() == now
                    },
                }
            }),
    {
        let mut exchange = self;
        assert(exchange.servers()[idx as int] == exchange.addresses@[idx as int]@);
        let address = exchange.addresses[idx].clone();
        if exchange.addresses.len() == 1 {
            return ParallelStep::Done(attempts::single_outcome(address, reply, duration));
        }
        let ghost before = exchange.arrivals();
        match exchange.attempts.arrive(idx, reply, duration) {
            Some(packet) => ParallelStep::Done(
                attempts::answered_outcome(address, packet, duration),
            ),
            None => {
                exchange.waiting = exchange.waiting - 1;
                if exchange.waiting == 0 {
                    ParallelStep::Done(exchange.attempts.give_up())
                } else {
                    assert forall|k: int|
                        0 <= k < exchange.arrivals().len() implies attempts::checked(
                        (#[trigger] exchange.arrivals()[k]).reply,
                    ) is Err by {
                        if k < before.len() {
                            assert(exchange.arrivals()[k] == before[k]);
                        }
                    }
                    ParallelStep::Waiting(exchange)
                }
            },
        }
    }

    /// No further reply can come: the query ends with the failures so far.
    pub fn on_closed(self) -> (outcome: ExchangeOutcome)
        requires
            self.wf(),
        ensures
            exists|joined: DoHError| #[trigger]
                attempts::is_joined(
                    joined,
                    attempts::failures_of(self.servers(), self.arrivals()),
                ) && outcome.failed(
                    joined,
                    attempts::stats_in_order(
                        self.servers(),
                        self.arrivals(),
                        self.servers().len(),
                    ),
                ),
    {
        self.attempts.give_up()
    }
}

/// A query that still waits has had no answer, and has not had a reply from every server: the
/// first answer is the one that counts.
pub proof fn law_waiting_query_has_no_answer(exchange: &ParallelExchange)
    requires
        exchange.wf(),
    ensures
        exchange.arrivals().len() < exchange.servers().len(),
        forall|k: int|
            0 <= k < exchange.arrivals().len() ==> attempts::checked(
                (#[trigger] exchange.arrivals()[k]).reply,
            ) is Err,
{
}

/// Copies of texts.
pub fn copy_texts(list: &Vec<String>) -> (copies: Vec<String>)
    ensures
        text::texts(copies@) == text::texts(list@),
{
    let mut copies: Vec<String> = Vec::new();
    let mut i: usize = 0;
    while i < list.len()
        invariant
            i <= list@.len(),
            copies@.len() == i,
            forall|j: int| 0 <= j < i ==> (#[trigger] copies@[j])@ == list@[j]@,
        decreases list@.len() - i,
    {
        copies.push(list[i].clone());
        i = i + 1;
    }
    assert(text::texts(copies@) =~= text::texts(list@));
    copies
}

} // verus!
