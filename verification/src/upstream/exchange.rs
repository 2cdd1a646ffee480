//! Which way a query takes to the upstream servers, and what becomes of its answer.

use super::answers;
use super::attempts::ExchangeOutcome;
use super::dns_packet;
use super::rr_types::RrType;
use super::stats::{QueryStatistics, StatView};
use crate::errors::DoHError;
use crate::globals::UpstreamMode;
use crate::limits::Limits;
use vstd::prelude::*;

verus! {

/// The ways a query can take.
#[derive(Clone, Copy, Debug, PartialEq, Eq, Structural)]
pub enum Strategy {
    NoUpstreams,
    LoadBalance,
    Parallel,
    FastestAddr,
}

/// The way of a query. That for the fastest address is for queries that ask for addresses.
pub open spec fn strategy_of(upstreams: nat, mode: UpstreamMode, query: Seq<u8>) -> Strategy {
    if upstreams == 0 {
        Strategy::NoUpstreams
    } else {
        match mode {
            UpstreamMode::Parallel => Strategy::Parallel,
            UpstreamMode::LoadBalance => Strategy::LoadBalance,
            UpstreamMode::FastestAddr => if answers::asked_type(query) == Some(RrType::A)
                || answers::asked_type(query) == Some(RrType::AAAA) {
                Strategy::FastestAddr
            } else {
                Strategy::LoadBalance
            },
        }
    }
}

/// Chooses the way of a query.
pub fn choose_strategy(upstreams: usize, mode: UpstreamMode, query: &[u8]) -> (strategy: Strategy)
    ensures
        strategy == strategy_of(upstreams as nat, mode, query@),
{
    if upstreams == 0 {
        return Strategy::NoUpstreams;
    }
    match mode {
        UpstreamMode::Parallel => Strategy::Parallel,
        UpstreamMode::FastestAddr => match dns_packet::query_qtype(query) {
            Some(RrType::A) | Some(RrType::AAAA) => Strategy::FastestAddr,
            _ => Strategy::LoadBalance,
        },
        UpstreamMode::LoadBalance => Strategy::LoadBalance,
    }
}

/// What a query comes to where there is no upstream server.
pub fn no_upstreams() -> (outcome: ExchangeOutcome)
    ensures
        outcome.failed(DoHError::UpstreamIssue, Seq::<StatView>::empty()),
{
    let outcome = ExchangeOutcome {
        packet: Err(DoHError::UpstreamIssue),
        query_stats: QueryStatistics::default(),
    };
    assert(outcome.main_stats() =~= Seq::<StatView>::empty());
    outcome
}

/// The answer to a query, how long it may be kept, and the attempts that it took.
#[derive(Debug)]
pub struct DnsResponse {
    pub packet: Vec<u8>,
    pub ttl: u32,
    pub query_stats: QueryStatistics,
}

/// Checks that a query is long enough to be one.
pub fn check_query(query: &[u8], limits: &Limits) -> (r: Result<(), DoHError>)
    ensures
        r == (if query@.len() < limits.min_dns_packet_len {
            Err::<(), DoHError>(DoHError::Incomplete)
        } else {
            Ok(())
        }),
{
    if query.len() < limits.min_dns_packet_len {
        return Err(DoHError::Incomplete);
    }
    Ok(())
}

/// How long an answer may be kept: as errors are where it is one that may pass, and otherwise as
/// its records say; `min_ttl` is what they say, where they can be read.
pub fn response_ttl(recoverable_error: bool, min_ttl: Option<u32>, err_ttl: u32) -> (r: Result<
    u32,
    DoHError,
>)
    ensures
        r == (if recoverable_error {
            Ok::<u32, DoHError>(err_ttl)
        } else {
            match min_ttl {
                Some(ttl) => Ok(ttl),
                None => Err(DoHError::UpstreamIssue),
            }
        }),
{
    if recoverable_error {
        Ok(err_ttl)
    } else {
        match min_ttl {
            Some(ttl) => Ok(ttl),
            None => Err(DoHError::UpstreamIssue),
        }
    }
}

/// The mode decides which way a query takes, but for queries for anything but addresses there is
/// no fastest one: they take the way of balanced load.
pub proof fn law_modes_decide(upstreams: nat, query: Seq<u8>)
    ensures
        strategy_of(0, UpstreamMode::LoadBalance, query) is NoUpstreams,
        strategy_of(0, UpstreamMode::Parallel, query) is NoUpstreams,
        strategy_of(0, UpstreamMode::FastestAddr, query) is NoUpstreams,
        upstreams > 0 ==> strategy_of(upstreams, UpstreamMode::LoadBalance, query) is LoadBalance,
        upstreams > 0 ==> strategy_of(upstreams, UpstreamMode::Parallel, query) is Parallel,
        upstreams > 0 ==> (strategy_of(upstreams, UpstreamMode::FastestAddr, query) is FastestAddr
            <==> (answers::asked_type(query) matches Some(t) && (t.number() == 1 || t.number()
            == 28) && t.wf())),
        upstreams > 0 && strategy_of(upstreams, UpstreamMode::FastestAddr, query) !is FastestAddr
            ==> strategy_of(upstreams, UpstreamMode::FastestAddr, query) is LoadBalance,
{
}

} // verus!
