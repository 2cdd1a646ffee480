//! Asking every upstream server, and answering with the address that is reached fastest.

use super::answers;
use super::attempts;
use super::attempts::{Arrival, Attempts, ExchangeOutcome};
use super::dns_packet;
use super::msg;
use super::rewrite;
use super::stats;
use super::stats::{QueryStatistics, StatView, UpstreamStatistics};
use crate::errors::DoHError;
use crate::fast_ip_cache;
use crate::fast_ip_cache::{FastIpCacheEntry, FastIpCacheStatus, FastestIpCache};
use crate::net;
use crate::net::IpAddr;
use crate::text;
use crate::time::Duration;
use vstd::prelude::*;

verus! {

pub const FASTEST_ADDR_CACHE_TTL_SECS: u64 = 600;

pub const FASTEST_ADDR_PING_WAIT_TIMEOUT_SECS: u64 = 1;

pub const FASTEST_ADDR_PING_TCP_TIMEOUT_SECS: u64 = 4;

pub const FASTEST_ADDR_PING_PORT_HTTP: u16 = 80;

pub const FASTEST_ADDR_PING_PORT_HTTPS: u16 = 443;

/// What came of connecting to an address.
#[derive(Clone, Copy, Debug, PartialEq, Eq, Structural)]
pub struct PingResult {
    pub ip: IpAddr,
    pub latency_ms: u32,
    pub success: bool,
}

/// Until when a measurement made at `now` counts.
pub open spec fn expiry(now: u64) -> u64 {
    if now + FASTEST_ADDR_CACHE_TTL_SECS * 1000 > u64::MAX {
        u64::MAX
    } else {
        (now + FASTEST_ADDR_CACHE_TTL_SECS * 1000) as u64
    }
}

fn expires_at(now: u64) -> (at: u64)
    ensures
        at == expiry(now),
{
    let ttl: u64 = FASTEST_ADDR_CACHE_TTL_SECS * 1000;
    if now > u64::MAX - ttl {
        u64::MAX
    } else {
        now + ttl
    }
}

/// What the cache still says of an address.
pub open spec fn live(
    cache: Seq<(IpAddr, FastIpCacheEntry)>,
    ip: IpAddr,
    now: u64,
) -> Option<FastIpCacheEntry> {
    match fast_ip_cache::entry_of(cache, ip) {
        Some(entry) if entry.expire_at_ms > now => Some(entry),
        _ => None,
    }
}

/// The cache after an address was looked up in it.
pub open spec fn looked_up(
    cache: Seq<(IpAddr, FastIpCacheEntry)>,
    ip: IpAddr,
    now: u64,
) -> Seq<(IpAddr, FastIpCacheEntry)> {
    match fast_ip_cache::entry_of(cache, ip) {
        None => cache,
        Some(entry) => if entry.expire_at_ms > now {
            fast_ip_cache::in_front(cache, ip, entry)
        } else {
            fast_ip_cache::without(cache, ip)
        },
    }
}

/// What the cache still says of an address.
pub fn load_fastest_cache(cache: &mut FastestIpCache, ip: IpAddr, now: u64) -> (found: Option<
    FastIpCacheEntry,
>)
    requires
        old(cache).wf(),
    ensures
        final(cache).wf(),
        final(cache).capacity() == old(cache).capacity(),
        found == live(old(cache)@, ip, now),
        final(cache)@ == looked_up(old(cache)@, ip, now),
{
    cache.get(ip, now)
}

/// Notes that an address could not be reached, unless something is known of it.
pub fn store_fastest_failure(cache: &mut FastestIpCache, ip: IpAddr, now: u64)
    requires
        old(cache).wf(),
    ensures
        final(cache).wf(),
        final(cache).capacity() == old(cache).capacity(),
        final(cache)@ == after_failure(old(cache)@, old(cache).capacity(), ip, now),
{
    let expire_at_ms: u64 = expires_at(now);
    if cache.get(ip, now).is_some() {
        return;
    }
    cache.upsert(
        ip,
        FastIpCacheEntry { status: FastIpCacheStatus::Failure, latency_ms: 0, expire_at_ms },
    );
}

/// The cache after a failure to reach an address.
pub open spec fn after_failure(
    cache: Seq<(IpAddr, FastIpCacheEntry)>,
    capacity: nat,
    ip: IpAddr,
    now: u64,
) -> Seq<(IpAddr, FastIpCacheEntry)> {
    let found = looked_up(cache, ip, now);
    match live(cache, ip, now) {
        Some(_) => found,
        None => fast_ip_cache::bounded(
            fast_ip_cache::in_front(
                found,
                ip,
                FastIpCacheEntry {
                    status: FastIpCacheStatus::Failure,
                    latency_ms: 0,
                    expire_at_ms: expiry(now),
                },
            ),
            capacity,
        ),
    }
}

/// Notes how long it took to reach an address, unless it is known to have gone as fast before.
pub fn store_fastest_success(cache: &mut FastestIpCache, ip: IpAddr, latency_ms: u32, now: u64)
    requires
        old(cache).wf(),
    ensures
        final(cache).wf(),
        final(cache).capacity() == old(cache).capacity(),
        final(cache)@ == after_success(old(cache)@, old(cache).capacity(), ip, latency_ms, now),
{
    let expire_at_ms: u64 = expires_at(now);
    let should_replace = match cache.get(ip, now) {
        None => true,
        Some(existing) => match existing.status {
            FastIpCacheStatus::Failure => true,
            FastIpCacheStatus::Success => latency_ms < existing.latency_ms,
        },
    };
    if should_replace {
        cache.upsert(
            ip,
            FastIpCacheEntry { status: FastIpCacheStatus::Success, latency_ms, expire_at_ms },
        );
    }
}

/// The cache after an address was reached.
pub open spec fn after_success(
    cache: Seq<(IpAddr, FastIpCacheEntry)>,
    capacity: nat,
    ip: IpAddr,
    latency_ms: u32,
    now: u64,
) -> Seq<(IpAddr, FastIpCacheEntry)> {
    let found = looked_up(cache, ip, now);
    let stored = fast_ip_cache::bounded(
        fast_ip_cache::in_front(
            found,
            ip,
            FastIpCacheEntry {
                status: FastIpCacheStatus::Success,
                latency_ms,
                expire_at_ms: expiry(now),
            },
        ),
        capacity,
    );
    match live(cache, ip, now) {
        None => stored,
        Some(existing) => if existing.status is Failure || latency_ms < existing.latency_ms {
            stored
        } else {
            found
        },
    }
}

/// Notes what came of connecting to an address. An IPv6 address that stands for an IPv4 one is
/// noted under that.
pub fn record_ping(
    cache: &mut FastestIpCache,
    ip: IpAddr,
    success: bool,
    elapsed: Duration,
    now: u64,
) -> (result: PingResult)
    requires
        old(cache).wf(),
    ensures
        final(cache).wf(),
        final(cache).capacity() == old(cache).capacity(),
        result.ip == ip,
        result.success == success,
        result.latency_ms == (if elapsed.millis() <= u32::MAX {
            elapsed.millis() as u32
        } else {
            u32::MAX
        }),
        final(cache)@ == (if success {
            after_success(
                old(cache)@,
                old(cache).capacity(),
                net::canonical_ip(ip),
                result.latency_ms,
                now,
            )
        } else {
            after_failure(old(cache)@, old(cache).capacity(), net::canonical_ip(ip), now)
        }),
{
    let latency_ms: u32 = elapsed.as_millis_u32();
    let cache_ip = net::cache_ip(ip);
    if success {
        store_fastest_success(cache, cache_ip, latency_ms, now);
    } else {
        store_fastest_failure(cache, cache_ip, now);
    }
    PingResult { ip, latency_ms, success }
}

/// What the cache says of a list of addresses: the cache afterwards, the fastest address that is
/// known to be reached, and the connections to try for those of which nothing is known.
pub struct Scan {
    pub cache: Seq<(IpAddr, FastIpCacheEntry)>,
    pub best: Option<PingResult>,
    pub pings: Seq<(IpAddr, u16)>,
}

/// Looks the addresses up one after the other.
pub open spec fn scan(
    cache: Seq<(IpAddr, FastIpCacheEntry)>,
    ips: Seq<IpAddr>,
    now: u64,
) -> Scan
    decreases ips.len(),
{
    if ips.len() == 0 {
        Scan { cache, best: None, pings: Seq::empty() }
    } else {
        let before = scan(cache, ips.drop_last(), now);
        let ip = ips.last();
        let cache = looked_up(before.cache, ip, now);
        match live(before.cache, ip, now) {
            Some(entry) => if entry.status is Success && (before.best matches Some(best)
                ==> entry.latency_ms < best.latency_ms) {
                Scan {
                    cache,
                    best: Some(PingResult { ip, latency_ms: entry.latency_ms, success: true }),
                    pings: before.pings,
                }
            } else {
                Scan { cache, best: before.best, pings: before.pings }
            },
            None => Scan {
                cache,
                best: before.best,
                pings: before.pings + seq![
                    (ip, FASTEST_ADDR_PING_PORT_HTTP),
                    (ip, FASTEST_ADDR_PING_PORT_HTTPS),
                ],
            },
        }
    }
}

/// How the fastest of several addresses is found: it is known, or connections have to be tried.
#[derive(Debug)]
pub enum PingPlan {
    Known(Option<PingResult>),
    Try { best: Option<PingResult>, pings: Vec<(IpAddr, u16)> },
}

/// Starts to look for the fastest of several addresses. One address alone is the fastest; what
/// the cache knows is not tried again.
pub fn ping_all(cache: &mut FastestIpCache, ips: &Vec<IpAddr>, now: u64) -> (plan: PingPlan)
    requires
        old(cache).wf(),
    ensures
        final(cache).wf(),
        final(cache).capacity() == old(cache).capacity(),
        if ips@.len() == 0 {
            plan == PingPlan::Known(None) && final(cache)@ == old(cache)@
        } else if ips@.len() == 1 {
            plan == PingPlan::Known(
                Some(PingResult { ip: ips@[0], latency_ms: 0, success: true }),
            ) && final(cache)@ == old(cache)@
        } else {
            let found = scan(old(cache)@, ips@, now);
            final(cache)@ == found.cache && if found.pings.len() == 0 {
                plan == PingPlan::Known(found.best)
            } else {
                plan matches PingPlan::Try { best, pings } && best == found.best && pings@
                    == found.pings && both_ports_of(
                    pings@,
                    unknown_of(old(cache)@, ips@, now),
                )
            }
        },
{
    if ips.len() == 0 {
        return PingPlan::Known(None);
    }
    if ips.len() == 1 {
        return PingPlan::Known(Some(PingResult { ip: ips[0], latency_ms: 0, success: true }));
    }
    let ghost start = cache@;
    proof {
        fast_ip_cache::law_bounded_and_unique(cache);
        law_every_unknown_address_is_tried(start, ips@, now);
    }
    let mut best: Option<PingResult> = None;
    let mut pings: Vec<(IpAddr, u16)> = Vec::new();
    let mut i: usize = 0;
    assert(ips@.take(0) =~= Seq::empty());
    while i < ips.len()
        invariant
            i <= ips@.len(),
            cache.wf(),
            cache.capacity() == old(cache).capacity(),
            start == old(cache)@,
            scan(start, ips@.take(i as int), now) == (Scan { cache: cache@, best, pings: pings@ }),
        decreases ips@.len() - i,
    {
        let ip = ips[i];
        proof {
            assert(ips@.take(i + 1).drop_last() =~= ips@.take(i as int));
        }
        match load_fastest_cache(cache, ip, now) {
            Some(cached) => {
                let faster = match best {
                    Some(known) => cached.latency_ms < known.latency_ms,
                    None => true,
                };
                if cached.status == FastIpCacheStatus::Success && faster {
                    best = Some(PingResult { ip, latency_ms: cached.latency_ms, success: true });
                }
            },
            None => {
                let ghost before = pings@;
                pings.push((ip, FASTEST_ADDR_PING_PORT_HTTP));
                pings.push((ip, FASTEST_ADDR_PING_PORT_HTTPS));
                assert(pings@ =~= before + seq![
                    (ip, FASTEST_ADDR_PING_PORT_HTTP),
                    (ip, FASTEST_ADDR_PING_PORT_HTTPS),
                ]);
            },
        }
        i = i + 1;
    }
    assert(ips@.take(i as int) =~= ips@);
    if pings.len() == 0 {
        PingPlan::Known(best)
    } else {
        PingPlan::Try { best, pings }
    }
}

/// Takes the result of a connection. A failed one decides nothing. The first that was made
/// decides: for its address, unless one is known to be reached faster.
pub fn on_ping(best: Option<PingResult>, result: PingResult) -> (decided: Option<PingResult>)
    ensures
        decided == (if !result.success {
            None
        } else {
            match best {
                Some(cached) if cached.latency_ms < result.latency_ms => Some(cached),
                _ => Some(result),
            }
        }),
{
    if !result.success {
        return None;
    }
    match best {
        Some(cached) if cached.latency_ms < result.latency_ms => Some(cached),
        _ => Some(result),
    }
}

/// Where something is known of an address that was reached, `best` was reached as fast.
pub open spec fn as_fast(best: Option<PingResult>, known: Option<FastIpCacheEntry>) -> bool {
    match known {
        Some(entry) if entry.status is Success => best matches Some(b) && b.latency_ms
            <= entry.latency_ms,
        _ => true,
    }
}

/// The best known address is one of those that were looked up, and none of them is known to have
/// been reached faster.
pub proof fn law_best_is_fastest(
    cache: Seq<(IpAddr, FastIpCacheEntry)>,
    ips: Seq<IpAddr>,
    now: u64,
)
    ensures
        scan(cache, ips, now).best matches Some(best) ==> best.success && ips.contains(best.ip),
        forall|k: int|
            0 <= k < ips.len() ==> as_fast(
                scan(cache, ips, now).best,
                live(#[trigger] scan(cache, ips.take(k), now).cache, ips[k], now),
            ),
    decreases ips.len(),
{
    if ips.len() > 0 {
        let rest = ips.drop_last();
        law_best_is_fastest(cache, rest, now);
        let before = scan(cache, rest, now);
        let after = scan(cache, ips, now);
        if let Some(best) = after.best {
            if before.best == Some(best) {
                let k = choose|k: int| 0 <= k < rest.len() && rest[k] == best.ip;
                assert(ips[k] == best.ip);
            } else {
                assert(ips[ips.len() - 1] == best.ip);
            }
        }
        assert forall|k: int| 0 <= k < ips.len() implies as_fast(
            after.best,
            live(#[trigger] scan(cache, ips.take(k), now).cache, ips[k], now),
        ) by {
            if k < rest.len() {
                assert(rest.take(k) =~= ips.take(k));
                assert(as_fast(
                    before.best,
                    live(scan(cache, rest.take(k), now).cache, rest[k], now),
                ));
            } else {
                assert(ips.take(k) =~= rest);
            }
        }
    }
}

/// The packets among the replies that are answers, in the order in which they came in.
pub open spec fn answers_of(arrivals: Seq<Arrival>) -> Seq<Seq<u8>>
    decreases arrivals.len(),
{
    if arrivals.len() == 0 {
        Seq::empty()
    } else {
        match attempts::checked(arrivals.last().reply) {
            Ok(packet) => answers_of(arrivals.drop_last()).push(packet@),
            Err(_) => answers_of(arrivals.drop_last()),
        }
    }
}

/// The bytes of each packet.
pub open spec fn packets(list: Seq<Vec<u8>>) -> Seq<Seq<u8>> {
    list.map_values(|p: Vec<u8>| p@)
}

/// What all the servers replied.
#[derive(Debug)]
pub struct ExchangeAll {
    pub replies: Vec<Vec<u8>>,
    pub stats: Vec<UpstreamStatistics>,
    pub err: Option<DoHError>,
}

/// A query that waits for the replies of all servers.
pub struct FastestExchange {
    attempts: Attempts,
    addresses: Vec<String>,
    replies: Vec<Vec<u8>>,
    waiting: usize,
}

/// After a reply: all are there, or the query goes on waiting.
pub enum FastestStep {
    Done(ExchangeAll),
    Waiting(FastestExchange),
}

impl ExchangeAll {
    /// What the replies of servers came to.
    pub open spec fn came_from(&self, servers: Seq<Seq<char>>, arrivals: Seq<Arrival>) -> bool {
        let failures = attempts::failures_of(servers, arrivals);
        &&& packets(self.replies@) == answers_of(arrivals)
        &&& stats::stat_views(self.stats@) == attempts::stats_in_order(
            servers,
            arrivals,
            servers.len(),
        )
        &&& match self.err {
            Some(err) => failures.len() > 0 && attempts::is_joined(err, failures),
            None => failures.len() == 0,
        }
    }
}

impl FastestExchange {
    /// The addresses of the servers.
    pub closed spec fn servers(&self) -> Seq<Seq<char>> {
        self.attempts.servers()
    }

    /// The replies so far.
    pub closed spec fn arrivals(&self) -> Seq<Arrival> {
        self.attempts.arrivals()
    }

    pub closed spec fn wf(&self) -> bool {
        &&& self.attempts.wf()
        &&& text::texts(self.addresses@) == self.servers()
        &&& self.waiting >= 1
        &&& self.arrivals().len() + self.waiting == self.servers().len()
        &&& packets(self.replies@) == answers_of(self.arrivals())
    }

    /// A query to the servers of these addresses.
    pub fn new(addresses: Vec<String>) -> (e: Self)
        requires
            addresses@.len() >= 1,
        ensures
            e.wf(),
            e.servers() == text::texts(addresses@),
            e.arrivals().len() == 0,
    {
        let copies = super::parallel::copy_texts(&addresses);
        let waiting: usize = addresses.len();
        let e = FastestExchange {
            attempts: Attempts::new(addresses),
            addresses: copies,
            replies: Vec::new(),
            waiting,
        };
        assert(packets(e.replies@) =~= answers_of(e.arrivals()));
        e
    }

    /// Takes the reply of server `idx`. A failure of the only server keeps its own error.
    pub fn on_reply(
        self,
        idx: usize,
        reply: Result<Vec<u8>, DoHError>,
        duration: Duration,
    ) -> (step: FastestStep)
        requires
            self.wf(),
            idx < self.servers().len(),
        ensures
            ({
                let now = self.arrivals().push(Arrival { idx: idx as int, reply, duration });
                let servers = self.servers();
                if servers.len() == 1 {
                    step matches FastestStep::Done(all) && stats::stat_views(all.stats@) == seq![
                        now.last().stat(servers),
                    ] && match attempts::checked(reply) {
                        Ok(packet) => packets(all.replies@) == seq![packet@] && all.err is None,
                        Err(err) => all.replies@.len() == 0 && all.err == Some(err),
                    }
                } else if now.len() == servers.len() {
                    step matches FastestStep::Done(all) && all.came_from(servers, now)
                } else {
                    step matches FastestStep::Waiting(next) && next.wf() && next.servers()
                        == servers && next.arrivals() == now
                }
            }),
    {
        let mut exchange = self;
        assert(exchange.servers()[idx as int] == exchange.addresses@[idx as int]@);
        if exchange.addresses.len() == 1 {
            let address = exchange.addresses[idx].clone();
            return FastestStep::Done(single_reply(address, reply, duration));
        }
        let ghost before = packets(exchange.replies@);
        let ghost now = self.arrivals().push(Arrival { idx: idx as int, reply, duration });
        assert(now.drop_last() =~= self.arrivals());
        match exchange.attempts.arrive(idx, reply, duration) {
            Some(packet) => {
                let ghost bytes = packet@;
                exchange.replies.push(packet);
                assert(packets(exchange.replies@) =~= before.push(bytes));
            },
            None => {},
        }
        exchange.waiting = exchange.waiting - 1;
        if exchange.waiting == 0 {
            FastestStep::Done(exchange.on_closed_inner())
        } else {
            FastestStep::Waiting(exchange)
        }
    }

    fn on_closed_inner(self) -> (all: ExchangeAll)
        requires
            self.attempts.wf(),
            packets(self.replies@) == answers_of(self.arrivals()),
        ensures
            all.came_from(self.servers(), self.arrivals()),
    {
        let (stats, err) = self.attempts.collect();
        ExchangeAll { replies: self.replies, stats, err }
    }

    /// No further reply can come.
    pub fn on_closed(self) -> (all: ExchangeAll)
        requires
            self.wf(),
        ensures
            all.came_from(self.servers(), self.arrivals()),
    {
        self.on_closed_inner()
    }
}

fn single_reply(address: String, reply: Result<Vec<u8>, DoHError>, duration: Duration) -> (all:
    ExchangeAll)
    ensures
        match attempts::checked(reply) {
            Ok(packet) => packets(all.replies@) == seq![packet@] && all.err is None
                && stats::stat_views(all.stats@) == seq![stats::success_stat(address@, duration)],
            Err(err) => all.replies@.len() == 0 && all.err == Some(err) && stats::stat_views(
                all.stats@,
            ) == seq![stats::failure_stat(address@, duration, err.message())],
        },
{
    let mut stats: Vec<UpstreamStatistics> = Vec::new();
    let mut replies: Vec<Vec<u8>> = Vec::new();
    match attempts::validate_reply(reply) {
        Ok(packet) => {
            let stat = UpstreamStatistics::success(address, duration);
            stats.push(stat);
            assert(stats::stat_views(stats@) =~= seq![stat@]);
            replies.push(packet);
            assert(packets(replies@) =~= seq![packet@]);
            ExchangeAll { replies, stats, err: None }
        },
        Err(err) => {
            let stat = UpstreamStatistics::failure(address, duration, err.to_text());
            stats.push(stat);
            assert(stats::stat_views(stats@) =~= seq![stat@]);
            ExchangeAll { replies, stats, err: Some(err) }
        },
    }
}

/// Some reply has the address among its answers, and it is a specified address.
pub open spec fn is_candidate(replies: Seq<Seq<u8>>, ip: IpAddr) -> bool {
    !ip.unspecified() && exists|k: int|
        0 <= k < replies.len() && answers::packet_ips(#[trigger] replies[k]).contains(ip)
}

/// The addresses to choose from: every specified address among the answers, once.
fn candidates(replies: &Vec<Vec<u8>>) -> (ips: Vec<IpAddr>)
    ensures
        ips@.no_duplicates(),
        forall|ip: IpAddr| #[trigger] ips@.contains(ip) <==> is_candidate(packets(replies@), ip),
{
    let ghost all = packets(replies@);
    let mut ips: Vec<IpAddr> = Vec::new();
    let mut i: usize = 0;
    while i < replies.len()
        invariant
            i <= replies@.len(),
            all == packets(replies@),
            ips@.no_duplicates(),
            forall|ip: IpAddr| #[trigger]
                ips@.contains(ip) <==> is_candidate(all.take(i as int), ip),
        decreases replies@.len() - i,
    {
        let found = dns_packet::extract_answer_ips(replies[i].as_slice());
        let ghost before = all.take(i as int);
        let mut j: usize = 0;
        while j < found.len()
            invariant
                j <= found@.len(),
                ips@.no_duplicates(),
                forall|ip: IpAddr| #[trigger]
                    ips@.contains(ip) <==> is_candidate(before, ip) || (!ip.unspecified()
                        && found@.take(j as int).contains(ip)),
            decreases found@.len() - j,
        {
            let ip = found[j];
            let ghost old_ips = ips@;
            proof {
                lemma_take_contains(found@, j as int);
            }
            if !ip.is_unspecified() && !contains_ip(&ips, ip) {
                ips.push(ip);
                proof {
                    lemma_push_contains(old_ips, ip);
                }
            }
            j = j + 1;
        }
        proof {
            assert(found@.take(j as int) =~= found@);
            lemma_candidates_grow(all, i as int);
        }
        i = i + 1;
    }
    assert(all.take(i as int) =~= all);
    ips
}

proof fn lemma_take_contains(found: Seq<IpAddr>, j: int)
    requires
        0 <= j < found.len(),
    ensures
        forall|ip: IpAddr| #[trigger]
            found.take(j + 1).contains(ip) <==> found.take(j).contains(ip) || ip == found[j],
{
    assert(found.take(j + 1) =~= found.take(j).push(found[j]));
    lemma_push_contains(found.take(j), found[j]);
}

proof fn lemma_push_contains(ips: Seq<IpAddr>, last: IpAddr)
    ensures
        forall|ip: IpAddr| #[trigger]
            ips.push(last).contains(ip) <==> ips.contains(ip) || ip == last,
        ips.no_duplicates() && !ips.contains(last) ==> ips.push(last).no_duplicates(),
{
    let all = ips.push(last);
    assert forall|ip: IpAddr| ips.contains(ip) || ip == last implies #[trigger] all.contains(
        ip,
    ) by {
        if ips.contains(ip) {
            let k = choose|k: int| 0 <= k < ips.len() && ips[k] == ip;
            assert(all[k] == ip);
        } else {
            assert(all[ips.len() as int] == ip);
        }
    }
    assert forall|ip: IpAddr| #[trigger] all.contains(ip) implies ips.contains(ip) || ip
        == last by {
        let k = choose|k: int| 0 <= k < all.len() && all[k] == ip;
        if k < ips.len() {
            assert(ips[k] == ip);
        }
    }
}

proof fn lemma_candidates_grow(all: Seq<Seq<u8>>, i: int)
    requires
        0 <= i < all.len(),
    ensures
        forall|ip: IpAddr| #[trigger]
            is_candidate(all.take(i + 1), ip) <==> is_candidate(all.take(i), ip) || (
            !ip.unspecified() && answers::packet_ips(all[i]).contains(ip)),
{
    let more = all.take(i + 1);
    let less = all.take(i);
    assert forall|ip: IpAddr| #[trigger] is_candidate(more, ip) implies is_candidate(less, ip) || (
    !ip.unspecified() && answers::packet_ips(all[i]).contains(ip)) by {
        let k = choose|k: int|
            0 <= k < more.len() && answers::packet_ips(#[trigger] more[k]).contains(ip);
        if k < i {
            assert(less[k] == more[k]);
        } else {
            assert(more[k] == all[i]);
        }
    }
    assert forall|ip: IpAddr|
        is_candidate(less, ip) || (!ip.unspecified() && answers::packet_ips(all[i]).contains(
            ip,
        )) implies #[trigger] is_candidate(more, ip) by {
        if is_candidate(less, ip) {
            let k = choose|k: int|
                0 <= k < less.len() && answers::packet_ips(#[trigger] less[k]).contains(ip);
            assert(less[k] == more[k]);
        } else {
            assert(more[i] == all[i]);
        }
    }
}

fn contains_ip(ips: &Vec<IpAddr>, ip: IpAddr) -> (found: bool)
    ensures
        found == ips@.contains(ip),
{
    let mut i: usize = 0;
    while i < ips.len()
        invariant
            i <= ips@.len(),
            forall|j: int| 0 <= j < i ==> ips@[j] != ip,
        decreases ips@.len() - i,
    {
        if ips[i] == ip {
            assert(ips@[i as int] == ip);
            return true;
        }
        i = i + 1;
    }
    false
}

/// The replies are in, and the query has come to an end, or the fastest address is to be found.
#[derive(Debug)]
pub enum FastestPlan {
    Done(ExchangeOutcome),
    Ping { ips: Vec<IpAddr>, replies: Vec<Vec<u8>>, query_stats: QueryStatistics },
}

/// Goes on once the replies are in. With no answer the query fails; with no address among the
/// answers it ends with the first of them.
pub fn plan_fastest(all: ExchangeAll) -> (plan: FastestPlan)
    ensures
        if all.replies@.len() == 0 {
            plan matches FastestPlan::Done(outcome) && outcome.failed(
                match all.err {
                    Some(err) => err,
                    None => DoHError::UpstreamIssue,
                },
                stats::stat_views(all.stats@),
            )
        } else if forall|ip: IpAddr| !#[trigger] is_candidate(packets(all.replies@), ip) {
            plan matches FastestPlan::Done(outcome) && outcome.packet matches Ok(packet) && packet@
                == all.replies@[0]@ && outcome.main_stats() == stats::stat_views(all.stats@)
                && outcome.query_stats.fallback_attempts().len() == 0
        } else {
            plan matches FastestPlan::Ping { ips, replies, query_stats } && ips@.no_duplicates()
                && (forall|ip: IpAddr| #[trigger]
                ips@.contains(ip) <==> is_candidate(packets(all.replies@), ip)) && ips@.len() > 0
                && replies == all.replies && query_stats.main_attempts() == all.stats@
                && query_stats.fallback_attempts().len() == 0
        },
{
    let query_stats = QueryStatistics::with_main(all.stats);
    if all.replies.len() == 0 {
        let err = match all.err {
            Some(err) => err,
            None => DoHError::UpstreamIssue,
        };
        return FastestPlan::Done(ExchangeOutcome { packet: Err(err), query_stats });
    }
    let ips = candidates(&all.replies);
    if ips.len() == 0 {
        assert forall|ip: IpAddr| !#[trigger] is_candidate(packets(all.replies@), ip) by {
            assert(!ips@.contains(ip));
        }
        let first = wire_copy(&all.replies[0]);
        return FastestPlan::Done(ExchangeOutcome { packet: Ok(first), query_stats });
    }
    assert(ips@.contains(ips@[0]));
    FastestPlan::Ping { ips, replies: all.replies, query_stats }
}

fn wire_copy(packet: &Vec<u8>) -> (copy: Vec<u8>)
    ensures
        copy@ == packet@,
{
    let copy = crate::wire::copy_range(packet.as_slice(), 0, packet.len());
    assert(copy@ =~= packet@);
    copy
}

/// The first reply that has the address among its answers.
pub open spec fn first_with(replies: Seq<Seq<u8>>, ip: IpAddr) -> Option<Seq<u8>>
    decreases replies.len(),
{
    if replies.len() == 0 {
        None
    } else if answers::packet_has_ip(replies[0], ip) {
        Some(replies[0])
    } else {
        first_with(replies.skip(1), ip)
    }
}

/// The packet that answers the query when `fastest` is the fastest address: the first reply that
/// has it, with it in the place of all others of its family.
pub open spec fn fastest_answer(replies: Seq<Seq<u8>>, fastest: Option<IpAddr>) -> Seq<u8> {
    match fastest {
        None => replies[0],
        Some(ip) => match first_with(replies, ip) {
            Some(packet) if rewrite::layout(packet) is Ok => rewrite::rewritten_packet(packet, ip),
            _ => replies[0],
        },
    }
}

fn filter_response_answer(packet: Vec<u8>, selected_ip: IpAddr) -> (r: Result<Vec<u8>, DoHError>)
    ensures
        match r {
            Ok(p) => rewrite::layout(packet@) is Ok && p@ == rewrite::rewritten_packet(
                packet@,
                selected_ip,
            ),
            Err(e) => rewrite::layout(packet@) is Err && e is InvalidData,
        },
{
    let mut packet = packet;
    match dns_packet::rewrite_answer_ips_in_place(packet.as_mut_slice(), selected_ip) {
        Ok(_) => Ok(packet),
        Err(_) => Err(DoHError::InvalidData),
    }
}

/// Ends the query once the fastest address is found, or none is.
pub fn choose_fastest(
    replies: Vec<Vec<u8>>,
    query_stats: QueryStatistics,
    fastest: Option<PingResult>,
) -> (outcome: ExchangeOutcome)
    requires
        replies@.len() > 0,
    ensures
        outcome.packet matches Ok(packet) && packet@ == fastest_answer(
            packets(replies@),
            match fastest {
                Some(ping) => Some(ping.ip),
                None => None,
            },
        ),
        outcome.query_stats == query_stats,
{
    let ghost all = packets(replies@);
    assert(all[0] == replies@[0]@);
    let first_packet = wire_copy(&replies[0]);
    let selected = match fastest {
        Some(ping) => ping.ip,
        None => {
            return ExchangeOutcome { packet: Ok(first_packet), query_stats };
        },
    };
    let mut i: usize = 0;
    assert(all.skip(0) =~= all);
    while i < replies.len()
        invariant
            i <= replies@.len(),
            all == packets(replies@),
            all.len() > 0,
            first_packet@ == all[0],
            fastest matches Some(ping) && ping.ip == selected,
            first_with(all, selected) == first_with(all.skip(i as int), selected),
        decreases replies@.len() - i,
    {
        assert(all.skip(i as int)[0] == replies@[i as int]@);
        assert(all.skip(i as int).skip(1) =~= all.skip(i + 1));
        if dns_packet::contains_answer_ip(replies[i].as_slice(), selected) {
            let packet = match filter_response_answer(wire_copy(&replies[i]), selected) {
                Ok(packet) => packet,
                Err(_) => first_packet,
            };
            return ExchangeOutcome { packet: Ok(packet), query_stats };
        }
        i = i + 1;
    }
    ExchangeOutcome { packet: Ok(first_packet), query_stats }
}

/// An address that was chosen from the answers is one of some reply, and the query is answered
/// with the first such reply, with the address written over the others of its family.
pub proof fn law_chosen_address_is_answered(replies: Seq<Seq<u8>>, ip: IpAddr)
    requires
        is_candidate(replies, ip),
    ensures
        first_with(replies, ip) matches Some(packet) && answers::packet_has_ip(packet, ip)
            && rewrite::layout(packet) is Ok && fastest_answer(replies, Some(ip))
            == rewrite::rewritten_packet(packet, ip),
{
    let k = choose|k: int|
        0 <= k < replies.len() && answers::packet_ips(#[trigger] replies[k]).contains(ip);
    lemma_listed_is_found(replies[k], ip);
    lemma_first_with(replies, ip, k);
    rewrite::law_valid_packets_can_be_rewritten(first_with(replies, ip)->0);
}

proof fn lemma_listed_is_found(packet: Seq<u8>, ip: IpAddr)
    requires
        answers::packet_ips(packet).contains(ip),
    ensures
        answers::packet_has_ip(packet, ip),
{
    if let Ok(m) = msg::decode_message(packet) {
        answers::law_contained_iff_listed(m.answers, ip);
    }
}

proof fn lemma_first_with(replies: Seq<Seq<u8>>, ip: IpAddr, k: int)
    requires
        0 <= k < replies.len(),
        answers::packet_has_ip(replies[k], ip),
    ensures
        first_with(replies, ip) matches Some(packet) && answers::packet_has_ip(packet, ip),
    decreases k,
{
    if !answers::packet_has_ip(replies[0], ip) {
        assert(replies.skip(1)[k - 1] == replies[k]);
        lemma_first_with(replies.skip(1), ip, k - 1);
    }
}

/// Something that still counts is listed for an address.
pub open spec fn knows(cache: Seq<(IpAddr, FastIpCacheEntry)>, ip: IpAddr, now: u64) -> bool {
    exists|i: int|
        0 <= i < cache.len() && (#[trigger] cache[i]).0 == ip && now < cache[i].1.expire_at_ms
}

/// The cache says of an address what is listed for it, until that expires.
pub proof fn law_what_counts_is_listed(
    cache: Seq<(IpAddr, FastIpCacheEntry)>,
    ip: IpAddr,
    now: u64,
)
    requires
        fast_ip_cache::unique_keys(cache),
    ensures
        live(cache, ip, now) is Some <==> knows(cache, ip, now),
        forall|entry: FastIpCacheEntry|
            live(cache, ip, now) == Some(entry) <==> #[trigger] cache.contains((ip, entry)) && now
                < entry.expire_at_ms,
{
    fast_ip_cache::law_lookup_finds_what_is_listed(cache, ip);
    if knows(cache, ip, now) {
        let i = choose|i: int|
            0 <= i < cache.len() && (#[trigger] cache[i]).0 == ip && now < cache[i].1.expire_at_ms;
        assert(cache.contains((ip, cache[i].1)));
    }
    if let Some(entry) = live(cache, ip, now) {
        assert(cache.contains((ip, entry)));
        let i = choose|i: int| 0 <= i < cache.len() && cache[i] == (ip, entry);
        assert(cache[i].0 == ip && now < cache[i].1.expire_at_ms);
    }
}

/// Looking an address up changes nothing of what still counts, of it or of any other.
pub proof fn law_lookup_keeps_what_counts(
    cache: Seq<(IpAddr, FastIpCacheEntry)>,
    ip: IpAddr,
    other: IpAddr,
    now: u64,
)
    requires
        fast_ip_cache::unique_keys(cache),
    ensures
        live(looked_up(cache, ip, now), other, now) == live(cache, other, now),
        fast_ip_cache::unique_keys(looked_up(cache, ip, now)),
        live(cache, ip, now) is None ==> fast_ip_cache::entry_of(looked_up(cache, ip, now), ip)
            is None,
        live(cache, ip, now) matches Some(entry) ==> looked_up(cache, ip, now)[0] == (ip, entry),
{
    let rest = fast_ip_cache::without(cache, ip);
    lemma_without_is_unique(cache, ip);
    fast_ip_cache::law_lookup_finds_what_is_listed(rest, ip);
    if other != ip {
        fast_ip_cache::lemma_without_lookup(cache, ip, other);
    }
    if let Some(entry) = fast_ip_cache::entry_of(cache, ip) {
        let front = fast_ip_cache::in_front(cache, ip, entry);
        assert(front.skip(1) =~= rest);
        assert forall|i: int, j: int| 0 <= i < j < front.len() implies (#[trigger] front[i]).0 != (
        #[trigger] front[j]).0 by {
            assert(front[j] == rest[j - 1]);
            if i > 0 {
                assert(front[i] == rest[i - 1]);
            }
        }
    }
}

proof fn lemma_without_is_unique(cache: Seq<(IpAddr, FastIpCacheEntry)>, ip: IpAddr)
    requires
        fast_ip_cache::unique_keys(cache),
    ensures
        fast_ip_cache::unique_keys(fast_ip_cache::without(cache, ip)),
        forall|i: int|
            0 <= i < fast_ip_cache::without(cache, ip).len() ==> (
            #[trigger] fast_ip_cache::without(cache, ip)[i]).0 != ip,
        forall|i: int|
            0 <= i < fast_ip_cache::without(cache, ip).len() ==> cache.contains(
                #[trigger] fast_ip_cache::without(cache, ip)[i],
            ),
    decreases cache.len(),
{
    let all = fast_ip_cache::without(cache, ip);
    if cache.len() > 0 {
        let tail = cache.skip(1);
        assert forall|i: int, j: int| 0 <= i < j < tail.len() implies (#[trigger] tail[i]).0 != (
        #[trigger] tail[j]).0 by {
            assert(cache[i + 1].0 != cache[j + 1].0);
        }
        lemma_without_is_unique(tail, ip);
        let rest = fast_ip_cache::without(tail, ip);
        assert forall|i: int| 0 <= i < rest.len() implies cache.contains(#[trigger] rest[i])
            && rest[i].0 != cache[0].0 by {
            let k = choose|k: int| 0 <= k < tail.len() && tail[k] == rest[i];
            assert(cache[k + 1] == rest[i]);
        }
        if cache[0].0 != ip {
            assert forall|i: int| 0 <= i < all.len() implies (#[trigger] all[i]).0 != ip
                && cache.contains(all[i]) by {
                if i > 0 {
                    assert(all[i] == rest[i - 1]);
                }
            }
            assert forall|i: int, j: int| 0 <= i < j < all.len() implies (#[trigger] all[i]).0 != (
            #[trigger] all[j]).0 by {
                assert(all[j] == rest[j - 1]);
                if i > 0 {
                    assert(all[i] == rest[i - 1]);
                }
            }
        }
    }
}

proof fn lemma_scan_keeps(
    cache: Seq<(IpAddr, FastIpCacheEntry)>,
    ips: Seq<IpAddr>,
    now: u64,
    ip: IpAddr,
)
    requires
        fast_ip_cache::unique_keys(cache),
    ensures
        fast_ip_cache::unique_keys(scan(cache, ips, now).cache),
        live(scan(cache, ips, now).cache, ip, now) == live(cache, ip, now),
    decreases ips.len(),
{
    if ips.len() > 0 {
        lemma_scan_keeps(cache, ips.drop_last(), now, ip);
        law_lookup_keeps_what_counts(scan(cache, ips.drop_last(), now).cache, ips.last(), ip, now);
    }
}

/// The addresses of a list of which nothing is known, in their order.
pub open spec fn unknown_of(
    cache: Seq<(IpAddr, FastIpCacheEntry)>,
    ips: Seq<IpAddr>,
    now: u64,
) -> Seq<IpAddr> {
    ips.filter(|ip: IpAddr| !knows(cache, ip, now))
}

/// The connections are those to the two ports of each of the addresses, in their order.
pub open spec fn both_ports_of(pings: Seq<(IpAddr, u16)>, ips: Seq<IpAddr>) -> bool {
    &&& pings.len() == 2 * ips.len()
    &&& forall|j: int|
        0 <= j < ips.len() ==> pings[2 * j] == (#[trigger] ips[j], 80u16) && pings[2 * j + 1] == (
            ips[j],
            443u16,
        )
}

/// Every address of which nothing is known is tried on both ports, and no other is tried.
pub proof fn law_every_unknown_address_is_tried(
    cache: Seq<(IpAddr, FastIpCacheEntry)>,
    ips: Seq<IpAddr>,
    now: u64,
)
    requires
        fast_ip_cache::unique_keys(cache),
    ensures
        both_ports_of(scan(cache, ips, now).pings, unknown_of(cache, ips, now)),
        forall|ip: IpAddr, port: u16| #[trigger]
            scan(cache, ips, now).pings.contains((ip, port)) <==> ips.contains(ip) && !knows(
                cache,
                ip,
                now,
            ) && (port == 80 || port == 443),
{
    let pings = scan(cache, ips, now).pings;
    let unknown = unknown_of(cache, ips, now);
    broadcast use vstd::seq_lib::group_filter_ensures;

    lemma_tried_in_order(cache, ips, now);
    lemma_filter_inside(ips, |ip: IpAddr| !knows(cache, ip, now));
    assert forall|ip: IpAddr, port: u16| #[trigger] pings.contains((ip, port)) <==> ips.contains(ip)
        && !knows(cache, ip, now) && (port == 80 || port == 443) by {
        if pings.contains((ip, port)) {
            let k = choose|k: int| 0 <= k < pings.len() && pings[k] == (ip, port);
            let j = k / 2;
            assert(k == 2 * j || k == 2 * j + 1);
            assert(unknown[j] == ip);
            assert(ips.contains(unknown[j]));
        }
        if ips.contains(ip) && !knows(cache, ip, now) && (port == 80 || port == 443) {
            let i = choose|i: int| 0 <= i < ips.len() && ips[i] == ip;
            assert(unknown.contains(ips[i]));
            let j = choose|j: int| 0 <= j < unknown.len() && unknown[j] == ip;
            assert(pings[2 * j] == (unknown[j], 80u16));
            assert(pings[2 * j + 1] == (unknown[j], 443u16));
        }
    }
}

proof fn lemma_filter_inside(ips: Seq<IpAddr>, keep: spec_fn(IpAddr) -> bool)
    ensures
        forall|j: int|
            0 <= j < ips.filter(keep).len() ==> ips.contains(#[trigger] ips.filter(keep)[j]),
    decreases ips.len(),
{
    reveal(Seq::filter);
    if ips.len() > 0 {
        let rest = ips.drop_last();
        lemma_filter_inside(rest, keep);
        assert forall|j: int| 0 <= j < ips.filter(keep).len() implies ips.contains(
            #[trigger] ips.filter(keep)[j],
        ) by {
            if j < rest.filter(keep).len() {
                let k = choose|k: int| 0 <= k < rest.len() && rest[k] == rest.filter(keep)[j];
                assert(ips[k] == ips.filter(keep)[j]);
            } else {
                assert(ips[ips.len() - 1] == ips.filter(keep)[j]);
            }
        }
    }
}

proof fn lemma_tried_in_order(
    cache: Seq<(IpAddr, FastIpCacheEntry)>,
    ips: Seq<IpAddr>,
    now: u64,
)
    requires
        fast_ip_cache::unique_keys(cache),
    ensures
        both_ports_of(scan(cache, ips, now).pings, unknown_of(cache, ips, now)),
    decreases ips.len(),
{
    reveal(Seq::filter);
    if ips.len() > 0 {
        let rest = ips.drop_last();
        let ip = ips.last();
        lemma_tried_in_order(cache, rest, now);
        lemma_scan_keeps(cache, rest, now, ip);
        law_what_counts_is_listed(cache, ip, now);
        let before = scan(cache, rest, now).pings;
        let after = scan(cache, ips, now).pings;
        let fewer = unknown_of(cache, rest, now);
        let more = unknown_of(cache, ips, now);
        if !knows(cache, ip, now) {
            assert(more =~= fewer.push(ip));
            assert forall|j: int| 0 <= j < more.len() implies after[2 * j] == (
                #[trigger] more[j],
                80u16,
            ) && after[2 * j + 1] == (more[j], 443u16) by {
                if j < fewer.len() {
                    assert(before[2 * j] == (fewer[j], 80u16));
                }
            }
        }
    }
}

/// An address is known to be reached in so many milliseconds.
pub open spec fn reached(
    cache: Seq<(IpAddr, FastIpCacheEntry)>,
    ip: IpAddr,
    latency_ms: u32,
    now: u64,
) -> bool {
    exists|i: int|
        0 <= i < cache.len() && (#[trigger] cache[i]).0 == ip && now < cache[i].1.expire_at_ms
            && cache[i].1.status is Success && cache[i].1.latency_ms == latency_ms
}

/// The best of the known addresses is the first of those that are reached fastest, and there is
/// one wherever one is known to be reached.
pub proof fn law_best_known_address_is_kept(
    cache: Seq<(IpAddr, FastIpCacheEntry)>,
    ips: Seq<IpAddr>,
    now: u64,
)
    requires
        fast_ip_cache::unique_keys(cache),
    ensures
        match scan(cache, ips, now).best {
            Some(best) => best.success && exists|k: int|
                0 <= k < ips.len() && #[trigger] ips[k] == best.ip && reached(
                    cache,
                    best.ip,
                    best.latency_ms,
                    now,
                ) && forall|j: int, latency: u32|
                    0 <= j < ips.len() && #[trigger] reached(cache, ips[j], latency, now)
                        ==> best.latency_ms <= latency && (j < k ==> best.latency_ms < latency),
            None => forall|j: int, latency: u32|
                0 <= j < ips.len() ==> !#[trigger] reached(cache, ips[j], latency, now),
        },
    decreases ips.len(),
{
    if ips.len() > 0 {
        let rest = ips.drop_last();
        let ip = ips.last();
        let last = ips.len() - 1;
        law_best_known_address_is_kept(cache, rest, now);
        lemma_scan_keeps(cache, rest, now, ip);
        lemma_reached(cache, ip, now);
        let before = scan(cache, rest, now).best;
        let after = scan(cache, ips, now).best;
        assert(forall|j: int| 0 <= j < rest.len() ==> rest[j] == ips[j]);
        assert forall|j: int, latency: u32|
            0 <= j < rest.len() && #[trigger] reached(cache, ips[j], latency, now) implies reached(
            cache,
            rest[j],
            latency,
            now,
        ) by {}
        match after {
            Some(best) => {
                if before == Some(best) {
                    let k = choose|k: int|
                        0 <= k < rest.len() && #[trigger] rest[k] == best.ip && reached(
                            cache,
                            best.ip,
                            best.latency_ms,
                            now,
                        ) && forall|j: int, latency: u32|
                            0 <= j < rest.len() && #[trigger] reached(cache, rest[j], latency, now)
                                ==> best.latency_ms <= latency && (j < k ==> best.latency_ms
                                < latency);
                    assert(ips[k] == best.ip);
                } else {
                    assert(ips[last] == best.ip);
                }
            },
            None => {},
        }
    }
}

proof fn lemma_reached(cache: Seq<(IpAddr, FastIpCacheEntry)>, ip: IpAddr, now: u64)
    requires
        fast_ip_cache::unique_keys(cache),
    ensures
        forall|latency: u32| #[trigger]
            reached(cache, ip, latency, now) <==> (live(cache, ip, now) matches Some(entry)
                && entry.status is Success && entry.latency_ms == latency),
{
    law_what_counts_is_listed(cache, ip, now);
    assert forall|latency: u32| #[trigger] reached(cache, ip, latency, now) implies (live(
        cache,
        ip,
        now,
    ) matches Some(entry) && entry.status is Success && entry.latency_ms == latency) by {
        let i = choose|i: int|
            0 <= i < cache.len() && (#[trigger] cache[i]).0 == ip && now < cache[i].1.expire_at_ms
                && cache[i].1.status is Success && cache[i].1.latency_ms == latency;
        assert(cache.contains((ip, cache[i].1)));
    }
    if let Some(entry) = live(cache, ip, now) {
        assert(cache.contains((ip, entry)));
        let i = choose|i: int| 0 <= i < cache.len() && cache[i] == (ip, entry);
        assert(cache[i].0 == ip);
    }
}

/// What was measured counts for ten minutes, and only what is faster takes its place: after an
/// address was reached, it is known to be reached as fast as ever, and after it was not, what
/// was known of it still counts.
pub proof fn law_measurements_are_kept(
    cache: Seq<(IpAddr, FastIpCacheEntry)>,
    capacity: nat,
    ip: IpAddr,
    latency_ms: u32,
    now: u64,
)
    requires
        capacity >= 1,
        fast_ip_cache::unique_keys(cache),
        now + 600_000 <= u64::MAX,
    ensures
        live(after_success(cache, capacity, ip, latency_ms, now), ip, now) matches Some(entry)
            && entry.status is Success && entry.latency_ms <= latency_ms && match live(
            cache,
            ip,
            now,
        ) {
            Some(known) if known.status is Success && known.latency_ms <= latency_ms => entry
                == known,
            _ => entry.latency_ms == latency_ms && entry.expire_at_ms == now + 600_000,
        },
        live(after_failure(cache, capacity, ip, now), ip, now) matches Some(entry) && match live(
            cache,
            ip,
            now,
        ) {
            Some(known) => entry == known,
            None => entry.status is Failure && entry.latency_ms == 0 && entry.expire_at_ms == now
                + 600_000,
        },
{
    law_lookup_keeps_what_counts(cache, ip, ip, now);
    let found = looked_up(cache, ip, now);
    let success = FastIpCacheEntry {
        status: FastIpCacheStatus::Success,
        latency_ms,
        expire_at_ms: expiry(now),
    };
    let failure = FastIpCacheEntry {
        status: FastIpCacheStatus::Failure,
        latency_ms: 0,
        expire_at_ms: expiry(now),
    };
    fast_ip_cache::law_stored_is_found(found, ip, success, capacity);
    fast_ip_cache::law_stored_is_found(found, ip, failure, capacity);
}

/// The answers are the packets of the replies that are messages, in the order in which they came
/// in, none left out.
pub proof fn law_answers_are_the_messages(arrivals: Seq<Arrival>)
    ensures
        answers_of(arrivals) == arrivals.filter(
            |a: Arrival| a.reply matches Ok(packet) && msg::decode_message(packet@) is Ok,
        ).map_values(|a: Arrival| a.reply->Ok_0@),
    decreases arrivals.len(),
{
    reveal(Seq::filter);
    let is_message = |a: Arrival|
        a.reply matches Ok(packet) && msg::decode_message(packet@) is Ok;
    let bytes = |a: Arrival| a.reply->Ok_0@;
    if arrivals.len() > 0 {
        let rest = arrivals.drop_last();
        law_answers_are_the_messages(rest);
        if is_message(arrivals.last()) {
            assert(arrivals.filter(is_message) =~= rest.filter(is_message).push(arrivals.last()));
            assert(arrivals.filter(is_message).map_values(bytes) =~= rest.filter(
                is_message,
            ).map_values(bytes).push(bytes(arrivals.last())));
        } else {
            assert(arrivals.filter(is_message) =~= rest.filter(is_message));
        }
    } else {
        assert(arrivals.filter(is_message).map_values(bytes) =~= Seq::empty());
    }
}

/// A query is answered with the first reply where no address was chosen, and where no reply has
/// it. Otherwise the reply is the first that has it.
pub proof fn law_first_reply_with_the_address(replies: Seq<Seq<u8>>, ip: IpAddr)
    requires
        replies.len() > 0,
    ensures
        fastest_answer(replies, None) == replies[0],
        (forall|k: int|
            0 <= k < replies.len() ==> !answers::packet_ips(#[trigger] replies[k]).contains(ip))
            ==> fastest_answer(replies, Some(ip)) == replies[0],
        forall|k: int|
            #![trigger replies[k]]
            0 <= k < replies.len() && answers::packet_ips(replies[k]).contains(ip) && (forall|j: int|
                0 <= j < k ==> !answers::packet_ips(#[trigger] replies[j]).contains(ip))
                ==> fastest_answer(replies, Some(ip)) == rewrite::rewritten_packet(replies[k], ip),
{
    lemma_first_is_first(replies, ip);
    assert forall|k: int| 0 <= k < replies.len() implies answers::packet_ips(
        #[trigger] replies[k],
    ).contains(ip) == answers::packet_has_ip(replies[k], ip) by {
        if let Ok(m) = msg::decode_message(replies[k]) {
            answers::law_contained_iff_listed(m.answers, ip);
        }
    }
    assert forall|k: int|
        #![trigger replies[k]]
        0 <= k < replies.len() && answers::packet_ips(replies[k]).contains(ip) && (forall|j: int|
            0 <= j < k ==> !answers::packet_ips(#[trigger] replies[j]).contains(
                ip,
            )) implies fastest_answer(replies, Some(ip)) == rewrite::rewritten_packet(
        replies[k],
        ip,
    ) by {
        rewrite::law_valid_packets_can_be_rewritten(replies[k]);
    }
}

proof fn lemma_first_is_first(replies: Seq<Seq<u8>>, ip: IpAddr)
    ensures
        match first_with(replies, ip) {
            Some(packet) => exists|k: int|
                0 <= k < replies.len() && #[trigger] replies[k] == packet
                    && answers::packet_has_ip(packet, ip) && forall|j: int|
                    0 <= j < k ==> !answers::packet_has_ip(#[trigger] replies[j], ip),
            None => forall|j: int|
                0 <= j < replies.len() ==> !answers::packet_has_ip(#[trigger] replies[j], ip),
        },
    decreases replies.len(),
{
    if replies.len() > 0 {
        let rest = replies.skip(1);
        lemma_first_is_first(rest, ip);
        assert forall|j: int| 1 <= j < replies.len() implies #[trigger] replies[j] == rest[j
            - 1] by {}
        if answers::packet_has_ip(replies[0], ip) {
            assert(replies[0] == first_with(replies, ip)->0);
        } else if let Some(packet) = first_with(rest, ip) {
            let k = choose|k: int|
                0 <= k < rest.len() && #[trigger] rest[k] == packet && answers::packet_has_ip(
                    packet,
                    ip,
                ) && forall|j: int|
                    0 <= j < k ==> !answers::packet_has_ip(#[trigger] rest[j], ip);
            assert(replies[k + 1] == packet);
            assert forall|j: int| 0 <= j < k + 1 implies !answers::packet_has_ip(
                #[trigger] replies[j],
                ip,
            ) by {
                if j > 0 {
                    assert(rest[j - 1] == replies[j]);
                }
            }
        }
    }
}

/// What all servers replied is told in full: every answer, every attempt, and the failures where
/// there were any.
pub proof fn law_all_replies_are_told(
    all: ExchangeAll,
    servers: Seq<Seq<char>>,
    arrivals: Seq<Arrival>,
)
    requires
        all.came_from(servers, arrivals),
    ensures
        all.replies@.len() == answers_of(arrivals).len(),
        forall|i: int|
            0 <= i < all.replies@.len() ==> (#[trigger] all.replies@[i])@ == answers_of(
                arrivals,
            )[i],
        stats::stat_views(all.stats@) == attempts::stats_in_order(servers, arrivals, servers.len()),
        all.err is None <==> forall|k: int|
            0 <= k < arrivals.len() ==> attempts::checked((#[trigger] arrivals[k]).reply) is Ok,
        all.err matches Some(err) ==> attempts::is_joined(
            err,
            attempts::failures_of(servers, arrivals),
        ),
{
    assert forall|i: int| 0 <= i < all.replies@.len() implies (#[trigger] all.replies@[i])@
        == answers_of(arrivals)[i] by {
        assert(packets(all.replies@)[i] == all.replies@[i]@);
    }
    lemma_no_failures(servers, arrivals);
}

proof fn lemma_no_failures(servers: Seq<Seq<char>>, arrivals: Seq<Arrival>)
    ensures
        attempts::failures_of(servers, arrivals).len() == 0 <==> forall|k: int|
            0 <= k < arrivals.len() ==> attempts::checked((#[trigger] arrivals[k]).reply) is Ok,
    decreases arrivals.len(),
{
    if arrivals.len() > 0 {
        let rest = arrivals.drop_last();
        lemma_no_failures(servers, rest);
        assert forall|k: int| 0 <= k < rest.len() implies #[trigger] rest[k] == arrivals[k] by {}
        if forall|k: int|
            0 <= k < rest.len() ==> attempts::checked((#[trigger] rest[k]).reply) is Ok {
            if attempts::checked(arrivals.last().reply) is Ok {
                assert forall|k: int| 0 <= k < arrivals.len() implies attempts::checked(
                    (#[trigger] arrivals[k]).reply,
                ) is Ok by {
                    if k < rest.len() {
                        assert(attempts::checked(rest[k].reply) is Ok);
                    }
                }
            } else {
                assert(attempts::checked(arrivals[arrivals.len() - 1].reply) is Err);
            }
        } else {
            let k = choose|k: int|
                0 <= k < rest.len() && !(attempts::checked((#[trigger] rest[k]).reply) is Ok);
            assert(!(attempts::checked(arrivals[k].reply) is Ok));
        }
    }
}

/// An address can be chosen exactly where some reply is a message with an answer that holds it,
/// and it is not the unspecified one.
pub proof fn law_candidates_are_answers(replies: Seq<Seq<u8>>, ip: IpAddr)
    ensures
        is_candidate(replies, ip) <==> ip != IpAddr::V4(0) && ip != IpAddr::V6(0) && exists|k: int|
            0 <= k < replies.len() && #[trigger] answers::packet_has_ip(replies[k], ip),
{
    assert forall|k: int| 0 <= k < replies.len() implies answers::packet_ips(
        #[trigger] replies[k],
    ).contains(ip) == answers::packet_has_ip(replies[k], ip) by {
        if let Ok(m) = msg::decode_message(replies[k]) {
            answers::law_contained_iff_listed(m.answers, ip);
        }
    }
    if is_candidate(replies, ip) {
        let k = choose|k: int|
            0 <= k < replies.len() && answers::packet_ips(#[trigger] replies[k]).contains(ip);
        assert(answers::packet_has_ip(replies[k], ip));
    }
    if exists|k: int|
        0 <= k < replies.len() && #[trigger] answers::packet_has_ip(replies[k], ip) {
        let k = choose|k: int|
            0 <= k < replies.len() && #[trigger] answers::packet_has_ip(replies[k], ip);
        assert(answers::packet_ips(replies[k]).contains(ip));
    }
}

/// How long connections are waited for: one second in all, and four for each.
pub proof fn law_times_of_connections()
    ensures
        FASTEST_ADDR_PING_WAIT_TIMEOUT_SECS == 1,
        FASTEST_ADDR_PING_TCP_TIMEOUT_SECS == 4,
        FASTEST_ADDR_CACHE_TTL_SECS == 600,
{
}

} // verus!
