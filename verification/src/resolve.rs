//! Finding the addresses of upstream servers, and one of them that can be used.

use crate::bootstrap;
use crate::bootstrap::BootstrapDnsResult;
use crate::errors::{Cause, DoHError, IoErrorKind, IoFailure};
use crate::net;
use crate::net::{IpAddr, SocketAddr};
use crate::text;
use vstd::prelude::*;

verus! {

/// The addresses of a host as a resolver gave them, and until when they count.
#[derive(Debug)]
pub struct BootstrapCacheEntry {
    pub resolver: SocketAddr,
    pub host: String,
    pub addrs: Vec<IpAddr>,
    pub expire_at_ms: u64,
}

impl BootstrapCacheEntry {
    pub open spec fn key(self) -> (SocketAddr, Seq<char>) {
        (self.resolver, self.host@)
    }

    pub open spec fn value(self) -> (Seq<IpAddr>, u64) {
        (self.addrs@, self.expire_at_ms)
    }
}

/// What resolvers said of hosts.
#[derive(Debug)]
pub struct BootstrapCache {
    entries: Vec<BootstrapCacheEntry>,
}

spec fn holds(entries: Seq<BootstrapCacheEntry>, key: (SocketAddr, Seq<char>), i: int) -> bool {
    0 <= i < entries.len() && entries[i].key() == key
}

impl View for BootstrapCache {
    type V = Map<(SocketAddr, Seq<char>), (Seq<IpAddr>, u64)>;

    /// The addresses and their expiry, by resolver and host.
    closed spec fn view(&self) -> Map<(SocketAddr, Seq<char>), (Seq<IpAddr>, u64)> {
        Map::new(
            |key: (SocketAddr, Seq<char>)| exists|i: int| #[trigger] holds(self.entries@, key, i),
            |key: (SocketAddr, Seq<char>)|
                self.entries@[choose|i: int| #[trigger] holds(self.entries@, key, i)].value(),
        )
    }
}

impl BootstrapCache {
    /// Each resolver and host stand once.
    pub closed spec fn wf(&self) -> bool {
        forall|i: int, j: int|
            0 <= i < j < self.entries@.len() ==> (#[trigger] self.entries@[i]).key() != (
            #[trigger] self.entries@[j]).key()
    }

    pub fn new() -> (c: Self)
        ensures
            c.wf(),
            c@ == Map::<(SocketAddr, Seq<char>), (Seq<IpAddr>, u64)>::empty(),
    {
        let c = BootstrapCache { entries: Vec::new() };
        assert(c@ =~= Map::<(SocketAddr, Seq<char>), (Seq<IpAddr>, u64)>::empty());
        c
    }

    fn position(&self, resolver: &SocketAddr, host: &str) -> (found: Option<usize>)
        ensures
            match found {
                Some(i) => holds(self.entries@, (*resolver, host@), i as int),
                None => forall|i: int| !#[trigger] holds(self.entries@, (*resolver, host@), i),
            },
    {
        let mut i: usize = 0;
        while i < self.entries.len()
            invariant
                i <= self.entries@.len(),
                forall|j: int|
                    j < i ==> !#[trigger] holds(self.entries@, (*resolver, host@), j),
            decreases self.entries@.len() - i,
        {
            if self.entries[i].resolver == *resolver && text::same_text(
                self.entries[i].host.as_str(),
                host,
            ) {
                return Some(i);
            }
            i = i + 1;
        }
        None
    }

    proof fn lemma_at(&self, key: (SocketAddr, Seq<char>), i: int)
        requires
            self.wf(),
            holds(self.entries@, key, i),
        ensures
            self@.contains_key(key),
            self@[key] == self.entries@[i].value(),
    {
        let j = choose|j: int| #[trigger] holds(self.entries@, key, j);
        if i < j {
            assert(self.entries@[i].key() != self.entries@[j].key());
        } else if j < i {
            assert(self.entries@[j].key() != self.entries@[i].key());
        }
    }

    /// The addresses that a resolver gave for a host, where they still count.
    pub fn load(&self, resolver: &SocketAddr, host: &str, now: u64) -> (found: Option<Vec<IpAddr>>)
        requires
            self.wf(),
        ensures
            match found {
                Some(addrs) => self@.contains_key((*resolver, host@)) && self@[(*resolver, host@)].1
                    >= now && self@[(*resolver, host@)].0 == addrs@,
                None => !(self@.contains_key((*resolver, host@)) && self@[(*resolver, host@)].1
                    >= now),
            },
    {
        match self.position(resolver, host) {
            Some(i) => {
                proof {
                    self.lemma_at((*resolver, host@), i as int);
                }
                if self.entries[i].expire_at_ms >= now {
                    Some(copy_ips(&self.entries[i].addrs))
                } else {
                    None
                }
            },
            None => None,
        }
    }

    /// Keeps the addresses that a resolver gave for a host, for as long as it said.
    pub fn store(
        &mut self,
        resolver: SocketAddr,
        host: String,
        addrs: &Vec<IpAddr>,
        ttl_secs: u32,
        now: u64,
    )
        requires
            old(self).wf(),
        ensures
            final(self).wf(),
            final(self)@ == old(self)@.insert(
                (resolver, host@),
                (addrs@, expiry(ttl_secs, now)),
            ),
    {
        let ttl_ms: u64 = ttl_secs as u64 * 1000;
        let ghost key = (resolver, host@);
        let ghost before = self.entries@;
        let found = self.position(&resolver, host.as_str());
        let entry = BootstrapCacheEntry {
            resolver,
            host,
            addrs: copy_ips(addrs),
            expire_at_ms: now.saturating_add(ttl_ms),
        };
        match found {
            Some(i) => {
                self.entries.set(i, entry);
                proof {
                    assert forall|k: (SocketAddr, Seq<char>)| k != key implies #[trigger]
                        self@.dom().contains(k) == old(self)@.dom().contains(k) by {
                        self.lemma_others(before, k, key, i as int);
                    }
                    assert forall|k: (SocketAddr, Seq<char>)|
                        k != key && self@.dom().contains(k) implies #[trigger] self@[k] == old(
                        self,
                    )@[k] by {
                        self.lemma_others(before, k, key, i as int);
                        let j = choose|j: int| #[trigger] holds(self.entries@, k, j);
                        self.lemma_at(k, j);
                        old(self).lemma_at(k, j);
                    }
                    assert(holds(self.entries@, key, i as int));
                    self.lemma_at(key, i as int);
                    assert(self@ =~= old(self)@.insert(key, (addrs@, expiry(ttl_secs, now))));
                }
            },
            None => {
                self.entries.push(entry);
                proof {
                    let last = before.len() as int;
                    assert forall|i: int, j: int|
                        0 <= i < j < self.entries@.len() implies (#[trigger] self.entries@[i]).key()
                        != (#[trigger] self.entries@[j]).key() by {
                        if j == last {
                            assert(!holds(before, key, i));
                        }
                    }
                    assert forall|k: (SocketAddr, Seq<char>)| k != key implies #[trigger]
                        self@.dom().contains(k) == old(self)@.dom().contains(k) by {
                        self.lemma_others(before, k, key, last);
                    }
                    assert forall|k: (SocketAddr, Seq<char>)|
                        k != key && self@.dom().contains(k) implies #[trigger] self@[k] == old(
                        self,
                    )@[k] by {
                        self.lemma_others(before, k, key, last);
                        let j = choose|j: int| #[trigger] holds(self.entries@, k, j);
                        self.lemma_at(k, j);
                        old(self).lemma_at(k, j);
                    }
                    assert(holds(self.entries@, key, last));
                    self.lemma_at(key, last);
                    assert(self@ =~= old(self)@.insert(key, (addrs@, expiry(ttl_secs, now))));
                }
            },
        }
    }

    /// Where only the entry at `i` is another, the others are found as before.
    proof fn lemma_others(
        &self,
        before: Seq<BootstrapCacheEntry>,
        k: (SocketAddr, Seq<char>),
        key: (SocketAddr, Seq<char>),
        i: int,
    )
        requires
            k != key,
            0 <= i < self.entries@.len(),
            before.len() <= self.entries@.len() <= before.len() + 1,
            self.entries@.len() == before.len() || i == before.len(),
            self.entries@[i].key() == key,
            i < before.len() ==> before[i].key() == key,
            forall|j: int| 0 <= j < before.len() && j != i ==> self.entries@[j] == before[j],
        ensures
            forall|j: int| #[trigger]
                holds(self.entries@, k, j) ==> holds(before, k, j) && self.entries@[j] == before[j],
            forall|j: int| #[trigger]
                holds(before, k, j) ==> holds(self.entries@, k, j),
    {
    }
}

/// Until when addresses count that were given at `now` for `ttl_secs` seconds.
pub open spec fn expiry(ttl_secs: u32, now: u64) -> u64 {
    if now + ttl_secs * 1000 > u64::MAX {
        u64::MAX
    } else {
        (now + ttl_secs * 1000) as u64
    }
}

/// What was stored is found again until it expires, and not after that.
pub proof fn law_stored_addresses_are_found(
    cache: Map<(SocketAddr, Seq<char>), (Seq<IpAddr>, u64)>,
    key: (SocketAddr, Seq<char>),
    addrs: Seq<IpAddr>,
    ttl_secs: u32,
    now: u64,
    later: u64,
)
    requires
        now + ttl_secs * 1000 <= u64::MAX,
    ensures
        ({
            let after = cache.insert(key, (addrs, expiry(ttl_secs, now)));
            &&& after.contains_key(key) && after[key].0 == addrs
            &&& after[key].1 >= later <==> later <= now + ttl_secs * 1000
        }),
{
}

/// A copy of addresses.
pub fn copy_ips(ips: &Vec<IpAddr>) -> (copy: Vec<IpAddr>)
    ensures
        copy@ == ips@,
{
    let mut copy: Vec<IpAddr> = Vec::new();
    let mut i: usize = 0;
    while i < ips.len()
        invariant
            i <= ips@.len(),
            copy@ == ips@.take(i as int),
        decreases ips@.len() - i,
    {
        copy.push(ips[i]);
        assert(ips@.take(i + 1) =~= ips@.take(i as int).push(ips@[i as int]));
        i = i + 1;
    }
    assert(ips@.take(i as int) =~= ips@);
    copy
}

/// The addresses of a host and how long they count, from the two queries that a resolver was
/// sent. Both have to be answered; the first failure counts.
pub fn join_bootstrap_results(
    a_result: Result<BootstrapDnsResult, DoHError>,
    aaaa_result: Result<BootstrapDnsResult, DoHError>,
) -> (r: Result<BootstrapDnsResult, DoHError>)
    ensures
        match (a_result, aaaa_result) {
            (Ok(a), Ok(aaaa)) => r matches Ok(both) && both.addrs@ == a.addrs@ + aaaa.addrs@
                && both.min_ttl_secs == (if a.min_ttl_secs < aaaa.min_ttl_secs {
                a.min_ttl_secs
            } else {
                aaaa.min_ttl_secs
            }),
            (Err(err), _) => r == Err::<BootstrapDnsResult, DoHError>(err),
            (_, Err(err)) => r == Err::<BootstrapDnsResult, DoHError>(err),
        },
{
    match (a_result, aaaa_result) {
        (Ok(a), Ok(aaaa)) => {
            let min_ttl_secs: u32 = if a.min_ttl_secs < aaaa.min_ttl_secs {
                a.min_ttl_secs
            } else {
                aaaa.min_ttl_secs
            };
            let mut addrs = a.addrs;
            let mut more = aaaa.addrs;
            addrs.append(&mut more);
            Ok(BootstrapDnsResult { addrs, min_ttl_secs })
        },
        (Err(err), _) => Err(err),
        (_, Err(err)) => Err(err),
    }
}

/// Several resolvers that are asked at once: the first answer counts.
pub struct BootstrapRace {
    waiting: usize,
    last_err: Option<DoHError>,
}

/// After a resolver's result: the race is over, or goes on.
pub enum RaceStep {
    Done(Result<Vec<IpAddr>, DoHError>),
    Waiting(BootstrapRace),
}

/// The error of a race that nobody won.
pub open spec fn race_error(last_err: Option<DoHError>) -> DoHError {
    match last_err {
        Some(err) => err,
        None => DoHError::UpstreamIssue,
    }
}

impl BootstrapRace {
    /// How many results are still to come.
    pub closed spec fn to_come(&self) -> nat {
        self.waiting as nat
    }

    /// The last failure.
    pub closed spec fn failure(&self) -> Option<DoHError> {
        self.last_err
    }

    pub fn new(resolvers: usize) -> (race: Self)
        ensures
            race.to_come() == resolvers,
            race.failure() is None,
    {
        BootstrapRace { waiting: resolvers, last_err: None }
    }

    /// Takes the result of one resolver.
    pub fn on_result(self, result: Result<Vec<IpAddr>, DoHError>) -> (step: RaceStep)
        requires
            self.to_come() > 0,
        ensures
            match result {
                Ok(addrs) => step == RaceStep::Done(Ok(addrs)),
                Err(err) => if self.to_come() == 1 {
                    step == RaceStep::Done(Err(err))
                } else {
                    step matches RaceStep::Waiting(race) && race.to_come() + 1 == self.to_come()
                        && race.failure() == Some(err)
                },
            },
    {
        match result {
            Ok(addrs) => RaceStep::Done(Ok(addrs)),
            Err(err) => if self.waiting == 1 {
                RaceStep::Done(Err(err))
            } else {
                RaceStep::Waiting(BootstrapRace { waiting: self.waiting - 1, last_err: Some(err) })
            },
        }
    }

    /// Nobody is left to answer.
    pub fn finish(self) -> (err: DoHError)
        ensures
            err == race_error(self.failure()),
    {
        match self.last_err {
            Some(err) => err,
            None => DoHError::UpstreamIssue,
        }
    }
}

/// How the addresses of a host are found.
#[derive(Debug)]
pub enum ResolvePlan {
    Known(Vec<SocketAddr>),
    SystemLookup,
    Bootstrap,
}

/// How the addresses of a host are found: `literal` is the address that the host is, where it is
/// one; otherwise the bootstrap resolvers are asked where there are any, and the system is where
/// there are none.
pub fn plan_resolution(literal: Option<IpAddr>, port: u16, bootstrap: &Vec<SocketAddr>) -> (plan:
    ResolvePlan)
    ensures
        match literal {
            Some(ip) => plan matches ResolvePlan::Known(addrs) && addrs@ == seq![
                net::socket_addr(ip, port),
            ],
            None => if bootstrap@.len() == 0 {
                plan is SystemLookup
            } else {
                plan is Bootstrap
            },
        },
{
    match literal {
        Some(ip) => {
            let mut addrs: Vec<SocketAddr> = Vec::new();
            addrs.push(SocketAddr::new(ip, port));
            assert(addrs@ =~= seq![net::socket_addr(ip, port)]);
            ResolvePlan::Known(addrs)
        },
        None => if bootstrap.len() == 0 {
            ResolvePlan::SystemLookup
        } else {
            ResolvePlan::Bootstrap
        },
    }
}

/// Whether a server's host has to be looked up with the bootstrap resolvers.
pub fn use_bootstrap_for_upstream_host(bootstrap: &Vec<SocketAddr>, host_is_ip: bool) -> (yes: bool)
    ensures
        yes == (bootstrap@.len() > 0 && !host_is_ip),
{
    bootstrap.len() > 0 && !host_is_ip
}

/// The addresses with a port. There has to be one.
pub fn with_port(ips: &Vec<IpAddr>, port: u16) -> (r: Result<Vec<SocketAddr>, DoHError>)
    ensures
        match r {
            Ok(addrs) => ips@.len() > 0 && addrs@ == ips@.map_values(
                |ip: IpAddr| net::socket_addr(ip, port),
            ),
            Err(e) => ips@.len() == 0 && e is UpstreamIssue,
        },
{
    let mut addrs: Vec<SocketAddr> = Vec::new();
    let mut i: usize = 0;
    while i < ips.len()
        invariant
            i <= ips@.len(),
            addrs@.len() == i,
            forall|j: int| 0 <= j < i ==> addrs@[j] == net::socket_addr(ips@[j], port),
        decreases ips@.len() - i,
    {
        addrs.push(SocketAddr::new(ips[i], port));
        i = i + 1;
    }
    if addrs.len() == 0 {
        return Err(DoHError::UpstreamIssue);
    }
    assert(addrs@ =~= ips@.map_values(|ip: IpAddr| net::socket_addr(ip, port)));
    Ok(addrs)
}

/// Addresses that the system gave for a host. There has to be one.
pub fn system_addrs(found: Option<Vec<SocketAddr>>) -> (r: Result<Vec<SocketAddr>, DoHError>)
    ensures
        r == (match found {
            Some(addrs) => if addrs@.len() == 0 {
                Err::<Vec<SocketAddr>, DoHError>(DoHError::UpstreamIssue)
            } else {
                Ok(addrs)
            },
            None => Err(DoHError::UpstreamIssue),
        }),
{
    match found {
        Some(addrs) => if addrs.len() == 0 {
            Err(DoHError::UpstreamIssue)
        } else {
            Ok(addrs)
        },
        None => Err(DoHError::UpstreamIssue),
    }
}

/// The failure to bind for a peer of the other family.
pub open spec fn is_family_mismatch(e: IoFailure) -> bool {
    e.kind is AddrNotAvailable && e.message@ == "local bind address family mismatch"@ && e.source
        == Some(Box::new(Cause::Other))
}

/// The failure to bind for a peer of the other family.
pub fn family_mismatch() -> (e: IoFailure)
    ensures
        is_family_mismatch(e),
{
    IoFailure {
        kind: IoErrorKind::AddrNotAvailable,
        message: "local bind address family mismatch".to_owned(),
        source: Some(Box::new(Cause::Other)),
    }
}

/// The address to bind to before connecting to `peer`, or the failure where there is none.
pub fn bind_for(local: SocketAddr, peer: &SocketAddr) -> (r: Result<SocketAddr, IoFailure>)
    ensures
        match net::bind_for_peer(local, *peer) {
            Some(bind) => r == Ok::<SocketAddr, IoFailure>(bind),
            None => r matches Err(e) && is_family_mismatch(e),
        },
{
    match net::local_bind_for_peer(local, peer) {
        Some(bind) => Ok(bind),
        None => Err(family_mismatch()),
    }
}

/// The first address from `from` on that can be reached from the local address.
pub open spec fn first_bindable(addrs: Seq<SocketAddr>, local: SocketAddr, from: int) -> int
    decreases addrs.len() - from,
{
    if !(0 <= from < addrs.len()) || net::bind_for_peer(local, addrs[from]) is Some {
        from
    } else {
        first_bindable(addrs, local, from + 1)
    }
}

/// The first address that can be reached from the local address.
pub fn find_target(addrs: &Vec<SocketAddr>, local: SocketAddr) -> (r: Result<SocketAddr, DoHError>)
    ensures
        ({
            let i = first_bindable(addrs@, local, 0);
            if i < addrs@.len() {
                r == Ok::<SocketAddr, DoHError>(addrs@[i])
            } else {
                r matches Err(DoHError::Io(e)) && is_family_mismatch(e)
            }
        }),
{
    let mut i: usize = 0;
    while i < addrs.len()
        invariant
            i <= addrs@.len(),
            first_bindable(addrs@, local, 0) == first_bindable(addrs@, local, i as int),
        decreases addrs@.len() - i,
    {
        if net::local_bind_for_peer(local, &addrs[i]).is_some() {
            return Ok(addrs[i]);
        }
        i = i + 1;
    }
    Err(DoHError::Io(family_mismatch()))
}

/// A search through the addresses of a server for one that a socket can be connected to.
pub struct AddrSearch {
    addrs: Vec<SocketAddr>,
    local: SocketAddr,
    next: usize,
    last_err: Option<IoFailure>,
    family_mismatch: bool,
}

impl AddrSearch {
    pub closed spec fn addresses(&self) -> Seq<SocketAddr> {
        self.addrs@
    }

    pub closed spec fn local_address(&self) -> SocketAddr {
        self.local
    }

    /// Where the search stands.
    pub closed spec fn position(&self) -> int {
        self.next as int
    }

    /// The last failure to connect.
    pub closed spec fn failure(&self) -> Option<IoFailure> {
        self.last_err
    }

    /// An address of the other family was passed.
    pub closed spec fn mismatched(&self) -> bool {
        self.family_mismatch
    }

    pub closed spec fn wf(&self) -> bool {
        self.next <= self.addrs@.len()
    }

    pub fn new(addrs: Vec<SocketAddr>, local: SocketAddr) -> (s: Self)
        ensures
            s.wf(),
            s.addresses() == addrs@,
            s.local_address() == local,
            s.position() == 0,
            s.failure() is None,
            !s.mismatched(),
    {
        AddrSearch { addrs, local, next: 0, last_err: None, family_mismatch: false }
    }

    /// The next address to try and the address to bind to for it. Those of the other family are
    /// passed over.
    pub fn next(&mut self) -> (r: Option<(SocketAddr, SocketAddr)>)
        requires
            old(self).wf(),
        ensures
            final(self).wf(),
            final(self).addresses() == old(self).addresses(),
            final(self).local_address() == old(self).local_address(),
            final(self).failure() == old(self).failure(),
            ({
                let i = first_bindable(
                    old(self).addresses(),
                    old(self).local_address(),
                    old(self).position(),
                );
                &&& final(self).mismatched() == (old(self).mismatched() || i > old(self).position())
                &&& if i < old(self).addresses().len() {
                    &&& r matches Some((addr, bind))
                    &&& addr == old(self).addresses()[i]
                    &&& net::bind_for_peer(old(self).local_address(), addr) == Some(bind)
                    &&& final(self).position() == i + 1
                } else {
                    r is None && final(self).position() == old(self).addresses().len()
                }
            }),
    {
        while self.next < self.addrs.len()
            invariant
                self.wf(),
                self.addrs == old(self).addrs,
                self.local == old(self).local,
                self.last_err == old(self).last_err,
                old(self).next <= self.next,
                self.family_mismatch == (old(self).family_mismatch || self.next > old(self).next),
                first_bindable(self.addrs@, self.local, old(self).next as int) == first_bindable(
                    self.addrs@,
                    self.local,
                    self.next as int,
                ),
            decreases self.addrs@.len() - self.next,
        {
            let addr = self.addrs[self.next];
            match net::local_bind_for_peer(self.local, &addr) {
                Some(bind) => {
                    self.next = self.next + 1;
                    return Some((addr, bind));
                },
                None => {
                    self.family_mismatch = true;
                    self.next = self.next + 1;
                },
            }
        }
        None
    }

    /// Notes a failure to connect.
    pub fn on_error(&mut self, err: IoFailure)
        requires
            old(self).wf(),
        ensures
            final(self).wf(),
            final(self).addresses() == old(self).addresses(),
            final(self).local_address() == old(self).local_address(),
            final(self).position() == old(self).position(),
            final(self).mismatched() == old(self).mismatched(),
            final(self).failure() == Some(err),
    {
        self.last_err = Some(err);
    }

    /// The error of a search that found nothing.
    pub fn finish(self) -> (err: DoHError)
        ensures
            match self.failure() {
                Some(e) => err == DoHError::Io(e),
                None => if self.mismatched() {
                    err matches DoHError::Io(e) && is_family_mismatch(e)
                } else {
                    err is UpstreamIssue
                },
            },
    {
        match self.last_err {
            Some(err) => DoHError::Io(err),
            None => if self.family_mismatch {
                DoHError::Io(family_mismatch())
            } else {
                DoHError::UpstreamIssue
            },
        }
    }
}

/// The error after every address of a server was tried: that of the last failure.
pub fn last_failure(last_err: Option<DoHError>) -> (err: DoHError)
    ensures
        err == race_error(last_err),
{
    match last_err {
        Some(err) => err,
        None => DoHError::UpstreamIssue,
    }
}


/// How a host's addresses are found with a resolver: they are kept, or have to be asked for under
/// `query_host` and kept under `host`.
#[derive(Debug)]
pub enum BootstrapStart {
    Cached(Vec<IpAddr>),
    Ask { host: String, query_host: String },
}

/// Starts to find a host's addresses with a resolver.
pub fn start_bootstrap_lookup(
    cache: &BootstrapCache,
    resolver: &SocketAddr,
    host: &str,
    now: u64,
) -> (r: Result<BootstrapStart, DoHError>)
    requires
        cache.wf(),
    ensures
        ({
            let name = bootstrap::normalized(host@);
            let key = (*resolver, name);
            if text::trimmed(host@).len() == 0 {
                r matches Err(e) && e is UpstreamIssue
            } else if cache@.contains_key(key) && cache@[key].1 >= now {
                r matches Ok(BootstrapStart::Cached(addrs)) && addrs@ == cache@[key].0
            } else {
                r matches Ok(BootstrapStart::Ask { host, query_host }) && host@ == name
                    && query_host@ == text::without_trailing(name, '.')
            }
        }),
{
    let normalized_host = match bootstrap::normalize_bootstrap_host(host) {
        Ok(name) => name,
        Err(e) => {
            return Err(e);
        },
    };
    match cache.load(resolver, normalized_host.as_str(), now) {
        Some(addrs) => Ok(BootstrapStart::Cached(addrs)),
        None => {
            let query_host = text::trim_end_matches(normalized_host.as_str(), '.');
            Ok(BootstrapStart::Ask { host: normalized_host, query_host })
        },
    }
}

/// Ends a lookup with what the resolver said to both queries. The addresses are kept.
pub fn finish_bootstrap_lookup(
    cache: &mut BootstrapCache,
    resolver: SocketAddr,
    host: String,
    a_result: Result<BootstrapDnsResult, DoHError>,
    aaaa_result: Result<BootstrapDnsResult, DoHError>,
    now: u64,
) -> (r: Result<Vec<IpAddr>, DoHError>)
    requires
        old(cache).wf(),
    ensures
        final(cache).wf(),
        match (a_result, aaaa_result) {
            (Ok(a), Ok(aaaa)) => {
                let ttl = if a.min_ttl_secs < aaaa.min_ttl_secs {
                    a.min_ttl_secs
                } else {
                    aaaa.min_ttl_secs
                };
                &&& r matches Ok(addrs)
                &&& addrs@ == a.addrs@ + aaaa.addrs@
                &&& final(cache)@ == old(cache)@.insert(
                    (resolver, host@),
                    (a.addrs@ + aaaa.addrs@, expiry(ttl, now)),
                )
            },
            (Err(err), _) => r == Err::<Vec<IpAddr>, DoHError>(err) && final(cache)@ == old(cache)@,
            (_, Err(err)) => r == Err::<Vec<IpAddr>, DoHError>(err) && final(cache)@ == old(cache)@,
        },
{
    match join_bootstrap_results(a_result, aaaa_result) {
        Ok(both) => {
            cache.store(resolver, host, &both.addrs, both.min_ttl_secs, now);
            Ok(both.addrs)
        },
        Err(err) => Err(err),
    }
}

/// The address that is tried is the first that can be reached from the local one: none before it
/// can be.
pub proof fn law_first_reachable_address_is_tried(
    addrs: Seq<SocketAddr>,
    local: SocketAddr,
    from: int,
)
    requires
        0 <= from <= addrs.len(),
    ensures
        ({
            let i = first_bindable(addrs, local, from);
            &&& from <= i <= addrs.len()
            &&& i < addrs.len() ==> net::bind_for_peer(local, addrs[i]) is Some
            &&& forall|j: int|
                from <= j < i ==> net::bind_for_peer(local, #[trigger] addrs[j]) is None
        }),
    decreases addrs.len() - from,
{
    if from < addrs.len() && net::bind_for_peer(local, addrs[from]) is None {
        law_first_reachable_address_is_tried(addrs, local, from + 1);
    }
}

/// The error of resolvers that all failed is that of the last, and there is one without any.
pub proof fn law_last_error_is_told(err: DoHError)
    ensures
        race_error(Some(err)) == err,
        race_error(None) is UpstreamIssue,
{
}

/// A local address of the other family is told of as one that is not available.
pub proof fn law_mismatch_is_told(e: IoFailure)
    requires
        is_family_mismatch(e),
    ensures
        e.kind is AddrNotAvailable,
        e.message@ == "local bind address family mismatch"@,
{
}

} // verus!
