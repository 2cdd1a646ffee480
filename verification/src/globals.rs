//! What the server is set up with.

use crate::doh_upstream::DohUpstream;
use crate::net::SocketAddr;
use crate::text;
use crate::time::Duration;
use vstd::prelude::*;

verus! {

/// The settings of a server.
#[derive(Debug)]
pub struct Globals {
    pub tls_cert_path: Option<String>,
    pub tls_cert_key_path: Option<String>,
    pub listen_addresses: Vec<SocketAddr>,
    pub local_bind_address: SocketAddr,
    pub bootstrap_dns: Vec<SocketAddr>,
    pub upstreams: Vec<Upstream>,
    pub upstream_mode: UpstreamMode,
    pub path: String,
    pub max_clients: usize,
    pub timeout: Duration,
    pub max_concurrent_streams: u32,
    pub min_ttl: u32,
    pub max_ttl: u32,
    pub err_ttl: u32,
    pub keepalive: bool,
    pub disable_post: bool,
    pub allow_odoh_post: bool,
    pub enable_ecs: bool,
    pub ecs_prefix_v4: u8,
    pub ecs_prefix_v6: u8,
    pub odoh_configs_path: String,
}

/// How several upstream servers are asked.
#[derive(Clone, Copy, Debug, PartialEq, Eq, Structural)]
pub enum UpstreamMode {
    LoadBalance,
    Parallel,
    FastestAddr,
}

impl UpstreamMode {
    /// The name of a mode.
    pub open spec fn name(self) -> Seq<char> {
        match self {
            UpstreamMode::LoadBalance => "load_balance"@,
            UpstreamMode::Parallel => "parallel"@,
            UpstreamMode::FastestAddr => "fastest_addr"@,
        }
    }

    /// The mode of a name.
    pub fn from_str(value: &str) -> (mode: Option<Self>)
        ensures
            forall|m: UpstreamMode| mode == Some(m) <==> value@ == #[trigger] m.name(),
    {
        proof {
            lemma_mode_names();
        }
        if text::same_text(value, "load_balance") {
            Some(UpstreamMode::LoadBalance)
        } else if text::same_text(value, "parallel") {
            Some(UpstreamMode::Parallel)
        } else if text::same_text(value, "fastest_addr") {
            Some(UpstreamMode::FastestAddr)
        } else {
            None
        }
    }
}

proof fn lemma_mode_names()
    ensures
        UpstreamMode::LoadBalance.name() != UpstreamMode::Parallel.name(),
        UpstreamMode::LoadBalance.name() != UpstreamMode::FastestAddr.name(),
        UpstreamMode::Parallel.name() != UpstreamMode::FastestAddr.name(),
{
    reveal_strlit("load_balance");
    reveal_strlit("parallel");
    reveal_strlit("fastest_addr");
    assert("load_balance"@[0] == 'l' && "parallel"@[0] == 'p' && "fastest_addr"@[0] == 'f');
}

/// Every mode has a name of its own.
pub proof fn law_modes_have_distinct_names(a: UpstreamMode, b: UpstreamMode)
    ensures
        a.name() == b.name() ==> a == b,
{
    lemma_mode_names();
}

/// An upstream server.
#[derive(Debug)]
pub enum Upstream {
    Dns(SocketAddr),
    Doh(DohUpstream),
    Dot(DotUpstream),
}

/// A server that is asked over TLS.
#[derive(Clone, Debug)]
pub struct DotUpstream {
    pub host: String,
    pub port: u16,
}

/// The text by which an upstream server is known; `dns_text` is that of a plain one's address.
pub open spec fn address_of(upstream: Upstream, dns_text: Seq<char>) -> Seq<char> {
    match upstream {
        Upstream::Dns(_) => dns_text,
        Upstream::Doh(doh) => doh.url@,
        Upstream::Dot(dot) => "tls://"@ + dot.host@ + ":"@ + text::decimal(dot.port as nat),
    }
}

/// The text by which an upstream server is known; `dns_text` is that of a plain one's address.
pub fn upstream_address(upstream: &Upstream, dns_text: &str) -> (s: String)
    ensures
        s@ == address_of(*upstream, dns_text@),
{
    match upstream {
        Upstream::Dns(_) => dns_text.to_owned(),
        Upstream::Doh(doh) => doh.url.clone(),
        Upstream::Dot(dot) => {
            let mut s = text::joined("tls://", dot.host.as_str());
            s.append(":");
            s.append(text::decimal_text(dot.port as u128).as_str());
            s
        },
    }
}

/// How many clients are being served. There is one count, and all who serve clients go through
/// it: it cannot be cloned.
#[derive(Debug)]
pub struct ClientsCount {
    count: usize,
}

impl Default for ClientsCount {
    fn default() -> (c: Self)
        ensures
            c@ == 0,
    {
        ClientsCount { count: 0 }
    }
}

impl View for ClientsCount {
    type V = nat;

    closed spec fn view(&self) -> nat {
        self.count as nat
    }
}

impl ClientsCount {
    pub fn current(&self) -> (count: usize)
        ensures
            count == self@,
    {
        self.count
    }

    /// Counts one client more, and gives the count before. The count starts over from zero after
    /// the largest number.
    pub fn increment(&mut self) -> (before: usize)
        ensures
            before == old(self)@,
            final(self)@ == count_after_increment(old(self)@),
    {
        let before: usize = self.count;
        self.count = before.wrapping_add(1);
        before
    }

    /// Counts one client less, where there is one, and gives the count before.
    pub fn decrement(&mut self) -> (before: usize)
        ensures
            before == old(self)@,
            final(self)@ == count_after_leaving(old(self)@),
    {
        let before: usize = self.count;
        if before > 0 {
            self.count = before - 1;
        }
        before
    }

    /// Takes a client in, unless as many as allowed are being served. Where the count is at the
    /// largest number, it starts over.
    pub fn reserve(&mut self, max_clients: usize) -> (taken: bool)
        ensures
            taken == (old(self)@ < max_clients),
            final(self)@ == count_after_arrival(old(self)@, max_clients as nat),
    {
        if self.increment() >= max_clients {
            self.decrement();
            false
        } else {
            true
        }
    }
}

/// The count with one client more: zero after the largest number.
pub open spec fn count_after_increment(count: nat) -> nat {
    if count == usize::MAX {
        0
    } else {
        count + 1
    }
}

/// The count after a client came, with a limit of `max`.
pub open spec fn count_after_arrival(count: nat, max: nat) -> nat {
    if count < max {
        count + 1
    } else if count == usize::MAX {
        0
    } else {
        count
    }
}

/// The count after a client left.
pub open spec fn count_after_leaving(count: nat) -> nat {
    if count == 0 {
        0
    } else {
        (count - 1) as nat
    }
}

/// The count after clients came and left: `true` stands for one that came, `false` for one that
/// left.
pub open spec fn served(events: Seq<bool>, max: nat) -> nat
    decreases events.len(),
{
    if events.len() == 0 {
        0
    } else {
        let before = served(events.drop_last(), max);
        if events.last() {
            count_after_arrival(before, max)
        } else {
            count_after_leaving(before)
        }
    }
}

/// A client that came and left leaves the count as it was.
pub proof fn law_leaving_undoes_arrival(count: nat)
    requires
        count < usize::MAX,
    ensures
        count_after_increment(count) == count + 1,
        count_after_leaving(count_after_increment(count)) == count,
{
}

/// However clients come and leave, no more are served than the limit allows.
pub proof fn law_clients_stay_within_limit(events: Seq<bool>, max: nat)
    ensures
        served(events, max) <= max,
    decreases events.len(),
{
    if events.len() > 0 {
        law_clients_stay_within_limit(events.drop_last(), max);
    }
}

/// The names by which the modes are chosen.
pub proof fn law_mode_names()
    ensures
        UpstreamMode::LoadBalance.name() == "load_balance"@,
        UpstreamMode::Parallel.name() == "parallel"@,
        UpstreamMode::FastestAddr.name() == "fastest_addr"@,
{
}

/// A client is taken in exactly where fewer are served than allowed, and one that was not taken in
/// does not count.
pub proof fn law_clients_are_taken_in_below_the_limit(count: nat, max: nat)
    requires
        max <= usize::MAX,
        count < usize::MAX,
    ensures
        count < max ==> count_after_arrival(count, max) == count + 1,
        count >= max ==> count_after_arrival(count, max) == count,
        count > 0 ==> count_after_leaving(count) == count - 1,
        count_after_leaving(0) == 0,
{
}

/// A server is known by the address it was given by: the address of a plain one, the URL of one
/// over HTTPS, and a URL with its name and its port for one over TLS.
pub proof fn law_names_of_servers(
    addr: SocketAddr,
    doh: DohUpstream,
    dot: DotUpstream,
    dns_text: Seq<char>,
)
    ensures
        address_of(Upstream::Dns(addr), dns_text) == dns_text,
        address_of(Upstream::Doh(doh), dns_text) == doh.url@,
        address_of(Upstream::Dot(dot), dns_text) == "tls://"@ + dot.host@ + ":"@ + text::decimal(
            dot.port as nat,
        ),
{
}

/// At the largest number that can be held, one client more makes the count start over, and so it
/// does where none can be taken in.
pub proof fn law_full_counts_start_over(max: nat)
    requires
        max <= usize::MAX,
    ensures
        count_after_increment(usize::MAX as nat) == 0,
        count_after_arrival(usize::MAX as nat, max) == 0,
{
}

} // verus!
