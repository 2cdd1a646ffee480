use doh_proxy::bootstrap::BootstrapDnsResult;
use doh_proxy::errors::DoHError;
use doh_proxy::fast_ip_cache::{
    FastIpCacheEntry, FastIpCacheStatus, FastestIpCache, FASTEST_IP_CACHE_MAX_SIZE,
};
use doh_proxy::net::{IpAddr, SocketAddr};
use doh_proxy::resolve::{
    finish_bootstrap_lookup, join_bootstrap_results, start_bootstrap_lookup, BootstrapCache,
    BootstrapStart,
};

fn entry(latency_ms: u32, expire_at_ms: u64) -> FastIpCacheEntry {
    FastIpCacheEntry { status: FastIpCacheStatus::Success, latency_ms, expire_at_ms }
}

fn key(n: u32) -> IpAddr {
    if n % 2 == 0 {
        IpAddr::V4(n)
    } else {
        IpAddr::V6(n as u128)
    }
}

#[test]
fn what_was_stored_is_found() {
    let mut cache = FastestIpCache::with_max_size(2);
    assert_eq!(cache.get(key(1), 0), None);
    cache.upsert(key(1), entry(5, 100));
    assert_eq!(cache.get(key(1), 99), Some(entry(5, 100)));
    cache.upsert(key(1), entry(6, 200));
    assert_eq!(cache.get(key(1), 150), Some(entry(6, 200)));
    assert_eq!(cache.get(IpAddr::V4(1), 0), None);
}

#[test]
fn expired_entries_are_dropped() {
    let mut cache = FastestIpCache::with_max_size(2);
    cache.upsert(key(1), entry(5, 100));
    assert_eq!(cache.get(key(1), 100), None);
    assert_eq!(cache.remove(key(1)), None);
}

#[test]
fn the_least_recently_used_goes_out() {
    let mut cache = FastestIpCache::with_max_size(3);
    for n in 1..=3 {
        cache.upsert(key(n), entry(n, 100));
    }
    assert!(cache.get(key(1), 0).is_some());
    cache.upsert(key(4), entry(4, 100));
    assert_eq!(cache.get(key(2), 0), None);
    assert_eq!(cache.get(key(3), 0), Some(entry(3, 100)));
    cache.upsert(key(1), entry(11, 100));
    cache.upsert(key(5), entry(5, 100));
    assert_eq!(cache.get(key(4), 0), None);
    assert_eq!(cache.get(key(1), 0), Some(entry(11, 100)));
    assert_eq!(cache.get(key(5), 0), Some(entry(5, 100)));
}

#[test]
fn entries_are_removed_from_every_place() {
    for gone in 1..=3 {
        let mut cache = FastestIpCache::with_max_size(3);
        for n in 1..=3 {
            cache.upsert(key(n), entry(n, 100));
        }
        assert_eq!(cache.remove(key(gone)), Some(entry(gone, 100)));
        assert_eq!(cache.remove(key(gone)), None);
        for n in 1..=3 {
            assert_eq!(cache.get(key(n), 0).is_some(), n != gone);
        }
        cache.upsert(key(7), entry(7, 100));
        for n in 1..=3 {
            assert_eq!(cache.get(key(n), 0).is_some(), n != gone);
        }
    }
}

#[test]
fn a_cache_holds_one_entry_at_least() {
    let mut cache = FastestIpCache::with_max_size(0);
    cache.upsert(key(1), entry(1, 9));
    cache.upsert(key(2), entry(2, 9));
    assert_eq!(cache.get(key(1), 0), None);
    assert_eq!(cache.get(key(2), 0), Some(entry(2, 9)));
}

#[test]
fn the_usual_size() {
    assert_eq!(FASTEST_IP_CACHE_MAX_SIZE, 64 * 1024);
    let mut cache = FastestIpCache::default();
    for n in 0..=(64 * 1024) {
        cache.upsert(key(2 * n), entry(1, 9));
    }
    assert_eq!(cache.get(key(0), 0), None);
    assert!(cache.get(key(2), 0).is_some());
}

fn resolver(n: u32) -> SocketAddr {
    SocketAddr::new(IpAddr::V4(n), 53)
}

fn answer(ips: Vec<IpAddr>, min_ttl_secs: u32) -> Result<BootstrapDnsResult, DoHError> {
    Ok(BootstrapDnsResult { addrs: ips, min_ttl_secs })
}

#[test]
fn resolved_addresses_are_kept_for_their_time() {
    let mut cache = BootstrapCache::new();
    let ips = vec![IpAddr::V4(1), IpAddr::V6(2)];
    cache.store(resolver(1), "a.".to_string(), &ips, 10, 5000);
    assert_eq!(cache.load(&resolver(1), "a.", 15_000), Some(ips.clone()));
    assert_eq!(cache.load(&resolver(1), "a.", 15_001), None);
    assert_eq!(cache.load(&resolver(2), "a.", 5000), None);
    assert_eq!(cache.load(&resolver(1), "b.", 5000), None);
    cache.store(resolver(1), "a.".to_string(), &vec![], 10, 20_000);
    assert_eq!(cache.load(&resolver(1), "a.", 20_000), Some(vec![]));
    cache.store(resolver(1), "a.".to_string(), &ips, 1, u64::MAX);
    assert_eq!(cache.load(&resolver(1), "a.", u64::MAX), Some(ips));
}

#[test]
fn both_queries_have_to_be_answered() {
    let both = join_bootstrap_results(
        answer(vec![IpAddr::V4(1)], 30),
        answer(vec![IpAddr::V6(2)], 20),
    )
    .unwrap();
    assert_eq!(both.addrs, vec![IpAddr::V4(1), IpAddr::V6(2)]);
    assert_eq!(both.min_ttl_secs, 20);
    assert!(matches!(
        join_bootstrap_results(Err(DoHError::UpstreamTimeout), Err(DoHError::UpstreamIssue)),
        Err(DoHError::UpstreamTimeout)
    ));
    assert!(matches!(
        join_bootstrap_results(answer(vec![], 1), Err(DoHError::UpstreamIssue)),
        Err(DoHError::UpstreamIssue)
    ));
}

#[test]
fn lookups_go_through_the_cache() {
    let mut cache = BootstrapCache::new();
    let host = match start_bootstrap_lookup(&cache, &resolver(1), " DNS.Example ", 0).unwrap() {
        BootstrapStart::Ask { host, query_host } => {
            assert_eq!(query_host, "dns.example");
            host
        }
        BootstrapStart::Cached(_) => panic!("nothing is kept yet"),
    };
    assert_eq!(host, "dns.example.");
    let found = finish_bootstrap_lookup(
        &mut cache,
        resolver(1),
        host,
        answer(vec![IpAddr::V4(1)], 60),
        answer(vec![], u32::MAX),
        1000,
    )
    .unwrap();
    assert_eq!(found, vec![IpAddr::V4(1)]);
    match start_bootstrap_lookup(&cache, &resolver(1), "dns.example.", 61_000).unwrap() {
        BootstrapStart::Cached(addrs) => assert_eq!(addrs, vec![IpAddr::V4(1)]),
        BootstrapStart::Ask { .. } => panic!("the addresses are kept"),
    }
    assert!(matches!(
        start_bootstrap_lookup(&cache, &resolver(1), "dns.example.", 61_001).unwrap(),
        BootstrapStart::Ask { .. }
    ));
    assert!(matches!(
        start_bootstrap_lookup(&cache, &resolver(1), "  ", 0),
        Err(DoHError::UpstreamIssue)
    ));
    assert!(matches!(
        finish_bootstrap_lookup(
            &mut cache,
            resolver(2),
            "x.".to_string(),
            Err(DoHError::UpstreamTimeout),
            answer(vec![], 1),
            0
        ),
        Err(DoHError::UpstreamTimeout)
    ));
    assert_eq!(cache.load(&resolver(2), "x.", 0), None);
}
