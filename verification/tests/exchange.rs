use doh_proxy::errors::DoHError;
use doh_proxy::fast_ip_cache::{FastIpCacheEntry, FastIpCacheStatus, FastestIpCache};
use doh_proxy::globals::UpstreamMode;
use doh_proxy::limits::Limits;
use doh_proxy::net::IpAddr;
use doh_proxy::time::Duration;
use doh_proxy::upstream::attempts::{validate_exchange_packet, ExchangeOutcome};
use doh_proxy::upstream::dns_packet;
use doh_proxy::upstream::exchange::{
    check_query, choose_strategy, no_upstreams, response_ttl, Strategy,
};
use doh_proxy::upstream::fastest_addr::{
    choose_fastest, load_fastest_cache, on_ping, ping_all, plan_fastest, record_ping,
    store_fastest_failure, store_fastest_success, ExchangeAll, FastestExchange, FastestPlan,
    FastestStep, PingPlan, PingResult,
};
use doh_proxy::upstream::load_balance::{LoadBalanceExchange, LoadBalanceStep};
use doh_proxy::upstream::parallel::{ParallelExchange, ParallelStep};

fn dns_query_a() -> Vec<u8> {
    vec![
        0x12, 0x34, // ID
        0x01, 0x00, // RD
        0x00, 0x01, // QDCOUNT
        0x00, 0x00, // ANCOUNT
        0x00, 0x00, // NSCOUNT
        0x00, 0x00, // ARCOUNT
        0x00, // root name
        0x00, 0x01, // QTYPE A
        0x00, 0x01, // QCLASS IN
    ]
}

fn dns_response_ok() -> Vec<u8> {
    vec![
        0x12, 0x34, // ID
        0x81, 0x80, // QR + RD + RA
        0x00, 0x01, // QDCOUNT
        0x00, 0x00, // ANCOUNT
        0x00, 0x00, // NSCOUNT
        0x00, 0x00, // ARCOUNT
        0x00, // root name
        0x00, 0x01, // QTYPE A
        0x00, 0x01, // QCLASS IN
    ]
}

fn response_with_a(ips: &[u32]) -> Vec<u8> {
    let mut p = dns_response_ok();
    p[7] = ips.len() as u8;
    for ip in ips {
        p.extend_from_slice(&[0x00, 0x00, 0x01, 0x00, 0x01, 0x00, 0x00, 0x00, 0x3c, 0x00, 0x04]);
        p.extend_from_slice(&ip.to_be_bytes());
    }
    p
}

fn addresses() -> Vec<String> {
    vec!["127.0.0.1:5301".to_string(), "127.0.0.1:5302".to_string()]
}

fn ms(millis: u64) -> Duration {
    Duration::from_millis(millis)
}

fn timed_out() -> Result<Vec<u8>, DoHError> {
    Err(DoHError::UpstreamTimeout)
}

/// Asks the servers one after the other, always the first that is left.
fn run_load_balance(mut replies: Vec<Option<Vec<u8>>>) -> (ExchangeOutcome, Vec<(usize, Duration)>) {
    let mut exchange = LoadBalanceExchange::new(addresses()[..replies.len()].to_vec());
    let mut samples = Vec::new();
    loop {
        let idx = exchange.pick(0);
        let reply = match replies[idx].take() {
            Some(packet) => Ok(packet),
            None => timed_out(),
        };
        let (step, sample) = exchange.on_reply(reply, ms(80));
        if let Some(sample) = sample {
            samples.push((sample.idx, sample.elapsed));
        }
        match step {
            LoadBalanceStep::Done(outcome) => return (outcome, samples),
            LoadBalanceStep::Next(next) => exchange = next,
        }
    }
}

fn run_parallel(arrivals: Vec<(usize, Result<Vec<u8>, DoHError>)>, n: usize) -> ExchangeOutcome {
    let mut exchange = ParallelExchange::new(addresses()[..n].to_vec());
    for (idx, reply) in arrivals {
        match exchange.on_reply(idx, reply, ms(80)) {
            ParallelStep::Done(outcome) => return outcome,
            ParallelStep::Waiting(next) => exchange = next,
        }
    }
    exchange.on_closed()
}

fn run_all(arrivals: Vec<(usize, Result<Vec<u8>, DoHError>)>, n: usize) -> ExchangeAll {
    let mut exchange = FastestExchange::new(addresses()[..n].to_vec());
    for (idx, reply) in arrivals {
        match exchange.on_reply(idx, reply, ms(80)) {
            FastestStep::Done(all) => return all,
            FastestStep::Waiting(next) => exchange = next,
        }
    }
    exchange.on_closed()
}

fn run_fastest(arrivals: Vec<(usize, Result<Vec<u8>, DoHError>)>, n: usize) -> ExchangeOutcome {
    match plan_fastest(run_all(arrivals, n)) {
        FastestPlan::Done(outcome) => outcome,
        FastestPlan::Ping { ips, replies, query_stats } => {
            let mut cache = FastestIpCache::default();
            match ping_all(&mut cache, &ips, 1000) {
                PingPlan::Known(found) => choose_fastest(replies, query_stats, found),
                PingPlan::Try { best, .. } => choose_fastest(replies, query_stats, best),
            }
        }
    }
}

#[test]
fn load_balance_success_returns_single_main_stat() {
    assert_eq!(
        choose_strategy(2, UpstreamMode::LoadBalance, &dns_query_a()),
        Strategy::LoadBalance
    );
    for replies in [
        vec![Some(dns_response_ok()), None],
        vec![None, Some(dns_response_ok())],
    ] {
        let (outcome, _) = run_load_balance(replies);
        assert!(outcome.packet.is_ok(), "load_balance should succeed");
        assert_eq!(outcome.query_stats.main().len(), 1);
        assert!(outcome.query_stats.main()[0].error.is_none());
        assert!(outcome.query_stats.fallback().is_empty());
    }
}

#[test]
fn load_balance_all_fail_returns_joined_error_and_all_stats() {
    let (outcome, samples) = run_load_balance(vec![None, None]);
    assert_eq!(outcome.query_stats.main().len(), 2);
    assert!(outcome.query_stats.main().iter().all(|s| s.error.is_some()));
    match outcome.packet.expect_err("must fail") {
        DoHError::UpstreamJoined(errs) => assert_eq!(errs.len(), 2),
        other => panic!("unexpected error type: {}", other.to_text()),
    }
    assert_eq!(samples, vec![(0, Duration::from_secs(10)), (1, Duration::from_secs(10))]);
}

#[test]
fn parallel_success_returns_single_main_stat() {
    assert_eq!(
        choose_strategy(2, UpstreamMode::Parallel, &dns_query_a()),
        Strategy::Parallel
    );
    for arrivals in [
        vec![(0, Ok(dns_response_ok()))],
        vec![(1, timed_out()), (0, Ok(dns_response_ok()))],
    ] {
        let outcome = run_parallel(arrivals, 2);
        assert!(outcome.packet.is_ok(), "parallel should succeed");
        assert_eq!(outcome.query_stats.main().len(), 1);
        assert!(outcome.query_stats.main()[0].error.is_none());
        assert!(outcome.query_stats.fallback().is_empty());
    }
}

#[test]
fn parallel_all_fail_returns_joined_error_and_all_stats() {
    let outcome = run_parallel(vec![(1, timed_out()), (0, timed_out())], 2);
    assert_eq!(outcome.query_stats.main().len(), 2);
    assert!(outcome.query_stats.main().iter().all(|s| s.error.is_some()));
    match outcome.packet.expect_err("must fail") {
        DoHError::UpstreamJoined(errs) => assert_eq!(errs.len(), 2),
        other => panic!("unexpected error type: {}", other.to_text()),
    }
}

#[test]
fn fastest_addr_success_keeps_all_main_stats() {
    assert_eq!(
        choose_strategy(2, UpstreamMode::FastestAddr, &dns_query_a()),
        Strategy::FastestAddr
    );
    let outcome = run_fastest(vec![(0, Ok(dns_response_ok())), (1, timed_out())], 2);
    assert!(outcome.packet.is_ok(), "fastest_addr should succeed");
    assert_eq!(outcome.query_stats.main().len(), 2);
    assert!(outcome.query_stats.main().iter().any(|s| s.error.is_none()));
    assert!(outcome.query_stats.main().iter().any(|s| s.error.is_some()));
    assert!(outcome.query_stats.fallback().is_empty());
}

#[test]
fn fastest_addr_all_fail_returns_joined_error_and_all_stats() {
    let outcome = run_fastest(vec![(0, timed_out()), (1, timed_out())], 2);
    assert_eq!(outcome.query_stats.main().len(), 2);
    assert!(outcome.query_stats.main().iter().all(|s| s.error.is_some()));
    match outcome.packet.expect_err("must fail") {
        DoHError::UpstreamJoined(errs) => assert_eq!(errs.len(), 2),
        other => panic!("unexpected error type: {}", other.to_text()),
    }
}

#[test]
fn statistics_stand_in_the_order_of_the_servers() {
    let outcome = run_parallel(
        vec![(1, timed_out()), (0, Err(DoHError::TooManyTcpSessions))],
        2,
    );
    let main = outcome.query_stats.main();
    assert_eq!(main[0].address, "127.0.0.1:5301");
    assert_eq!(main[0].error.as_deref(), Some("Too many TCP sessions"));
    assert_eq!(main[1].address, "127.0.0.1:5302");
    assert_eq!(main[1].error.as_deref(), Some("Upstream timeout"));
    assert_eq!(
        outcome.packet.expect_err("must fail").to_text(),
        "All upstreams failed; 127.0.0.1:5302 (kind=upstream_timeout, duration_ms=80): \
         Upstream timeout; 127.0.0.1:5301 (kind=too_many_tcp_sessions, duration_ms=80): \
         Too many TCP sessions"
    );
}

#[test]
fn a_single_server_keeps_its_own_error() {
    let outcome = run_parallel(vec![(0, timed_out())], 1);
    assert!(matches!(outcome.packet, Err(DoHError::UpstreamTimeout)));
    assert_eq!(outcome.query_stats.main().len(), 1);
    let (outcome, samples) = run_load_balance(vec![None]);
    assert!(matches!(outcome.packet, Err(DoHError::UpstreamTimeout)));
    assert!(samples.is_empty());
    let all = run_all(vec![(0, timed_out())], 1);
    assert!(matches!(all.err, Some(DoHError::UpstreamTimeout)));
    let all = run_all(vec![(0, Ok(dns_response_ok()))], 1);
    assert_eq!(all.replies, vec![dns_response_ok()]);
    assert!(all.err.is_none());
}

#[test]
fn a_reply_that_is_no_message_is_a_failure() {
    assert!(matches!(
        validate_exchange_packet(vec![0u8; 11]),
        Err(DoHError::UpstreamIssue)
    ));
    assert_eq!(validate_exchange_packet(dns_response_ok()).unwrap(), dns_response_ok());
    let outcome = run_parallel(vec![(0, Ok(vec![1, 2, 3])), (1, Ok(dns_response_ok()))], 2);
    assert_eq!(outcome.packet.unwrap(), dns_response_ok());
    let (_, samples) = run_load_balance(vec![Some(vec![1, 2, 3]), Some(dns_response_ok())]);
    assert_eq!(samples, vec![(0, Duration::from_secs(10)), (1, ms(80))]);
}

#[test]
fn closed_before_all_replied() {
    let outcome = run_parallel(vec![(1, timed_out())], 2);
    assert_eq!(outcome.query_stats.main().len(), 1);
    match outcome.packet.expect_err("must fail") {
        DoHError::UpstreamJoined(errs) => assert_eq!(errs.len(), 1),
        other => panic!("unexpected error type: {}", other.to_text()),
    }
    let outcome = run_parallel(vec![], 2);
    assert!(matches!(outcome.packet, Err(DoHError::UpstreamIssue)));
}

#[test]
fn load_balance_picks_from_those_left() {
    let mut exchange = LoadBalanceExchange::new(vec![
        "a".to_string(),
        "b".to_string(),
        "c".to_string(),
    ]);
    assert_eq!(exchange.remaining(), &[0, 1, 2]);
    assert_eq!(exchange.pick(0), 0);
    assert_eq!(exchange.remaining(), &[2, 1]);
    match exchange.on_reply(timed_out(), ms(1)) {
        (LoadBalanceStep::Next(mut next), Some(sample)) => {
            assert_eq!(sample.idx, 0);
            assert_eq!(next.pick(1), 1);
            assert_eq!(next.remaining(), &[2]);
        }
        _ => panic!("expected another attempt"),
    }
}

#[test]
fn strategies_by_mode_and_type() {
    let mut other = dns_query_a();
    other[14] = 16;
    assert_eq!(
        choose_strategy(2, UpstreamMode::FastestAddr, &other),
        Strategy::LoadBalance
    );
    let mut v6 = dns_query_a();
    v6[14] = 28;
    assert_eq!(
        choose_strategy(1, UpstreamMode::FastestAddr, &v6),
        Strategy::FastestAddr
    );
    assert_eq!(
        choose_strategy(0, UpstreamMode::Parallel, &dns_query_a()),
        Strategy::NoUpstreams
    );
    let outcome = no_upstreams();
    assert!(matches!(outcome.packet, Err(DoHError::UpstreamIssue)));
    assert!(outcome.query_stats.main().is_empty());
    assert!(outcome.query_stats.fallback().is_empty());
}

#[test]
fn the_fastest_known_address_is_answered() {
    let one = response_with_a(&[0x01010101, 0x02020202]);
    let two = response_with_a(&[0x03030303]);
    let all = run_all(vec![(1, Ok(one.clone())), (0, Ok(two.clone()))], 2);
    let (ips, replies, stats) = match plan_fastest(all) {
        FastestPlan::Ping { ips, replies, query_stats } => (ips, replies, query_stats),
        FastestPlan::Done(_) => panic!("addresses to choose from"),
    };
    assert_eq!(
        ips,
        vec![IpAddr::V4(0x01010101), IpAddr::V4(0x02020202), IpAddr::V4(0x03030303)]
    );
    let mut cache = FastestIpCache::default();
    record_ping(&mut cache, ips[0], true, ms(30), 1000);
    record_ping(&mut cache, ips[1], true, ms(20), 1000);
    record_ping(&mut cache, ips[2], false, ms(10), 1000);
    let found = match ping_all(&mut cache, &ips, 2000) {
        PingPlan::Known(found) => found,
        PingPlan::Try { .. } => panic!("everything is known"),
    };
    assert_eq!(
        found,
        Some(PingResult { ip: ips[1], latency_ms: 20, success: true })
    );
    let outcome = choose_fastest(replies, stats, found);
    assert_eq!(outcome.packet.unwrap(), response_with_a(&[0x02020202, 0x02020202]));
    assert_eq!(outcome.query_stats.main().len(), 2);
}

#[test]
fn without_a_fastest_address_the_first_reply_counts() {
    let one = response_with_a(&[0x01010101, 0x02020202]);
    let all = run_all(vec![(0, Ok(one.clone())), (1, timed_out())], 2);
    match plan_fastest(all) {
        FastestPlan::Ping { replies, query_stats, .. } => {
            let outcome = choose_fastest(replies, query_stats, None);
            assert_eq!(outcome.packet.unwrap(), one);
        }
        FastestPlan::Done(_) => panic!("addresses to choose from"),
    }
    // An unspecified address is none to choose.
    let all = run_all(vec![(0, Ok(response_with_a(&[0]))), (1, timed_out())], 2);
    match plan_fastest(all) {
        FastestPlan::Done(outcome) => assert_eq!(outcome.packet.unwrap(), response_with_a(&[0])),
        FastestPlan::Ping { .. } => panic!("nothing to choose"),
    }
    // An address that no reply has.
    let outcome = choose_fastest(
        vec![one.clone()],
        Default::default(),
        Some(PingResult { ip: IpAddr::V4(9), latency_ms: 1, success: true }),
    );
    assert_eq!(outcome.packet.unwrap(), one);
}

#[test]
fn pings_are_tried_for_what_is_not_known() {
    let a = IpAddr::V4(1);
    let b = IpAddr::V4(2);
    let mut cache = FastestIpCache::default();
    assert!(matches!(ping_all(&mut cache, &vec![], 5), PingPlan::Known(None)));
    assert!(matches!(
        ping_all(&mut cache, &vec![a], 5),
        PingPlan::Known(Some(PingResult { latency_ms: 0, success: true, .. }))
    ));
    store_fastest_success(&mut cache, a, 7, 5);
    match ping_all(&mut cache, &vec![a, b], 6) {
        PingPlan::Try { best, pings } => {
            assert_eq!(best, Some(PingResult { ip: a, latency_ms: 7, success: true }));
            assert_eq!(pings, vec![(b, 80), (b, 443)]);
        }
        PingPlan::Known(_) => panic!("one address is not known"),
    }
    let slow = PingResult { ip: b, latency_ms: 9, success: true };
    let fast = PingResult { ip: b, latency_ms: 7, success: true };
    let lost = PingResult { ip: b, latency_ms: 1, success: false };
    let best = Some(PingResult { ip: a, latency_ms: 7, success: true });
    assert_eq!(on_ping(best, lost), None);
    assert_eq!(on_ping(best, slow), best);
    assert_eq!(on_ping(best, fast), Some(fast));
    assert_eq!(on_ping(None, slow), Some(slow));
}

#[test]
fn measurements_replace_slower_ones() {
    let ip = IpAddr::V4(1);
    let mut cache = FastestIpCache::default();
    store_fastest_failure(&mut cache, ip, 1000);
    let failure = load_fastest_cache(&mut cache, ip, 1000).unwrap();
    assert_eq!(
        failure,
        FastIpCacheEntry {
            status: FastIpCacheStatus::Failure,
            latency_ms: 0,
            expire_at_ms: 601_000
        }
    );
    store_fastest_success(&mut cache, ip, 50, 2000);
    store_fastest_success(&mut cache, ip, 60, 3000);
    store_fastest_failure(&mut cache, ip, 3000);
    let kept = load_fastest_cache(&mut cache, ip, 3000).unwrap();
    assert_eq!((kept.status, kept.latency_ms), (FastIpCacheStatus::Success, 50));
    assert_eq!(kept.expire_at_ms, 602_000);
    store_fastest_success(&mut cache, ip, 40, 4000);
    assert_eq!(load_fastest_cache(&mut cache, ip, 4000).unwrap().latency_ms, 40);
    assert!(load_fastest_cache(&mut cache, ip, 604_000).is_none());
    // The largest time is never passed.
    store_fastest_success(&mut cache, ip, 1, u64::MAX - 5);
    assert_eq!(
        load_fastest_cache(&mut cache, ip, u64::MAX - 4).unwrap().expire_at_ms,
        u64::MAX
    );
}

#[test]
fn mapped_addresses_are_measured_as_ipv4() {
    let mapped = IpAddr::V6(0xffff_0102_0304);
    let mut cache = FastestIpCache::default();
    let result = record_ping(&mut cache, mapped, true, Duration::from_secs(5_000_000), 0);
    assert_eq!(result.ip, mapped);
    assert_eq!(result.latency_ms, u32::MAX);
    assert!(load_fastest_cache(&mut cache, IpAddr::V4(0x01020304), 1).is_some());
    assert!(load_fastest_cache(&mut cache, mapped, 1).is_none());
}

#[test]
fn queries_and_their_time_to_live() {
    let limits = Limits {
        min_dns_packet_len: 17,
        max_dns_response_len: 4096,
        max_dns_question_len: 512,
        udp_tcp_ratio: 8,
        stale_if_error_secs: 1,
        stale_while_revalidate_secs: 2,
        odoh_key_rotation_secs: 3,
    };
    assert!(check_query(&dns_query_a(), &limits).is_ok());
    assert!(matches!(
        check_query(&dns_query_a()[..16], &limits),
        Err(DoHError::Incomplete)
    ));
    assert_eq!(response_ttl(true, None, 5).unwrap(), 5);
    assert_eq!(response_ttl(false, Some(60), 5).unwrap(), 60);
    assert!(matches!(response_ttl(false, None, 5), Err(DoHError::UpstreamIssue)));
}

#[test]
fn answers_are_read_from_replies() {
    let packet = response_with_a(&[7, 8]);
    assert_eq!(
        dns_packet::extract_answer_ips(&packet),
        vec![IpAddr::V4(7), IpAddr::V4(8)]
    );
    assert!(dns_packet::contains_answer_ip(&packet, IpAddr::V4(8)));
    assert!(!dns_packet::contains_answer_ip(&packet, IpAddr::V4(9)));
    assert!(dns_packet::extract_answer_ips(&packet[..20]).is_empty());
}
