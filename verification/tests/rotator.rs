//! The rotating endpoint: its pool, its options and its events.

use flx::net::Ipv4Addr;
use flx::proxy::models::Proxy;
use flx::rotator::pool::{random_below, RotatorPool};
use flx::rotator::{
    fmt_bytes, fmt_dur, may_serve, ready_target, ServeEvent, ServeOptions, Strategy, COOLDOWN,
    DEFAULT_MIN_READY, DEFAULT_POOL_SIZE, MAX_CONSECUTIVE_FAILURES, MAX_POOL_SIZE,
    READY_WAIT_TIMEOUT,
};

const MILLI: u64 = 1_000_000;
const NOW: u64 = 1_000_000;

fn proxy(port: u16) -> Proxy {
    Proxy::new(Ipv4Addr::new(10, 0, 0, (port % 250) as u8), port)
}

#[test]
fn ready_target_never_exceeds_the_pool_size() {
    assert_eq!(
        ready_target(1, 5),
        1,
        "min_ready above pool_size must clamp"
    );
    assert_eq!(ready_target(25, 3), 3);
    assert_eq!(ready_target(0, 4), 1);
    assert_eq!(ready_target(1000, 1000), MAX_POOL_SIZE);
}

#[test]
fn single_ready_proxy_goes_live_immediately() {
    let mut pool = RotatorPool::new(Strategy::RoundRobin);
    assert!(pool.add(Proxy::new(Ipv4Addr::new(127, 0, 0, 1), 8081)));
    assert!(may_serve(false, pool.ready(NOW), DEFAULT_MIN_READY, 0));
}

#[test]
fn force_ready_opens_the_gate_with_an_empty_pool() {
    let pool = RotatorPool::new(Strategy::RoundRobin);
    assert!(may_serve(true, pool.ready(NOW), 10, 0));
    assert!(!may_serve(false, pool.ready(NOW), 10, 0));
    assert!(may_serve(false, pool.ready(NOW), 10, READY_WAIT_TIMEOUT));
}

#[test]
fn pool_is_capped_at_twenty_five_by_default() {
    assert_eq!(MAX_POOL_SIZE, 25);
    assert_eq!(DEFAULT_POOL_SIZE, MAX_POOL_SIZE);
    assert_eq!(
        ServeOptions::default().pool_size,
        DEFAULT_POOL_SIZE,
        "the serve facade must default to the capped pool"
    );
}

#[test]
fn serve_events_render_authorities_without_paths() {
    let client = "127.0.0.1:54321".to_owned();
    let incoming = ServeEvent::Incoming {
        id: 12,
        client: Some(client.clone()),
        method: "CONNECT".to_owned(),
        target: "example.com:443".to_owned(),
    };
    assert_eq!(
        incoming.to_text(),
        "[#12] → CONNECT example.com:443 from 127.0.0.1:54321"
    );

    let completed = ServeEvent::Completed {
        id: 12,
        client: Some(client),
        method: "CONNECT".to_owned(),
        target: "example.com:443".to_owned(),
        upstream: Some("192.0.2.1:8080".to_owned()),
        ok: true,
        reason: None,
        elapsed: 1289 * MILLI,
    };
    let rendered = completed.to_text();
    assert_eq!(
        rendered, "[#12] ✓ CONNECT example.com:443 via 192.0.2.1:8080 1.3s",
        "{rendered}"
    );
    assert!(!rendered.contains('/'), "authorities must never leak paths");

    let failed = ServeEvent::Completed {
        id: 7,
        client: None,
        method: "GET".to_owned(),
        target: "-".to_owned(),
        upstream: None,
        ok: false,
        reason: Some("bad request".to_owned()),
        elapsed: 3 * MILLI,
    };
    assert_eq!(failed.to_text(), "[#7] ✗ GET - via - FAIL bad request 3ms");

    let trace = ServeEvent::Trace {
        id: 12,
        text: "* TCP connect 4ms".to_owned(),
    };
    assert_eq!(trace.to_text(), "[#12] * TCP connect 4ms");
}

#[test]
fn fmt_dur_humanizes_durations() {
    assert_eq!(fmt_dur(12 * MILLI), "12ms");
    assert_eq!(fmt_dur(1289 * MILLI), "1.3s");
    assert_eq!(fmt_dur(64_000 * MILLI), "1m 4s");
}

#[test]
fn fmt_bytes_humanizes_counts() {
    assert_eq!(fmt_bytes(412), "412B");
    assert_eq!(fmt_bytes(2048), "2.0KB");
    assert_eq!(fmt_bytes(5 * 1024 * 1024), "5.0MB");
}

#[test]
fn round_robin_cycles_in_insertion_order() {
    let mut pool = RotatorPool::new(Strategy::RoundRobin);
    (1..=3).for_each(|port| {
        assert!(pool.add(proxy(port)));
    });
    let picked: Vec<u16> = (0..6)
        .filter_map(|_| pool.pick(NOW).map(|p| p.port))
        .collect();
    assert_eq!(picked, [1, 2, 3, 1, 2, 3]);
}

#[test]
fn duplicate_endpoints_are_rejected() {
    let mut pool = RotatorPool::new(Strategy::RoundRobin);
    assert!(pool.add(proxy(1)));
    assert!(!pool.add(proxy(1)));
    assert_eq!(pool.len(), 1);
}

#[test]
fn failures_cool_down_then_evict() {
    let mut pool = RotatorPool::new(Strategy::RoundRobin);
    pool.add(proxy(1));
    pool.add(proxy(2));
    for _ in 0..MAX_CONSECUTIVE_FAILURES - 1 {
        pool.report_failure(&proxy(1), NOW);
    }
    assert_eq!(pool.ready(NOW), 1);
    let picked: Vec<u16> = (0..4)
        .filter_map(|_| pool.pick(NOW).map(|p| p.port))
        .collect();
    assert!(picked.iter().all(|port| *port == 2));
    pool.report_failure(&proxy(1), NOW);
    assert_eq!(
        pool.len(),
        1,
        "proxy must be evicted after repeated failures"
    );
}

#[test]
fn success_resets_the_failure_streak() {
    let mut pool = RotatorPool::new(Strategy::RoundRobin);
    pool.add(proxy(1));
    pool.report_failure(&proxy(1), NOW);
    pool.report_success(&proxy(1));
    assert_eq!(pool.ready(NOW), 1);
    pool.report_failure(&proxy(1), NOW);
    assert_eq!(pool.len(), 1);
}

#[test]
fn pool_cap_is_enforced() {
    let mut pool = RotatorPool::new(Strategy::RoundRobin);
    for port in 1..=MAX_POOL_SIZE as u16 {
        pool.add(proxy(port));
    }
    assert!(!pool.add(proxy(MAX_POOL_SIZE as u16 + 1)));
    assert_eq!(pool.len(), MAX_POOL_SIZE);
}

#[test]
fn pick_on_empty_pool_is_none() {
    let mut pool = RotatorPool::new(Strategy::Random);
    assert!(pool.pick(NOW).is_none());
    assert!(pool.is_empty());
}

#[test]
fn a_cooled_down_proxy_comes_back() {
    let mut pool = RotatorPool::new(Strategy::RoundRobin);
    pool.add(proxy(1));
    pool.report_failure(&proxy(1), NOW);
    assert_eq!(pool.ready(NOW), 0);
    assert_eq!(pool.ready(NOW + COOLDOWN), 1);
    assert!(pool.pick(NOW).is_none());
    assert_eq!(pool.pick(NOW + COOLDOWN).map(|p| p.port), Some(1));
}

#[test]
fn an_eviction_keeps_the_order_of_insertion() {
    let mut pool = RotatorPool::new(Strategy::RoundRobin);
    (1..=4).for_each(|port| {
        assert!(pool.add(proxy(port)));
    });
    for _ in 0..MAX_CONSECUTIVE_FAILURES {
        pool.report_failure(&proxy(2), NOW);
    }
    let picked: Vec<u16> = (0..6)
        .filter_map(|_| pool.pick(NOW).map(|p| p.port))
        .collect();
    assert_eq!(picked, [1, 3, 4, 1, 3, 4]);
}

#[test]
fn a_random_turn_starts_inside_the_pool() {
    for _ in 0..100 {
        assert!(random_below(7) < 7);
    }
    let mut pool = RotatorPool::new(Strategy::Random);
    pool.add(proxy(1));
    pool.add(proxy(2));
    for _ in 0..20 {
        assert!(pool.pick(NOW).is_some());
    }
}

#[test]
fn a_scan_goes_round_from_where_it_starts() {
    let mut pool = RotatorPool::new(Strategy::RoundRobin);
    for port in 1..=3 {
        pool.add(proxy(port));
    }
    pool.report_failure(&proxy(3), NOW);
    assert_eq!(pool.pick_from(2, NOW), Some(0));
    assert_eq!(pool.pick_from(1, NOW), Some(1));
}

#[test]
fn strategies_read_back_their_names() {
    for strategy in [Strategy::RoundRobin, Strategy::Random] {
        assert_eq!(Strategy::parse(strategy.as_str()), Some(strategy));
    }
    assert_eq!(Strategy::parse("fastest"), None);
}
