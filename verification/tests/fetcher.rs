//! Gathering candidates: settings, phases, filters and the cache.

use flx::fetcher::cache::{
    anon_code, anon_from_code, cache_file_name, decode_rows, encode_rows, is_orphaned, protocol_code,
    protocol_from_code, temporary_name, Cache, ORPHANED_TMP_MAX_AGE,
};
use flx::fetcher::config::Config;
use flx::fetcher::dedup::{endpoint_key, protocol_hash, DedupTable, MAX_DEDUP_ENDPOINTS};
use flx::fetcher::phase::{
    begin_work, do_work, is_transient, protocol_arc, source_host, FetchStage, Throttle, WorkAction,
    WorkEvent, WorkState, FETCH_RETRY_BACKOFF,
};
use flx::fetcher::{
    accept_proxy, begin_gathering, check_config, gather, is_drained, plan_sources, AcceptContext,
    GatherAction, GatherError, GatherEvent, GatherRules, GatherState, ProxyFetcher,
    PRIMARY_PHASE_TIMEOUT,
};
use flx::geolookup::ip_type::IpType;
use flx::geolookup::models::GeoData;
use flx::net::Ipv4Addr;
use flx::providers::models::{ProviderTier, Source};
use flx::providers::parsers::ParsedProxy;
use flx::proxy::models::{Anonymity, Protocol, Proxy};

fn context(countries: &[&str], excluded: &[&str], ip_type: Option<IpType>) -> AcceptContext {
    let config = Config {
        countries: countries.iter().map(|c| (*c).to_owned()).collect(),
        excluded_countries: excluded.iter().map(|c| (*c).to_owned()).collect(),
        ..Config::default()
    };
    AcceptContext {
        unique_ips: DedupTable::new(),
        enforce_unique_ip: true,
        countries: config.normalized_countries(),
        excluded_countries: config.normalized_excluded_countries(),
        ip_type_filter: ip_type,
        counter: 0,
        accepted: 0,
    }
}

fn in_country(code: &str) -> GeoData {
    GeoData {
        iso_code: Some(code.to_owned()),
        ..GeoData::default()
    }
}

fn of_type(ip_type: IpType) -> GeoData {
    GeoData {
        ip_type,
        ..GeoData::default()
    }
}

#[test]
fn duplicate_endpoint_is_rejected_before_geo_lookup() {
    let mut ctx = context(&[], &[], None);
    let mut lookups = 0;
    let proxy = Proxy::new(Ipv4Addr::new(192, 0, 2, 1), 8080);

    assert!(accept_proxy(&mut ctx, proxy.clone(), |_| {
        lookups += 1;
        Some(GeoData::default())
    })
    .is_some());
    assert!(accept_proxy(&mut ctx, proxy, |_| {
        lookups += 1;
        Some(GeoData::default())
    })
    .is_none());
    assert_eq!(lookups, 1);
}

#[test]
fn same_endpoint_preserves_different_advertised_protocols() {
    let mut ctx = context(&[], &[], None);
    let ip = Ipv4Addr::new(192, 0, 2, 10);
    let http = Proxy::with_expected_types(ip, 8080, vec![Protocol::Http(Anonymity::Unknown)]);
    let socks5 = Proxy::with_expected_types(ip, 8080, vec![Protocol::Socks5]);

    let first = accept_proxy(&mut ctx, http, |_| None);
    let second = accept_proxy(&mut ctx, socks5, |_| None);

    assert!(first.is_some());
    assert!(second.is_some());
    assert_eq!(ctx.counter, 2);
}

#[test]
fn protocol_hash_preserves_protocol_set_equality() {
    // The dedup key is a `u64` hash of the advertised protocol set, so
    // identical sets collide and distinct sets stay distinct.
    let http = [Protocol::Http(Anonymity::Unknown)];
    let socks5 = [Protocol::Socks5];
    let both = [Protocol::Socks5, Protocol::Http(Anonymity::Unknown)];
    let same = [Protocol::Socks5, Protocol::Http(Anonymity::Unknown)];
    let empty: [Protocol; 0] = [];

    assert_eq!(protocol_hash(&both), protocol_hash(&same));
    assert_eq!(protocol_hash(&empty), protocol_hash(&empty));
    assert_ne!(protocol_hash(&http), protocol_hash(&socks5));
    assert_ne!(protocol_hash(&both), protocol_hash(&socks5));
    assert_ne!(protocol_hash(&both), protocol_hash(&http));
}

#[test]
fn dedup_table_is_bounded_and_evicts_oldest() {
    // The table has a fixed capacity and drops the oldest entry, so an evicted
    // endpoint can be accepted again.
    let mut table = DedupTable::with_capacity(2);
    let base = Ipv4Addr::new(192, 0, 2, 1);
    let key = |offset: u16| endpoint_key(base, offset, 7u64);

    assert!(table.insert(key(1)));
    assert!(table.insert(key(2)));
    assert!(
        !table.insert(key(1)),
        "duplicate within window stays filtered"
    );

    assert!(
        table.insert(key(3)),
        "new endpoint beyond capacity accepted"
    );
    assert_eq!(table.order.len(), 2, "table stays bounded at capacity");

    assert!(table.insert(key(1)), "evicted endpoint can come back");
    assert_eq!(table.order.len(), 2, "table stays bounded at capacity");
}

#[test]
fn country_filter_is_case_insensitive() {
    let mut ctx = context(&["id"], &[], None);
    let proxy = Proxy::new(Ipv4Addr::new(192, 0, 2, 2), 8080);
    let result = accept_proxy(&mut ctx, proxy, |_| Some(in_country("ID")));
    assert!(result.is_some());
}

#[test]
fn excluded_country_filter_drops_only_matching_proxies() {
    let mut ctx = context(&[], &["cn"], None);
    let blocked = Proxy::new(Ipv4Addr::new(192, 0, 2, 5), 8080);
    let allowed = Proxy::new(Ipv4Addr::new(192, 0, 2, 6), 8081);

    let rejected = accept_proxy(&mut ctx, blocked, |_| Some(in_country("CN")));
    let kept = accept_proxy(&mut ctx, allowed, |_| Some(in_country("US")));

    assert!(rejected.is_none());
    assert!(kept.is_some());
    assert_eq!(ctx.counter, 1);
}

#[test]
fn ip_type_filter_keeps_only_matching_proxies() {
    let mut ctx = context(&[], &[], Some(IpType::Residential));
    let residential = Proxy::new(Ipv4Addr::new(192, 0, 2, 3), 8080);
    let datacenter = Proxy::new(Ipv4Addr::new(192, 0, 2, 4), 8081);

    let accepted_home = accept_proxy(&mut ctx, residential, |_| {
        Some(of_type(IpType::Residential))
    });
    let rejected_datacenter = accept_proxy(&mut ctx, datacenter, |_| {
        Some(of_type(IpType::Datacenter))
    });

    assert!(accepted_home.is_some());
    assert!(rejected_datacenter.is_none());
}

#[test]
fn gather_rejects_country_filter_without_geo_lookup() {
    let config = Config {
        countries: vec!["ID".to_owned()],
        enable_geo_lookup: false,
        ..Config::default()
    };
    let err = check_config(&config).expect_err("the filter needs a lookup");
    assert!(err.to_text().contains("enable_geo_lookup"));
}

#[test]
fn gather_rejects_excluded_country_filter_without_geo_lookup() {
    let config = Config {
        excluded_countries: vec!["CN".to_owned()],
        enable_geo_lookup: false,
        ..Config::default()
    };
    let err = check_config(&config).expect_err("the filter needs a lookup");
    assert!(err.to_text().contains("enable_geo_lookup"));
}

#[test]
fn gather_allows_country_filter_with_geo_lookup() {
    let config = Config {
        countries: vec!["ID".to_owned()],
        enable_geo_lookup: true,
        ..Config::default()
    };
    assert!(check_config(&config).is_ok());
}

#[test]
fn gather_rejects_unknown_provider_name() {
    let config = Config {
        providers: vec!["not-a-provider".to_owned()],
        ..Config::default()
    };
    let err = plan_sources(&config)
        .map(|_| ())
        .expect_err("there is no such provider");
    assert!(err.to_text().contains("unknown provider"));
}

#[test]
fn gather_accepts_valid_provider_include() {
    let config = Config {
        providers: vec!["geonode".to_owned()],
        ..Config::default()
    };
    assert!(check_config(&config).is_ok());
    assert!(plan_sources(&config).is_ok());
}

#[test]
fn gather_fetches_custom_source_url_offline() {
    let config = Config {
        providers: vec!["custom".to_owned()],
        custom_sources: vec!["http://127.0.0.1:9999/list".to_owned()],
        cache_ttl: None,
        ..Config::default()
    };
    let plan = plan_sources(&config).unwrap_or_else(|error| panic!("{}", error.to_text()));
    assert_eq!(plan.primary.len(), 1);
    assert_eq!(plan.primary[0].url, "http://127.0.0.1:9999/list");
    assert!(plan.fallback.is_empty());
}

#[test]
fn stage_events_report_phases_then_done() {
    let rules = GatherRules {
        fallback_threshold: None,
        fallback_phase_timeout: None,
    };
    let mut seen = Vec::new();
    let (mut state, mut action) = begin_gathering();
    let mut events = vec![
        GatherEvent::TasksEnded,
        GatherEvent::Drained(0),
        GatherEvent::TasksEnded,
    ]
    .into_iter();
    loop {
        match action {
            GatherAction::Start(stage, _, _) | GatherAction::End(stage) => seen.push(stage),
            _ => {}
        }
        if state == GatherState::Done {
            break;
        }
        let event = events.next().expect("the run ends");
        (state, action) = gather(rules, state, event, false);
    }
    assert_eq!(seen.first(), Some(&FetchStage::Primary));
    assert!(seen.contains(&FetchStage::Fallback));
    assert_eq!(seen.last(), Some(&FetchStage::Done));
}

#[test]
fn timed_out_phase_aborts_tasks_and_releases_permits() {
    let rules = GatherRules {
        fallback_threshold: None,
        fallback_phase_timeout: Some(10),
    };
    let (state, action) = begin_gathering();
    assert_eq!(
        action,
        GatherAction::Start(
            FetchStage::Primary,
            ProviderTier::Primary,
            Some(PRIMARY_PHASE_TIMEOUT)
        )
    );
    let (state, action) = gather(rules, state, GatherEvent::TimedOut, false);
    assert_eq!(action, GatherAction::AbortAll);
    assert_eq!(state, GatherState::AbortingPrimary);
}

#[test]
fn finish_phase_returns_true_when_primary_completes() {
    let rules = GatherRules {
        fallback_threshold: Some(5),
        fallback_phase_timeout: None,
    };
    let (state, _) = begin_gathering();
    let (state, action) = gather(rules, state, GatherEvent::TasksEnded, false);
    assert_eq!(action, GatherAction::AwaitDrain, "healthy tasks end by themselves");
    // Enough was accepted, so the fallback is not asked.
    let (state, action) = gather(rules, state, GatherEvent::Drained(5), false);
    assert_eq!(state, GatherState::Done);
    assert_eq!(action, GatherAction::End(FetchStage::Done));
}

#[test]
fn drain_wait_survives_stale_notify_permits() {
    // Items that are still buffered keep the wait going, whatever was signalled.
    assert!(!is_drained(1, 4));
    assert!(is_drained(4, 4));
}

#[test]
fn do_work_offline_skips_source_on_cache_miss() {
    let (state, action) = begin_work(false);
    assert_eq!(action, WorkAction::LoadCache);
    let (state, action) = do_work(true, false, state, WorkEvent::Loaded(false));
    assert_eq!(state, WorkState::Done);
    assert_eq!(
        action,
        WorkAction::Succeed,
        "offline mode must not open a network connection on a cache miss"
    );
}

#[test]
fn do_work_offline_serves_warm_cache_without_network() {
    let (state, _) = begin_work(false);
    let (state, action) = do_work(true, false, state, WorkEvent::Loaded(true));
    assert_eq!(action, WorkAction::Deliver);
    let (state, action) = do_work(true, false, state, WorkEvent::Sent(true));
    assert_eq!(action, WorkAction::Deliver);
    let (state, action) = do_work(true, false, state, WorkEvent::AllSent);
    assert_eq!(state, WorkState::Done);
    assert_eq!(action, WorkAction::Succeed);
}

#[test]
fn a_fetch_is_tried_again_once_where_it_may_help() {
    let (state, _) = begin_work(false);
    let (state, action) = do_work(false, false, state, WorkEvent::Loaded(false));
    assert_eq!(action, WorkAction::ThrottleAndFetch);
    let (state, action) = do_work(false, false, state, WorkEvent::FetchFailed(true));
    assert_eq!(action, WorkAction::Sleep(FETCH_RETRY_BACKOFF));
    let (state, action) = do_work(false, false, state, WorkEvent::Waited);
    assert_eq!(action, WorkAction::Fetch);
    let (state, action) = do_work(false, false, state, WorkEvent::FetchFailed(true));
    assert_eq!(state, WorkState::Done);
    assert_eq!(action, WorkAction::Fail);
}

#[test]
fn throttle_spaces_same_host_requests_by_delay() {
    let mut throttle = Throttle::new();
    assert_eq!(throttle.reserve("example.com", 1_000, 100), 1_000);
    assert_eq!(
        throttle.reserve("example.com", 1_000, 100),
        1_100,
        "a second request to the same host must wait out the delay window"
    );
}

#[test]
fn throttle_does_not_delay_unseen_hosts() {
    let mut throttle = Throttle::new();
    throttle.reserve("example.com", 1_000, 10_000);
    assert_eq!(
        throttle.reserve("other.example.org", 1_000, 10_000),
        1_000,
        "a fresh host must not be held back by another host's delay"
    );
}

#[test]
fn throttle_spaces_concurrent_same_host_requests_cumulatively() {
    let mut throttle = Throttle::new();
    let slots: Vec<u64> = (0..3)
        .map(|_| throttle.reserve("example.com", 1_000, 100))
        .collect();
    assert_eq!(
        slots,
        vec![1_000, 1_100, 1_200],
        "three concurrent requests need three distinct slots"
    );
}

#[test]
fn throttle_saturates_an_oversized_delay() {
    let mut throttle = Throttle::new();
    assert_eq!(throttle.reserve("example.com", 1_000, u64::MAX), 1_000);
    assert_eq!(
        throttle.reserve("example.com", 1_000, u64::MAX),
        1_000,
        "an out-of-range delay must not be slept off"
    );
}

#[test]
fn source_host_comes_from_url_host() {
    let source = Source::all("http://lists.example.org/proxies?page=1").unwrap();
    assert_eq!(source_host(&source), "lists.example.org");
}

#[test]
fn protocol_arc_reuses_shared_sets_and_falls_back_for_connect() {
    let first = protocol_arc(Protocol::Http(Anonymity::Elite));
    let second = protocol_arc(Protocol::Http(Anonymity::Elite));
    assert_eq!(first, second);
    assert_eq!(first, [Protocol::Http(Anonymity::Elite)]);

    let socks = protocol_arc(Protocol::Socks5);
    assert_eq!(socks, [Protocol::Socks5]);

    let connect = protocol_arc(Protocol::Connect(8080));
    assert_eq!(connect, [Protocol::Connect(8080)]);
}

#[test]
fn transient_errors_are_retryable_and_permanent_ones_are_not() {
    assert!(is_transient(true, "reset"));
    assert!(is_transient(
        false,
        "http://example.com returned HTTP 503 Service Unavailable"
    ));
    assert!(is_transient(
        false,
        "http://example.com returned HTTP 429 Too Many Requests"
    ));
    assert!(!is_transient(
        false,
        "http://example.com returned HTTP 404 Not Found"
    ));
    assert!(!is_transient(false, "invalid provider URL `nope`"));
}

#[test]
fn geo_lookup_is_disabled_by_default() {
    assert!(!Config::default().enable_geo_lookup);
}

#[test]
fn country_filters_are_normalized_and_deduplicated() {
    let config = Config {
        countries: vec![
            "id".to_owned(),
            "ID".to_owned(),
            " us ".to_owned(),
            String::new(),
        ],
        ..Config::default()
    };

    let countries = config.normalized_countries();

    assert!(countries.contains("ID"));
    assert!(countries.contains("US"));
    assert_eq!(countries.len(), 2);
}

#[test]
fn excluded_countries_are_normalized_and_deduplicated() {
    let config = Config {
        excluded_countries: vec![
            "cn".to_owned(),
            "CN".to_owned(),
            " ru ".to_owned(),
            String::new(),
        ],
        ..Config::default()
    };

    let countries = config.normalized_excluded_countries();

    assert!(countries.contains("CN"));
    assert!(countries.contains("RU"));
    assert_eq!(countries.len(), 2);
}

#[test]
fn excluded_countries_are_empty_by_default() {
    assert!(Config::default().normalized_excluded_countries().is_empty());
}

#[test]
fn fetch_delay_is_disabled_by_default() {
    assert_eq!(Config::default().fetch_delay, None);
}

#[test]
fn fallback_phase_timeout_is_disabled_by_default() {
    assert_eq!(Config::default().fallback_phase_timeout, None);
}

#[test]
fn provider_timeout_is_disabled_by_default() {
    assert_eq!(Config::default().provider_timeout, None);
}

#[test]
fn settings_that_cannot_work_are_told_apart() {
    let none = Config {
        concurrency_limit: 0,
        ..Config::default()
    };
    assert!(matches!(
        check_config(&none),
        Err(GatherError::NoConcurrency)
    ));
    let typed = Config {
        ip_type_filter: Some(IpType::Mobile),
        enable_geo_lookup: false,
        ..Config::default()
    };
    assert!(matches!(
        check_config(&typed),
        Err(GatherError::IpTypeNeedsGeo)
    ));
    let custom = Config {
        custom_sources: vec!["not a url".to_owned()],
        ..Config::default()
    };
    assert!(matches!(
        plan_sources(&custom),
        Err(GatherError::InvalidSource { .. })
    ));
}

#[test]
fn a_consumer_asks_to_stop_when_it_has_enough() {
    let config = Config {
        fallback_threshold: Some(2),
        ..Config::default()
    };
    let mut fetcher = ProxyFetcher::new(&config);
    let (first, stop) = fetcher.accept(Proxy::new(Ipv4Addr::new(1, 1, 1, 1), 1), |_| None);
    assert!(first.is_some() && !stop);
    let (second, stop) = fetcher.accept(Proxy::new(Ipv4Addr::new(1, 1, 1, 2), 1), |_| None);
    assert!(second.is_some() && stop);
    let (third, stop) = fetcher.accept(Proxy::new(Ipv4Addr::new(1, 1, 1, 3), 1), |_| None);
    assert!(third.is_some() && !stop, "it asks once");

    assert!(!fetcher.check_drain(Some(Proxy::new(Ipv4Addr::new(1, 1, 1, 4), 1))));
    assert_eq!(fetcher.take_prefetched().map(|p| p.port), Some(1));
    assert!(fetcher.check_drain(None));
}

// ---------------------------------------------------------------------------
// The cache
// ---------------------------------------------------------------------------

fn cache(ttl: u64, refresh: bool) -> Cache {
    Cache::new_at("cache".to_owned(), ttl, refresh)
}

fn sample_rows() -> Vec<ParsedProxy> {
    vec![
        (Ipv4Addr::new(1, 2, 3, 4), 8080, None),
        (
            Ipv4Addr::new(5, 6, 7, 8),
            3128,
            Some(Protocol::Http(Anonymity::Elite)),
        ),
    ]
}

#[test]
fn store_then_load_rows_round_trips_within_ttl() {
    let cache = cache(60_000, false);
    let body = cache.store_rows(&sample_rows()).unwrap();
    let rows = cache.load_rows(0, &body).unwrap();
    assert_eq!(rows.len(), 2);
    assert_eq!(rows[0], (Ipv4Addr::new(1, 2, 3, 4), 8080, None));
    assert_eq!(
        rows[1],
        (
            Ipv4Addr::new(5, 6, 7, 8),
            3128,
            Some(Protocol::Http(Anonymity::Elite))
        )
    );
}

#[test]
fn load_rows_expires_after_ttl() {
    let cache = cache(50, false);
    let body = cache
        .store_rows(&vec![(Ipv4Addr::new(1, 2, 3, 4), 8080, None)])
        .unwrap();
    assert!(cache.load_rows(120, &body).is_none());
}

#[test]
fn refresh_bypasses_cache_but_keeps_store() {
    let cache = cache(60_000, true);
    let body = cache
        .store_rows(&vec![(Ipv4Addr::new(1, 2, 3, 4), 8080, None)])
        .unwrap();
    assert!(cache.load_rows(0, &body).is_none());
}

#[test]
fn empty_parses_are_never_cached() {
    assert!(cache(60_000, false).store_rows(&Vec::new()).is_none());
}

#[test]
fn foreign_magic_is_treated_as_miss() {
    let cache = cache(60_000, false);
    assert!(cache
        .load_rows(0, b"<html>1.2.3.4:8080</html>\n")
        .is_none());
}

#[test]
fn binary_round_trips_all_protocol_variants() {
    let rows: Vec<ParsedProxy> = vec![
        (Ipv4Addr::new(1, 2, 3, 4), 8080, None),
        (
            Ipv4Addr::new(5, 6, 7, 8),
            3128,
            Some(Protocol::Http(Anonymity::Elite)),
        ),
        (Ipv4Addr::new(9, 9, 9, 9), 1080, Some(Protocol::Socks5)),
        (
            Ipv4Addr::new(10, 0, 0, 1),
            443,
            Some(Protocol::Connect(443)),
        ),
        (
            Ipv4Addr::new(10, 0, 0, 2),
            8443,
            Some(Protocol::Https(Anonymity::Transparent)),
        ),
    ];
    let body = encode_rows(&rows).expect("rows to write");
    let parsed = decode_rows(&body).expect("valid binary cache");
    assert_eq!(parsed, rows);
}

#[test]
fn truncated_binary_cache_is_rejected() {
    let rows: Vec<ParsedProxy> = vec![(
        Ipv4Addr::new(1, 2, 3, 4),
        8080,
        Some(Protocol::Connect(443)),
    )];
    let full = encode_rows(&rows).unwrap();
    assert!(decode_rows(&full[..full.len() - 1]).is_none());
}

#[test]
fn protocol_codes_round_trip() {
    for protocol in [
        Protocol::Http(Anonymity::Elite),
        Protocol::Http(Anonymity::Transparent),
        Protocol::Http(Anonymity::Anonymous),
        Protocol::Http(Anonymity::Unknown),
        Protocol::Https(Anonymity::Elite),
        Protocol::Https(Anonymity::Unknown),
        Protocol::Socks4,
        Protocol::Socks5,
    ] {
        let code = protocol_code(Some(protocol)).unwrap();
        assert_eq!(protocol_from_code(code), Some(protocol));
    }
}

#[test]
fn anonymity_codes_round_trip() {
    for level in [
        Anonymity::Elite,
        Anonymity::Transparent,
        Anonymity::Anonymous,
        Anonymity::Unknown,
    ] {
        assert_eq!(anon_from_code(anon_code(level)), Some(level));
    }
    assert_eq!(anon_from_code(200), None);
}

#[test]
fn cache_file_name_is_stable_and_hashed() {
    assert_eq!(
        cache_file_name("http://example.com/list"),
        cache_file_name("http://example.com/list")
    );
    assert_ne!(
        cache_file_name("http://example.com/list"),
        cache_file_name("http://example.com/other")
    );
}

#[test]
fn cache_file_name_is_deterministic_fnv1a() {
    assert_eq!(
        cache_file_name("http://example.com/list"),
        "ffb9dd630c1e02bd"
    );
    assert_eq!(
        cache_file_name("http://example.com/other"),
        "e2eae3c2756ad9b1"
    );
}

#[test]
fn clean_orphaned_tmp_removes_only_stale_scratch_files() {
    assert!(
        is_orphaned(".abcdef.tmp-99999", true, ORPHANED_TMP_MAX_AGE + 1_000),
        "stale scratch file must be removed"
    );
    assert!(
        !is_orphaned(".012345.tmp-1", true, 0),
        "live scratch file must be kept"
    );
    assert!(
        !is_orphaned("0123456789abcdef", true, ORPHANED_TMP_MAX_AGE + 1_000),
        "real cache entry must be kept"
    );
    assert_eq!(temporary_name("abcdef", 99999), ".abcdef.tmp-99999");
}

#[test]
fn a_fetcher_remembers_so_many_endpoints() {
    let mut fetcher = ProxyFetcher::new(&Config::default());
    assert_eq!(fetcher.ctx.unique_ips.capacity, MAX_DEDUP_ENDPOINTS);
    fetcher.accept(Proxy::new(Ipv4Addr::new(1, 1, 1, 1), 1), |_| None);
    assert_eq!(fetcher.ctx.unique_ips.capacity, MAX_DEDUP_ENDPOINTS);
}
