//! Filtering, sorting and shuffling.

use flx::filters::{
    filter_levels, filter_max_response_time, filter_min_anonymity, filter_min_response_time,
    is_excluded, level, protocol_family, proxy_anonymity_rank, shuffle_proxies, shuffle_seed,
    sort_proxies, SortKey, SortOrder,
};
use flx::net::Ipv4Addr;
use flx::order::{sort_positions, Key};
use flx::proxy::models::{Anonymity, Protocol, Proxy, ProxyType};

fn proxy(ip: u8) -> Proxy {
    Proxy::new(Ipv4Addr::new(10, 0, 0, ip), 8080 + u16::from(ip))
}

fn validated(ip: u8, protocol: Protocol, micros: u64) -> Proxy {
    let mut proxy = proxy(ip);
    proxy.proxy_types.push(ProxyType::checked(protocol, 0));
    proxy.runtimes.record(micros);
    proxy
}

fn country(ip: u8, iso_code: &str) -> Proxy {
    let mut proxy = proxy(ip);
    proxy.geo.iso_code = Some(iso_code.to_owned());
    proxy
}

fn ports(proxies: &[Proxy], keep: impl Fn(&Proxy) -> bool) -> Vec<u16> {
    proxies
        .iter()
        .filter(|p| keep(p))
        .map(|p| p.port)
        .collect()
}

#[test]
fn rank_treats_socks_and_connect_as_unknown() {
    assert_eq!(proxy_anonymity_rank(&proxy(1)), Anonymity::Unknown.rank());
    let socks = validated(1, Protocol::Socks5, 100_000);
    assert_eq!(proxy_anonymity_rank(&socks), Anonymity::Unknown.rank());
    let elite = validated(1, Protocol::Http(Anonymity::Elite), 100_000);
    assert_eq!(proxy_anonymity_rank(&elite), Anonymity::Elite.rank());
}

#[test]
fn a_type_without_a_level_gives_the_highest_rank() {
    let mut mixed = validated(1, Protocol::Http(Anonymity::Transparent), 100_000);
    assert_eq!(proxy_anonymity_rank(&mixed), 0);
    mixed.proxy_types.push(ProxyType::checked(Protocol::Socks5, 0));
    assert_eq!(proxy_anonymity_rank(&mixed), 3);
    assert!(filter_min_anonymity(&mixed, Anonymity::Elite));

    let mut tunnel = validated(2, Protocol::Connect(443), 100_000);
    tunnel.proxy_types.push(ProxyType::checked(Protocol::Http(Anonymity::Elite), 0));
    assert_eq!(proxy_anonymity_rank(&tunnel), Anonymity::Unknown.rank());

    let mut levels = validated(3, Protocol::Https(Anonymity::Anonymous), 100_000);
    levels.proxy_types.push(ProxyType::checked(Protocol::Http(Anonymity::Transparent), 0));
    assert_eq!(proxy_anonymity_rank(&levels), Anonymity::Anonymous.rank());
}

#[test]
fn family_erases_anonymity_within_http_and_https() {
    assert_eq!(
        protocol_family(Protocol::Http(Anonymity::Elite)),
        Protocol::Http(Anonymity::Unknown)
    );
    assert_eq!(protocol_family(Protocol::Socks5), Protocol::Socks5);
}

#[test]
fn min_anonymity_filter_keeps_unknown_ranked_proxies() {
    let proxies = vec![
        validated(1, Protocol::Http(Anonymity::Transparent), 100_000),
        validated(2, Protocol::Http(Anonymity::Elite), 100_000),
        validated(3, Protocol::Socks5, 100_000),
    ];
    // Elite and SOCKS-as-Unknown survive; only Transparent falls below the bar.
    assert_eq!(
        ports(&proxies, |p| filter_min_anonymity(p, Anonymity::Elite)),
        [8082, 8083]
    );
}

#[test]
fn levels_filter_matches_only_named_anonymities() {
    let proxies = vec![
        validated(1, Protocol::Http(Anonymity::Transparent), 100_000),
        validated(2, Protocol::Https(Anonymity::Anonymous), 100_000),
        validated(3, Protocol::Socks5, 100_000),
    ];
    let levels = vec![Anonymity::Anonymous, Anonymity::Elite];
    assert_eq!(ports(&proxies, |p| filter_levels(p, &levels)), [8082]);
}

#[test]
fn response_time_filters_bound_both_ends() {
    let slow = validated(1, Protocol::Socks5, 5_000_000);
    let fast = validated(2, Protocol::Socks5, 50_000);
    let middle = validated(3, Protocol::Socks5, 1_000_000);
    assert_eq!(
        ports(&[slow, fast, middle], |p| {
            filter_min_response_time(p, 500_000) && filter_max_response_time(p, 2_000_000)
        }),
        [8083]
    );
}

#[test]
fn exclude_types_falls_back_to_advertised_types() {
    let mut unvalidated = proxy(4);
    unvalidated.expected_types = vec![Protocol::Http(Anonymity::Unknown), Protocol::Socks5];
    let http_validated = validated(1, Protocol::Http(Anonymity::Elite), 100_000);
    let socks_validated = validated(2, Protocol::Socks5, 100_000);

    let excluded = vec![Protocol::Http(Anonymity::Elite)];
    let ports = ports(&[http_validated, socks_validated, unvalidated], |p| {
        !is_excluded(&excluded, p)
    });
    assert!(!ports.contains(&8081));
    assert!(
        !ports.contains(&8084),
        "advertised HTTP must be excluded too"
    );
    assert!(ports.contains(&8082));
}

#[test]
fn into_sorted_buffers_and_orders() {
    let mut proxies = vec![
        validated(1, Protocol::Socks5, 3_000_000),
        validated(2, Protocol::Socks5, 100_000),
        validated(3, Protocol::Socks5, 1_000_000),
    ];
    sort_proxies(&mut proxies, SortKey::AvgResponseTime, SortOrder::Asc);
    let times: Vec<u64> = proxies.iter().map(|p| p.avg_response_time().micros()).collect();
    let mut expected = times.clone();
    expected.sort();
    assert_eq!(times, expected);
}

#[test]
fn sort_desc_reverses_ascending_order() {
    let mut proxies = vec![
        validated(1, Protocol::Socks5, 3_000_000),
        validated(2, Protocol::Socks5, 100_000),
        validated(3, Protocol::Socks5, 1_000_000),
    ];
    sort_proxies(&mut proxies, SortKey::AvgResponseTime, SortOrder::Desc);
    assert!(proxies[0].avg_response_time().micros() >= proxies[2].avg_response_time().micros());

    let mut by_country = vec![country(1, "US"), country(2, "ID")];
    sort_proxies(&mut by_country, SortKey::Country, SortOrder::Asc);
    assert_eq!(
        by_country
            .iter()
            .map(|p| p.geo.iso_code.clone())
            .collect::<Vec<_>>(),
        [Some("ID".to_owned()), Some("US".to_owned())]
    );

    let mut by_rank = vec![
        validated(1, Protocol::Http(Anonymity::Transparent), 100_000),
        validated(2, Protocol::Socks5, 100_000),
        validated(3, Protocol::Http(Anonymity::Elite), 100_000),
    ];
    sort_proxies(&mut by_rank, SortKey::Anonymity, SortOrder::Asc);
    assert_eq!(by_rank[2].port, 8082, "unknown rank sorts last ascending");
}

#[test]
fn shuffled_preserves_every_proxy() {
    let mut proxies: Vec<Proxy> = (0..32u8)
        .map(|ip| validated(ip, Protocol::Socks5, u64::from(ip) * 10_000))
        .collect();
    let mut before: Vec<String> = proxies.iter().map(|p| p.as_text().to_owned()).collect();
    shuffle_proxies(&mut proxies, shuffle_seed(Some(12_345), 678));
    let mut after: Vec<String> = proxies.iter().map(|p| p.as_text().to_owned()).collect();
    assert_ne!(before, after, "thirty-two proxies do not stay in place");

    before.sort();
    after.sort();
    assert_eq!(before, after, "shuffle is a permutation");
}

#[test]
fn a_seed_is_never_zero() {
    assert_ne!(shuffle_seed(None, 0), 0);
    assert_ne!(shuffle_seed(Some(7), 7), 0);
}

#[test]
fn equal_keys_keep_their_order() {
    let mut proxies = vec![country(3, "US"), country(1, "ID"), country(2, "US")];
    sort_proxies(&mut proxies, SortKey::Country, SortOrder::Asc);
    let ports: Vec<u16> = proxies.iter().map(|p| p.port).collect();
    assert_eq!(ports, [8081, 8083, 8082]);
}

#[test]
fn levels_belong_to_http_alone() {
    assert_eq!(
        level(Protocol::Https(Anonymity::Elite)),
        Some(Anonymity::Elite)
    );
    assert_eq!(level(Protocol::Connect(80)), None);
}

#[test]
fn positions_sort_by_their_keys() {
    let keys = vec![Key::Number(3), Key::Number(1), Key::Number(2)];
    assert_eq!(sort_positions(&keys, false, &vec![0, 1, 2]), [1, 2, 0]);
    assert_eq!(sort_positions(&keys, true, &vec![0, 1, 2]), [0, 2, 1]);
    let texts = vec![Key::Text(Some("b".to_owned())), Key::Text(None)];
    assert_eq!(sort_positions(&texts, false, &vec![0, 1]), [1, 0]);
    assert!(texts[1].before(&texts[0]));
}

#[test]
fn response_times_are_filtered_by_the_exact_mean() {
    let mut between = validated(1, Protocol::Socks5, 1);
    between.runtimes.record(2);
    assert!(!filter_max_response_time(&between, 1), "one and a half is over one");
    assert!(filter_max_response_time(&between, 2));
    assert!(filter_min_response_time(&between, 1));
    assert!(!filter_min_response_time(&between, 2));
}

#[test]
fn means_within_a_microsecond_are_told_apart() {
    let mut slower = validated(1, Protocol::Socks5, 1);
    slower.runtimes.record(2);
    let mut faster = validated(2, Protocol::Socks5, 1);
    faster.runtimes.record(1);
    faster.runtimes.record(2);
    let mut proxies = vec![slower, faster];
    sort_proxies(&mut proxies, SortKey::AvgResponseTime, SortOrder::Asc);
    assert_eq!(proxies[0].port, 8082);
    sort_proxies(&mut proxies, SortKey::AvgResponseTime, SortOrder::Desc);
    assert_eq!(proxies[0].port, 8081);
}

#[test]
fn ratios_are_ordered_by_their_worth() {
    let keys = vec![
        Key::Text(None),
        Key::Ratio(2, 3),
        Key::Ratio(1, 2),
        Key::Ratio(4, 6),
        Key::Ratio(u128::MAX, 1),
        Key::Ratio(1, 0),
        Key::Number(9),
    ];
    let all: Vec<usize> = (0..keys.len()).collect();
    assert_eq!(sort_positions(&keys, false, &all), vec![6, 2, 1, 3, 5, 4, 0]);
}

#[test]
fn a_limit_that_one_proxy_meets_is_met_by_the_faster_ones() {
    let mut proxies = vec![
        validated(1, Protocol::Socks5, 30),
        validated(2, Protocol::Socks5, 10),
        validated(3, Protocol::Socks5, 20),
    ];
    sort_proxies(&mut proxies, SortKey::AvgResponseTime, SortOrder::Asc);
    let passed: Vec<bool> = proxies.iter().map(|p| filter_max_response_time(p, 20)).collect();
    assert_eq!(passed, vec![true, true, false]);
}
