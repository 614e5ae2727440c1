//! Proxies, protocols and what is known of them.

use flx::error::{FlxError, ProtocolParseError, ProxyParseError};
use flx::geolookup::ip_type::{has_hosting_keyword, has_keyword, has_mobile_keyword, IpType};
use flx::geolookup::models::GeoData;
use flx::net::Ipv4Addr;
use flx::proxy::client::{
    begin_request, send_request, sni_host, ProxyRuntimes, RequestError, RequestPlan, RequestStep,
    SendOptions, StepResult,
};
use flx::proxy::models::{Anonymity, Protocol, Proxy, ProxyType, RuntimeStats};
use flx::source::{file_default_protocols, ProxySource};

#[test]
fn constructor_keeps_cached_host_in_sync() {
    let proxy = Proxy::with_expected_types(
        Ipv4Addr::new(192, 0, 2, 10),
        8080,
        vec![Protocol::Https(Anonymity::Unknown)],
    );

    assert_eq!(proxy.as_text(), "192.0.2.10:8080");
    assert_eq!(
        proxy.expected_types,
        [Protocol::Https(Anonymity::Unknown)]
    );
}

#[test]
fn validation_probe_does_not_copy_advertised_protocols() {
    let proxy = Proxy::with_expected_types(
        Ipv4Addr::new(192, 0, 2, 20),
        3128,
        vec![Protocol::Http(Anonymity::Unknown), Protocol::Socks5],
    );

    let probe = proxy.validation_probe();

    assert!(probe.expected_types.is_empty());
    assert_eq!(probe.geo.iso_code, proxy.geo.iso_code);
    assert_eq!(probe.as_text(), proxy.as_text());
}

#[test]
fn multi_type_proxy_renders_combined_display_and_json() {
    let mut proxy = Proxy::new(Ipv4Addr::new(192, 0, 2, 40), 10006);
    proxy
        .proxy_types
        .push(ProxyType::checked(Protocol::Socks4, 0));
    proxy
        .proxy_types
        .push(ProxyType::checked(Protocol::Socks5, 0));

    let rendered = proxy.to_text();
    assert!(rendered.contains("[SOCKS4, SOCKS5]"), "got: {rendered}");
}

#[test]
fn unknown_qualifier_rejects_typos_but_accepts_any_case() {
    assert!("HTTP:Elit".parse::<Protocol>().is_err());
    assert!("HTTPS:Anonimous".parse::<Protocol>().is_err());
    assert_eq!(
        "HTTP:elite".parse::<Protocol>().unwrap(),
        Protocol::Http(Anonymity::Elite)
    );
    assert_eq!(
        "HTTPS:ANONYMOUS".parse::<Protocol>().unwrap(),
        Protocol::Https(Anonymity::Anonymous)
    );
}

#[test]
fn missing_or_empty_qualifier_stays_an_unknown_wildcard() {
    assert_eq!(
        "HTTP".parse::<Protocol>().unwrap(),
        Protocol::Http(Anonymity::Unknown)
    );
    assert_eq!(
        "HTTP:".parse::<Protocol>().unwrap(),
        Protocol::Http(Anonymity::Unknown)
    );
    assert_eq!(
        "HTTP:Elite".parse::<Protocol>().unwrap(),
        Protocol::Http(Anonymity::Elite)
    );
}

#[test]
fn anonymity_ranks_lowest_to_highest() {
    assert!(Anonymity::Transparent.rank() < Anonymity::Anonymous.rank());
    assert!(Anonymity::Anonymous.rank() < Anonymity::Elite.rank());
    assert!(Anonymity::Elite.rank() < Anonymity::Unknown.rank());
    assert_eq!(Anonymity::Transparent.rank(), 0);
    assert_eq!(Anonymity::Unknown.rank(), 3);
}

#[test]
fn from_str_parses_bare_ip_port() {
    let proxy: Proxy = "1.2.3.4:8080".parse().unwrap();
    assert_eq!(proxy.ip, Ipv4Addr::new(1, 2, 3, 4));
    assert_eq!(proxy.port, 8080);
    assert!(proxy.expected_types.is_empty());
}

#[test]
fn from_str_parses_http_prefix() {
    let proxy: Proxy = "http://1.2.3.4:8080".parse().unwrap();
    assert_eq!(proxy.ip, Ipv4Addr::new(1, 2, 3, 4));
    assert_eq!(proxy.port, 8080);
    assert_eq!(
        proxy.expected_types,
        [Protocol::Http(Anonymity::Unknown)]
    );
}

#[test]
fn from_str_parses_https_prefix() {
    let proxy: Proxy = "https://5.6.7.8:3128".parse().unwrap();
    assert_eq!(
        proxy.expected_types,
        [Protocol::Https(Anonymity::Unknown)]
    );
}

#[test]
fn from_str_parses_socks5_prefix() {
    let proxy: Proxy = "socks5://10.0.0.1:1080".parse().unwrap();
    assert_eq!(proxy.expected_types, [Protocol::Socks5]);
}

#[test]
fn from_str_parses_socks4_prefix() {
    let proxy: Proxy = "socks4://10.0.0.2:1080".parse().unwrap();
    assert_eq!(proxy.expected_types, [Protocol::Socks4]);
}

#[test]
fn from_str_fails_on_garbage() {
    assert!("garbage".parse::<Proxy>().is_err());
}

#[test]
fn from_str_fails_on_missing_port() {
    assert!("1.2.3.4".parse::<Proxy>().is_err());
}

#[test]
fn from_str_fails_on_invalid_ip() {
    assert!("999.999.999.999:8080".parse::<Proxy>().is_err());
}

#[test]
fn latency_statistics_follow_the_samples() {
    let mut proxy = Proxy::new(Ipv4Addr::new(192, 0, 2, 50), 8080);
    assert_eq!(proxy.avg_response_time().micros(), 0);
    assert_eq!(proxy.min_response_time(), 0);
    proxy.runtimes.record(200_000);
    proxy.runtimes.record(800_000);
    assert_eq!(proxy.avg_response_time().micros(), 500_000);
    assert_eq!(proxy.min_response_time(), 200_000);
    assert_eq!(proxy.max_response_time(), 800_000);
    assert_eq!(proxy.sample_count(), 2);
}

#[test]
fn protocols_are_written_the_way_they_are_read() {
    for protocol in [
        Protocol::Http(Anonymity::Elite),
        Protocol::Https(Anonymity::Unknown),
        Protocol::Socks4,
        Protocol::Connect(25),
    ] {
        assert_eq!(protocol.to_text().parse::<Protocol>().unwrap(), protocol);
    }
    assert!(matches!(
        Protocol::parse("GOPHER"),
        Err(ProtocolParseError::Unknown(_))
    ));
    assert!(matches!(
        Protocol::parse("CONNECT:x"),
        Err(ProtocolParseError::InvalidConnectPort(_))
    ));
    assert!(matches!(
        Protocol::parse("HTTP:Elit"),
        Err(ProtocolParseError::UnknownAnonymity(_))
    ));
}

#[test]
fn a_proxy_is_written_with_its_speed_and_types() {
    let mut proxy = Proxy::parse("1.2.3.4:8080").unwrap();
    proxy.runtimes.record(1_234_567);
    proxy
        .proxy_types
        .push(ProxyType::checked(Protocol::Socks5, 0));
    let text = proxy.to_text();
    assert!(text.contains("1.2.3.4:8080"), "got {text}");
    assert!(text.contains("1.23s"), "got {text}");
    assert!(matches!(
        Proxy::parse("nope"),
        Err(ProxyParseError::MissingSeparator(v)) if v == "nope"
    ));
}

#[test]
fn errors_say_what_they_are_about() {
    let error = ProtocolParseError::Unknown("GOPHER".to_owned());
    assert!(error.to_text().contains("GOPHER"));
    for error in [
        FlxError::Fetch("reason".to_owned()),
        FlxError::Validate("reason".to_owned()),
        FlxError::Geo("reason".to_owned()),
        FlxError::Io("reason".to_owned()),
        FlxError::Config("reason".to_owned()),
        FlxError::Parse("reason".to_owned()),
    ] {
        assert!(error.to_text().contains("reason"), "got {}", error.to_text());
    }
    let invalid = ProxyParseError::InvalidPort("99999".to_owned());
    assert!(invalid.to_text().contains("99999"));
}

// ---------------------------------------------------------------------------
// Kinds of addresses
// ---------------------------------------------------------------------------

#[test]
fn mobile_carrier_aso_is_mobile() {
    assert_eq!(
        IpType::classify(Some(1234), Some("Telkomsel"), None, None),
        IpType::Mobile
    );
}

#[test]
fn known_hosting_asn_is_datacenter() {
    assert_eq!(
        IpType::classify(Some(14061), None, None, None),
        IpType::Datacenter
    );
}

#[test]
fn unknown_hosting_asn_is_datacenter_when_keyworded() {
    assert_eq!(
        IpType::classify(Some(999999), Some("Hetzner Cloud"), None, None),
        IpType::Datacenter
    );
}

#[test]
fn residential_isp_with_asn_stays_residential() {
    assert_eq!(
        IpType::classify(
            Some(56046),
            Some("PT Telkom Indonesia"),
            Some("Telkom"),
            None
        ),
        IpType::Residential
    );
}

#[test]
fn residential_when_only_isp_idents_are_present() {
    assert_eq!(
        IpType::classify(None, None, Some("Comcast"), None),
        IpType::Residential
    );
}

#[test]
fn keyword_match_is_case_insensitive_without_allocation() {
    // Uppercase / mixed-case occurrences must match, and an absent keyword
    // must not.
    assert!(has_mobile_keyword("PT Telkomsel Indonesia"));
    assert!(has_mobile_keyword("telkomsel"));
    assert!(!has_mobile_keyword("Azteca DEploy"));
    assert!(has_hosting_keyword("AMAZON AWS"));
    assert!(has_keyword("Big Cloud", &["cloud"]));
    assert!(!has_keyword("Big Cloud", &["mobile"]));
}

#[test]
fn empty_identifiers_yield_unknown() {
    assert_eq!(IpType::classify(None, None, None, None), IpType::Unknown);
}

#[test]
fn serializes_to_lowercase() {
    for (ip_type, expected) in [
        (IpType::Residential, "residential"),
        (IpType::Datacenter, "datacenter"),
        (IpType::Mobile, "mobile"),
        (IpType::Unknown, "unknown"),
    ] {
        assert_eq!(ip_type.as_str(), expected);
    }
}

#[test]
fn default_record_serializes_as_empty_object() {
    assert!(GeoData::default().is_empty());
}

#[test]
fn populated_record_keeps_all_keys() {
    let data = GeoData {
        iso_code: Some("ID".to_owned()),
        name: Some("Indonesia".to_owned()),
        city_name: Some("Surakarta".to_owned()),
        continent_code: Some("AS".to_owned()),
        continent_name: Some("Asia".to_owned()),
        latitude: Some(-7_581_900),
        longitude: Some(110_826_200),
        timezone: Some("Asia/Jakarta".to_owned()),
        zip: Some("57156".to_owned()),
        ..GeoData::default()
    };
    assert!(!data.is_empty());
}

#[test]
fn ip_type_alone_marks_record_non_empty() {
    let data = GeoData {
        ip_type: IpType::Mobile,
        ..GeoData::default()
    };
    assert!(!data.is_empty());
}

// ---------------------------------------------------------------------------
// Reading proxies from text
// ---------------------------------------------------------------------------

fn proxies_of(content: &str) -> Vec<Proxy> {
    ProxySource::from_text(content).collect()
}

#[test]
fn bare_lines_inherit_file_default_protocols() {
    let proxies = proxies_of("1.2.3.4:8080\n5.6.7.8:3128\n\n1.2.3.4:80:Country\n");
    assert_eq!(proxies.len(), 3);
    for proxy in &proxies {
        assert_eq!(
            proxy.expected_types,
            file_default_protocols(),
            "bare lines must inherit the file default protocol set"
        );
    }
}

#[test]
fn scheme_lines_pin_their_own_protocol() {
    let proxies = proxies_of(
        "http://1.2.3.4:8080\nhttps://5.6.7.8:3128\nsocks4://9.10.11.12:1080\nsocks5://13.14.15.16:1080\n",
    );
    assert_eq!(proxies.len(), 4);
    assert_eq!(
        proxies[0].expected_types,
        [Protocol::Http(Anonymity::Unknown)]
    );
    assert_eq!(
        proxies[1].expected_types,
        [Protocol::Https(Anonymity::Unknown)]
    );
    assert_eq!(proxies[2].expected_types, [Protocol::Socks4]);
    assert_eq!(proxies[3].expected_types, [Protocol::Socks5]);
}

#[test]
fn mixed_lines_keep_each_lines_semantics() {
    let proxies = proxies_of("socks5://1.2.3.4:1080\n5.6.7.8:8080\ngarbage\n");
    assert_eq!(proxies.len(), 2);
    assert_eq!(proxies[0].expected_types, [Protocol::Socks5]);
    assert_eq!(proxies[1].expected_types, file_default_protocols());
}

#[test]
fn from_reader_parses_like_from_file() {
    let mut source = ProxySource::from_text("socks4://1.2.3.4:1080\n5.6.7.8:8080\n");
    let first = source.next().unwrap();
    let second = source.next().unwrap();
    assert_eq!(first.expected_types, [Protocol::Socks4]);
    assert_eq!(second.expected_types, file_default_protocols());
    assert!(source.next().is_none());
}

// ---------------------------------------------------------------------------
// Sending a request
// ---------------------------------------------------------------------------

#[test]
fn a_sample_is_folded_into_the_proxy() {
    let mut proxy = Proxy::parse("1.2.3.4:8080").unwrap();
    let mut runtimes = RuntimeStats::default();
    ProxyRuntimes {
        inner: (),
        runtimes,
    }
    .apply(&mut proxy);
    assert_eq!(proxy.sample_count(), 0);
    runtimes.record(300_000);
    ProxyRuntimes {
        inner: (),
        runtimes,
    }
    .apply(&mut proxy);
    assert_eq!(proxy.sample_count(), 1);
    assert_eq!(proxy.avg_response_time().micros(), 300_000);
}

#[test]
fn a_request_shares_one_deadline_between_its_phases() {
    let plan = RequestPlan {
        negotiator: Some(true),
        https: false,
        insecure: true,
    };
    let step = begin_request(1_000, 0);
    assert_eq!(step, RequestStep::Connect(1_000));
    let step = send_request(plan, step, StepResult::Succeeded, 1_000, 300);
    assert_eq!(step, RequestStep::Negotiate(700));
    let step = send_request(plan, step, StepResult::Succeeded, 1_000, 600);
    assert_eq!(
        step,
        RequestStep::Send(
            400,
            SendOptions {
                tls: true,
                insecure: true,
            }
        )
    );
    assert_eq!(
        send_request(plan, step, StepResult::Succeeded, 1_000, 900),
        RequestStep::Done
    );
}

#[test]
fn each_failure_of_a_request_is_told_apart() {
    let direct = RequestPlan {
        negotiator: None,
        https: true,
        insecure: false,
    };
    let proxied = RequestPlan {
        negotiator: Some(false),
        ..direct
    };
    assert_eq!(
        begin_request(10, 11),
        RequestStep::Failed(RequestError::LateConnect)
    );
    let after = |plan, step, result, now| send_request(plan, step, result, 10, now);
    let connect = RequestStep::Connect(10);
    let negotiate = RequestStep::Negotiate(10);
    let send = after(direct, connect, StepResult::Succeeded, 0);
    assert!(matches!(send, RequestStep::Send(10, options) if options.tls));
    for (plan, step, result, now, error) in [
        (direct, connect, StepResult::Failed, 0, RequestError::ConnectFailed),
        (direct, connect, StepResult::TimedOut, 0, RequestError::ConnectTimedOut),
        (direct, connect, StepResult::Succeeded, 11, RequestError::LateSend),
        (proxied, connect, StepResult::Succeeded, 11, RequestError::NegotiationTimedOut),
        (proxied, negotiate, StepResult::Failed, 0, RequestError::NegotiationFailed),
        (proxied, negotiate, StepResult::TimedOut, 0, RequestError::NegotiationTimedOut),
        (direct, send, StepResult::Failed, 0, RequestError::SendFailed),
        (direct, send, StepResult::TimedOut, 0, RequestError::SendTimedOut),
    ] {
        assert_eq!(after(plan, step, result, now), RequestStep::Failed(error));
    }
}

#[test]
fn a_tls_target_needs_a_name() {
    assert_eq!(sni_host(Some("example.com")).as_deref(), Some("example.com"));
    assert_eq!(sni_host(Some("")), None);
    assert_eq!(sni_host(None), None);
}

#[test]
fn failed_requests_are_reported_in_words() {
    for (error, tls, text) in [
        (RequestError::LateConnect, false, "proxy request timed out before TCP connect"),
        (RequestError::ConnectTimedOut, false, "timed out connecting to host:1"),
        (RequestError::ConnectFailed, false, "failed to connect to host:1"),
        (RequestError::NegotiationTimedOut, false, "proxy negotiation with host:1 timed out"),
        (RequestError::NegotiationFailed, false, "failed to negotiate with proxy host:1"),
        (RequestError::LateSend, true, "proxy request timed out before send"),
        (RequestError::SendTimedOut, false, "timed out sending request"),
        (RequestError::SendTimedOut, true, "timed out sending request over TLS"),
        (RequestError::SendFailed, false, "failed to send request to proxy"),
        (RequestError::SendFailed, true, "failed to send request over TLS connection"),
    ] {
        assert_eq!(error.to_text("host:1", tls), text);
    }
}

#[test]
fn a_mean_below_a_microsecond_is_a_sample_too() {
    let mut proxy = Proxy::new(Ipv4Addr::new(192, 0, 2, 50), 8080);
    let mut runtimes = RuntimeStats::default();
    runtimes.record(0);
    runtimes.record(0);
    runtimes.record(1);
    ProxyRuntimes { inner: (), runtimes }.apply(&mut proxy);
    assert_eq!(proxy.sample_count(), 1);
    assert_eq!(proxy.max_response_time(), 0);
}
