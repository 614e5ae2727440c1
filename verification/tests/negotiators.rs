//! Handshakes with upstream proxies.

use flx::ipv6::IpAddr;
use flx::negotiators::https::{judge_response, RESPONSE_LIMIT};
use flx::negotiators::socks5::Socks5Stage;
use flx::negotiators::{
    port_of, HttpNegotiator, HttpsNegotiator, NegotiationError, Negotiator, NegotiatorTrait,
    Socks4Negotiator, Socks5Negotiator, Target,
};
use flx::proxy::models::{Anonymity, Protocol};

fn target(url: &str) -> Target {
    Target::parse(url).unwrap()
}

fn bare() -> Target {
    Target { scheme: None, host: None, port: None }
}

#[test]
fn only_https_is_upgraded_to_tls() {
    assert!(!HttpNegotiator.with_tls());
    assert!(HttpsNegotiator.with_tls());
    assert!(!Socks4Negotiator.with_tls());
    assert!(!Socks5Negotiator.with_tls());
}

#[test]
fn targets_are_read_out_of_addresses() {
    let t = target("https://example.com/path");
    assert_eq!(t.scheme.as_deref(), Some("https"));
    assert_eq!(t.host.as_deref(), Some("example.com"));
    assert_eq!(t.port, None);
    assert_eq!(port_of(&t), Some(443));
    assert_eq!(port_of(&target("http://example.com/")), Some(80));
    assert_eq!(port_of(&target("http://example.com:8080/")), Some(8080));
    assert_eq!(port_of(&target("ftp://example.com/")), None);
    assert!(Target::parse("http://exa mple/").is_none());
}

#[test]
fn negotiate_keeps_bytes_after_the_connect_head() {
    let sent = HttpsNegotiator::begin(&target("https://example.com:443/")).unwrap().unwrap();
    assert_eq!(
        sent,
        b"CONNECT example.com:443 HTTP/1.1\r\nHost: example.com:443\r\nConnection: keep-alive\r\n\r\n"
    );

    let wire: &[u8] = b"HTTP/1.1 200 Connection Established\r\n\r\nGREETING";
    let mut head = Vec::new();
    let mut read = 0;
    while !HttpsNegotiator::feed(&mut head, wire[read]).unwrap() {
        read += 1;
    }
    assert!(HttpsNegotiator::check_response(&head).is_ok());
    assert_eq!(&wire[read + 1..], b"GREETING");
}

#[test]
fn tunnels_are_for_https_only() {
    assert!(matches!(
        HttpsNegotiator::begin(&target("http://example.com/")),
        Err(NegotiationError::NotHttps)
    ));
    assert!(matches!(HttpsNegotiator::begin(&bare()), Ok(None)));
    assert_eq!(HttpsNegotiator::write_authority("::1", 443), "[::1]:443");
    assert_eq!(HttpsNegotiator::write_authority("example.com", 443), "example.com:443");
}

#[test]
fn a_refused_tunnel_says_why() {
    let refused = HttpsNegotiator::check_response(b"HTTP/1.1 403 Forbidden\r\n\r\n").unwrap_err();
    assert_eq!(refused.to_text(), "Got response 403: Forbidden. Expecting 200 OK");
    let cut = HttpsNegotiator::check_response(b"HTTP/1.1 200 OK\r\n").unwrap_err();
    assert_eq!(cut.to_text(), "HTTPS proxy returned incomplete CONNECT response");
    let garbled = HttpsNegotiator::check_response(b"SSH-2.0\r\n\r\n").unwrap_err();
    assert_eq!(garbled.to_text(), "HTTPS proxy returned a malformed CONNECT response");
    let mute = judge_response(Some(Some((Some(500), None)))).unwrap_err();
    assert_eq!(mute.to_text(), "Got response 500: Unknown reason. Expecting 200 OK");
    assert!(judge_response(Some(Some((Some(200), None)))).is_ok());
}

#[test]
fn endless_response_headers_are_cut_off() {
    let mut head = vec![b'a'; RESPONSE_LIMIT];
    let error = HttpsNegotiator::feed(&mut head, b'a').unwrap_err();
    assert_eq!(error.to_text(), "HTTPS proxy response headers exceed limit");
    assert_eq!(head.len(), RESPONSE_LIMIT);
}

#[test]
fn socks4_requests_carry_an_address_or_a_name() {
    assert_eq!(
        Socks4Negotiator::build_connect_request("1.2.3.4", 8080),
        [4, 1, 0x1f, 0x90, 1, 2, 3, 4, 0]
    );
    assert_eq!(
        Socks4Negotiator::build_connect_request("a.b", 80),
        [4, 1, 0, 80, 0, 0, 0, 1, 0, b'a', b'.', b'b', 0]
    );
    assert_eq!(
        Socks4Negotiator::begin(&target("http://1.2.3.4/")).unwrap(),
        [4, 1, 0, 80, 1, 2, 3, 4, 0]
    );
    assert_eq!(
        Socks4Negotiator::begin(&bare()).unwrap_err().to_text(),
        "SOCKS4 target URI has no host"
    );
    assert_eq!(
        Socks4Negotiator::begin(&target("ftp://a.b/")).unwrap_err().to_text(),
        "SOCKS4 target URI has no port"
    );
}

#[test]
fn socks4_replies_are_judged() {
    let judge = |version: u8, code: u8| {
        Socks4Negotiator::check_reply(&[version, code, 0, 0, 0, 0, 0, 0])
            .map_err(|error| error.to_text())
    };
    assert!(judge(0, 90).is_ok());
    assert_eq!(judge(1, 90).unwrap_err(), "InvalidData: invalid response version");
    assert_eq!(judge(0, 91).unwrap_err(), "Other: Request rejected or failed");
    assert!(judge(0, 92).unwrap_err().contains("identd on the client"));
    assert!(judge(0, 93).unwrap_err().contains("different user IDs"));
    assert_eq!(judge(0, 7).unwrap_err(), "InvalidData: invalid response code: 7");
}

#[test]
fn socks5_requests_carry_an_address_or_a_name() {
    assert_eq!(
        Socks5Negotiator::build_connect_request("1.2.3.4", 443).unwrap(),
        [5, 1, 0, 1, 1, 2, 3, 4, 1, 187]
    );
    assert_eq!(
        Socks5Negotiator::build_connect_request("a.b", 80).unwrap(),
        [5, 1, 0, 3, 3, b'a', b'.', b'b', 0, 80]
    );
    let mut wanted = vec![5, 1, 0, 4];
    wanted.extend_from_slice(&[0; 15]);
    wanted.extend_from_slice(&[1, 0, 80]);
    assert_eq!(Socks5Negotiator::build_connect_request("::1", 80).unwrap(), wanted);
    let long = "a".repeat(256);
    assert_eq!(
        Socks5Negotiator::build_connect_request(&long, 80).unwrap_err().to_text(),
        "SOCKS5 target hostname exceeds 255 bytes"
    );
    assert!(Socks5Negotiator::build_connect_request(&"a".repeat(255), 80).is_ok());
}

#[test]
fn a_socks5_handshake_runs_to_its_end() {
    let t = target("https://a.b/");
    assert_eq!(Socks5Negotiator::begin(), [5, 1, 0]);
    let (stage, send) = Socks5Negotiator::advance(Socks5Stage::Method, &[5, 0], &t).unwrap();
    assert_eq!(stage, Socks5Stage::Reply);
    assert_eq!(send, [5, 1, 0, 3, 3, b'a', b'.', b'b', 1, 187]);
    let (stage, send) = Socks5Negotiator::advance(stage, &[5, 0, 0, 3], &t).unwrap();
    assert_eq!((stage, send.len()), (Socks5Stage::Length, 0));
    let (stage, _) = Socks5Negotiator::advance(stage, &[3], &t).unwrap();
    assert_eq!(stage, Socks5Stage::Tail(5));
    assert_eq!(Socks5Negotiator::awaited(stage), 5);
    let (stage, _) = Socks5Negotiator::advance(stage, &[b'a', b'.', b'b', 0, 80], &t).unwrap();
    assert_eq!(stage, Socks5Stage::Done);
    assert_eq!(Socks5Negotiator::awaited(stage), 0);
}

#[test]
fn bound_addresses_have_their_own_lengths() {
    let t = target("https://a.b/");
    let (stage, _) = Socks5Negotiator::advance(Socks5Stage::Reply, &[5, 0, 0, 1], &t).unwrap();
    assert_eq!(stage, Socks5Stage::Tail(6));
    let (stage, _) = Socks5Negotiator::advance(Socks5Stage::Reply, &[5, 0, 0, 4], &t).unwrap();
    assert_eq!(stage, Socks5Stage::Tail(18));
}

#[test]
fn socks5_failures_say_what_happened() {
    let fails = |stage: Socks5Stage, bytes: &[u8], t: &Target| {
        Socks5Negotiator::advance(stage, bytes, t).unwrap_err().to_text()
    };
    let t = target("https://a.b/");
    assert_eq!(fails(Socks5Stage::Method, &[4, 0], &t), "InvalidData: invalid response version");
    assert_eq!(
        fails(Socks5Stage::Method, &[5, 255], &t),
        "PermissionDenied: authentication is required"
    );
    assert_eq!(fails(Socks5Stage::Method, &[5, 2], &t), "InvalidData: invalid response data");
    assert_eq!(fails(Socks5Stage::Method, &[5, 0], &bare()), "SOCKS5 target URI has no host");
    assert_eq!(
        fails(Socks5Stage::Method, &[5, 0], &target("ftp://a.b/")),
        "SOCKS5 target URI has no port"
    );
    assert_eq!(fails(Socks5Stage::Reply, &[5, 1, 0, 1], &t), "InvalidData: invalid response data");
    assert_eq!(
        fails(Socks5Stage::Reply, &[5, 0, 0, 9], &t),
        "InvalidData: invalid response ATYP: 9"
    );
}

#[test]
fn addresses_of_either_family_are_read() {
    let chars = |s: &str| s.chars().collect::<Vec<char>>();
    assert!(matches!(IpAddr::parse(&chars("10.0.0.1")), Some(IpAddr::V4(_))));
    match IpAddr::parse(&chars("2001:db8::ff00:42:8329")) {
        Some(IpAddr::V6(ip)) => assert_eq!(
            ip.octets(),
            [0x20, 1, 0xd, 0xb8, 0, 0, 0, 0, 0, 0, 0xff, 0, 0, 0x42, 0x83, 0x29]
        ),
        _ => panic!("an address was not read"),
    }
    assert!(IpAddr::parse(&chars("::ffff:1.2.3.4")).is_some());
    assert!(IpAddr::parse(&chars("1:2:3")).is_none());
    assert!(IpAddr::parse(&chars("a.b")).is_none());
}

#[test]
fn protocols_choose_their_negotiators() {
    for (protocol, negotiator, tls) in [
        (None, Negotiator::Http, false),
        (Some(Protocol::Http(Anonymity::Elite)), Negotiator::Http, false),
        (Some(Protocol::Connect(25)), Negotiator::Http, false),
        (Some(Protocol::Https(Anonymity::Unknown)), Negotiator::Https, true),
        (Some(Protocol::Socks4), Negotiator::Socks4, false),
        (Some(Protocol::Socks5), Negotiator::Socks5, false),
    ] {
        assert_eq!(Negotiator::for_protocol(protocol), negotiator);
        assert_eq!(negotiator.with_tls(), tls);
    }
}
