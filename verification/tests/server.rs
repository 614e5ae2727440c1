//! The rotating endpoint: requests, upstreams and connections.

use flx::net::Ipv4Addr;
use flx::negotiators::{Negotiator, Socks5Negotiator};
use flx::proxy::models::{Anonymity, Protocol, Proxy, ProxyType};
use flx::rotator::pool::RotatorPool;
use flx::rotator::server::{
    check_connect, completed_event, connect_request, expected_auth, feed_response, find_head_end,
    handle_connection, handshake_for, incoming_event, judge_connect, make_request, negotiation_for,
    parse_authority,
    read_request, reply_bytes, target_uri, ClientRequest, ConnectError, ConnectionAction,
    ConnectionEvent, ConnectionState, Handshake, Outcome, Reply, RequestError, RequestHead, Trace,
    PROXY_RESPONSE_LIMIT, REQUEST_HEAD_LIMIT,
};
use flx::rotator::{ServeEvent, Strategy};

const NOW: u64 = 1_000_000;
const TARGET: &str = "127.0.0.1:9000";

fn proxy_at(port: u16) -> Proxy {
    Proxy::new(Ipv4Addr::new(127, 0, 0, 1), port)
}

fn plain_request() -> String {
    format!("GET http://{TARGET}/ HTTP/1.1\r\nHost: {TARGET}\r\nConnection: close\r\n\r\n")
}

fn read(wire: &str, auth: Option<&[u8]>) -> Result<ClientRequest, RequestError> {
    let mut head = RequestHead::new();
    match head.feed(wire.as_bytes())? {
        Some(end) => read_request(head.bytes, end, auth),
        None => Err(RequestError::Incomplete),
    }
}

/// Drives a connection as the endpoint does: the state behind the last event,
/// and everything that was asked for.
fn drive(events: &[ConnectionEvent]) -> (ConnectionState, Vec<ConnectionAction>) {
    let mut state = ConnectionState::Reading;
    let mut asked = Vec::new();
    for event in events {
        let (next, actions) = handle_connection(state, *event);
        state = next;
        asked.extend(actions);
    }
    (state, asked)
}

#[test]
fn validated_socks5_proxy_negotiates_socks5() {
    let mut proxy = proxy_at(1080);
    proxy.proxy_types.push(ProxyType::checked(Protocol::Socks5, 0));
    assert_eq!(handshake_for(&proxy, true), Handshake::Socks5);
    assert_eq!(
        Socks5Negotiator::begin(),
        vec![0x05, 0x01, 0x00],
        "upstream must receive a SOCKS5 method-selection greeting"
    );
}

#[test]
fn plain_http_requests_relay_through_the_pool() {
    let mut pool = RotatorPool::new(Strategy::RoundRobin);
    assert!(pool.add(proxy_at(8080)));
    let request = read(&plain_request(), None).unwrap();
    assert!(!request.tunnel && request.authorized);
    assert_eq!(request.forward, plain_request().into_bytes());
    let via = pool.pick(NOW).unwrap();
    assert_eq!(handshake_for(&via, request.tunnel), Handshake::Direct);
    let (state, asked) = drive(&[
        ConnectionEvent::HeadRead(request.tunnel, request.authorized),
        ConnectionEvent::Picked(true),
        ConnectionEvent::Opened(true),
        ConnectionEvent::Sent(true, true),
        ConnectionEvent::RelayEnded,
    ]);
    assert_eq!(state, ConnectionState::Over);
    assert_eq!(
        asked,
        vec![
            ConnectionAction::ReportIncoming,
            ConnectionAction::Pick,
            ConnectionAction::Open,
            ConnectionAction::Forward,
            ConnectionAction::Relay,
            ConnectionAction::Credit,
            ConnectionAction::ReportCompleted(Outcome::Relayed, true),
        ]
    );
    pool.report_success(&via);
    assert_eq!(pool.ready(NOW), 1, "relay success must be reported");
}

#[test]
fn connections_rotate_between_upstreams() {
    let mut pool = RotatorPool::new(Strategy::RoundRobin);
    assert!(pool.add(proxy_at(8081)));
    assert!(pool.add(proxy_at(8082)));
    let first = pool.pick(NOW).unwrap();
    let second = pool.pick(NOW).unwrap();
    assert_ne!(first.as_text(), second.as_text());
    assert_eq!(pool.pick(NOW).unwrap().as_text(), first.as_text());
}

#[test]
fn connection_events_flow_with_matching_ids() {
    let request = read(&plain_request(), None).unwrap();
    let client = Some("127.0.0.1:5000".to_string());
    let via = Some("127.0.0.1:8080".to_string());
    match incoming_event(7, &client, &request) {
        ServeEvent::Incoming { id, client: from, method, target } => {
            assert_eq!(id, 7);
            assert_eq!(from, client);
            assert_eq!(method, "GET");
            assert_eq!(target, TARGET);
        }
        _ => panic!("not an incoming event"),
    }
    match completed_event(7, &client, Some(&request), &via, Outcome::Relayed, 12) {
        ServeEvent::Completed { id, ok, upstream, reason, target, elapsed, .. } => {
            assert_eq!((id, ok), (7, true));
            assert_eq!(upstream, via);
            assert_eq!(reason, None);
            assert_eq!(target, TARGET);
            assert_eq!(elapsed, 12);
        }
        _ => panic!("not a completed event"),
    }
    let line = Trace::Picked("127.0.0.1:8080".to_string(), 1, 2).to_text();
    assert_eq!(line, "* picked upstream 127.0.0.1:8080 (pool 1/2)");
}

#[test]
fn a_connection_without_a_request_is_reported_with_dashes() {
    match completed_event(3, &None, None, &None, Outcome::BadRequest, 0) {
        ServeEvent::Completed { method, target, ok, reason, .. } => {
            assert_eq!((method.as_str(), target.as_str()), ("-", "-"));
            assert!(!ok);
            assert_eq!(reason.as_deref(), Some("bad request"));
        }
        _ => panic!("not a completed event"),
    }
}

#[test]
fn connect_tunnels_relay_after_established() {
    let wire = format!("CONNECT {TARGET} HTTP/1.1\r\nHost: {TARGET}\r\n\r\nanything");
    let request = read(&wire, None).unwrap();
    assert!(request.tunnel);
    assert_eq!((request.host.as_str(), request.port), ("127.0.0.1", 9000));
    assert_eq!(request.forward, b"anything");
    assert_eq!(handshake_for(&proxy_at(8080), true), Handshake::HttpConnect);
    assert_eq!(
        connect_request(&request.host, request.port),
        b"CONNECT 127.0.0.1:9000 HTTP/1.1\r\nHost: 127.0.0.1:9000\r\nProxy-Connection: keep-alive\r\n\r\n"
    );
    let mut response = Vec::new();
    assert_eq!(feed_response(&mut response, b"HTTP/1.1 200 Connection established\r\n"), Ok(false));
    assert_eq!(feed_response(&mut response, b"\r\n"), Ok(true));
    assert_eq!(check_connect(&response), Ok(200));
    let (_, asked) = drive(&[
        ConnectionEvent::HeadRead(true, true),
        ConnectionEvent::Picked(true),
        ConnectionEvent::Opened(true),
    ]);
    assert_eq!(
        &asked[3..],
        &[ConnectionAction::Answer(Reply::Established), ConnectionAction::Forward]
    );
    assert_eq!(reply_bytes(Reply::Established), b"HTTP/1.1 200 Connection established\r\n\r\n");
}

#[test]
fn missing_auth_gets_rejected_with_407() {
    let expected = expected_auth("user", "pass");
    let request = read(&plain_request(), Some(&expected)).unwrap();
    assert!(!request.authorized);
    let (state, asked) = drive(&[ConnectionEvent::HeadRead(false, request.authorized)]);
    assert_eq!(state, ConnectionState::Over);
    assert_eq!(
        asked,
        vec![
            ConnectionAction::ReportIncoming,
            ConnectionAction::Answer(Reply::Unauthorized),
            ConnectionAction::ReportCompleted(Outcome::AuthRequired, false),
        ]
    );
    assert!(reply_bytes(Reply::Unauthorized).starts_with(b"HTTP/1.1 407"));
}

#[test]
fn correct_auth_is_accepted() {
    let expected = expected_auth("user", "pass");
    assert_eq!(expected, b"Basic dXNlcjpwYXNz");
    let wire = format!(
        "GET http://{TARGET}/ HTTP/1.1\r\nHost: {TARGET}\r\nPROXY-Authorization: Basic dXNlcjpwYXNz\r\n\r\n"
    );
    assert!(read(&wire, Some(&expected)).unwrap().authorized);
    let wrong = expected_auth("user", "other");
    assert!(!read(&wire, Some(&wrong)).unwrap().authorized);
}

#[test]
fn dead_upstream_yields_an_error_and_a_failure_report() {
    let mut pool = RotatorPool::new(Strategy::RoundRobin);
    assert!(pool.add(proxy_at(8080)));
    let wire = "GET http://example.com/ HTTP/1.1\r\nHost: example.com\r\n\r\n";
    let request = read(wire, None).unwrap();
    assert_eq!((request.host.as_str(), request.port), ("example.com", 80));
    // The upstream closes at once: nothing is relayed, and nothing is held
    // against it.
    let (_, asked) = drive(&[
        ConnectionEvent::HeadRead(false, true),
        ConnectionEvent::Picked(true),
        ConnectionEvent::Opened(true),
        ConnectionEvent::Sent(true, true),
        ConnectionEvent::RelayEnded,
    ]);
    assert!(!asked.contains(&ConnectionAction::Blame));
    pool.report_success(&proxy_at(8080));
    assert_eq!(pool.ready(NOW), 1, "a clean close must not evict the endpoint");
}

#[test]
fn an_upstream_that_cannot_be_opened_is_blamed() {
    let (_, tunnel) = drive(&[
        ConnectionEvent::HeadRead(true, true),
        ConnectionEvent::Picked(true),
        ConnectionEvent::Opened(false),
    ]);
    assert_eq!(
        &tunnel[3..],
        &[
            ConnectionAction::Blame,
            ConnectionAction::Answer(Reply::BadGateway),
            ConnectionAction::ReportCompleted(Outcome::BadGateway, true),
        ]
    );
    let (_, plain) = drive(&[
        ConnectionEvent::HeadRead(false, true),
        ConnectionEvent::Picked(true),
        ConnectionEvent::Opened(false),
    ]);
    assert_eq!(
        &plain[3..],
        &[
            ConnectionAction::Blame,
            ConnectionAction::Answer(Reply::NoProxy),
            ConnectionAction::ReportCompleted(Outcome::NoProxy, true),
        ]
    );
}

#[test]
fn an_empty_pool_answers_503() {
    let (state, asked) =
        drive(&[ConnectionEvent::HeadRead(false, true), ConnectionEvent::Picked(false)]);
    assert_eq!(state, ConnectionState::Over);
    assert_eq!(asked[2], ConnectionAction::Answer(Reply::NoProxy));
    assert!(reply_bytes(Reply::NoProxy).starts_with(b"HTTP/1.1 503"));
    assert!(reply_bytes(Reply::BadGateway).starts_with(b"HTTP/1.1 502"));
}

#[test]
fn a_bad_head_answers_400() {
    let (state, asked) = drive(&[ConnectionEvent::HeadFailed]);
    assert_eq!(state, ConnectionState::Over);
    assert_eq!(asked[0], ConnectionAction::Answer(Reply::BadRequest));
    assert!(reply_bytes(Reply::BadRequest).starts_with(b"HTTP/1.1 400"));
}

#[test]
fn a_relay_that_times_out_is_held_against_the_upstream() {
    let (state, asked) = drive(&[
        ConnectionEvent::HeadRead(false, true),
        ConnectionEvent::Picked(true),
        ConnectionEvent::Opened(true),
        ConnectionEvent::Sent(true, true),
        ConnectionEvent::RelayTimedOut,
    ]);
    assert_eq!(state, ConnectionState::Over);
    assert_eq!(asked[5], ConnectionAction::Blame);
    assert_eq!(asked[6], ConnectionAction::ReportCompleted(Outcome::RelayFailed, true));
}

#[test]
fn heads_end_at_the_first_blank_line() {
    assert_eq!(find_head_end(b"a\r\n\r\nb\r\n\r\n"), Some(5));
    assert_eq!(find_head_end(b"a\r\n\r"), None);
    assert_eq!(find_head_end(b""), None);
    let mut head = RequestHead::new();
    assert_eq!(head.feed(b"GET / HTTP/1.1\r\n\r"), Ok(None));
    assert_eq!(head.feed(b"\nrest"), Ok(Some(18)));
}

#[test]
fn heads_have_a_limit_and_an_end() {
    let mut head = RequestHead::new();
    assert_eq!(head.feed(b""), Err(RequestError::Closed));
    assert_eq!(head.feed(&vec![b'a'; REQUEST_HEAD_LIMIT]), Ok(None));
    assert!(!head.is_full());
    assert_eq!(head.feed(b"a"), Ok(None));
    assert!(head.is_full());
    assert_eq!(head.feed(b"a"), Err(RequestError::TooLong));
}

#[test]
fn authorities_need_a_port() {
    assert_eq!(parse_authority("example.com:443"), Ok(("example.com".to_string(), 443)));
    assert_eq!(parse_authority("[::1]:443"), Ok(("::1".to_string(), 443)));
    assert_eq!(parse_authority("example.com"), Err(RequestError::NoPort));
    assert_eq!(parse_authority("example.com:https"), Err(RequestError::BadPort));
    assert_eq!(parse_authority("example.com:65536"), Err(RequestError::BadPort));
}

#[test]
fn malformed_requests_are_refused() {
    let refused = |wire: &str| read(wire, None).map(|_| ()).unwrap_err();
    assert_eq!(refused("GET\r\n\r\n"), RequestError::Malformed);
    assert_eq!(refused("GET /path HTTP/1.1\r\n\r\n"), RequestError::NoHost);
    assert_eq!(refused("CONNECT example.com HTTP/1.1\r\n\r\n"), RequestError::NoPort);
    let parts = |method: Option<&str>, path: Option<&str>| {
        make_request(
            Vec::new(),
            0,
            Some(Some((0, method.map(str::to_string), path.map(str::to_string), Vec::new()))),
            None,
            None,
        )
        .map(|_| ())
        .unwrap_err()
    };
    assert_eq!(parts(None, Some("/")), RequestError::NoMethod);
    assert_eq!(parts(Some("GET"), None), RequestError::NoPath);
    assert_eq!(parts(Some("GET"), Some("http://a b/")), RequestError::BadTarget);
}

#[test]
fn handshakes_follow_what_was_validated() {
    let mut proxy = proxy_at(8080);
    assert_eq!(handshake_for(&proxy, false), Handshake::Direct);
    proxy.expected_types.push(Protocol::Socks4);
    assert_eq!(handshake_for(&proxy, false), Handshake::Socks4);
    proxy.proxy_types.push(ProxyType::checked(Protocol::Http(Anonymity::Elite), 0));
    assert_eq!(handshake_for(&proxy, true), Handshake::Socks4);
    proxy.proxy_types.push(ProxyType::checked(Protocol::Https(Anonymity::Elite), 0));
    assert_eq!(handshake_for(&proxy, true), Handshake::HttpsConnect);
    assert_eq!(handshake_for(&proxy, false), Handshake::Direct);
}

#[test]
fn only_status_200_opens_a_tunnel() {
    assert_eq!(check_connect(b"HTTP/1.1 407 Auth\r\n\r\n"), Err(ConnectError::Status(407)));
    assert_eq!(check_connect(b"HTTP/1.1 200"), Err(ConnectError::Malformed));
    assert_eq!(judge_connect(Some(Some((None, None)))), Err(ConnectError::Status(0)));
    let mut response = vec![b'a'; PROXY_RESPONSE_LIMIT];
    assert_eq!(feed_response(&mut response, b"a"), Err(ConnectError::TooLong));
    assert_eq!(feed_response(&mut response, b""), Err(ConnectError::Closed));
}

#[test]
fn targets_are_written_as_addresses() {
    assert_eq!(target_uri("https", "example.com", 443), "https://example.com:443/");
}

#[test]
fn traces_tell_each_step() {
    let text = |t: Trace| t.to_text();
    assert_eq!(text(Trace::Accepted("c".to_string())), "* accepted c");
    assert_eq!(text(Trace::Status(200)), "< HTTP/1.1 200");
    assert_eq!(
        text(Trace::Request("GET".to_string(), "a:80".to_string())),
        "> GET a:80"
    );
    assert_eq!(text(Trace::Shaken(Handshake::Direct, 0)), "* direct forward (no handshake)");
    assert!(text(Trace::Shaken(Handshake::Socks5, 0)).starts_with("* handshake socks5 "));
}

#[test]
fn handshakes_choose_their_negotiators_and_schemes() {
    assert_eq!(negotiation_for(Handshake::Socks4), Some((Negotiator::Socks4, "http")));
    assert_eq!(negotiation_for(Handshake::Socks5), Some((Negotiator::Socks5, "http")));
    assert_eq!(negotiation_for(Handshake::HttpsConnect), Some((Negotiator::Https, "https")));
    assert_eq!(negotiation_for(Handshake::HttpConnect), None);
    assert_eq!(negotiation_for(Handshake::Direct), None);
}
