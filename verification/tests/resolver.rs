//! Finding the public address.

use flx::ipv6::{IpAddr, Ipv6Addr};
use flx::net::Ipv4Addr;
use flx::resolver::{
    build_a_query, dns_server, feed_ip_body, http_ip_endpoints, load_cached_public_ip,
    next_dns_query_id, parse_dns_a_response, parse_ip_body, resolve_public_ip, skip_dns_name,
    store_public_ip, temporary_ip_name, AnswerError, IpBodyError, MyIp, QueryError, Race, RaceResult,
    Resolution, SourceReply, DNS_HEADER_LEN, DNS_QUESTION_TAIL_LEN, DNS_TYPE_A, MAX_IP_BODY_BYTES,
    MYIP_OPENDNS_DOMAIN, PUBLIC_IP_CACHE_TTL,
};

const DNS_QUERY_FLAGS: u16 = 0x8100;
const DNS_CLASS_IN: u16 = 1;

#[test]
fn public_ip_body_is_bounded_and_validated() {
    assert_eq!(parse_ip_body(b"203.0.113.7\n").unwrap(), "203.0.113.7");
    assert!(parse_ip_body(&[b'x'; MAX_IP_BODY_BYTES + 1]).is_err());
    assert!(parse_ip_body(b"not-an-ip").is_err());
}

#[test]
fn public_ip_cache_round_trips_fresh_ip() {
    let body = store_public_ip("203.0.113.7");
    assert_eq!(
        load_cached_public_ip(0, &body).as_deref(),
        Some("203.0.113.7")
    );
}

#[test]
fn expired_public_ip_cache_is_ignored() {
    let body = store_public_ip("203.0.113.7");
    assert!(load_cached_public_ip(25 * 60 * 60 * 1000, &body).is_none());
    assert!(load_cached_public_ip(PUBLIC_IP_CACHE_TTL - 1, &body).is_some());
}

#[test]
fn corrupt_public_ip_cache_is_ignored() {
    assert!(load_cached_public_ip(0, "not-an-ip").is_none());
}

fn sample_query_id() -> u16 {
    0x00AA
}

fn sample_question_name() -> Vec<u8> {
    let query = build_a_query(MYIP_OPENDNS_DOMAIN, sample_query_id()).unwrap();
    query[DNS_HEADER_LEN..query.len() - DNS_QUESTION_TAIL_LEN].to_vec()
}

fn sample_a_response() -> Vec<u8> {
    let name = sample_question_name();
    let mut message = Vec::new();
    message.extend_from_slice(&sample_query_id().to_be_bytes());
    message.extend_from_slice(&0x8180u16.to_be_bytes());
    message.extend_from_slice(&1u16.to_be_bytes());
    message.extend_from_slice(&1u16.to_be_bytes());
    message.extend_from_slice(&[0, 0, 0, 0]);
    message.extend_from_slice(&name);
    message.extend_from_slice(&DNS_TYPE_A.to_be_bytes());
    message.extend_from_slice(&DNS_CLASS_IN.to_be_bytes());
    message.extend_from_slice(&[0xC0, 0x0C]);
    message.extend_from_slice(&DNS_TYPE_A.to_be_bytes());
    message.extend_from_slice(&DNS_CLASS_IN.to_be_bytes());
    message.extend_from_slice(&[0, 0, 0, 42]);
    message.extend_from_slice(&4u16.to_be_bytes());
    message.extend_from_slice(&[192, 0, 2, 7]);
    message
}

#[test]
fn a_query_encodes_name_and_question() {
    let buffer = build_a_query(MYIP_OPENDNS_DOMAIN, 0x1234).unwrap();
    let len = buffer.len();
    assert_eq!(&buffer[0..2], &0x1234u16.to_be_bytes());
    assert_eq!(&buffer[2..4], &DNS_QUERY_FLAGS.to_be_bytes());
    assert_eq!(&buffer[4..6], &1u16.to_be_bytes());
    let expected_name = [
        4, b'm', b'y', b'i', b'p', 7, b'o', b'p', b'e', b'n', b'd', b'n', b's', 3, b'c', b'o',
        b'm', 0,
    ];
    assert_eq!(
        &buffer[DNS_HEADER_LEN..len - DNS_QUESTION_TAIL_LEN],
        &expected_name
    );
    let tail = &buffer[len - DNS_QUESTION_TAIL_LEN..len];
    assert_eq!(&tail[..2], &DNS_TYPE_A.to_be_bytes());
    assert_eq!(&tail[2..], &DNS_CLASS_IN.to_be_bytes());
}

#[test]
fn a_query_rejects_bad_names() {
    assert!(build_a_query("", 1).is_err());
    assert!(build_a_query("a..b", 1).is_err());
    let long_label = "a".repeat(64);
    assert!(build_a_query(&long_label, 1).is_err());
    let long_name = format!(
        "{}.{}.{}.{}",
        "a".repeat(63),
        "b".repeat(63),
        "c".repeat(63),
        "d".repeat(63)
    );
    assert!(build_a_query(&long_name, 1).is_err());
}

#[test]
fn a_response_yields_the_first_a_record() {
    let response = sample_a_response();
    assert_eq!(
        parse_dns_a_response(&response, sample_query_id()).unwrap(),
        Ipv4Addr::new(192, 0, 2, 7)
    );
}

#[test]
fn a_response_skips_non_a_answers_before_the_record() {
    let name = sample_question_name();
    let mut message = Vec::new();
    message.extend_from_slice(&sample_query_id().to_be_bytes());
    message.extend_from_slice(&0x8180u16.to_be_bytes());
    message.extend_from_slice(&1u16.to_be_bytes());
    message.extend_from_slice(&2u16.to_be_bytes());
    message.extend_from_slice(&[0, 0, 0, 0]);
    message.extend_from_slice(&name);
    message.extend_from_slice(&DNS_TYPE_A.to_be_bytes());
    message.extend_from_slice(&DNS_CLASS_IN.to_be_bytes());
    // Skips CNAME answers carrying compressed names.
    message.extend_from_slice(&[0xC0, 0x0C, 0, 5, 0, 1, 0, 0, 0, 1, 0, 2, 0xC0, 0x0C]);
    message.extend_from_slice(&[0xC0, 0x0C, 0, 1, 0, 1, 0, 0, 0, 1, 0, 4, 10, 1, 2, 3]);
    assert_eq!(
        parse_dns_a_response(&message, sample_query_id()).unwrap(),
        Ipv4Addr::new(10, 1, 2, 3)
    );
}

#[test]
fn a_response_rejections() {
    let response = sample_a_response();
    assert!(parse_dns_a_response(&response, 0x00BB).is_err());
    assert!(parse_dns_a_response(&[], 1).is_err());
    assert!(parse_dns_a_response(&[0, 1, 2], 1).is_err());

    let mut bad_rcode = response.clone();
    bad_rcode[3] = 0x83;
    assert!(parse_dns_a_response(&bad_rcode, sample_query_id()).is_err());

    let mut not_a_response = response.clone();
    not_a_response[2] = 0x01;
    assert!(parse_dns_a_response(&not_a_response, sample_query_id()).is_err());

    let name_len = sample_question_name().len();
    let truncated = response[..DNS_HEADER_LEN + name_len + 2].to_vec();
    assert!(parse_dns_a_response(&truncated, sample_query_id()).is_err());

    let mut non_a_record = response.clone();
    let answer_type = DNS_HEADER_LEN + name_len + DNS_QUESTION_TAIL_LEN + 2;
    non_a_record[answer_type + 1] = 16;
    assert!(parse_dns_a_response(&non_a_record, sample_query_id()).is_err());
}

#[test]
fn skip_name_handles_labels_pointers_and_root() {
    let plain = [1, b'a', 2, b'b', b'c', 0, 9];
    assert_eq!(skip_dns_name(&plain, 0), Some(6));
    assert_eq!(skip_dns_name(&plain, 5), Some(6));
    assert_eq!(skip_dns_name(&plain, 6), None);
    assert_eq!(skip_dns_name(&plain, 100), None);
    let pointer = [3, b'w', b'w', b'w', 0xC0, 0x0C];
    assert_eq!(skip_dns_name(&pointer, 0), Some(6));
}

#[test]
fn each_bad_name_is_told_apart() {
    assert!(matches!(
        build_a_query("a..b", 1),
        Err(QueryError::EmptyLabel)
    ));
    assert!(matches!(
        build_a_query(&"a".repeat(64), 1),
        Err(QueryError::LongLabel)
    ));
    let long_name = vec!["a".repeat(63); 5].join(".");
    assert!(matches!(
        build_a_query(&long_name, 1),
        Err(QueryError::LongName)
    ));
}

#[test]
fn the_root_label_counts_for_the_wire_limit() {
    let name = |last: usize| {
        format!(
            "{}.{}.{}.{}",
            "a".repeat(63),
            "b".repeat(63),
            "c".repeat(63),
            "d".repeat(last)
        )
    };
    // 253 characters are 255 bytes on the wire, and one more is too many.
    let query = build_a_query(&name(61), 1).unwrap();
    assert_eq!(query.len(), DNS_HEADER_LEN + 255 + DNS_QUESTION_TAIL_LEN);
    assert!(matches!(
        build_a_query(&name(62), 1),
        Err(QueryError::LongName)
    ));
}

#[test]
fn each_bad_answer_is_told_apart() {
    let response = sample_a_response();
    let id = sample_query_id();
    let name_len = sample_question_name().len();
    assert!(matches!(
        parse_dns_a_response(&[0, 1, 2], 1),
        Err(AnswerError::Short)
    ));
    assert!(matches!(
        parse_dns_a_response(&response, 0x00BB),
        Err(AnswerError::WrongId)
    ));
    let mut message = response.clone();
    message[2] = 0x01;
    assert!(matches!(
        parse_dns_a_response(&message, id),
        Err(AnswerError::NotResponse)
    ));
    let mut message = response.clone();
    message[2] = 0x83;
    assert!(matches!(
        parse_dns_a_response(&message, id),
        Err(AnswerError::Truncated)
    ));
    let mut message = response.clone();
    message[3] = 0x83;
    assert!(matches!(
        parse_dns_a_response(&message, id),
        Err(AnswerError::Rcode(3))
    ));
    assert!(matches!(
        parse_dns_a_response(&response[..DNS_HEADER_LEN], id),
        Err(AnswerError::BadQuestion)
    ));
    assert!(matches!(
        parse_dns_a_response(&response[..DNS_HEADER_LEN + name_len + 2], id),
        Err(AnswerError::QuestionOverrun)
    ));
    let question = DNS_HEADER_LEN + name_len + DNS_QUESTION_TAIL_LEN;
    assert!(matches!(
        parse_dns_a_response(&response[..question], id),
        Err(AnswerError::BadAnswer)
    ));
    assert!(matches!(
        parse_dns_a_response(&response[..question + 4], id),
        Err(AnswerError::HeaderOverrun)
    ));
    assert!(matches!(
        parse_dns_a_response(&response[..response.len() - 1], id),
        Err(AnswerError::RecordOverrun)
    ));
    let mut message = response.clone();
    message[question + 3] = 16;
    assert!(matches!(
        parse_dns_a_response(&message, id),
        Err(AnswerError::NoAddress)
    ));
}

#[test]
fn each_bad_body_is_told_apart() {
    assert!(matches!(
        parse_ip_body(&[b'1'; MAX_IP_BODY_BYTES + 1]),
        Err(IpBodyError::TooLong)
    ));
    assert!(matches!(parse_ip_body(&[0xff]), Err(IpBodyError::NotText)));
    assert!(matches!(
        parse_ip_body(b"nope"),
        Err(IpBodyError::NoAddress(text)) if text == "nope"
    ));
    assert_eq!(parse_ip_body(b" 2001:DB8::1 ").unwrap(), "2001:db8::1");
}

#[test]
fn a_body_grows_until_it_is_too_long() {
    let mut body = Vec::new();
    assert!(feed_ip_body(&mut body, &[b'1'; MAX_IP_BODY_BYTES]));
    assert!(!feed_ip_body(&mut body, b"2"));
}

#[test]
fn query_ids_mix_a_counter_with_the_clock() {
    assert_eq!(next_dns_query_id(0, 0x1_2345), 0x2345);
    assert_eq!(next_dns_query_id(1, 0x2345), 0x2344);
}

#[test]
fn the_first_source_to_answer_wins_the_race() {
    let mut race = Race::new(3);
    let prefix = "all sources failed";
    assert!(matches!(
        race.finish(SourceReply::Failed("one".to_owned()), prefix),
        RaceResult::Running
    ));
    assert!(matches!(
        race.finish(SourceReply::Found("203.0.113.7".to_owned()), prefix),
        RaceResult::Won(ip) if ip == "203.0.113.7"
    ));

    let mut race = Race::new(2);
    race.finish(SourceReply::Failed("one".to_owned()), prefix);
    let RaceResult::Lost(text) = race.finish(SourceReply::Failed("two".to_owned()), prefix) else {
        panic!("every source failed");
    };
    assert!(text.contains("one") && text.contains("two"), "got {text}");
}

#[test]
fn a_live_address_is_preferred_to_a_cached_one() {
    assert!(matches!(
        resolve_public_ip(Some("1.1.1.1".to_owned()), Some("2.2.2.2".to_owned())),
        Resolution::Fresh(ip) if ip == "1.1.1.1"
    ));
    assert!(matches!(
        resolve_public_ip(None, Some("2.2.2.2".to_owned())),
        Resolution::Cached(ip) if ip == "2.2.2.2"
    ));
    assert!(matches!(resolve_public_ip(None, None), Resolution::Unknown));
}

#[test]
fn an_address_is_learnt_once() {
    let mut mine = MyIp::new();
    assert_eq!(mine.cached_my_ip(), None);
    mine.learn(Some("1.1.1.1".to_owned()));
    assert_eq!(mine.cached_my_ip().as_deref(), Some("1.1.1.1"));
}

#[test]
fn the_sources_are_fixed() {
    assert_eq!(dns_server(), Ipv4Addr::new(208, 67, 222, 222));
    assert!(!http_ip_endpoints().is_empty());
    assert_eq!(temporary_ip_name("public_ip", 7), ".public_ip.tmp-7");
}

fn v6(text: &str) -> Option<Ipv6Addr> {
    Ipv6Addr::parse(&text.chars().collect::<Vec<_>>())
}

#[test]
fn addresses_of_sixteen_bytes_are_written_in_their_short_form() {
    for (text, canonical) in [
        ("::", "::"),
        ("::1", "::1"),
        ("2001:0DB8:0:0:1:0:0:1", "2001:db8::1:0:0:1"),
        ("1:2:3:4:5:6:7:8", "1:2:3:4:5:6:7:8"),
        ("::ffff:1.2.3.4", "::ffff:1.2.3.4"),
    ] {
        assert_eq!(v6(text).expect(text).to_text(), canonical);
    }
    assert!(v6("1:2:3").is_none());
    assert!(v6(":::").is_none());
    assert!(v6("12345::").is_none());
    let chars: Vec<char> = "1.2.3.4".chars().collect();
    assert!(matches!(IpAddr::parse(&chars), Some(IpAddr::V4(_))));
}
