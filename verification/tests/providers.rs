//! The providers: which there are, how they are fetched and read.

use base64::Engine as _;
use flx::error::FlxError;
use flx::net::Ipv4Addr;
use flx::providers::fetch::{append_utf8, Fetch, FetchError, FetchNext, MAX_REDIRECTS};
use flx::providers::models::{ProviderTier, ScrapeMode, Source};
use flx::providers::parsers::{
    anonymity_from_str, deobfuscate_proxynova_ip, geonode_rows, json_string_row, normalized_text,
    parse_port, port_from_i64, port_from_text, port_from_u64, protocol_from_str, proxynova_row,
    visit_base64_rows, visit_gatherproxy, visit_html_table, visit_json_strings, visit_plaintext,
    visit_regex_pairs, ParsedProxy,
};
use flx::providers::{
    all_providers, parse_text, proxy_of_row, select_providers, CustomUrlProvider, Provider,
    ProxyProvider, Reading,
};
use flx::proxy::models::{Anonymity, Protocol};
use std::cell::Cell;

fn provider_names(providers: &[Provider]) -> Vec<&'static str> {
    providers.iter().map(|provider| provider.name()).collect()
}

fn pairs(rows: &[ParsedProxy]) -> Vec<(String, u16)> {
    rows.iter()
        .map(|(ip, port, _)| (ip.to_text(), *port))
        .collect()
}

#[test]
fn select_providers_empty_lists_keep_everything() {
    let count = all_providers().len();
    let selected = select_providers(all_providers(), &Vec::new(), &Vec::new());
    assert_eq!(provider_names(&selected).len(), count);
}

#[test]
fn twelve_primary_providers_and_one_fallback_are_registered() {
    let providers = all_providers();
    let primary = providers.iter().filter(|p| p.tier() == ProviderTier::Primary);
    assert_eq!(primary.count(), 12);
    let fallback: Vec<&str> = providers
        .iter()
        .filter(|p| p.tier() == ProviderTier::Fallback)
        .map(|p| p.name())
        .collect();
    assert_eq!(fallback, ["github-raw"]);
    let mut names = provider_names(&providers);
    names.sort_unstable();
    names.dedup();
    assert_eq!(names.len(), 13);
}

#[test]
fn sources_know_their_host() {
    for provider in all_providers() {
        for source in provider.sources() {
            let host = source.host.expect("a host");
            assert!(source.url.contains(&host), "{}", source.url);
        }
    }
    let custom = CustomUrlProvider::new("http://127.0.0.1:9999/list").unwrap();
    assert_eq!(custom.sources()[0].host.as_deref(), Some("127.0.0.1"));
}

#[test]
fn select_providers_include_keeps_only_matching_names() {
    let selected = select_providers(all_providers(), &vec!["geonode".to_owned()], &Vec::new());
    assert_eq!(provider_names(&selected), vec!["geonode"]);
}

#[test]
fn select_providers_exclude_drops_matching_names() {
    let selected = select_providers(all_providers(), &Vec::new(), &vec!["github-raw".to_owned()]);
    let names = provider_names(&selected);
    assert!(!names.contains(&"github-raw"));
    assert_eq!(names.len(), all_providers().len() - 1);
}

#[test]
fn select_providers_exclude_wins_over_include() {
    let selected = select_providers(
        all_providers(),
        &vec!["proxyscrape".to_owned(), "geonode".to_owned()],
        &vec!["proxyscrape".to_owned()],
    );
    assert_eq!(provider_names(&selected), vec!["geonode"]);
}

#[test]
fn custom_provider_exposes_its_source_and_tier() {
    let provider = CustomUrlProvider::new("http://127.0.0.1:9999/list").unwrap();
    assert_eq!(provider.name(), "custom");
    assert_eq!(provider.tier(), ProviderTier::Primary);
    assert_eq!(provider.sources().len(), 1);
    assert_eq!(provider.sources()[0].url, "http://127.0.0.1:9999/list");
}

#[test]
fn every_provider_offers_sources_that_can_be_fetched() {
    for provider in all_providers() {
        assert!(
            !provider.sources().is_empty(),
            "{} offers nothing",
            provider.name()
        );
        for source in provider.sources() {
            assert!(
                source.url.starts_with("http"),
                "{} offers {}",
                provider.name(),
                source.url
            );
            assert!(source.host.is_some(), "{} has no host", source.url);
        }
    }
}

#[test]
fn a_source_needs_a_url() {
    assert!(matches!(Source::all("not a url"), Err(FlxError::Fetch(_))
        | Err(FlxError::Parse(_)) | Err(FlxError::Config(_))));
    let source = Source::typed("http://example.com/a", Protocol::Socks4)
        .unwrap()
        .with_mode(ScrapeMode::HtmlTable)
        .with_timeout(9);
    assert_eq!(source.default_types, [Protocol::Socks4]);
    assert_eq!(source.timeout, 9);
    assert_eq!(source.mode, ScrapeMode::HtmlTable);
    assert_eq!(source.host.as_deref(), Some("example.com"));
    assert_eq!(
        Source::socks("http://example.com").unwrap().default_types,
        [Protocol::Socks4, Protocol::Socks5]
    );
}

// ---------------------------------------------------------------------------
// Fetching
// ---------------------------------------------------------------------------

#[test]
fn fetch_preserves_utf8_split_across_body_frames() {
    let mut fetch = Fetch::start("http://127.0.0.1/utf8").unwrap();
    assert!(matches!(
        fetch.on_response(200, None),
        Ok(FetchNext::ReadBody)
    ));
    fetch.on_chunk(b"A\xE2").unwrap();
    fetch.on_chunk(b"\x82\xAC").unwrap();
    fetch.on_chunk(b"B").unwrap();
    assert_eq!(fetch.finish().unwrap(), "A€B");
}

#[test]
fn fetch_rejects_redirect_loop() {
    let url = "http://127.0.0.1/loop";
    let mut fetch = Fetch::start(url).unwrap();
    let error = fetch
        .on_response(302, Some(Some(url.to_owned())))
        .map(|_| ())
        .unwrap_err();
    assert!(error.to_text().contains("redirect loop detected"));
}

#[test]
fn fetch_rejects_redirect_chain_above_limit() {
    let mut fetch = Fetch::start("http://127.0.0.1/0").unwrap();
    let mut last = None;
    for hop in 0..=MAX_REDIRECTS {
        let location = format!("http://127.0.0.1/{}", hop + 1);
        last = Some(
            fetch
                .on_response(302, Some(Some(location)))
                .map(|_| ())
                .map_err(|error| error.to_text()),
        );
    }
    let error = last.unwrap().unwrap_err();
    assert!(error.contains("too many redirects"), "got {error}");
}

#[test]
fn fetch_does_not_follow_location_on_non_redirect_status() {
    let mut fetch = Fetch::start("http://127.0.0.1/source").unwrap();
    assert!(matches!(
        fetch.on_response(200, Some(Some("/ignored".to_owned()))),
        Ok(FetchNext::ReadBody)
    ));
    fetch.on_chunk(b"body").unwrap();
    assert_eq!(fetch.finish().unwrap(), "body");
}

#[test]
fn fetch_resolves_relative_redirect_location() {
    let mut fetch = Fetch::start("http://127.0.0.1/source/start").unwrap();
    assert!(matches!(
        fetch.on_response(302, Some(Some("../next".to_owned()))),
        Ok(FetchNext::Request)
    ));
    assert_eq!(fetch.url, "http://127.0.0.1/next");
}

#[test]
fn each_failure_of_a_fetch_is_told_apart() {
    assert!(matches!(
        Fetch::start("no url"),
        Err(FetchError::InvalidUrl(_))
    ));
    let mut fetch = Fetch::start("http://127.0.0.1/a").unwrap();
    assert!(matches!(
        fetch.on_response(302, Some(None)),
        Err(FetchError::LocationNotText(_))
    ));
    let mut fetch = Fetch::start("http://127.0.0.1/a").unwrap();
    assert!(matches!(
        fetch.on_response(302, Some(Some("http://[bad".to_owned()))),
        Err(FetchError::InvalidLocation(_, _))
    ));
    let mut fetch = Fetch::start("http://127.0.0.1/a").unwrap();
    let chunk = vec![b'x'; 5 * 1024 * 1024];
    fetch.on_chunk(&chunk).unwrap();
    assert!(matches!(
        fetch.on_chunk(&chunk),
        Err(FetchError::BodyTooLarge(_))
    ));
    let mut fetch = Fetch::start("http://127.0.0.1/a").unwrap();
    assert!(matches!(
        fetch.on_chunk(b"\xff"),
        Err(FetchError::NotUtf8)
    ));
    let mut fetch = Fetch::start("http://127.0.0.1/a").unwrap();
    fetch.on_chunk(b"\xE2").unwrap();
    assert!(matches!(fetch.finish(), Err(FetchError::NotUtf8)));
}

#[test]
fn a_character_is_held_back_until_it_is_whole() {
    let mut content = String::new();
    let mut pending = Vec::new();
    append_utf8(&mut content, &mut pending, b"a\xF0\x9F").unwrap();
    assert_eq!(content, "a");
    assert_eq!(pending, b"\xF0\x9F");
    append_utf8(&mut content, &mut pending, b"\x98\x80b").unwrap();
    assert_eq!(content, "a\u{1f600}b");
    assert!(pending.is_empty());
}

// ---------------------------------------------------------------------------
// Reading
// ---------------------------------------------------------------------------

#[test]
fn scrape_respects_bounded_channel_backpressure_under_load() {
    let mut body = String::new();
    for index in 1..=5_000u16 {
        let third = index / 250;
        let fourth = index % 250 + 1;
        body.push_str(&format!("10.20.{third}.{fourth}:8080\n"));
    }
    let Reading::Rows(rows) = parse_text(ScrapeMode::Plaintext, &body) else {
        panic!("plain text is read as rows");
    };
    assert_eq!(rows.len(), 5_000);
    let proxy = proxy_of_row(rows[0], &vec![Protocol::Socks5]);
    assert_eq!(proxy.expected_types, [Protocol::Socks5]);
}

#[test]
fn plaintext_strips_utf8_bom() {
    let body = "\u{feff}1.2.3.4:8080\n5.6.7.8:1080\n";
    let parsed = visit_plaintext(body, |_| true);
    assert_eq!(parsed.len(), 2);
    assert_eq!(parsed[0].0, Ipv4Addr::new(1, 2, 3, 4));
}

#[test]
fn plaintext_handles_bare_and_annotated_lines() {
    let body = "1.2.3.4:8080\n5.6.7.8:1080 US\n9.10.11.12:3128#DE\nhttp://13.14.15.16:80\ngarbage\n1.2.3.4:99999\n";
    let parsed = visit_plaintext(body, |_| true);
    assert_eq!(
        pairs(&parsed),
        vec![
            ("1.2.3.4".to_owned(), 8080),
            ("5.6.7.8".to_owned(), 1080),
            ("9.10.11.12".to_owned(), 3128),
            ("13.14.15.16".to_owned(), 80),
        ]
    );
}

#[test]
fn plaintext_ignores_colon_delimited_trailer() {
    let body = "186.182.6.191:3129:Argentina\n119.93.83.106:8082:Philippines\n";
    let parsed = visit_plaintext(body, |_| true);
    assert_eq!(parsed.len(), 2);
    assert_eq!(parsed[0].0.to_text(), "186.182.6.191");
    assert_eq!(parsed[0].1, 3129);
    assert_eq!(parsed[1].1, 8082);
}

#[test]
fn geonode_expands_multi_protocol_rows() {
    let parsed = geonode_rows(
        "1.2.3.4",
        "8080",
        &vec!["http".to_owned(), "socks5".to_owned()],
    );
    assert_eq!(parsed.len(), 2);
    assert_eq!(parsed[1].2, Some(Protocol::Socks5));
}

#[test]
fn geonode_rows_without_protocols_field_default_to_untyped() {
    let parsed = geonode_rows("1.2.3.4", "8080", &Vec::new());
    assert_eq!(parsed.len(), 1);
    assert_eq!(parsed[0].0.to_text(), "1.2.3.4");
    assert_eq!(parsed[0].1, 8080);
    assert_eq!(parsed[0].2, None);
    assert!(geonode_rows("1.2.3.4", "x", &Vec::new()).is_empty());
}

#[test]
fn proxynova_decodes_charcode_and_atob_halves() {
    let cell = "[51,49,51,47,50,52,56,47,57,47].map((code) => String.fromCharCode(code-1)).join(\"\").concat(atob(\"MTQ4\"))";
    let parsed = proxynova_row(cell, port_from_u64(8080)).unwrap();
    assert_eq!(parsed.0.to_text(), "202.137.8.148");
    assert_eq!(parsed.1, 8080);
}

#[test]
fn proxynova_passes_through_plain_ip() {
    let parsed = proxynova_row("1.2.3.4", port_from_text("3128")).unwrap();
    assert_eq!(parsed.0.to_text(), "1.2.3.4");
    assert_eq!(parsed.1, 3128);
    assert_eq!(parsed.2, Some(Protocol::Http(Anonymity::Unknown)));
    assert!(proxynova_row("1.2.3.4", None).is_none());
    assert!(deobfuscate_proxynova_ip("atob(\"!!\")").is_none());
}

#[test]
fn ports_are_read_from_texts_and_numbers() {
    assert_eq!(port_from_text(" 80 "), Some(80));
    assert_eq!(port_from_text("65536"), None);
    assert_eq!(port_from_u64(65_535), Some(65_535));
    assert_eq!(port_from_u64(65_536), None);
    assert_eq!(port_from_i64(-1), None);
    assert_eq!(port_from_i64(443), Some(443));
}

#[test]
fn html_table_locates_columns_by_header() {
    let body = r#"<table><tr><th>IP Address</th><th>Port</th><th>Anonymity</th><th>Https</th></tr>
            <tr><td>1.2.3.4</td><td>8080</td><td>elite proxy</td><td>yes</td></tr>
            <tr><td>bad</td><td>x</td><td></td><td>no</td></tr></table>"#;
    let parsed = visit_html_table(body, |_| true);
    assert_eq!(parsed.len(), 1);
    assert_eq!(parsed[0].1, 8080);
    assert_eq!(parsed[0].2, Some(Protocol::Https(Anonymity::Elite)));
}

#[test]
fn html_table_https_yes_without_anonymity_column_stays_unknown() {
    let body = r#"<table><tr><th>IP Address</th><th>Port</th><th>Https</th></tr>
            <tr><td>1.2.3.4</td><td>8080</td><td>yes</td></tr></table>"#;
    let parsed = visit_html_table(body, |_| true);
    assert_eq!(parsed[0].2, Some(Protocol::Https(Anonymity::Unknown)));
}

#[test]
fn html_table_socks_rows_ignore_the_anonymity_column() {
    let body = r#"<table><tr><th>Proxy Type</th><th>IP ADDRESS</th><th>Port</th><th>Anonymity</th></tr>
            <tr><td>socks4</td><td>1.2.3.4</td><td>1080</td><td>elite proxy</td></tr></table>"#;
    let parsed = visit_html_table(body, |_| true);
    assert_eq!(parsed[0].2, Some(Protocol::Socks4));
}

#[test]
fn html_table_columns_resolve_by_exact_name_and_substring_fallback() {
    let body = r#"<table><tr><th>Proxy Type</th><th>IP ADDRESS</th><th>Port</th><th>Anonymity</th></tr>
            <tr><td>http</td><td>1.2.3.4</td><td>8080</td><td>elite proxy</td></tr>
            <tr><td>bad</td><td>x</td><td></td><td></td></tr></table>"#;
    let parsed = visit_html_table(body, |_| true);
    assert_eq!(parsed.len(), 1);
    assert_eq!(parsed[0].0.to_text(), "1.2.3.4");
    assert_eq!(parsed[0].1, 8080);
    assert_eq!(parsed[0].2, Some(Protocol::Http(Anonymity::Elite)));
}

#[test]
fn html_table_defaults_to_first_two_columns_when_header_unknown() {
    let body = r#"<table><tr><th>Foo</th><th>Bar</th></tr>
            <tr><td>1.2.3.4</td><td>8080</td></tr></table>"#;
    let parsed = visit_html_table(body, |_| true);
    assert_eq!(parsed.len(), 1);
    assert_eq!(parsed[0].0.to_text(), "1.2.3.4");
    assert_eq!(parsed[0].1, 8080);
}

#[test]
fn html_table_port_cell_falls_back_to_last_token() {
    let body = r#"<table><tr><th>IP</th><th>Port</th></tr>
            <tr><td>1.2.3.4</td><td><div style="display:none">12</div>80</td></tr></table>"#;
    let parsed = visit_html_table(body, |_| true);
    assert_eq!(parsed.len(), 1);
    assert_eq!(parsed[0].0.to_text(), "1.2.3.4");
    assert_eq!(parsed[0].1, 80);
    assert_eq!(parse_port("12 80"), Some(80));
}

#[test]
fn html_cell_text_normalizes_whitespace_without_empty_fragments() {
    let fragments = vec![
        "  elite\n ".to_owned(),
        "proxy".to_owned(),
        "\t ".to_owned(),
    ];
    assert_eq!(normalized_text(&fragments), "elite proxy");
}

#[test]
fn base64_rows_decode_proxy_calls() {
    let encoded = base64::engine::general_purpose::STANDARD.encode("1.2.3.4:8080");
    let body = format!("<li><script>Proxy('{}')</script></li>", encoded);
    let parsed = visit_base64_rows(&body, |_| true);
    assert_eq!(parsed.len(), 1);
    assert_eq!(parsed[0].1, 8080);
}

#[test]
fn regex_pairs_extract_from_free_form_html() {
    let body = "<div>1.2.3.4:8080#US</div><div>5.6.7.8:3128#DE</div>";
    assert_eq!(visit_regex_pairs(body, |_| true).len(), 2);
}

#[test]
fn json_string_array_parses_bare_and_prefixed_rows() {
    let body = r#"["1.2.3.4:8080","http://5.6.7.8:3128","garbage","9.10.11.12:1080"]"#;
    let parsed = visit_json_strings(body, |_| true).unwrap();
    assert_eq!(
        pairs(&parsed),
        vec![
            ("1.2.3.4".to_owned(), 8080),
            ("5.6.7.8".to_owned(), 3128),
            ("9.10.11.12".to_owned(), 1080),
        ]
    );
    assert!(json_string_row("garbage").is_none());
}

#[test]
fn json_string_array_stops_deserializing_after_visitor_closes() {
    let body = r#"["1.2.3.4:8080",INVALID]"#;
    let visited = Cell::new(0);

    let rows = visit_json_strings(body, |_| {
        visited.set(visited.get() + 1);
        false
    })
    .unwrap();

    assert_eq!(visited.get(), 1);
    assert_eq!(pairs(&rows), vec![("1.2.3.4".to_owned(), 8080)]);
}

#[test]
fn json_arrays_are_read_up_to_their_first_fault() {
    let read = |body: &str| match visit_json_strings(body, |_| true) {
        Ok(rows) => (rows.len(), true),
        Err(fault) => (fault.rows.len(), false),
    };
    assert_eq!(read("[]"), (0, true));
    assert_eq!(read(" \n[ \t] "), (0, true));
    assert_eq!(read("[ \"1.2.3.4:80\" ,\r\n \"1.2.3.5:80\" ] behind"), (2, true));
    assert_eq!(read("[\"1.2.3.4\\u003a80\"]"), (1, true));
    assert_eq!(read("[\"1.2.3.4:80\",]"), (1, false));
    assert_eq!(read("[\"1.2.3.4:80\" \"1.2.3.5:80\"]"), (1, false));
    assert_eq!(read("[,\"1.2.3.4:80\"]"), (0, false));
    assert_eq!(read("[\"1.2.3.4:80\""), (1, false));
    assert_eq!(read("[\"1.2.3.4:80\", "), (1, false));
    assert_eq!(read("[\"1.2.3.4:80"), (0, false));
    assert_eq!(read("[null]"), (0, false));
    assert_eq!(read("\"1.2.3.4:80\""), (0, false));
    assert_eq!(read(""), (0, false));
    for body in [
        "[]", "[ ]", "[\"a\"]", "[\"a\",]", "[,]", "[\"a\" , \"b\"]", "[\"a\"\"b\"]", "[1]", "[\"a\"",
        "[[\"a\"]]", "{}", "", " [\"\\ud800\"]", "[\"\u{e9}\"]",
    ] {
        assert_eq!(
            visit_json_strings(body, |_| true).is_ok(),
            serde_json::from_str::<Vec<String>>(body).is_ok(),
            "{body}"
        );
    }
}

#[test]
fn json_string_array_non_string_element_fails_the_whole_parse() {
    let body = r#"["1.2.3.4:8080",42]"#;
    let fault = visit_json_strings(body, |_| true).unwrap_err();
    assert_eq!(pairs(&fault.rows), vec![("1.2.3.4".to_owned(), 8080)]);
    assert!(matches!(
        parse_text(ScrapeMode::JsonStringArray, body),
        Reading::Malformed
    ));
    assert!(matches!(
        parse_text(ScrapeMode::GeonodeJson, "{}"),
        Reading::Entries
    ));
}

#[test]
fn gatherproxy_js_extracts_ip_port_pairs() {
    let body = r#"<script>gp.insertPrx({"t": "HTTP", "ip": "1.2.3.4", "port": "8080", "country": "US"});</script>
            <script>gp.insertPrx({"ip": "5.6.7.8","port":"3128","type":"HTTPS"});</script>
            <script>gp.insertPrx({"ip": "not-an-ip","port":"99999"});</script>"#;
    let parsed = visit_gatherproxy(body, |_| true);
    assert_eq!(
        pairs(&parsed),
        vec![("1.2.3.4".to_owned(), 8080), ("5.6.7.8".to_owned(), 3128)]
    );
}

#[test]
fn lists_name_protocols_and_levels_in_many_ways() {
    assert_eq!(
        protocol_from_str(" SSL "),
        Some(Protocol::Https(Anonymity::Unknown))
    );
    assert_eq!(protocol_from_str("ftp"), None);
    assert_eq!(anonymity_from_str("Elite proxy"), Anonymity::Elite);
    assert_eq!(anonymity_from_str("transparent"), Anonymity::Transparent);
    assert_eq!(anonymity_from_str("?"), Anonymity::Unknown);
}

#[test]
fn a_redirect_goes_by_the_address_it_makes() {
    let mut fetch = Fetch::start("http://127.0.0.1/a").unwrap();
    let refused = fetch.redirect("::".to_owned(), None).map(|_| ()).unwrap_err();
    assert_eq!(
        refused.to_text(),
        "http://127.0.0.1/a returned invalid redirect Location `::`"
    );
    let next = Some("http://127.0.0.1/b".to_owned());
    assert!(matches!(fetch.redirect("/b".to_owned(), next), Ok(FetchNext::Request)));
    assert_eq!(fetch.url, "http://127.0.0.1/b");
    assert_eq!(fetch.referer.as_deref(), Some("http://127.0.0.1/a"));
    let back = Some("http://127.0.0.1/a".to_owned());
    assert!(matches!(fetch.redirect("/a".to_owned(), back), Err(FetchError::RedirectLoop(_))));
}

#[test]
fn a_source_goes_by_the_parts_of_its_address() {
    let parts = Some(("http://a.b/list".to_owned(), None, Some("a.b".to_owned()), None));
    let source = Source::from_uri("http://a.b/list", vec![Protocol::Socks5], parts).unwrap();
    assert_eq!(source.url, "http://a.b/list");
    assert_eq!(source.host.as_deref(), Some("a.b"));
    assert_eq!(source.default_types, vec![Protocol::Socks5]);
    assert_eq!(source.mode, ScrapeMode::Plaintext);
    let refused = Source::from_uri("a b", Vec::new(), None).map(|_| ()).unwrap_err();
    assert!(matches!(refused, FlxError::Fetch(text) if text == "invalid provider url: a b"));
}

#[test]
fn visitors_that_have_enough_end_the_reading() {
    let plain = "1.2.3.4:8080\n5.6.7.8:1080\n9.10.11.12:3128\n";
    let table = "<table><tr><th>IP Address</th><th>Port</th></tr>\
        <tr><td>1.2.3.4</td><td>8080</td></tr><tr><td>5.6.7.8</td><td>1080</td></tr></table>";
    let encoded = base64::engine::general_purpose::STANDARD.encode("1.2.3.4:8080");
    let rows = format!("Proxy('{encoded}') Proxy('{encoded}')");
    let script = r#"gp.insertPrx({"ip": "1.2.3.4","port":"8080"});
        gp.insertPrx({"ip": "5.6.7.8","port":"3128"});"#;
    let calls = Cell::new(0);
    let once = |_: ParsedProxy| {
        calls.set(calls.get() + 1);
        false
    };
    for read in [
        visit_plaintext(plain, once),
        visit_html_table(table, once),
        visit_regex_pairs(plain, once),
        visit_base64_rows(&rows, once),
        visit_gatherproxy(script, once),
    ] {
        assert_eq!(pairs(&read), vec![("1.2.3.4".to_owned(), 8080)]);
    }
    assert_eq!(calls.get(), 5, "each visitor was called once");

    let seen = Cell::new(0);
    let two = visit_plaintext(plain, |_| {
        seen.set(seen.get() + 1);
        seen.get() < 2
    });
    assert_eq!(two.len(), 2);
}

#[test]
fn a_chunk_leaves_the_way_to_it_unchanged() {
    let mut fetch = Fetch::start("http://127.0.0.1/start").unwrap();
    assert!(matches!(
        fetch.on_response(302, Some(Some("/next".to_owned()))),
        Ok(FetchNext::Request)
    ));
    assert!(matches!(fetch.on_response(200, None), Ok(FetchNext::ReadBody)));
    let (referer, visited, redirects) =
        (fetch.referer.clone(), fetch.visited.clone(), fetch.redirects);
    assert_eq!(visited.len(), 2);
    fetch.on_chunk(b"body").unwrap();
    assert_eq!(fetch.referer, referer);
    assert_eq!(fetch.visited, visited);
    assert_eq!(fetch.redirects, redirects);
}
