//! Exports of results, and the passes of a run.

use flx::fetcher::phase::FetchStage;
use flx::net::Ipv4Addr;
use flx::proxy::models::{Anonymity, Protocol, Proxy, ProxyType};
use flx::tui::engine::{
    first_phase, phase_of_find, phase_of_stage, quota_decision, requested_protocols, run_find, run_summary,
    second_limit, FindAction, FindEvent, FindRules, FindState, LiveState, Pass, Phase, Progress,
    QuotaDecision, RunSpec,
};
use flx::tui::export::{infer_format, Rendering, CSV_HEADER, PAC_UNAVAILABLE};

fn sample() -> Proxy {
    let mut proxy = Proxy::new(Ipv4Addr::new(203, 0, 113, 7), 8080);
    proxy
        .proxy_types
        .push(ProxyType::checked(Protocol::Http(Anonymity::Elite), 0));
    proxy
}

fn text(format: &str, proxies: &Vec<Proxy>) -> String {
    match flx::tui::export::write(format, Some("out"), proxies) {
        Rendering::Text(text) => text,
        _ => panic!("not rendered as text"),
    }
}

#[test]
fn text_export_writes_one_endpoint_per_line() {
    assert_eq!(text("text", &vec![sample()]), "203.0.113.7:8080\n");
}

#[test]
fn json_lines_export_keeps_one_object_per_line() {
    assert!(matches!(
        flx::tui::export::write("json-lines", Some("out"), &vec![sample(), sample()]),
        Rendering::JsonLines
    ));
}

#[test]
fn csv_export_emits_a_header_and_rows() {
    let written = text("csv", &vec![sample()]);
    assert!(written.starts_with(CSV_HEADER));
    assert!(written.contains("203.0.113.7,8080"));
    assert_eq!(
        written,
        format!("{CSV_HEADER}\n203.0.113.7,8080,http,elite,,unknown,,0\n")
    );
}

#[test]
fn default_format_is_inferred_from_the_extension() {
    assert!(matches!(flx::tui::export::write("default", Some("json"), &vec![sample()]), Rendering::Json));
    assert_eq!(infer_format("default", Some("jsonl")), "json-lines");
    assert_eq!(infer_format("default", Some("csv")), "csv");
    assert_eq!(infer_format("default", Some("txt")), "text");
    assert_eq!(infer_format("default", Some("pac")), "pac");
    assert_eq!(infer_format("default", None), "default");
    assert_eq!(infer_format("csv", Some("json")), "csv");
}

#[test]
fn pac_export_reports_that_it_is_unsupported() {
    assert!(matches!(flx::tui::export::write("pac", Some("pac"), &vec![sample()]), Rendering::PacUnavailable));
    assert!(PAC_UNAVAILABLE.contains("pac"));
}

#[test]
fn other_formats_have_their_lines() {
    let mut socks = Proxy::new(Ipv4Addr::new(1, 2, 3, 4), 1080);
    socks.proxy_types.push(ProxyType::checked(Protocol::Socks5, 0));
    let proxies = vec![sample(), socks];
    assert_eq!(
        text("prefix", &proxies),
        "http://203.0.113.7:8080\nsocks5://1.2.3.4:1080\n"
    );
    assert_eq!(
        text("proxychains", &proxies),
        "http 203.0.113.7 8080\nsocks5 1.2.3.4 1080\n"
    );
    assert_eq!(
        text("default", &proxies),
        format!("{}\n{}\n", proxies[0].to_text(), proxies[1].to_text())
    );
    assert!(matches!(flx::tui::export::write("pretty-json", None, &proxies), Rendering::PrettyJson));
}

// ---- passes ----------------------------------------------------------------

fn spec(validates: bool, from_files: bool) -> RunSpec {
    RunSpec { validates, from_files, limit: 0, format: "default".to_string() }
}

fn progress(done: usize, passed: usize) -> Progress {
    Progress { done, total: done, passed, part: 1, whole: 1 }
}

#[test]
fn runs_open_with_their_own_phase() {
    assert_eq!(first_phase(&spec(true, true)), Phase::CheckingJudges);
    assert_eq!(first_phase(&spec(true, false)), Phase::Preparing);
    assert_eq!(first_phase(&spec(false, true)), Phase::Preparing);
    assert_eq!(phase_of_stage(FetchStage::Primary, true), Phase::FetchingPrimary);
    assert_eq!(phase_of_stage(FetchStage::Fallback, true), Phase::FetchingFallback);
    assert_eq!(phase_of_stage(FetchStage::Done, true), Phase::CheckingJudges);
    assert_eq!(phase_of_stage(FetchStage::Done, false), Phase::Gathering);
    assert_eq!(Phase::ValidatingPass(2).label(), "validating pass 2");
    assert!(spec(true, false).is_find());
}

#[test]
fn a_run_can_be_held_up_once_its_gate_is_there() {
    let mut live = LiveState::new(10);
    live.toggle_pause();
    assert!(!live.paused());
    live.gate = Some(false);
    live.toggle_pause();
    assert!(live.paused());
    live.enter(Phase::Gathering, 30);
    assert_eq!(live.phase_elapsed(42), 12);
    assert_eq!(live.phase_elapsed(5), 0);
}

#[test]
fn a_bounded_pass_ends_with_its_last_row() {
    let rules = FindRules { limit: 2, has_quotas: false };
    let mut state = FindState::First(Pass::new(2));
    let row = FindEvent::Row { passes_filter: true, quota: QuotaDecision::Emit };
    let sent = FindEvent::Sent { delivered: true, saturated: false };
    for wanted in [FindAction::Next, FindAction::EndPass] {
        let (next, action) = run_find(rules, state, row);
        assert_eq!(action, FindAction::Deliver);
        let (next, action) = run_find(rules, next, sent);
        assert_eq!(action, wanted);
        state = next;
    }
    let (_, action) = run_find(rules, state, row);
    assert_eq!(action, FindAction::EndPass);
}

#[test]
fn rows_are_dropped_by_filter_and_quotas() {
    let rules = FindRules { limit: 0, has_quotas: true };
    let state = FindState::First(Pass::new(0));
    let row = |passes_filter: bool, quota: QuotaDecision| FindEvent::Row { passes_filter, quota };
    assert_eq!(run_find(rules, state, row(false, QuotaDecision::Emit)).1, FindAction::Next);
    assert_eq!(run_find(rules, state, row(true, QuotaDecision::Skip)).1, FindAction::Next);
    assert_eq!(run_find(rules, state, row(true, QuotaDecision::Stop)).1, FindAction::EndPass);
    assert_eq!(quota_decision(true, true), QuotaDecision::Emit);
    assert_eq!(quota_decision(false, true), QuotaDecision::Stop);
    assert_eq!(quota_decision(false, false), QuotaDecision::Skip);
}

#[test]
fn a_second_pass_adds_up_with_the_first() {
    let rules = FindRules { limit: 10, has_quotas: false };
    let first = FindState::First(Pass { limit: 10, emitted: 3, over: false });
    let ended = FindEvent::PassEnded { progress: progress(20, 4), fallback: true, candidates: 5 };
    let (second, action) = run_find(rules, first, ended);
    assert_eq!(action, FindAction::StartSecond);
    assert_eq!(phase_of_find(first), Phase::ValidatingPass(1));
    assert_eq!(phase_of_find(second), Phase::ValidatingPass(2));
    assert_eq!(
        second,
        FindState::Second { valid: 3, failed: 16, pass: Pass::new(6) }
    );
    let ended = FindEvent::PassEnded { progress: progress(5, 2), fallback: true, candidates: 5 };
    let (over, action) = run_find(rules, second, ended);
    assert_eq!(action, FindAction::Finish);
    assert_eq!(over, FindState::Over { valid: 3, failed: 19 });
    assert_eq!(phase_of_find(over), Phase::Finished);
    let summary = run_summary(true, over, 40, 7).unwrap();
    assert_eq!((summary.gathered, summary.valid, summary.failed), (40, 3, 19));
    assert_eq!(run_summary(false, over, 40, 7).unwrap().failed, 0);
    assert!(run_summary(true, second, 40, 7).is_none());
}

#[test]
fn without_candidates_there_is_no_second_pass() {
    let rules = FindRules { limit: 0, has_quotas: false };
    let state = FindState::First(Pass::new(0));
    let ended = FindEvent::PassEnded { progress: progress(3, 3), fallback: true, candidates: 0 };
    assert_eq!(run_find(rules, state, ended).1, FindAction::Finish);
    assert_eq!(second_limit(10, true, 4, 9), 6);
    assert_eq!(second_limit(10, false, 4, 9), 1);
    assert_eq!(second_limit(0, false, 4, 9), 0);
}

#[test]
fn a_run_without_types_asks_for_http() {
    assert_eq!(
        requested_protocols(Vec::new(), false),
        vec![Protocol::Http(Anonymity::Unknown)]
    );
    assert!(requested_protocols(Vec::new(), true).is_empty());
}
