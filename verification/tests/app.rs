//! The workbench: what its actions and the run's events do to it.

use flx::net::Ipv4Addr;
use flx::proxy::models::{Protocol, Proxy, ProxyType};
use flx::tui::app::{
    export_formats, App, Effect, EngineEvent, Message, MessageKind, Rate, RunSummary, MAX_FAILURE_LOG,
    MAX_RESULTS, MESSAGE_TTL,
};
use flx::tui::event::{Action, InputPurpose, Screen};
use flx::tui::view::RowModel;

const SECOND: u64 = 1_000_000_000;
const NOW: u64 = 1_000 * SECOND;

fn ip(last: u8) -> Ipv4Addr {
    Ipv4Addr {
        a: 10,
        b: 0,
        c: 0,
        d: last,
    }
}

fn app_with_results(count: usize) -> App {
    let mut app = App::new(false, "default".to_owned());
    for slot in 0..count {
        let last = 1 + (slot % 254) as u8;
        let mut proxy = Proxy::new(ip(last), 8000 + slot as u16);
        proxy.proxy_types.push(ProxyType::checked(Protocol::Socks5, NOW));
        app.rows.push(RowModel::new(&proxy));
        app.results.push(proxy);
    }
    app.screen = Screen::Done;
    app.refresh_visible();
    app
}

#[test]
fn rows_and_results_stay_index_aligned() {
    let app = app_with_results(5);
    assert_eq!(app.rows.len(), app.results.len());
}

fn summary(valid: usize, elapsed: u64) -> RunSummary {
    RunSummary {
        gathered: valid,
        valid,
        failed: 0,
        elapsed,
    }
}

#[test]
fn the_elapsed_timer_stops_when_the_run_ends() {
    let mut app = App::new(true, "default".to_owned());
    app.started = Some(NOW - 5 * SECOND);
    assert!(
        app.elapsed(NOW) >= 5 * SECOND,
        "the clock runs while the run does"
    );

    app.on_engine_event(EngineEvent::Finished(summary(4, 5 * SECOND)), NOW);
    let stopped = app.elapsed(NOW);
    assert_eq!(
        app.elapsed(NOW + 20_000_000),
        stopped,
        "a finished run's elapsed must not keep climbing"
    );
    assert!(stopped >= 5 * SECOND);
}

#[test]
fn an_aborted_run_also_stops_the_clock() {
    let mut app = App::new(true, "default".to_owned());
    app.started = Some(NOW - 3 * SECOND);
    app.cancel_run(NOW);
    let cancelled = app.elapsed(NOW);
    assert_eq!(
        app.elapsed(NOW + 20_000_000),
        cancelled,
        "cancelling stops the clock"
    );

    let mut app = App::new(true, "default".to_owned());
    app.started = Some(NOW - 3 * SECOND);
    app.on_engine_event(EngineEvent::Error("no judges".to_owned()), NOW);
    let failed = app.elapsed(NOW);
    assert_eq!(
        app.elapsed(NOW + 20_000_000),
        failed,
        "failing stops the clock"
    );
}

#[test]
fn the_clock_starts_again_on_the_next_run() {
    let mut app = App::new(true, "default".to_owned());
    app.started = Some(NOW - 5 * SECOND);
    app.on_engine_event(EngineEvent::Finished(summary(1, 5 * SECOND)), NOW);

    app.handle_action(Action::Rerun, NOW);
    let elapsed = app.elapsed(NOW + 20_000_000);
    assert!(
        elapsed < 5 * SECOND,
        "a re-run starts a fresh clock, got {elapsed:?}"
    );
}

#[test]
fn a_finished_run_stops_sampling_the_rate() {
    let mut app = App::new(true, "default".to_owned());
    app.on_engine_event(EngineEvent::Finished(summary(4, 2 * SECOND)), NOW);
    let rate = Rate {
        probes: 25,
        nanos: 2 * SECOND,
    };
    app.rate = rate;
    app.on_tick(None, NOW);
    app.on_tick(None, NOW);

    assert_eq!(app.rate, rate, "a run that ended has no rate to recompute");
    assert!(
        app.rate_mark.is_none(),
        "and no sample is left waiting to be taken"
    );
}

#[test]
fn a_typed_row_number_moves_the_selection_there() {
    let mut app = app_with_results(20);
    app.handle_action(Action::Count(1), NOW);
    app.handle_action(Action::Count(2), NOW);
    assert_eq!(app.key_context().count, Some(12));
    app.handle_action(Action::GotoCount, NOW);
    assert_eq!(app.view.selected, 11);

    assert_eq!(app.key_context().count, None);
    app.handle_action(Action::GotoCount, NOW);
    assert_eq!(app.view.selected, 11, "a second jump needs new digits");
}

#[test]
fn a_row_number_beyond_the_list_lands_on_the_last_row() {
    let mut app = app_with_results(3);
    app.handle_action(Action::Count(9), NOW);
    app.handle_action(Action::Count(9), NOW);
    app.handle_action(Action::GotoCount, NOW);
    assert_eq!(
        app.view.selected, 2,
        "an out-of-range jump clamps instead of doing nothing"
    );

    app.handle_action(Action::Count(0), NOW);
    app.handle_action(Action::GotoCount, NOW);
    assert_eq!(app.view.selected, 0);
}

#[test]
fn any_other_key_drops_a_half_typed_row_number() {
    let mut app = app_with_results(10);
    app.handle_action(Action::Count(7), NOW);
    app.handle_action(Action::ScrollDown, NOW);

    assert_eq!(app.key_context().count, None);
    app.handle_action(Action::GotoCount, NOW);
    assert_eq!(
        app.view.selected, 1,
        "the abandoned count must not jump anywhere"
    );
}

#[test]
fn a_row_number_counts_rows_in_the_current_view() {
    let mut app = app_with_results(10);
    app.view.filter = "10.0.0.7".to_owned();
    app.refresh_visible();
    assert_eq!(app.visible.len(), 1);

    app.handle_action(Action::Count(5), NOW);
    app.handle_action(Action::GotoCount, NOW);
    assert_eq!(app.view.selected, 0);
}

#[test]
fn rerunning_drops_a_half_typed_row_number() {
    let mut app = app_with_results(4);
    app.handle_action(Action::Count(3), NOW);
    app.handle_action(Action::Rerun, NOW);
    assert_eq!(app.key_context().count, None);
}

#[test]
fn the_selection_clamps_after_every_action() {
    let mut app = app_with_results(3);
    app.handle_action(Action::GotoBottom, NOW);
    assert_eq!(app.view.selected, 2);
    app.handle_action(Action::PageDown, NOW);
    assert_eq!(app.view.selected, 2, "the cursor cannot leave the rows");

    app.handle_action(Action::GotoTop, NOW);
    assert_eq!(app.view.selected, 0);
    app.handle_action(Action::ScrollUp, NOW);
    assert_eq!(app.view.selected, 0, "scrolling up from the top is a no-op");
}

#[test]
fn filter_updates_live_and_esc_restores_the_previous_query() {
    let mut app = app_with_results(4);
    app.view.filter = "10.0.0".to_owned();
    app.refresh_visible();
    app.handle_action(Action::EditFilter, NOW);
    app.handle_action(Action::Text('1'), NOW);
    assert_eq!(app.view.filter, "10.0.01");
    assert!(app.visible.len() < 4);
    app.handle_action(Action::Cancel, NOW);
    assert_eq!(app.view.filter, "10.0.0");
    assert_eq!(app.visible.len(), 4);
}

#[test]
fn filtering_rebuilds_the_visible_list() {
    let mut app = app_with_results(4);
    app.handle_action(Action::EditFilter, NOW);
    for character in "10.0.0.1".chars() {
        app.handle_action(Action::Text(character), NOW);
    }
    app.handle_action(Action::Submit, NOW);
    assert_eq!(app.view.filter, "10.0.0.1");
    assert_eq!(app.visible, vec![0]);

    app.handle_action(Action::ClearFilter, NOW);
    assert_eq!(app.view.filter, "");
    assert_eq!(app.visible.len(), 4);
}

#[test]
fn cancelling_a_prompt_leaves_the_filter_alone() {
    let mut app = app_with_results(4);
    app.handle_action(Action::EditFilter, NOW);
    app.handle_action(Action::Text('x'), NOW);
    app.handle_action(Action::Cancel, NOW);
    assert!(app.input.is_none());
    assert_eq!(app.view.filter, "", "an abandoned prompt changes nothing");
    assert_eq!(app.visible.len(), 4);
}

#[test]
fn esc_closes_detail_before_it_leaves_the_screen() {
    let mut app = app_with_results(2);
    app.handle_action(Action::DrillIn, NOW);
    assert!(app.view.detail);
    app.handle_action(Action::Back, NOW);
    assert!(!app.view.detail, "the drill-down closes first");
    assert!(!app.should_quit);
    app.handle_action(Action::Back, NOW);
    assert!(app.should_quit, "a second Esc leaves the done screen");
}

#[test]
fn d_toggles_the_drill_down() {
    let mut app = app_with_results(2);
    app.handle_action(Action::ToggleDetail, NOW);
    assert!(app.view.detail);
    app.handle_action(Action::ToggleDetail, NOW);
    assert!(!app.view.detail);
}

#[test]
fn the_help_overlay_dismisses_on_its_own_key_only() {
    let mut app = app_with_results(2);
    app.handle_action(Action::ToggleHelp, NOW);
    assert!(app.help);
    app.handle_action(Action::ScrollDown, NOW);
    assert!(app.help, "other keys are swallowed while help is open");
    assert_eq!(app.view.selected, 0);
    app.handle_action(Action::ToggleHelp, NOW);
    assert!(!app.help);
}

#[test]
fn ctrl_c_cancels_a_live_run_then_quits_on_the_next_press() {
    let mut app = app_with_results(2);
    app.screen = Screen::Running;
    app.running = true;
    app.handle_action(Action::Interrupt, NOW);
    assert_eq!(app.screen, Screen::Done);
    assert!(!app.should_quit, "the first press stops the run");

    app.handle_action(Action::Interrupt, NOW);
    assert!(app.should_quit, "the second press leaves");
}

#[test]
fn ctrl_c_leaves_from_every_surface() {
    for open in [Action::EditFilter, Action::Export, Action::ToggleHelp, Action::DrillIn] {
        let mut app = app_with_results(2);
        app.handle_action(open, NOW);
        let effect = app.handle_action(Action::Interrupt, NOW);
        assert!(matches!(effect, Effect::Nothing));
        assert!(app.should_quit, "{open:?} must not swallow the interrupt");
    }
}

#[test]
fn ctrl_c_cancels_a_live_run_from_every_surface() {
    for open in [
        Action::EditFilter,
        Action::ToggleHelp,
        Action::CancelRun,
        Action::DrillIn,
    ] {
        let mut app = app_with_results(2);
        app.screen = Screen::Running;
        app.running = true;
        app.handle_action(open, NOW);
        let effect = app.handle_action(Action::Interrupt, NOW);
        assert!(matches!(effect, Effect::Cancel), "{open:?}");
        assert_eq!(app.screen, Screen::Done);
        assert!(app.cancelled && app.input.is_none() && app.confirm.is_none());
        assert!(!app.should_quit);
        app.handle_action(Action::Interrupt, NOW);
        assert!(app.should_quit, "the second press leaves");
    }
}

#[test]
fn export_opens_a_format_chooser_before_the_path_prompt() {
    let mut app = app_with_results(2);
    app.handle_action(Action::Export, NOW);
    assert_eq!(
        app.input.as_ref().map(|input| input.purpose),
        Some(InputPurpose::ExportFormat)
    );
    app.handle_action(Action::ScrollDown, NOW);
    assert_eq!(
        app.input.as_ref().map(|input| input.buffer.as_str()),
        Some("text")
    );
    app.handle_action(Action::Submit, NOW);
    assert_eq!(
        app.input.as_ref().map(|input| input.purpose),
        Some(InputPurpose::ExportPath)
    );
    assert_eq!(app.format, "text");
}

#[test]
fn an_empty_export_path_never_writes() {
    let mut app = app_with_results(2);
    app.handle_action(Action::Export, NOW);
    assert_eq!(
        app.input.as_ref().map(|input| input.purpose),
        Some(InputPurpose::ExportFormat)
    );
    app.handle_action(Action::Submit, NOW);
    let input = app.input.as_mut().expect("the path prompt is open");
    input.buffer.clear();
    app.handle_action(Action::Submit, NOW);
    let message = app.message.as_ref().expect("the refusal is reported");
    assert_eq!(message.kind, MessageKind::Warning);
    assert!(message.text.contains("empty path"), "got {}", message.text);
}

#[test]
fn exporting_over_a_file_asks_before_overwriting() {
    let path = "flx_tui_overwrite.txt";

    let mut app = app_with_results(2);
    app.handle_action(Action::Export, NOW);
    app.handle_action(Action::Submit, NOW);
    let input = app.input.as_mut().expect("the path prompt is open");
    input.buffer = path.to_owned();
    let effect = app.handle_action(Action::Submit, NOW);
    let Effect::CheckPath(asked) = effect else {
        panic!("the path is looked at first: {effect:?}");
    };
    assert_eq!(asked, path);
    let effect = app.on_path_checked(asked, true, NOW);
    assert!(
        matches!(effect, Effect::Nothing),
        "nothing is written unasked: {effect:?}"
    );

    let confirm = app.confirm.as_ref().expect("overwrite needs a yes");
    assert!(
        confirm.question.contains("overwrite"),
        "got {}",
        confirm.question
    );
    let effect = app.handle_action(Action::ConfirmNo, NOW);
    assert!(app.confirm.is_none());
    assert!(
        matches!(effect, Effect::Nothing),
        "declining must leave the existing file untouched"
    );
}

#[test]
fn exporting_to_a_new_file_or_with_consent_writes_it() {
    let mut app = app_with_results(2);
    let effect = app.on_path_checked("new.txt".to_owned(), false, NOW);
    assert!(
        matches!(&effect, Effect::Export { path, .. } if path == "new.txt"),
        "got {effect:?}"
    );

    app.on_path_checked("old.txt".to_owned(), true, NOW);
    let effect = app.handle_action(Action::ConfirmYes, NOW);
    assert!(
        matches!(&effect, Effect::Export { path, .. } if path == "old.txt"),
        "got {effect:?}"
    );
}

#[test]
fn cancelling_a_run_asks_first_and_nothing_runs_until_then() {
    let mut app = app_with_results(0);
    app.screen = Screen::Running;
    app.running = true;

    app.handle_action(Action::CancelRun, NOW);
    assert!(app.confirm.is_some(), "cancelling is confirmed");
    assert_eq!(app.screen, Screen::Running, "nothing happens on the prompt");

    app.handle_action(Action::ConfirmNo, NOW);
    assert!(app.confirm.is_none());
    assert_eq!(app.screen, Screen::Running);
    assert!(app.running, "declining keeps the run alive");

    app.handle_action(Action::CancelRun, NOW);
    app.handle_action(Action::ConfirmYes, NOW);
    assert_eq!(app.screen, Screen::Done);
    assert!(!app.running);
}

#[test]
fn rerunning_clears_every_per_run_collection() {
    let mut app = app_with_results(4);
    app.overflow = 7;
    app.failures.push("10.0.0.9:80 http — timeout".to_owned());
    app.view.detail = true;
    app.view.selected = 3;

    app.handle_action(Action::Rerun, NOW);
    assert!(app.results.is_empty());
    assert!(app.rows.is_empty(), "the render cache is cleared with it");
    assert!(app.visible.is_empty());
    assert_eq!(app.overflow, 0);
    assert!(app.failures.is_empty());
    assert_eq!(app.view.selected, 0);
    assert_eq!(app.screen, Screen::Running);
}

#[test]
fn the_overflow_cap_counts_instead_of_growing() {
    let mut app = App::new(false, "default".to_owned());
    for slot in 0..MAX_RESULTS + 3 {
        let mut proxy = Proxy::new(ip(1), 8000 + slot as u16);
        proxy.proxy_types.push(ProxyType::checked(Protocol::Socks5, NOW));
        app.on_engine_event(EngineEvent::Proxy(proxy), NOW);
    }
    assert_eq!(app.results.len(), MAX_RESULTS);
    assert_eq!(app.rows.len(), MAX_RESULTS);
    assert_eq!(app.overflow, 3);
}

#[test]
fn the_failure_log_is_a_ring_buffer() {
    let mut app = App::new(false, "default".to_owned());
    for slot in 0..MAX_FAILURE_LOG + 5 {
        app.on_engine_event(
            EngineEvent::Failure {
                ip: ip(1),
                port: 8000 + slot as u16,
                protocol: Protocol::Socks5,
                reason: format!("probe {slot}"),
            },
            NOW,
        );
    }
    assert_eq!(app.failures.len(), MAX_FAILURE_LOG);
    assert!(app.failures.last().expect("entries").contains("probe 68"));
}

#[test]
fn a_finished_run_moves_to_the_done_screen() {
    let mut app = App::new(true, "default".to_owned());
    app.on_engine_event(
        EngineEvent::Finished(RunSummary {
            gathered: 10,
            valid: 4,
            failed: 6,
            elapsed: 2 * SECOND,
        }),
        NOW,
    );
    assert_eq!(app.screen, Screen::Done);
    assert!(!app.running);
    assert_eq!(app.summary.as_ref().expect("a summary").valid, 4);
}

#[test]
fn an_engine_error_lands_as_a_status_line() {
    let mut app = App::new(true, "default".to_owned());
    app.on_engine_event(EngineEvent::Error("no judges reachable".to_owned()), NOW);
    assert_eq!(app.screen, Screen::Done);
    let message = app.message.as_ref().expect("the error is shown");
    assert_eq!(message.kind, MessageKind::Error);
    assert_eq!(message.text, "no judges reachable");
}

#[test]
fn export_receipts_arrive_as_status_lines() {
    let mut app = App::new(false, "default".to_owned());
    app.on_engine_event(
        EngineEvent::ExportDone {
            path: "find.txt".to_owned(),
            result: Ok(12),
        },
        NOW,
    );
    let message = app.message.as_ref().expect("the receipt is shown");
    assert_eq!(message.kind, MessageKind::Info);
    assert!(message.text.contains("12 rows"), "got {}", message.text);

    app.on_engine_event(
        EngineEvent::ExportDone {
            path: "find.txt".to_owned(),
            result: Err("permission denied".to_owned()),
        },
        NOW,
    );
    assert_eq!(
        app.message.as_ref().expect("the failure is shown").kind,
        MessageKind::Error
    );
}

#[test]
fn status_lines_fade_on_their_own() {
    let mut app = App::new(false, "default".to_owned());
    app.message = Some(Message {
        text: "exported 3 rows".to_owned(),
        kind: MessageKind::Info,
        shown_at: NOW,
    });
    assert!(app.message.is_some());
    app.on_tick(None, NOW);
    assert!(
        app.message.is_some(),
        "a fresh status line is still on screen"
    );

    let message = app.message.as_mut().expect("the status line");
    message.shown_at = NOW - MESSAGE_TTL;
    app.on_tick(None, NOW);
    assert!(app.message.is_none(), "a stale status line fades");
}

#[test]
fn the_export_path_default_follows_the_output_format() {
    let app = App::new(false, "default".to_owned());
    assert_eq!(app.default_export_path(), "grab.txt");
    let app = App::new(true, "default".to_owned());
    assert_eq!(app.default_export_path(), "find.txt");
}

fn push_proxy(app: &mut App, slot: usize) {
    let last = 1 + (slot % 254) as u8;
    let mut proxy = Proxy::new(ip(last), 8000 + slot as u16);
    proxy.proxy_types.push(ProxyType::checked(Protocol::Socks5, NOW));
    app.on_engine_event(EngineEvent::Proxy(proxy), NOW);
}

#[test]
fn a_live_tick_pins_the_selection_to_the_last_row() {
    let mut app = app_with_results(3);
    app.screen = Screen::Running;
    app.on_tick(None, NOW);
    assert_eq!(app.view.selected, 2);
    push_proxy(&mut app, 3);
    push_proxy(&mut app, 4);
    app.on_tick(None, NOW);
    assert_eq!(app.view.selected, app.visible.len() - 1);
}

#[test]
fn scrolling_up_breaks_the_follow() {
    let mut app = app_with_results(3);
    app.screen = Screen::Running;
    app.on_tick(None, NOW);
    app.handle_action(Action::ScrollUp, NOW);
    assert!(!app.follow);
    push_proxy(&mut app, 3);
    app.on_tick(None, NOW);
    assert_eq!(app.view.selected, 1);
    assert!(!app.follow);
}

#[test]
fn going_to_the_bottom_rejoins_the_follow() {
    let mut app = app_with_results(3);
    app.screen = Screen::Running;
    app.handle_action(Action::ScrollUp, NOW);
    app.handle_action(Action::GotoBottom, NOW);
    assert!(app.follow);
    push_proxy(&mut app, 3);
    app.on_tick(None, NOW);
    assert_eq!(app.view.selected, app.visible.len() - 1);
    assert!(app.follow);
}

#[test]
fn rerunning_rejoins_the_follow() {
    let mut app = app_with_results(4);
    app.follow = false;
    app.handle_action(Action::Rerun, NOW);
    assert!(app.follow);
    assert_eq!(app.view.selected, 0);
}

#[test]
fn a_rate_is_the_probes_between_two_samples() {
    let mut app = App::new(true, "default".to_owned());
    app.begin(NOW);
    app.on_tick(Some(10), NOW);
    app.on_tick(Some(30), NOW + SECOND);
    assert_eq!(
        app.rate,
        Rate {
            probes: 20,
            nanos: SECOND,
        }
    );
}

#[test]
fn beginning_and_cancelling_reach_the_world() {
    let mut app = App::new(true, "default".to_owned());
    assert!(matches!(app.begin(NOW), Effect::Start));
    assert!(app.running);
    assert!(matches!(app.cancel_run(NOW), Effect::Cancel));
    assert!(app.cancelled);
    assert_eq!(app.mode_label(), "find");
}

#[test]
fn pausing_is_handed_on_while_a_run_is_live() {
    let mut app = App::new(true, "default".to_owned());
    app.begin(NOW);
    assert!(matches!(
        app.handle_action(Action::PauseToggle, NOW),
        Effect::TogglePause
    ));
}

#[test]
fn judges_report_their_health() {
    let mut app = App::new(true, "default".to_owned());
    app.on_engine_event(EngineEvent::JudgeHealth(3, 4), NOW);
    let health = app.health.clone().expect("health is kept");
    assert!(health.contains("3/4"), "got {health}");
}

#[test]
fn a_click_selects_a_row_and_stops_following() {
    let mut app = app_with_results(4);
    app.select_visible(2);
    assert_eq!(app.view.selected, 2);
    assert!(!app.follow);
    assert_eq!(app.selected_proxy().expect("a row").as_text(), "10.0.0.3:8002");
    app.select_visible(9);
    assert_eq!(app.view.selected, 2, "a click past the rows changes nothing");
}

#[test]
fn the_detail_scrolls_without_moving_the_selection() {
    let mut app = app_with_results(4);
    app.handle_action(Action::DrillIn, NOW);
    assert!(app.overlay_open());
    app.handle_action(Action::ScrollDown, NOW);
    app.handle_action(Action::PageDown, NOW);
    assert_eq!(app.detail_scroll, 11);
    assert_eq!(app.view.selected, 0);
    app.handle_action(Action::GotoTop, NOW);
    assert_eq!(app.detail_scroll, 0);
}

#[test]
fn the_chooser_lists_every_format() {
    assert_eq!(
        export_formats(),
        vec!["default", "text", "json", "pretty-json", "json-lines", "csv", "prefix", "proxychains"]
    );
}

#[test]
fn ctrl_c_while_browsing_keeps_the_selection_on_a_row() {
    let mut app = App::new(false, "default".to_owned());
    app.screen = Screen::Done;
    app.view.selected = 5;
    app.handle_action(Action::Interrupt, NOW);
    assert!(app.should_quit);
    assert_eq!(app.view.selected, 0);

    let mut running = app_with_results(3);
    running.screen = Screen::Running;
    running.running = true;
    running.view.selected = 9;
    assert!(matches!(running.handle_action(Action::Interrupt, NOW), Effect::Cancel));
    assert_eq!(running.view.selected, 2);
}

#[test]
fn an_event_other_than_a_proxy_needs_no_room_for_one() {
    let mut app = app_with_results(2);
    app.overflow = usize::MAX;
    app.on_engine_event(EngineEvent::JudgeHealth(1, 2), NOW);
    assert_eq!(app.overflow, usize::MAX);
    assert_eq!(app.results.len(), 2);
}
