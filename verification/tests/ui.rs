//! What the surfaces of the workbench say.

use flx::filters::SortKey;
use flx::geolookup::ip_type::IpType;
use flx::geolookup::models::GeoData;
use flx::net::Ipv4Addr;
use flx::proxy::models::{Protocol, Proxy, ProxyType};
use flx::tui::app::{App, MessageKind, Rate, RunSummary};
use flx::tui::engine::{Phase, Progress};
use flx::tui::event::{bindings_on, help_groups, help_notes, Action, InputPurpose, Screen};
use flx::tui::theme::{detect_ascii, glyph, monochrome, Glyph};
use flx::tui::ui::{
    body_cell, caret, confirm_area, confirm_lines, detail_area, detail_lines, done_summary,
    footer_lines, format_duration, format_rate, geo_summary, handle_mouse, header_text, help_body,
    help_panel, help_title, identity, input_area, input_title, overlay_width, percent_of, popup_area,
    progress_spans, row_at, running_summary, table_title, too_small, types_summary, unhealthy_judges,
    LiveLine, MouseIntent, MouseKind, Span, Tone,
};
use flx::tui::view::{
    compute_layout, find_hit, Rect, RowModel, COLUMN_COUNT, COUNTRY_COLUMN, MIN_WIDTH,
};
use unicode_width::UnicodeWidthStr;

const SECOND: u64 = 1_000_000_000;
const NOW: u64 = 1_000 * SECOND;

/// A deterministic run of rows, each with a country, an ASN, and an RTT.
fn sample_app(count: usize) -> App {
    let mut app = App::new(false, "default".to_owned());
    for slot in 0..count {
        let mut proxy = Proxy::new(
            Ipv4Addr {
                a: 203,
                b: 0,
                c: 113,
                d: 1 + slot as u8,
            },
            8000 + slot as u16,
        );
        proxy.runtimes.record(100_000 + slot as u64 * 50_000);
        proxy
            .proxy_types
            .push(ProxyType::checked(Protocol::Socks5, 0));
        proxy.geo = GeoData {
            iso_code: Some(if slot % 2 == 0 { "DE" } else { "ID" }.to_owned()),
            city_name: Some(if slot % 2 == 0 { "Berlin" } else { "Jakarta" }.to_owned()),
            asn: Some(15169),
            aso: Some("Example Networks".to_owned()),
            ip_type: IpType::Residential,
            ..GeoData::default()
        };
        app.rows.push(RowModel::new(&proxy));
        app.results.push(proxy);
    }
    app.screen = Screen::Done;
    app.refresh_visible();
    app
}

/// A run of spans as one line.
fn flatten(spans: &[Span]) -> String {
    spans.iter().map(|span| span.text.as_str()).collect()
}

/// Cells a run of spans occupies, measured the way the terminal does.
fn cells(spans: &[Span]) -> usize {
    spans
        .iter()
        .map(|span| UnicodeWidthStr::width(span.text.as_str()))
        .sum()
}

/// A text with runs of whitespace collapsed.
fn normalized(text: &str) -> String {
    text.split_whitespace().collect::<Vec<_>>().join(" ")
}

/// The column index that reports on a sort key.
fn column_index(key: SortKey) -> usize {
    (0..COLUMN_COUNT)
        .position(|index| flx::tui::view::column(index).sort_key == Some(key))
        .expect("every sort key has a column")
}

fn progress(done: usize, total: usize, passed: usize, part: u32, whole: u32) -> Progress {
    Progress {
        done,
        total,
        passed,
        part,
        whole,
    }
}

fn rate(probes: usize, nanos: u64) -> Rate {
    Rate { probes, nanos }
}

fn title_of(app: &App) -> String {
    table_title(
        app.visible.len(),
        app.results.len(),
        &app.view,
        app.overflow,
        false,
    )
}

#[test]
fn the_too_small_frame_states_the_requirement() {
    let rendered = too_small(false);
    assert!(rendered.contains("terminal too small"), "got: {rendered}");
    assert!(
        rendered.contains(&format!("{}{}", MIN_WIDTH, glyph(Glyph::Times, false))),
        "the message must name the minimum, got: {rendered}"
    );
}

#[test]
fn the_table_title_reports_filter_and_overflow_only_when_real() {
    let plain = sample_app(3);
    let title = title_of(&plain);
    assert!(title.contains("3/3"), "got {title}");
    assert!(!title.contains("filter"), "got {title}");
    assert!(!title.contains("over cap"), "got {title}");

    let mut filtered = sample_app(3);
    filtered.view.filter = "ID".to_owned();
    filtered.overflow = 12;
    let title = title_of(&filtered);
    assert!(title.contains("filter \"ID\""), "got {title}");
    assert!(title.contains("over cap 12"), "got {title}");
}

#[test]
fn the_header_indicator_sits_on_the_sorted_column_only() {
    let mut app = sample_app(3);
    app.view.sort = Some(SortKey::Country);
    let country = column_index(SortKey::Country);
    let sorted = header_text(country, 4, &app.view, false);
    assert!(
        sorted.contains(app.view.order_glyph(false)),
        "the sorted column needs an indicator, got {sorted}"
    );

    let other = header_text(column_index(SortKey::AvgResponseTime), 8, &app.view, false);
    assert!(
        !other.contains(app.view.order_glyph(false)),
        "only the sorted column is marked, got {other}"
    );
}

#[test]
fn the_help_body_documents_every_binding_and_note() {
    let body = normalized(
        &help_body()
            .iter()
            .map(|line| flatten(line))
            .collect::<Vec<_>>()
            .join("\n"),
    );

    for (group, scope) in help_groups() {
        assert!(body.contains(group), "the {group} group is missing");
        for (keys, detail) in bindings_on(scope) {
            assert!(
                body.contains(&format!("{keys} {detail}")),
                "`{keys} {detail}` is missing from the help panel"
            );
        }
    }
    for note in help_notes() {
        assert!(body.contains(note), "the note {note:?} is missing");
    }
}

#[test]
fn the_help_panel_scrolls_through_its_own_body() {
    let mut app = sample_app(3);
    app.help = true;
    let body = help_body();
    let rows = body.len() as u16;
    let widest = body.iter().map(|line| cells(line)).max().unwrap_or(0) as u16;
    let area = Rect::new(0, 0, 80, 24);
    let shown = |app: &App| -> String {
        let panel = help_panel(area, rows, widest, app.help_scroll);
        let lines: Vec<String> = body
            .iter()
            .skip(panel.scroll as usize)
            .take(panel.visible as usize)
            .map(|line| flatten(line))
            .collect();
        normalized(&lines.join("\n"))
    };

    // The panel opens at the top, so the first group is on screen and the
    // notes at the end are not.
    let top = shown(&app);
    assert!(
        top.contains(help_groups()[0].0),
        "the first group is on screen: {top:?}"
    );
    assert!(
        !top.contains(help_notes()[0]),
        "with more below, the notes are off screen"
    );
    let footer = footer_lines(app.key_context(), None, false);
    assert!(
        normalized(&flatten(&footer[0])).contains("esc close"),
        "the way out is in the footer: {footer:?}"
    );

    // `G` jumps to the end of the body, and the title reports where it is.
    app.handle_action(Action::GotoBottom, NOW);
    assert!(
        shown(&app).contains(help_notes()[0]),
        "the notes are reachable"
    );
    let panel = help_panel(area, rows, widest, app.help_scroll);
    let title = help_title(panel.scroll, panel.visible, rows);
    assert!(
        title.contains("help ") && title.contains('/'),
        "the title reports the position: {title:?}"
    );

    // Any unbound key leaves, from wherever the panel is scrolled.
    app.handle_action(Action::ScrollUp, NOW);
    assert!(app.help, "scrolling does not close the panel");
    app.handle_action(Action::GotoTop, NOW);
    assert_eq!(app.help_scroll, 0);
}

#[test]
fn a_short_help_body_leaves_no_position_in_the_title() {
    // The title only reports a window when there is something to scroll to.
    let body = help_body();
    let rows = body.len() as u16;
    let panel = help_panel(Rect::new(0, 0, 100, 60), rows, 60, 0);
    assert_eq!(
        help_title(panel.scroll, panel.visible, rows),
        " help ",
        "a fully visible panel needs no window"
    );
    assert_eq!(help_title(0, 22, 40), " help 1-22/40 ");
    assert_eq!(help_title(18, 22, 40), " help 19-40/40 ");
}

#[test]
fn typing_a_row_number_shows_up_in_the_footer() {
    let mut app = sample_app(20);

    // A half-typed number replaces the hints: the footer is where the user
    // already looks, and the count is the only thing left to decide.
    app.handle_action(Action::Count(1), NOW);
    app.handle_action(Action::Count(2), NOW);
    let hints = flatten(&footer_lines(app.key_context(), None, false)[0]);
    assert!(
        normalized(&hints).contains("12 G go to row"),
        "got {hints:?}"
    );

    // Once the jump lands, the ordinary hints come back.
    app.handle_action(Action::GotoCount, NOW);
    assert_eq!(app.view.selected, 11);
    let hints = flatten(&footer_lines(app.key_context(), None, false)[0]);
    assert!(
        normalized(&hints).contains("s sort"),
        "the hints must return, got {hints:?}"
    );
}

#[test]
fn the_ordinal_numbers_the_view_not_the_run() {
    let mut app = sample_app(6);
    app.view.filter = "ID".to_owned();
    app.refresh_visible();
    assert_eq!(app.visible.len(), 3, "every other row is ID");

    // Every line starts with the row's place in the current view, so a filter
    // renumbers the table rather than leaving gaps.
    let numbered: Vec<String> = app
        .visible
        .iter()
        .enumerate()
        .map(|(position, index)| {
            flatten(&body_cell(&app.rows[*index], position + 1, 0, 2, None, false))
        })
        .collect();
    assert_eq!(numbered, vec!["1", "2", "3"]);
}

#[test]
fn a_filter_match_is_highlighted_where_it_matched() {
    let mut app = sample_app(3);
    app.view.filter = "ID".to_owned();
    app.refresh_visible();
    assert_eq!(app.visible.len(), 1, "the filter narrows to the ID rows");
    let row = &app.rows[app.visible[0]];
    let hit = find_hit(row, "ID");
    let shown = body_cell(row, 1, COUNTRY_COLUMN + 1, 4, hit, false);
    assert!(
        shown
            .iter()
            .any(|span| span.tone == Tone::Match && span.text == "ID"),
        "the matched substring is marked, not just the row set"
    );
}

#[test]
fn a_bad_judge_report_is_the_only_one_that_shows() {
    assert_eq!(
        unhealthy_judges(Some("8/8 judges healthy")),
        None,
        "all-healthy is the norm"
    );
    assert_eq!(
        unhealthy_judges(Some("3/8 judges healthy")).as_deref(),
        Some("3/8 judges healthy")
    );
    assert_eq!(unhealthy_judges(None), None);
}

#[test]
fn the_progress_strip_reports_counts_percent_rate_and_split() {
    let spans = progress_spans(
        progress(250, 1000, 240, 1, 4),
        rate(25, 2 * SECOND),
        60,
        false,
    );
    let rendered = flatten(&spans);
    assert!(rendered.contains("250/1000"), "got {rendered:?}");
    assert!(rendered.contains("25%"), "got {rendered:?}");
    assert!(rendered.contains("12.5/s"), "got {rendered:?}");
    assert!(rendered.contains("240"), "the pass count is shown");
    assert!(rendered.contains("10"), "the fail count is shown");

    // The bar reflects the fraction: three full cells plus a sub-cell
    // partial, on a bar a quarter of the row wide.
    let bar = spans[0].text.as_str();
    assert_eq!(
        UnicodeWidthStr::width(bar),
        15,
        "a quarter of 60, got {bar:?}"
    );
    assert_eq!(
        bar.chars().filter(|cell| *cell != ' ').count(),
        4,
        "0.25 of 15 cells is three full and one partial, got {bar:?}"
    );
    assert!(
        cells(&spans) <= 60,
        "the strip must fit its row, got {}",
        cells(&spans)
    );
}

#[test]
fn the_bar_keeps_its_width_as_the_numbers_grow() {
    // Numbers that change width must not shuffle the row, so the bar's own
    // width never depends on them.
    for (done, passed, per_second) in [
        (0usize, 0usize, rate(0, 1)),
        (250, 240, rate(25, 2 * SECOND)),
        (9999, 9990, rate(3, SECOND)),
    ] {
        let share = progress_spans(
            progress(done, 10000, passed, done as u32, 10_000),
            per_second,
            80,
            false,
        );
        assert_eq!(
            UnicodeWidthStr::width(share[0].text.as_str()),
            20,
            "a quarter of 80 stays 20 for {done}/10000"
        );
    }
}

#[test]
fn a_cramped_progress_strip_sheds_the_numbers_not_the_bar() {
    let strip = |width: u16| {
        progress_spans(
            progress(250, 1000, 240, 1, 4),
            rate(25, 2 * SECOND),
            width,
            false,
        )
    };
    let at = |width: u16| flatten(&strip(width));

    let rendered = at(30);
    assert!(
        !rendered.contains("12.5/s"),
        "the rate goes first, got {rendered:?}"
    );
    assert!(rendered.contains("250/1000"), "got {rendered:?}");

    // The split is the last extra to go, and only outside the supported range.
    assert!(at(60).contains("240"), "got {:?}", at(60));
    assert!(!at(40).contains("240"), "got {:?}", at(40));

    // Whatever the row, the strip never spills past it.
    for width in 12..=200u16 {
        let used = cells(&strip(width));
        assert!(
            used <= width as usize,
            "the strip overflows {width} at {used} cells: {:?}",
            at(width)
        );
    }
}

#[test]
fn a_click_selects_the_row_it_landed_on() {
    let mut app = sample_app(20);
    let area = Rect::new(0, 0, 80, 24);

    // The first data row sits under the table's header.
    let layout = compute_layout(area).expect("80x24 is supported");
    let first = layout.table.y + 1;
    let clicked = |app: &App, row: u16| row_at(area, row, app.view.selected, app.visible.len());

    assert_eq!(clicked(&app, first), Some(0));
    assert_eq!(clicked(&app, first + 4), Some(4));
    assert_eq!(
        clicked(&app, layout.table.y),
        None,
        "the header is not a row"
    );
    assert_eq!(
        clicked(&app, layout.table.bottom()),
        None,
        "a click below the last row selects nothing"
    );

    app.select_visible(4);
    assert_eq!(app.view.selected, 4);
    app.select_visible(999);
    assert_eq!(app.view.selected, 4, "an out-of-range click is ignored");
}

#[test]
fn the_header_clock_stops_once_the_run_is_over() {
    let mut app = App::new(false, "default".to_owned());
    app.started = Some(NOW - 7 * SECOND);
    app.cancel_run(NOW);

    let line = |app: &App, now: u64| {
        flatten(&identity(
            app.mode_label(),
            app.screen,
            app.cancelled,
            app.elapsed(now),
            false,
        ))
    };
    let first = line(&app, NOW);
    let second = line(&app, NOW + 20_000_000);

    assert!(
        first.contains("done"),
        "the identity line says the run is over, got {first:?}"
    );
    assert_eq!(
        first, second,
        "a finished run's clock must not keep ticking in the header"
    );
}

#[test]
fn durations_read_in_seconds_then_in_minutes() {
    assert_eq!(format_duration(0), "0.0s");
    assert_eq!(format_duration(1_250_000_000), "1.2s");
    assert_eq!(format_duration(59_900_000_000), "59.9s");
    assert_eq!(format_duration(60 * SECOND), "1m 00s");
    assert_eq!(format_duration(125 * SECOND), "2m 05s");
}

#[test]
fn rates_read_per_second() {
    assert_eq!(format_rate(rate(25, 2 * SECOND)), "12.5/s");
    assert_eq!(format_rate(rate(0, 1)), "0.0/s");
}

#[test]
fn a_run_that_fetches_shows_its_phase_and_a_late_spinner() {
    let mut live = LiveLine {
        phase: Phase::FetchingPrimary,
        phase_elapsed: 0,
        gathered: 7,
        progress: None,
        paused: false,
    };
    let fresh = running_summary(&Some(live), rate(0, 1), None, 80, true);
    assert_eq!(fresh.len(), 3);
    assert!(flatten(&fresh).ends_with("gathered 7"));

    live = LiveLine {
        phase: Phase::FetchingPrimary,
        phase_elapsed: 200_000_000,
        gathered: 7,
        progress: None,
        paused: true,
    };
    let late = running_summary(&Some(live), rate(0, 1), Some("3/8 judges healthy"), 80, true);
    assert_eq!(late.len(), 7, "spinner, pause and judges: {late:?}");
    assert!(flatten(&late).contains("paused"));
    assert!(flatten(&late).ends_with("3/8 judges healthy"));
}

#[test]
fn a_run_without_a_phase_is_starting() {
    let line = running_summary(&None, rate(0, 1), None, 80, true);
    assert!(flatten(&line).starts_with(" starting"));
}

#[test]
fn a_finished_run_tells_what_it_kept() {
    let summary = RunSummary {
        gathered: 10,
        valid: 4,
        failed: 6,
        elapsed: 2 * SECOND,
    };
    let line = done_summary(&Some(summary), 4, true, true);
    let dot = glyph(Glyph::Dot, true);
    assert_eq!(
        flatten(&line),
        format!(" kept 4  6 failed {dot} gathered 10 in 2.0s  cancelled")
    );
    assert_eq!(flatten(&done_summary(&None, 3, false, true)), " 3 rows");
}

#[test]
fn the_detail_lists_the_whole_record() {
    let app = sample_app(1);
    let lines: Vec<String> = detail_lines(Some(&app.results[0]), Some("timeout"), true)
        .iter()
        .map(|line| flatten(line))
        .collect();
    let dot = glyph(Glyph::Dot, true);
    assert_eq!(lines[0], " 203.0.113.1:8000");
    assert_eq!(
        lines[1],
        format!(" geo         DE {dot} Berlin {dot} asn 15169")
    );
    assert_eq!(lines[2], " org         Example Networks");
    assert_eq!(
        lines[3],
        format!(" rtt         0.10s {dot} n=1 {dot} min 0.10s max 0.10s")
    );
    assert_eq!(lines[4], " types       SOCKS5");
    assert_eq!(lines[5], " last failure timeout");
    assert_eq!(
        flatten(&detail_lines(None, None, true)[0]),
        " no row selected"
    );
}

#[test]
fn an_unknown_place_is_written_with_dashes() {
    let proxy = Proxy::parse("1.2.3.4:80").unwrap();
    let dot = glyph(Glyph::Dot, true);
    assert_eq!(geo_summary(&proxy, true), format!("-- {dot} - {dot} asn -"));
    assert_eq!(types_summary(&proxy), "unvalidated");
}

#[test]
fn a_match_past_the_cut_is_not_highlighted() {
    let app = sample_app(1);
    let row = &app.rows[0];
    let hit = find_hit(row, "8000");
    assert!(hit.is_some());
    let cut = body_cell(row, 1, 1, 10, hit, false);
    assert_eq!(cut.len(), 1, "got {cut:?}");
    let whole = body_cell(row, 1, 1, 30, hit, false);
    assert_eq!(whole.len(), 3, "got {whole:?}");
    assert_eq!(whole[1].text, "8000");
}

#[test]
fn messages_take_the_second_line_in_their_tone() {
    let app = sample_app(1);
    let lines = footer_lines(
        app.key_context(),
        Some(("no judges reachable", MessageKind::Error)),
        true,
    );
    assert_eq!(lines.len(), 2);
    assert_eq!(flatten(&lines[1]), " no judges reachable");
    assert_eq!(lines[1][0].tone, Tone::Error);
}

#[test]
fn overlays_are_centered_and_kept_inside() {
    let area = Rect::new(0, 0, 100, 40);
    assert_eq!(popup_area(area, 40, 10), Rect::new(30, 15, 40, 10));
    assert_eq!(popup_area(area, 400, 100), area);
    assert_eq!(percent_of(100, 70), 70);
    assert_eq!(percent_of(u16::MAX, 100), 655, "the product saturates");
    assert_eq!(overlay_width(Rect::new(0, 0, 40, 12), 60), 30);
    assert_eq!(input_area(area), Rect::new(20, 17, 60, 5));
    assert_eq!(confirm_area(area), Rect::new(20, 17, 60, 5));
    assert_eq!(detail_area(area, 6), Rect::new(15, 16, 70, 8));
    assert_eq!(input_title(InputPurpose::Filter), " filter ");
    assert_eq!(input_title(InputPurpose::ExportPath), " export to path ");
}

#[test]
fn the_caret_follows_the_text_until_it_outgrows_the_prompt() {
    let target = Rect::new(10, 5, 12, 5);
    assert_eq!(caret(target, "abc"), Some((15, 6)));
    assert_eq!(caret(target, "\u{4e2d}\u{6587}"), Some((16, 6)));
    assert_eq!(caret(target, "abcdefghijkl"), None);
}

#[test]
fn a_confirmation_shows_its_keys() {
    let lines = confirm_lines("cancel the run?");
    assert_eq!(flatten(&lines[0]), "cancel the run?");
    assert_eq!(flatten(&lines[1]), " y yes     n no");
}

#[test]
fn the_mouse_only_speeds_the_keyboard_up() {
    let area = Rect::new(0, 0, 80, 24);
    let first = compute_layout(area).unwrap().table.y + 1;
    assert_eq!(
        handle_mouse(false, MouseKind::ScrollDown, area, 0, 0, 5),
        MouseIntent::Act(Action::ScrollDown)
    );
    assert_eq!(
        handle_mouse(false, MouseKind::ScrollUp, area, 0, 0, 5),
        MouseIntent::Act(Action::ScrollUp)
    );
    assert_eq!(
        handle_mouse(false, MouseKind::Press, area, first + 2, 0, 5),
        MouseIntent::Select(2)
    );
    assert_eq!(
        handle_mouse(false, MouseKind::Press, area, first + 9, 0, 5),
        MouseIntent::Nothing
    );
    assert_eq!(
        handle_mouse(true, MouseKind::Press, area, first, 0, 5),
        MouseIntent::Nothing
    );
    assert_eq!(
        handle_mouse(false, MouseKind::Other, area, first, 0, 5),
        MouseIntent::Nothing
    );
}

#[test]
fn terminals_without_a_utf8_locale_get_ascii() {
    assert!(detect_ascii(true, &vec!["en_US.UTF-8".to_owned()]));
    assert!(!detect_ascii(false, &vec!["en_US.utf8".to_owned()]));
    assert!(detect_ascii(false, &vec!["C".to_owned()]));
    assert!(detect_ascii(false, &Vec::new()));
    assert!(glyph(Glyph::ArrowUp, true).is_ascii());
    assert!(!glyph(Glyph::ArrowUp, false).is_ascii());
    assert!(monochrome(true, None));
    assert!(monochrome(false, Some("1")));
    assert!(!monochrome(false, Some("")));
    assert!(!monochrome(false, None));
}

/// The rows of the results that a screen shows.
fn shown_rows(app: &App, area: Rect) -> Vec<usize> {
    (0..area.height)
        .filter_map(|row| row_at(area, row, app.view.selected, app.visible.len()))
        .collect()
}

#[test]
fn the_selected_row_stays_visible_at_the_bottom() {
    let mut app = sample_app(30);
    app.view.selected = 29;
    app.refresh_visible();
    let area = Rect { x: 0, y: 0, width: 100, height: 16 };
    assert_eq!(shown_rows(&app, area).last(), Some(&29));
}

#[test]
fn every_selection_stays_highlighted_while_scrolling() {
    let mut app = sample_app(30);
    let area = Rect { x: 0, y: 0, width: 100, height: 16 };
    for selected in 0..app.visible.len() {
        app.view.selected = selected;
        assert!(
            shown_rows(&app, area).contains(&selected),
            "selection {selected} must stay on screen"
        );
    }
}
