//! What the results table shows and where it goes.

use flx::filters::{SortKey, SortOrder};
use flx::geolookup::models::GeoData;
use flx::net::Ipv4Addr;
use flx::proxy::models::{Anonymity, Protocol, Proxy, ProxyType};
use flx::tui::view::{
    case_of, chars_eq, clamp_cells, clamp_selection, compute_layout, find_hit, find_match,
    fit_chars, fit_columns, matches_filter, ordinal_width, progress_bar, spinner_frame, table_rows,
    visible, window, Case, Rect, RowModel, Source, ViewState, COLUMN_COUNT, COLUMN_SPACING,
    COUNTRY_COLUMN, FOOTER_ROWS, HEADER_ROWS, ORDINAL_MAX, ORDINAL_MIN, SPINNER_DELAY, STATUS_ROWS,
};
use unicode_width::UnicodeWidthStr;

fn proxy(last: u8, rtt: u64, country: &str) -> Proxy {
    let mut proxy = Proxy::new(
        Ipv4Addr {
            a: 10,
            b: 0,
            c: 0,
            d: last,
        },
        8000 + u16::from(last),
    );
    proxy.runtimes.record(rtt);
    proxy.geo = GeoData {
        iso_code: Some(country.to_owned()),
        ..GeoData::default()
    };
    proxy
}

fn rows_of(proxies: &[Proxy]) -> Vec<RowModel> {
    proxies.iter().map(RowModel::new).collect()
}

#[test]
fn filter_matches_endpoint_and_country() {
    let proxies = vec![proxy(1, 200_000, "DE"), proxy(2, 400_000, "ID")];
    let rows = rows_of(&proxies);
    let by_country = ViewState {
        filter: "id".to_owned(),
        ..ViewState::default()
    };
    assert_eq!(visible(&rows, &by_country), vec![1]);
    let by_endpoint = ViewState {
        filter: "10.0.0.1".to_owned(),
        ..ViewState::default()
    };
    assert_eq!(visible(&rows, &by_endpoint), vec![0]);
}

#[test]
fn an_uppercase_filter_becomes_case_sensitive() {
    let proxies = vec![proxy(1, 200_000, "DE"), proxy(2, 400_000, "ID")];
    let rows = rows_of(&proxies);
    assert_eq!(case_of("de"), Case::Insensitive);
    assert_eq!(case_of("De"), Case::Sensitive);

    for filter in ["de", "DE"] {
        let view = ViewState {
            filter: filter.to_owned(),
            ..ViewState::default()
        };
        assert_eq!(visible(&rows, &view), vec![0], "filter {filter:?}");
    }

    let wrong_case = ViewState {
        filter: "De".to_owned(),
        ..ViewState::default()
    };
    assert!(
        visible(&rows, &wrong_case).is_empty(),
        "an uppercase filter must not match a differently cased cell"
    );
}

#[test]
fn a_hit_points_at_the_matching_column_and_range() {
    let proxies = vec![proxy(1, 200_000, "DE")];
    let rows = rows_of(&proxies);

    let country = find_hit(&rows[0], "DE").expect("the country matches");
    assert_eq!(country.column, COUNTRY_COLUMN);
    assert_eq!(
        &rows[0].cells[country.column][country.range.0..country.range.1],
        "DE"
    );

    let endpoint = find_hit(&rows[0], "10.0.0.").expect("the endpoint matches");
    assert_eq!(endpoint.column, 0);
    assert_eq!(
        &rows[0].cells[endpoint.column][endpoint.range.0..endpoint.range.1],
        "10.0.0."
    );
}

#[test]
fn ordering_follows_the_sort_key_and_direction() {
    let proxies = vec![proxy(1, 500_000, "DE"), proxy(2, 100_000, "ID")];
    let rows = rows_of(&proxies);
    let fastest_first = ViewState {
        sort: Some(SortKey::AvgResponseTime),
        ..ViewState::default()
    };
    assert_eq!(visible(&rows, &fastest_first), vec![1, 0]);

    let slowest_first = ViewState {
        order: SortOrder::Desc,
        ..fastest_first
    };
    assert_eq!(visible(&rows, &slowest_first), vec![0, 1]);

    let by_country = ViewState {
        sort: Some(SortKey::Country),
        ..ViewState::default()
    };
    assert_eq!(visible(&rows, &by_country), vec![0, 1]);
}

#[test]
fn sort_cycles_through_every_key_and_back() {
    let mut view = ViewState::default();
    view.cycle_sort();
    assert_eq!(view.sort, Some(SortKey::AvgResponseTime));
    assert_eq!(view.sort_label(), "response-time");
    view.cycle_sort();
    assert_eq!(view.sort, Some(SortKey::Country));
    view.cycle_sort();
    assert_eq!(view.sort, Some(SortKey::Anonymity));
    view.cycle_sort();
    assert_eq!(view.sort, None);
    assert_eq!(view.sort_label(), "arrival");
}

#[test]
fn selection_clamps_to_available_rows() {
    let mut view = ViewState {
        selected: 9,
        ..ViewState::default()
    };
    clamp_selection(&mut view, 3);
    assert_eq!(view.selected, 2);
    clamp_selection(&mut view, 0);
    assert_eq!(view.selected, 0);
}

#[test]
fn window_keeps_the_selection_visible() {
    assert_eq!(window(0, 5, 20), (0, 5));
    assert_eq!(window(12, 5, 20), (8, 13));
    assert_eq!(window(19, 5, 20), (15, 20));
    assert_eq!(window(3, 5, 0), (0, 0));
    assert_eq!(window(3, 0, 10), (0, 0));
}

#[test]
fn table_reserves_only_its_column_header() {
    assert_eq!(table_rows(14), 13);
    assert_eq!(table_rows(3), 2);
    assert_eq!(table_rows(0), 0);
}

#[test]
fn minimalist_layout_keeps_the_table_full_width() {
    let layout = compute_layout(Rect::new(0, 0, 80, 24)).expect("80x24 is supported");
    assert_eq!(layout.header.height, HEADER_ROWS);
    assert_eq!(layout.status.height, STATUS_ROWS);
    assert_eq!(layout.footer.height, FOOTER_ROWS);
    assert_eq!(layout.table.width, 80);
    assert_eq!(layout.table.y, layout.status.bottom());
    assert_eq!(
        layout.table.height,
        24 - HEADER_ROWS - STATUS_ROWS - FOOTER_ROWS
    );
}

#[test]
fn wide_terminals_keep_the_same_single_pane_layout() {
    let layout = compute_layout(Rect::new(0, 0, 200, 50)).expect("200x50 is supported");
    assert_eq!(layout.table.width, 200);
    assert_eq!(layout.table.x, 0);
}

#[test]
fn the_layout_refuses_terminals_below_the_minimum() {
    assert!(compute_layout(Rect::new(0, 0, 59, 24)).is_none());
    assert!(compute_layout(Rect::new(0, 0, 60, 11)).is_none());
    let minimum = compute_layout(Rect::new(0, 0, 60, 12)).expect("60x12 is supported");
    assert_eq!(minimum.table.width, 60);
    assert_eq!(minimum.table.height, 8);
}

#[test]
fn narrow_terminals_drop_asn_then_count_then_type() {
    let titles = |available: u16| -> Vec<&'static str> {
        fit_columns(available, 40)
            .into_iter()
            .map(|(index, _)| flx::tui::view::column(index).title)
            .collect()
    };

    assert_eq!(
        titles(120),
        vec!["#", "IP:PORT", "PROTO", "ANON", "CC", "TYPE", "ASN", "RTT", "N"]
    );
    // 56 cells is what a 60-column terminal leaves the table.
    assert_eq!(
        titles(56),
        vec!["#", "IP:PORT", "PROTO", "ANON", "CC", "RTT"],
        "ASN, N, and TYPE are the first to go, never the ordinal"
    );
}

#[test]
fn the_ordinal_column_is_as_wide_as_the_numbers_it_shows() {
    let width = |rows: usize| -> u16 {
        fit_columns(120, rows)
            .into_iter()
            .find(|(index, _)| flx::tui::view::column(*index).source == Source::Ordinal)
            .map(|(_, width)| width)
            .expect("the ordinal is always shown")
    };

    // Two cells covers the `#` header for short lists.
    assert_eq!(width(1), ORDINAL_MIN);
    assert_eq!(width(99), ORDINAL_MIN);
    assert_eq!(width(100), 3);
    assert_eq!(width(1_234), 4);
    assert_eq!(width(1_000_000), ORDINAL_MAX);
    assert_eq!(width(usize::MAX), ORDINAL_MAX, "and it stops growing");
}

#[test]
fn the_ordinal_survives_every_narrow_terminal() {
    // The number is the address `{n}G` takes, so it must never be the
    // column that hides.
    for available in [12u16, 20, 30, 40, 56] {
        let shown = fit_columns(available, 500);
        assert!(
            shown
                .iter()
                .any(|(index, _)| flx::tui::view::column(*index).source == Source::Ordinal),
            "the ordinal vanished at {available} cells"
        );
    }
}

#[test]
fn fitted_columns_use_the_whole_width() {
    // The ceilings cap how wide the table stretches; below that it must
    // leave no dead cells at the right edge. Columns that never grow stop
    // at their preferred width.
    let ceilings: u16 = (0..COLUMN_COUNT)
        .map(flx::tui::view::column)
        .map(|column| match column.source {
            // The ordinal is already at the widest it needs to be.
            Source::Ordinal => ordinal_width(500),
            Source::Cell(_) => match column.grow_rank {
                Some(_) => column.max,
                None => column.preferred,
            },
        })
        .sum();
    let gaps = COLUMN_SPACING * (COLUMN_COUNT as u16 - 1);
    let widest = ceilings + gaps;

    for available in [56u16, 70, 90, 120, 160] {
        let columns = fit_columns(available, 500);
        let cells: u16 = columns.iter().map(|(_, width)| width).sum();
        let gaps = COLUMN_SPACING * (columns.len() as u16 - 1);
        let used = cells + gaps;
        assert!(
            used <= available,
            "{available} cells is an overflow at {used}, got {columns:?}"
        );
        assert_eq!(
            used,
            available.min(widest),
            "{available} cells should be used exactly, got {columns:?}"
        );
    }
}

#[test]
fn columns_never_shrink_below_their_floor() {
    for available in [20u16, 30, 40, 50, 56] {
        for (index, width) in fit_columns(available, 500) {
            assert!(
                width >= flx::tui::view::column(index).min,
                "{} shrank to {width}, below its floor",
                flx::tui::view::column(index).title
            );
        }
    }
}

#[test]
fn narrow_cells_truncate_with_a_reserved_ellipsis() {
    let clamped = clamp_cells("203.0.113.207:8080", 10, false);
    assert_eq!(UnicodeWidthStr::width(clamped.as_str()), 10);
    assert!(clamped.ends_with('\u{2026}'));

    let short = clamp_cells("203.0.113.7:80", 21, false);
    assert_eq!(short, "203.0.113.7:80", "short cells are not rewritten");
}

#[test]
fn a_cut_text_of_ascii_fills_its_cells_exactly() {
    for max in 0..=20 {
        let clamped = clamp_cells("203.0.113.207:8080", max, true);
        assert_eq!(UnicodeWidthStr::width(clamped.as_str()), usize::from(max.min(18)));
    }
    assert_eq!(clamp_cells("203.0.113.207:8080", 5, true), "203.~");
}

#[test]
fn clamping_counts_cells_not_bytes() {
    // Three CJK glyphs are six cells wide; the ellipsis needs the seventh.
    let clamped = clamp_cells("\u{4e2d}\u{6587}\u{5b57}\u{4e2d}", 7, false);
    assert_eq!(UnicodeWidthStr::width(clamped.as_str()), 7);
    assert!(clamped.starts_with("\u{4e2d}\u{6587}\u{5b57}"));
    assert!(clamped.ends_with('\u{2026}'));
}

#[test]
fn emoji_and_combining_marks_do_not_overflow_their_cell() {
    let emoji = clamp_cells("\u{1f310}\u{1f310}\u{1f310}", 3, false);
    assert!(UnicodeWidthStr::width(emoji.as_str()) <= 3, "got {emoji:?}");

    let combining = clamp_cells("e\u{301}e\u{301}e\u{301}", 2, false);
    assert!(UnicodeWidthStr::width(combining.as_str()) <= 2, "got {combining:?}");
}

#[test]
fn progress_bar_fills_cell_by_cell() {
    assert_eq!(progress_bar(0, 8, 4, false), "    ");
    assert_eq!(progress_bar(8, 8, 4, false), "\u{2588}\u{2588}\u{2588}\u{2588}");
    assert_eq!(progress_bar(4, 8, 4, false), "\u{2588}\u{2588}  ");
    // Half a cell is a half-filled leading cell, not a rounded-up one.
    let partial = progress_bar(1, 8, 4, false);
    assert_eq!(partial, "\u{258b}   ", "got {partial:?}");
    assert_eq!(partial.chars().count(), 4);
    assert_eq!(progress_bar(4, 8, 0, false), "");
}

#[test]
fn the_ascii_fallback_draws_an_ascii_bar() {
    assert_eq!(progress_bar(4, 8, 4, true), "##--");
}

#[test]
fn the_spinner_advances_with_time() {
    let first = spinner_frame(0, false);
    assert_ne!(first, spinner_frame(80, false));
    assert_eq!(first, spinner_frame(800, false));
    assert!((150..=200).contains(&SPINNER_DELAY));
}

#[test]
fn a_row_shows_what_is_known_of_a_proxy() {
    let mut proxy = proxy(1, 1_234_567, "DE");
    proxy
        .proxy_types
        .push(ProxyType::checked(Protocol::Http(Anonymity::Elite), 0));
    proxy.proxy_types.push(ProxyType::checked(Protocol::Socks5, 0));
    proxy.geo.asn = Some(3320);
    proxy.geo.aso = Some("Deutsche Telekom".to_owned());
    let row = RowModel::new(&proxy);
    assert_eq!(row.cells[0], "10.0.0.1:8001");
    assert_eq!(row.cells[COUNTRY_COLUMN], "DE");
    assert_eq!(row.rtt.micros(), 1_234_567);
    assert_eq!(row.organization, "Deutsche Telekom");
    assert!(row.cells[6].contains("1.23"), "got {:?}", row.cells);
    assert_eq!(row.cells[7], "1");
}

#[test]
fn the_filter_reaches_the_organization_without_a_hit() {
    let mut proxy = proxy(1, 200_000, "DE");
    proxy.geo.aso = Some("Telekom".to_owned());
    let row = RowModel::new(&proxy);
    assert!(matches_filter(&row, "telekom"));
    assert!(find_hit(&row, "telekom").is_none());
    assert!(!matches_filter(&row, "vodafone"));
}

#[test]
fn a_match_is_found_by_bytes_and_by_case() {
    assert_eq!(find_match("\u{e9}\u{e9}ab", "ab", Case::Sensitive), Some((4, 6)));
    assert_eq!(find_match("ABC", "bc", Case::Insensitive), Some((1, 3)));
    assert_eq!(find_match("ABC", "bc", Case::Sensitive), None);
    assert_eq!(find_match("ABC", "", Case::Insensitive), None);
    assert!(chars_eq('\u{c9}', '\u{e9}', Case::Insensitive));
    assert!(!chars_eq('\u{c9}', '\u{e9}', Case::Sensitive));
}

#[test]
fn characters_are_kept_while_they_fit() {
    assert_eq!(fit_chars("\u{4e2d}\u{6587}", 3), "\u{4e2d}");
    assert_eq!(fit_chars("abc", 2), "ab");
    assert_eq!(clamp_cells("abcdef", 4, true), "abc~");
    assert_eq!(clamp_cells("abcdef", 0, true), "");
}

#[test]
fn toggling_the_order_turns_the_arrow() {
    let mut view = ViewState::default();
    let up = view.order_glyph(true);
    view.toggle_order();
    assert_eq!(view.order, SortOrder::Desc);
    assert_ne!(view.order_glyph(true), up);
    view.selected = 4;
    view.reset_position();
    assert_eq!(view.selected, 0);
}

#[test]
fn the_layout_follows_where_the_area_starts() {
    let layout = compute_layout(Rect::new(3, 7, 80, 24)).expect("80x24 is supported");
    assert_eq!(layout.header.y, 7);
    assert_eq!(layout.table.x, 3);
    assert_eq!(layout.footer.y, 7 + 24 - FOOTER_ROWS);
}
