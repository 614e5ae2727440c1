//! Numbers as the nearest doubles, and the texts that are rounded from them.

use flx::double::Double;
use flx::net::Ipv4Addr;
use flx::proxy::models::{Mean, Proxy};
use flx::rotator::{fmt_bytes, fmt_dur};
use flx::tui::app::Rate;
use flx::tui::export::Rendering;
use flx::tui::ui::{format_duration, format_rate};
use flx::tui::view::progress_bar;
use std::time::Duration;

fn value(x: Double) -> f64 {
    x.mantissa as f64 * 2f64.powi(x.exponent)
}

fn sampled(samples: &[u64]) -> Proxy {
    let mut proxy = Proxy::new(Ipv4Addr::new(203, 0, 113, 7), 8080);
    samples.iter().for_each(|sample| proxy.runtimes.record(*sample));
    proxy
}

fn csv_time(proxy: Proxy) -> String {
    match flx::tui::export::write("csv", None, &vec![proxy]) {
        Rendering::Text(text) => text.trim_end().rsplit(',').next().unwrap().to_owned(),
        _ => panic!("not rendered as text"),
    }
}

#[test]
fn a_ratio_is_taken_to_the_nearest_double() {
    for (n, d) in [
        (1u64, 3u64),
        (2, 3),
        (1, 10),
        (7, 1),
        (115, 100),
        (u64::MAX, 1),
        ((1 << 53) + 1, 1),
        ((1 << 53) + 3, 1),
        (1, 1_000_000_000),
        (123_456_789_012, 1_000_000),
    ] {
        let x = Double::nearest_to(u128::from(n), u128::from(d));
        assert_eq!(value(x), n as f64 / d as f64, "{n} over {d}");
    }
    assert_eq!(Double::nearest_to(0, 7), Double { mantissa: 0, exponent: 0 });
    assert_eq!(Double::nearest_to(1, 1), Double { mantissa: 1 << 52, exponent: -52 });
}

#[test]
fn doubles_multiply_and_divide_to_the_nearest() {
    let tenth = Double::nearest_to(1, 10);
    assert_eq!(value(tenth.times(3)), 0.1 * 3.0);
    assert_eq!(value(Double::nearest_to(29, 100).times(100)), 0.29 * 100.0);
    assert_eq!(value(Double::nearest_to(7, 1).over(tenth)), 7.0 / 0.1);
    assert_eq!(value(Double::nearest_to(0, 1).over(tenth)), 0.0);
}

#[test]
fn doubles_are_cut_and_rounded_to_whole_numbers() {
    let x = Double::nearest_to(29, 8);
    assert_eq!((x.whole(100), x.eighths(), x.rounded(100)), (3, 5, 4));
    assert_eq!((x.whole(2), x.rounded(2)), (2, 2));
    let half = Double::nearest_to(5, 2);
    assert_eq!((half.whole(9), half.eighths(), half.rounded(9)), (2, 4, 3));
    let large = Double::nearest_to(u128::from(u64::MAX), 1);
    assert_eq!((large.whole(9), large.eighths(), large.rounded(9)), (9, 0, 9));
    let small = Double::nearest_to(1, 10_000_000_000_000_000_000_000);
    assert_eq!((small.whole(9), small.eighths(), small.rounded(9)), (0, 0, 0));
}

#[test]
fn decimal_ties_follow_the_double() {
    assert_eq!(fmt_dur(1_150_000_000), "1.1s");
    assert_eq!(fmt_dur(1_250_000_000), "1.2s");
    assert_eq!(fmt_dur(1_350_000_000), "1.4s");
    assert_eq!(format_duration(50_000_000), "0.1s");
    assert_eq!(format_duration(1_150_000_000), "1.1s");
    assert_eq!(sampled(&[1_005_000]).to_text(), "<Proxy -- 1.00s [--] 203.0.113.7:8080>");
    assert_eq!(sampled(&[1_015_000]).to_text(), "<Proxy -- 1.01s [--] 203.0.113.7:8080>");
    assert_eq!(sampled(&[1_025_000]).to_text(), "<Proxy -- 1.02s [--] 203.0.113.7:8080>");
    assert_eq!(sampled(&[1_035_000]).to_text(), "<Proxy -- 1.03s [--] 203.0.113.7:8080>");
    assert_eq!(sampled(&[1_045_000]).to_text(), "<Proxy -- 1.04s [--] 203.0.113.7:8080>");
}

#[test]
fn every_tie_below_a_minute_reads_as_its_double() {
    for tie in 0..600u64 {
        let nanos = tie * 100_000_000 + 50_000_000;
        let expected = format!("{:.1}s", Duration::from_nanos(nanos).as_secs_f64());
        assert_eq!(format_duration(nanos), expected);
        if nanos >= 1_000_000_000 {
            assert_eq!(fmt_dur(nanos), expected);
        }
    }
    for tie in 0..3000u64 {
        let micros = tie * 10_000 + 5_000;
        let seconds = micros as f64 / 1e6;
        assert_eq!(
            sampled(&[micros]).to_text(),
            format!("<Proxy -- {seconds:.2}s [--] 203.0.113.7:8080>")
        );
    }
}

#[test]
fn byte_counts_and_rates_read_as_their_doubles() {
    for bytes in (1024..1_048_576u64).step_by(257) {
        assert_eq!(fmt_bytes(bytes), format!("{:.1}KB", bytes as f64 / 1024.0));
    }
    for bytes in [1_048_576u64, 1_153_434, 5_505_024, 123_456_789_012, u64::MAX] {
        assert_eq!(fmt_bytes(bytes), format!("{:.1}MB", bytes as f64 / 1_048_576.0));
    }
    for (probes, nanos) in [
        (25usize, 2_000_000_000u64),
        (23, 20_000_000_000),
        (7, 500_000_001),
        (1, 3_000_000_000),
        (usize::MAX, 1),
        (0, 1),
        (1, u64::MAX),
    ] {
        assert_eq!(
            format_rate(Rate { probes, nanos }),
            format!("{:.1}/s", probes as f64 / Duration::from_nanos(nanos).as_secs_f64())
        );
    }
}

#[test]
fn bars_fill_to_the_double() {
    let bar = progress_bar(29, 100, 100, false);
    assert_eq!(bar.chars().filter(|c| *c == '\u{2588}').count(), 29);
    assert_eq!(bar.chars().filter(|c| *c == ' ').count(), 71);
    assert_eq!((0.29f64 * 100.0).floor(), 28.0, "the last full block is a partial cell");
    for whole in [3u32, 7, 100, 1000] {
        for done in 0..=whole {
            for width in [1u16, 10, 15, 28] {
                let position = f64::from(done) / f64::from(whole) * f64::from(width);
                let filled = (position.round() as usize).min(usize::from(width));
                let ascii = progress_bar(done, whole, width, true);
                assert_eq!(ascii, "#".repeat(filled) + &"-".repeat(usize::from(width) - filled));
                assert_eq!(progress_bar(done, whole, width, false).chars().count(), usize::from(width));
            }
        }
    }
}

#[test]
fn means_are_compared_and_rounded_exactly() {
    let mean = sampled(&[1, 2]).avg_response_time();
    assert_eq!(mean, Mean { total: 3, count: 2 });
    assert!(mean.at_least(1) && !mean.at_least(2));
    assert!(mean.at_most(2) && !mean.at_most(1));
    assert_eq!(mean.micros(), 2, "a tie goes to the even one");
    assert_eq!(sampled(&[2, 3]).avg_response_time().micros(), 2);
    assert_eq!(sampled(&[1, 1, 2]).avg_response_time().micros(), 1);
    assert_eq!(sampled(&[]).avg_response_time(), Mean { total: 0, count: 1 });
    assert_eq!(value(sampled(&[200_000, 800_000]).avg_response_time().seconds()), 0.5);
}

#[test]
fn exported_times_read_back_as_their_doubles() {
    for samples in [
        &[250_000u64][..],
        &[1_000_000],
        &[1_234_567],
        &[1_000_000, 1_000_000, 2_000_000],
        &[100_000, 200_000, 400_000],
        &[u64::MAX],
    ] {
        let mean = sampled(samples).avg_response_time();
        let seconds = mean.total as f64 / (f64::from(mean.count) * 1e6);
        assert_eq!(csv_time(sampled(samples)), format!("{seconds}"));
    }
    assert_eq!(csv_time(sampled(&[1_000_000, 1_000_000, 2_000_000])), "1.3333333333333333");
    assert_eq!(csv_time(sampled(&[250_000])), "0.25");
    assert_eq!(csv_time(sampled(&[])), "0");
}
