//! What every surface of the workbench says and where it goes: the texts with
//! their tones, and the geometry of the overlays.

use crate::double::{
    double_of, quotient, times, units_of, whole_numbers_are_exact, wholes_are_whole, Double,
    MANTISSA_END, MANTISSA_MIN,
};
use crate::net::{lemma_fields_cons, lemma_fields_one};
use crate::proxy::models::{
    average, protocol_list, push_seconds, seconds_text, type_texts, Mean, Proxy,
};
use crate::text::{
    chars_of, copy_str, decimal, decimal_reads_back, digits_are_no_marks, fields, find_char, joined,
    lemma_find_char_is, position, push_decimal, push_wide, same, split, string_of, texts,
    to_decimal,
};
use crate::tui::app::{minus, MessageKind, Rate, RunSummary};
use crate::tui::engine::{phase_text, Phase, Progress};
use crate::tui::event::{
    bindings_on, count_hint, footer, help_group_texts, help_groups, help_note_texts, help_notes,
    hints, keymap_rows, named_scope, rows_on, Action, Binding, InputPurpose, KeyContext, Screen,
};
use crate::tui::theme::{drawn, glyph, Glyph};
use crate::tui::view::{
    bar_text, byte_offset, clamp_cells, clamped, column, column_at, compute_layout,
    lemma_encode_push, progress_bar, screen_of, shown_text, sort_name, spinner_frame, spinner_text,
    table_rows, text_cells, width_of, window, window_of, Hit, Rect, RowModel, Source, ViewState,
    COLUMN_COUNT, MIN_HEIGHT, MIN_WIDTH, SPINNER_DELAY, SPINNER_INTERVAL_MS, TABLE_CHROME_ROWS,
};
use crate::filters::{SortKey, SortOrder};
use vstd::arithmetic::div_mod::lemma_fundamental_div_mod_converse;
use vstd::arithmetic::power2::{
    lemma2_to64, lemma2_to64_rest, lemma_pow2_adds, lemma_pow2_strictly_increases, pow2,
};
use vstd::prelude::*;
use vstd::slice::slice_subrange;
use vstd::utf8::{encode_scalar, encode_utf8};

verus! {

/// Rows an overlay spends on its border.
pub const OVERLAY_CHROME_ROWS: u16 = 2;

/// Cells an overlay spends on its border and inner padding.
pub const OVERLAY_CHROME_COLUMNS: u16 = 4;

/// Share of the terminal a drill-down overlay takes.
pub const DETAIL_WIDTH_PERCENT: u16 = 70;

/// Share of the terminal the help overlay takes.
pub const HELP_WIDTH_PERCENT: u16 = 80;

/// Share of the terminal a text prompt takes.
pub const PROMPT_WIDTH_PERCENT: u16 = 60;

/// Interior rows a prompt needs: one line of text plus breathing room.
pub const PROMPT_ROWS: u16 = 3;

/// Interior rows a confirmation needs: the question and the answers.
pub const CONFIRM_ROWS: u16 = 3;

/// Narrowest a centered overlay is allowed to get.
pub const MIN_OVERLAY_WIDTH: u16 = 30;

/// The bar takes this fraction of the live line, so the numbers beside it keep
/// a stable position instead of sliding as they change width.
pub const BAR_SHARE: u16 = 4;

/// Bar floor and ceiling, in cells.
pub const MIN_BAR_CELLS: u16 = 10;

pub const MAX_BAR_CELLS: u16 = 24;

/// A leading cell, plus two between the bar and its numbers.
pub const BAR_GUTTER_CELLS: u16 = 3;

/// What a piece of text means, which decides how it looks.
#[derive(Clone, Copy, Debug, PartialEq, Eq, Structural)]
pub enum Tone {
    Plain,
    Title,
    Muted,
    Primary,
    Emphasis,
    Accent,
    Success,
    Warning,
    Error,
    Info,
    Match,
}

/// A piece of text with its tone.
#[derive(Clone, Debug)]
pub struct Span {
    pub text: String,
    pub tone: Tone,
}

/// Pieces of text as plain values.
pub open spec fn spans(v: Seq<Span>) -> Seq<(Seq<char>, Tone)> {
    v.map_values(|s: Span| (s.text@, s.tone))
}

fn push_span(v: &mut Vec<Span>, text: String, tone: Tone)
    ensures
        spans(final(v)@) == spans(old(v)@).push((text@, tone)),
{
    let ghost before = v@;
    let span = Span { text, tone };
    v.push(span);
    assert(spans(v@) =~= spans(before).push((text@, tone)));
}

fn no_spans() -> (v: Vec<Span>)
    ensures
        spans(v@) == Seq::<(Seq<char>, Tone)>::empty(),
{
    let v: Vec<Span> = Vec::new();
    assert(spans(v@) =~= Seq::<(Seq<char>, Tone)>::empty());
    v
}

/// The dot between two facts.
pub fn separator(ascii: bool) -> (s: &'static str)
    ensures
        s@ == drawn(Glyph::Dot, ascii),
{
    glyph(Glyph::Dot, ascii)
}

// ---------------------------------------------------------------------------
// Durations
// ---------------------------------------------------------------------------

/// A number in two digits at the least.
pub open spec fn two_digits(n: int) -> Seq<char> {
    if n < 10 {
        "0"@ + decimal(n as nat)
    } else {
        decimal(n as nat)
    }
}

/// A duration in seconds with one decimal, or from a minute on in minutes and
/// seconds.
pub open spec fn clock_text(nanos: int) -> Seq<char> {
    if nanos < 60_000_000_000 {
        let tenths = units_of(double_of(nanos, 1_000_000_000), 10);
        decimal((tenths / 10) as nat) + "."@ + decimal((tenths % 10) as nat) + "s"@
    } else {
        decimal((nanos / 60_000_000_000) as nat) + "m "@ + two_digits(nanos / 1_000_000_000 % 60)
            + "s"@
    }
}

/// A duration, given in nanoseconds, in seconds or in minutes and seconds.
pub fn format_duration(nanos: u64) -> (s: String)
    ensures
        s@ == clock_text(nanos as int),
{
    if nanos < 60_000_000_000 {
        let tenths: u128 = Double::nearest_to(nanos as u128, 1_000_000_000).to_units(10);
        let mut s = String::new();
        push_wide(&mut s, tenths / 10);
        s.append(".");
        push_wide(&mut s, tenths % 10);
        s.append("s");
        s
    } else {
        let mut s = to_decimal(nanos / 60_000_000_000);
        s.append("m ");
        let seconds: u64 = nanos / 1_000_000_000 % 60;
        let mut digits = String::new();
        if seconds < 10 {
            digits.append("0");
        }
        push_decimal(&mut digits, seconds);
        assert(digits@ =~= two_digits(seconds as int));
        s.append(digits.as_str());
        s.append("s");
        s
    }
}

// ---------------------------------------------------------------------------
// Header and status
// ---------------------------------------------------------------------------

/// What is said where the terminal is too small.
pub open spec fn too_small_text(ascii: bool) -> Seq<char> {
    "terminal too small "@ + drawn(Glyph::Dash, ascii) + " need "@ + decimal(MIN_WIDTH as nat)
        + drawn(Glyph::Times, ascii) + decimal(MIN_HEIGHT as nat)
}

/// What is said where the terminal is too small.
pub fn too_small(ascii: bool) -> (s: String)
    ensures
        s@ == too_small_text(ascii),
{
    let mut s = "terminal too small ".to_owned();
    s.append(glyph(Glyph::Dash, ascii));
    s.append(" need ");
    push_decimal(&mut s, MIN_WIDTH as u64);
    s.append(glyph(Glyph::Times, ascii));
    push_decimal(&mut s, MIN_HEIGHT as u64);
    s
}

/// The line that names the program, the pipeline, its state and its clock.
pub open spec fn identity_line(
    mode: Seq<char>,
    screen: Screen,
    cancelled: bool,
    elapsed: int,
    ascii: bool,
) -> Seq<(Seq<char>, Tone)> {
    let dot = " "@ + drawn(Glyph::Dot, ascii) + " "@;
    seq![
        (" flx"@, Tone::Title),
        (dot, Tone::Muted),
        (mode, Tone::Accent),
        (dot, Tone::Muted),
        match screen {
            Screen::Running => ("running"@, Tone::Accent),
            Screen::Done => (
                "done"@,
                if cancelled {
                    Tone::Warning
                } else {
                    Tone::Success
                },
            ),
        },
        (" "@ + clock_text(elapsed), Tone::Muted),
    ]
}

fn dotted(ascii: bool) -> (s: String)
    ensures
        s@ == " "@ + drawn(Glyph::Dot, ascii) + " "@,
{
    let mut s = " ".to_owned();
    s.append(separator(ascii));
    s.append(" ");
    s
}

/// The line that names the program, the pipeline, its state and its clock.
pub fn identity(mode: &str, screen: Screen, cancelled: bool, elapsed: u64, ascii: bool) -> (v: Vec<
    Span,
>)
    ensures
        spans(v@) == identity_line(mode@, screen, cancelled, elapsed as int, ascii),
{
    let mut v = no_spans();
    push_span(&mut v, " flx".to_owned(), Tone::Title);
    push_span(&mut v, dotted(ascii), Tone::Muted);
    push_span(&mut v, copy_str(mode), Tone::Accent);
    push_span(&mut v, dotted(ascii), Tone::Muted);
    match screen {
        Screen::Running => push_span(&mut v, "running".to_owned(), Tone::Accent),
        Screen::Done => push_span(
            &mut v,
            "done".to_owned(),
            if cancelled {
                Tone::Warning
            } else {
                Tone::Success
            },
        ),
    }
    let mut clock = " ".to_owned();
    clock.append(format_duration(elapsed).as_str());
    push_span(&mut v, clock, Tone::Muted);
    assert(spans(v@) =~= identity_line(mode@, screen, cancelled, elapsed as int, ascii));
    v
}

/// Whether a health report tells of a judge that is down: the numbers in front
/// of and behind the slash differ.
pub open spec fn reports_trouble(health: Seq<char>) -> bool {
    let i = find_char(health, '/');
    i < health.len() && fields(health.skip(i + 1), ' ')[0] != health.take(i)
}

/// The judge health report, but only when at least one judge is down.
pub fn unhealthy_judges(health: Option<&str>) -> (r: Option<String>)
    ensures
        match health {
            None => r is None,
            Some(h) => if reports_trouble(h@) {
                r matches Some(s) && s@ == h@
            } else {
                r is None
            },
        },
{
    match health {
        None => None,
        Some(h) => {
            let cs = chars_of(h);
            let i: usize = position(cs.as_slice(), '/');
            proof {
                crate::text::lemma_find_char(h@, '/');
            }
            if i >= cs.len() {
                return None;
            }
            let healthy = string_of(slice_subrange(cs.as_slice(), 0, i));
            let rest = slice_subrange(cs.as_slice(), i + 1, cs.len());
            assert(healthy@ =~= h@.take(i as int));
            assert(rest@ =~= h@.skip(i + 1));
            let parts = split(rest, ' ');
            assert(texts(parts@).len() == parts.len());
            proof {
                lemma_one_field(rest@, ' ');
            }
            assert(texts(parts@)[0] == parts@[0]@);
            if same(healthy.as_str(), parts[0].as_str()) {
                None
            } else {
                Some(copy_str(h))
            }
        },
    }
}

proof fn lemma_one_field(s: Seq<char>, c: char)
    ensures
        fields(s, c).len() > 0,
{
}

/// The rate in tenths of a probe per second, to the nearest.
pub open spec fn rate_tenths(r: Rate) -> int {
    units_of(
        quotient(double_of(r.probes as int, 1), double_of(r.nanos as int, 1_000_000_000)),
        10,
    )
}

/// A rate with one decimal.
pub open spec fn rate_text(r: Rate) -> Seq<char> {
    decimal((rate_tenths(r) / 10) as nat) + "."@ + decimal((rate_tenths(r) % 10) as nat) + "/s"@
}

/// A rate with one decimal.
pub fn format_rate(r: Rate) -> (s: String)
    requires
        r.nanos > 0,
    ensures
        s@ == rate_text(r),
{
    let probes = Double::nearest_to(r.probes as u128, 1);
    let seconds = Double::nearest_to(r.nanos as u128, 1_000_000_000);
    proof {
        if probes.exponent > 0 {
            lemma_count_exponent(r.probes as int, probes.exponent as nat);
        }
        lemma_seconds_exponent(r.nanos as int, (-seconds.exponent) as nat);
    }
    let tenths: u128 = probes.over(seconds).to_units(10);
    let mut s = String::new();
    push_wide(&mut s, tenths / 10);
    s.append(".");
    push_wide(&mut s, tenths % 10);
    s.append("/s");
    s
}

proof fn lemma_count_exponent(n: int, k: nat)
    requires
        0 < n <= u64::MAX,
        MANTISSA_MIN * (1 * pow2(k)) <= n,
    ensures
        k < 12,
{
    if k >= 12 {
        lemma2_to64();
        if k > 12 {
            lemma_pow2_strictly_increases(12, k);
        }
        assert(MANTISSA_MIN * (1 * pow2(k)) > u64::MAX) by (nonlinear_arith)
            requires
                pow2(k) >= 4096,
        ;
    }
}

proof fn lemma_seconds_exponent(n: int, k: nat)
    requires
        n >= 1,
        n * pow2(k) < MANTISSA_END * 1_000_000_000,
    ensures
        k < 84,
{
    if k >= 84 {
        lemma2_to64();
        lemma2_to64_rest();
        lemma_pow2_adds(64, 20);
        if k > 84 {
            lemma_pow2_strictly_increases(84, k);
        }
        assert(n * pow2(k) >= pow2(84)) by (nonlinear_arith)
            requires
                n >= 1,
                pow2(k) >= pow2(84),
        ;
    }
}

/// A percentage, three characters wide at the least.
pub open spec fn percent_text(part: int, whole: int) -> Seq<char> {
    let n = units_of(times(double_of(part, whole), 100), 1);
    (if n < 10 {
        "  "@
    } else if n < 100 {
        " "@
    } else {
        Seq::empty()
    }) + decimal(n as nat) + "%"@
}

fn percent(part: u32, whole: u32) -> (s: String)
    requires
        part <= whole,
        whole > 0,
    ensures
        s@ == percent_text(part as int, whole as int),
{
    let n: u128 = Double::nearest_to(part as u128, whole as u128).times(100).to_units(1);
    let mut s = String::new();
    if n < 10 {
        s.append("  ");
    } else if n < 100 {
        s.append(" ");
    }
    push_wide(&mut s, n);
    s.append("%");
    assert(s@ =~= percent_text(part as int, whole as int));
    s
}

/// The numbers beside the bar in their three forms, the longest first.
pub open spec fn label_forms(done: int, total: int, part: int, whole: int, rate: Rate) -> Seq<
    Seq<char>,
> {
    let counts = decimal(done as nat) + "/"@ + decimal(total as nat);
    let with_percent = counts + "  "@ + percent_text(part, whole);
    seq![with_percent + "  "@ + rate_text(rate), with_percent, counts]
}

/// The numbers beside the bar, at the longest form that fits `budget` cells.
/// A cramped strip drops the rate first, then the percent: the bar and the
/// counts are the two things worth keeping.
pub open spec fn label_text(forms: Seq<Seq<char>>, budget: int) -> Seq<char> {
    if text_cells(forms[0]) <= budget {
        forms[0]
    } else if text_cells(forms[1]) <= budget {
        forms[1]
    } else {
        forms[2]
    }
}

/// The numbers beside the bar, at the longest form that fits `budget` cells.
pub fn progress_label(
    done: usize,
    total: usize,
    part: u32,
    whole: u32,
    rate: Rate,
    budget: u16,
) -> (s: String)
    requires
        part <= whole,
        whole > 0,
        rate.nanos > 0,
    ensures
        s@ == label_text(
            label_forms(done as int, total as int, part as int, whole as int, rate),
            budget as int,
        ),
{
    let mut counts = to_decimal(done as u64);
    counts.append("/");
    push_decimal(&mut counts, total as u64);
    let mut with_percent = copy_str(counts.as_str());
    with_percent.append("  ");
    with_percent.append(percent(part, whole).as_str());
    let mut long = copy_str(with_percent.as_str());
    long.append("  ");
    long.append(format_rate(rate).as_str());
    let ghost forms = label_forms(done as int, total as int, part as int, whole as int, rate);
    assert(forms[0] == long@ && forms[1] == with_percent@ && forms[2] == counts@);
    if width_of(long.as_str()) <= budget as usize {
        long
    } else if width_of(with_percent.as_str()) <= budget as usize {
        with_percent
    } else {
        counts
    }
}

/// The pass and fail counts behind the numbers.
pub open spec fn split_text(passed: int, failed: int, ascii: bool) -> Seq<char> {
    "  "@ + drawn(Glyph::Check, ascii) + " "@ + decimal(passed as nat) + " "@ + drawn(
        Glyph::Cross,
        ascii,
    ) + " "@ + decimal(failed as nat)
}

/// Cells of the bar on a line, as long as the numbers leave them.
pub open spec fn bar_share(width: int) -> int {
    let share = width / BAR_SHARE as int;
    if share < MIN_BAR_CELLS {
        MIN_BAR_CELLS as int
    } else if share > MAX_BAR_CELLS {
        MAX_BAR_CELLS as int
    } else {
        share
    }
}

/// The determinate progress strip: bar, counts, percent, rate, and the
/// pass/fail split, which goes where the line is narrower than the supported
/// minimum.
pub open spec fn strip(p: Progress, rate: Rate, width: int, ascii: bool) -> Seq<(Seq<char>, Tone)> {
    let failed = minus(p.done as int, p.passed as int);
    let splits = width >= MIN_WIDTH;
    let split_cells = if splits {
        text_cells(split_text(p.passed as int, failed, ascii)) as int
    } else {
        text_cells(Seq::empty()) as int
    };
    let share = bar_share(width);
    let budget = minus(width, share + BAR_GUTTER_CELLS + split_cells);
    let label = label_text(
        label_forms(p.done as int, p.total as int, p.part as int, p.whole as int, rate),
        budget,
    );
    let rest = minus(width, text_cells(label) + split_cells + BAR_GUTTER_CELLS);
    let cells = if rest < share {
        rest
    } else {
        share
    };
    let bar = seq![
        (bar_text(p.part as int, p.whole as int, cells, ascii), Tone::Accent),
        ("  "@ + label, Tone::Primary),
    ];
    if splits {
        bar.push(
            ("  "@ + drawn(Glyph::Check, ascii) + " "@ + decimal(p.passed as nat), Tone::Success),
        ).push((" "@ + drawn(Glyph::Cross, ascii) + " "@ + decimal(failed as nat), Tone::Error))
    } else {
        bar
    }
}

fn counted(gap: &str, g: Glyph, n: usize, ascii: bool) -> (s: String)
    ensures
        s@ == gap@ + drawn(g, ascii) + " "@ + decimal(n as nat),
{
    let mut s = copy_str(gap);
    s.append(glyph(g, ascii));
    s.append(" ");
    push_decimal(&mut s, n as u64);
    s
}

/// What is left of a number of cells once others are taken.
fn left_of(width: u16, taken: usize, more: u16) -> (r: u16)
    ensures
        r == minus(width as int, taken + more),
{
    if more > width || taken > (width - more) as usize {
        0
    } else {
        width - more - taken as u16
    }
}

/// The determinate progress strip.
pub fn progress_spans(p: Progress, rate: Rate, width: u16, ascii: bool) -> (v: Vec<Span>)
    requires
        p.part <= p.whole,
        p.whole > 0,
        rate.nanos > 0,
    ensures
        spans(v@) == strip(p, rate, width as int, ascii),
{
    let failed: usize = p.done.saturating_sub(p.passed);
    let splits = width >= MIN_WIDTH;
    let mut pair = String::new();
    if splits {
        let mut both = counted("  ", Glyph::Check, p.passed, ascii);
        both.append(" ");
        both.append(glyph(Glyph::Cross, ascii));
        both.append(" ");
        push_decimal(&mut both, failed as u64);
        assert(both@ =~= split_text(p.passed as int, failed as int, ascii));
        pair = both;
    } else {
        assert(pair@ =~= Seq::<char>::empty());
    }
    let split_cells: usize = width_of(pair.as_str());
    let quarter: u16 = width / BAR_SHARE;
    let share: u16 = if quarter < MIN_BAR_CELLS {
        MIN_BAR_CELLS
    } else if quarter > MAX_BAR_CELLS {
        MAX_BAR_CELLS
    } else {
        quarter
    };
    let budget: u16 = left_of(width, split_cells, share + BAR_GUTTER_CELLS);
    let label = progress_label(p.done, p.total, p.part, p.whole, rate, budget);
    let beside: u16 = left_of(width, split_cells, BAR_GUTTER_CELLS);
    let rest: u16 = left_of(beside, width_of(label.as_str()), 0);
    let cells: u16 = if rest < share {
        rest
    } else {
        share
    };
    let mut v = no_spans();
    push_span(&mut v, progress_bar(p.part, p.whole, cells, ascii), Tone::Accent);
    let mut numbers = "  ".to_owned();
    numbers.append(label.as_str());
    push_span(&mut v, numbers, Tone::Primary);
    if splits {
        push_span(&mut v, counted("  ", Glyph::Check, p.passed, ascii), Tone::Success);
        push_span(&mut v, counted(" ", Glyph::Cross, failed, ascii), Tone::Error);
    }
    assert(spans(v@) =~= strip(p, rate, width as int, ascii));
    v
}

/// What the live line is made from.
pub struct LiveLine {
    pub phase: Phase,
    /// Nanoseconds that the phase has been running.
    pub phase_elapsed: u64,
    pub gathered: usize,
    pub progress: Option<Progress>,
    pub paused: bool,
}

/// The phase and the gathered count, with a spinner once the phase has visibly
/// not finished.
pub open spec fn phase_spans(
    phase: Phase,
    elapsed: int,
    gathered: int,
    ascii: bool,
) -> Seq<(Seq<char>, Tone)> {
    let millis = elapsed / 1_000_000;
    let spinner = if millis >= SPINNER_DELAY {
        seq![
            (" "@, Tone::Muted),
            (spinner_text(millis / SPINNER_INTERVAL_MS as int, ascii), Tone::Accent),
            (" "@, Tone::Muted),
        ]
    } else {
        seq![(" "@, Tone::Muted)]
    };
    spinner.push((phase_text(phase), Tone::Accent)).push(
        (
            " "@ + drawn(Glyph::Dot, ascii) + " gathered "@ + decimal(gathered as nat),
            Tone::Primary,
        ),
    )
}

/// The live line up to the judges: the progress once validation is running, or
/// the phase while it is not.
pub open spec fn live_spans(live: Option<LiveLine>, rate: Rate, width: int, ascii: bool) -> Seq<
    (Seq<char>, Tone),
> {
    match live {
        Some(l) => {
            let line = match l.progress {
                Some(p) => strip(p, rate, width, ascii),
                None => phase_spans(l.phase, l.phase_elapsed as int, l.gathered as int, ascii),
            };
            if l.paused {
                line.push(("  "@ + drawn(Glyph::Paused, ascii) + " paused"@, Tone::Warning))
            } else {
                line
            }
        },
        None => seq![(" starting"@, Tone::Accent), (" "@ + drawn(Glyph::Dash, ascii), Tone::Muted)],
    }
}

/// The live line. Judge health is only news when it is bad.
pub open spec fn running_line(
    live: Option<LiveLine>,
    rate: Rate,
    health: Option<Seq<char>>,
    width: int,
    ascii: bool,
) -> Seq<(Seq<char>, Tone)> {
    let line = live_spans(live, rate, width, ascii);
    match health {
        Some(h) => if reports_trouble(h) {
            line.push(("  "@ + drawn(Glyph::Warning, ascii) + " "@ + h, Tone::Warning))
        } else {
            line
        },
        None => line,
    }
}

fn show_phase(phase: Phase, elapsed: u64, gathered: usize, ascii: bool) -> (v: Vec<Span>)
    ensures
        spans(v@) == phase_spans(phase, elapsed as int, gathered as int, ascii),
{
    let millis: u64 = elapsed / 1_000_000;
    let mut v = no_spans();
    push_span(&mut v, " ".to_owned(), Tone::Muted);
    if millis >= SPINNER_DELAY {
        push_span(&mut v, spinner_frame(millis, ascii).to_owned(), Tone::Accent);
        push_span(&mut v, " ".to_owned(), Tone::Muted);
    }
    push_span(&mut v, phase.label(), Tone::Accent);
    let mut count = " ".to_owned();
    count.append(separator(ascii));
    count.append(" gathered ");
    push_decimal(&mut count, gathered as u64);
    push_span(&mut v, count, Tone::Primary);
    assert(spans(v@) =~= phase_spans(phase, elapsed as int, gathered as int, ascii));
    v
}

/// The live line: the progress bar and its numbers once validation is running,
/// or the phase and gathered count while it is not.
///
/// This is the only place the run's progress appears, so nothing is stated
/// twice and no third chrome row is needed for the bar.
pub fn running_summary(
    live: &Option<LiveLine>,
    rate: Rate,
    health: Option<&str>,
    width: u16,
    ascii: bool,
) -> (v: Vec<Span>)
    requires
        rate.nanos > 0,
        live matches Some(l) ==> (l.progress matches Some(p) ==> p.part <= p.whole && p.whole > 0),
    ensures
        spans(v@) == running_line(
            *live,
            rate,
            match health {
                Some(h) => Some(h@),
                None => None,
            },
            width as int,
            ascii,
        ),
{
    let mut v: Vec<Span>;
    match live {
        Some(l) => {
            v = match l.progress {
                Some(p) => progress_spans(p, rate, width, ascii),
                None => show_phase(l.phase, l.phase_elapsed, l.gathered, ascii),
            };
            if l.paused {
                let mut s = "  ".to_owned();
                s.append(glyph(Glyph::Paused, ascii));
                s.append(" paused");
                push_span(&mut v, s, Tone::Warning);
            }
        },
        None => {
            v = no_spans();
            push_span(&mut v, " starting".to_owned(), Tone::Accent);
            let mut s = " ".to_owned();
            s.append(glyph(Glyph::Dash, ascii));
            push_span(&mut v, s, Tone::Muted);
        },
    }
    assert(spans(v@) =~= live_spans(*live, rate, width as int, ascii));
    if let Some(h) = unhealthy_judges(health) {
        let mut s = "  ".to_owned();
        s.append(glyph(Glyph::Warning, ascii));
        s.append(" ");
        s.append(h.as_str());
        push_span(&mut v, s, Tone::Warning);
    }
    v
}

/// The line of a run that is over.
pub open spec fn done_line(
    summary: Option<RunSummary>,
    results: int,
    cancelled: bool,
    ascii: bool,
) -> Seq<(Seq<char>, Tone)> {
    let head = seq![(" "@, Tone::Muted)];
    let line = match summary {
        Some(s) => {
            let kept = head.push(("kept "@ + decimal(s.valid as nat), Tone::Success));
            let failed = if s.failed > 0 {
                kept.push(("  "@ + decimal(s.failed as nat) + " failed"@, Tone::Error))
            } else {
                kept
            };
            failed.push(
                (
                    " "@ + drawn(Glyph::Dot, ascii) + " gathered "@ + decimal(s.gathered as nat)
                        + " in "@ + clock_text(s.elapsed as int),
                    Tone::Primary,
                ),
            )
        },
        None => head.push((decimal(results as nat) + " rows"@, Tone::Primary)),
    };
    if cancelled {
        line.push(("  cancelled"@, Tone::Warning))
    } else {
        line
    }
}

/// The line of a run that is over.
pub fn done_summary(
    summary: &Option<RunSummary>,
    results: usize,
    cancelled: bool,
    ascii: bool,
) -> (v: Vec<Span>)
    ensures
        spans(v@) == done_line(*summary, results as int, cancelled, ascii),
{
    let mut v = no_spans();
    push_span(&mut v, " ".to_owned(), Tone::Muted);
    match summary {
        Some(s) => {
            let mut kept = "kept ".to_owned();
            push_decimal(&mut kept, s.valid as u64);
            push_span(&mut v, kept, Tone::Success);
            if s.failed > 0 {
                let mut failed = "  ".to_owned();
                push_decimal(&mut failed, s.failed as u64);
                failed.append(" failed");
                push_span(&mut v, failed, Tone::Error);
            }
            let mut tally = " ".to_owned();
            tally.append(separator(ascii));
            tally.append(" gathered ");
            push_decimal(&mut tally, s.gathered as u64);
            tally.append(" in ");
            tally.append(format_duration(s.elapsed).as_str());
            push_span(&mut v, tally, Tone::Primary);
        },
        None => {
            let mut rows = to_decimal(results as u64);
            rows.append(" rows");
            push_span(&mut v, rows, Tone::Primary);
        },
    }
    if cancelled {
        push_span(&mut v, "  cancelled".to_owned(), Tone::Warning);
    }
    assert(spans(v@) =~= done_line(*summary, results as int, cancelled, ascii));
    v
}

// ---------------------------------------------------------------------------
// The table
// ---------------------------------------------------------------------------

/// The arrow of a direction.
pub open spec fn order_arrow(order: SortOrder, ascii: bool) -> Seq<char> {
    drawn(
        match order {
            SortOrder::Asc => Glyph::ArrowUp,
            SortOrder::Desc => Glyph::ArrowDown,
        },
        ascii,
    )
}

/// What the table is titled with: how many rows of how many, the order, and
/// the filter and the overflow where there are any.
pub open spec fn title_text(
    visible: int,
    results: int,
    view: ViewState,
    overflow: int,
    ascii: bool,
) -> Seq<char> {
    let dot = drawn(Glyph::Dot, ascii);
    let head = " results "@ + dot + " "@ + decimal(visible as nat) + "/"@ + decimal(results as nat)
        + " "@ + dot + " sort "@ + sort_name(view.sort) + " "@ + order_arrow(view.order, ascii)
        + " "@;
    let filtered = if view.filter@.len() > 0 {
        head + (dot + " filter \""@ + view.filter@ + "\" "@)
    } else {
        head
    };
    if overflow > 0 {
        filtered + (dot + " over cap "@ + decimal(overflow as nat) + " "@)
    } else {
        filtered
    }
}

/// What the table is titled with.
pub fn table_title(
    visible: usize,
    results: usize,
    view: &ViewState,
    overflow: usize,
    ascii: bool,
) -> (s: String)
    ensures
        s@ == title_text(visible as int, results as int, *view, overflow as int, ascii),
{
    let mut s = " results ".to_owned();
    s.append(separator(ascii));
    s.append(" ");
    push_decimal(&mut s, visible as u64);
    s.append("/");
    push_decimal(&mut s, results as u64);
    s.append(" ");
    s.append(separator(ascii));
    s.append(" sort ");
    s.append(view.sort_label());
    s.append(" ");
    s.append(view.order_glyph(ascii));
    s.append(" ");
    if chars_of(view.filter.as_str()).len() > 0 {
        let mut f = separator(ascii).to_owned();
        f.append(" filter \"");
        f.append(view.filter.as_str());
        f.append("\" ");
        s.append(f.as_str());
    }
    if overflow > 0 {
        let mut o = separator(ascii).to_owned();
        o.append(" over cap ");
        push_decimal(&mut o, overflow as u64);
        o.append(" ");
        s.append(o.as_str());
    }
    s
}

/// The header label, with the sort indicator on the column that owns the sort.
/// The indicator outranks the label: the label is shortened rather than the
/// indicator dropped.
pub open spec fn header_label(index: int, width: int, view: ViewState, ascii: bool) -> Seq<char> {
    let c = column_at(index);
    let arrow = if c.sort_key is Some && c.sort_key == view.sort {
        order_arrow(view.order, ascii)
    } else {
        Seq::empty()
    };
    let cells = text_cells(arrow);
    if 0 < cells < width {
        clamped(c.title@, width - cells - 1, ascii) + " "@ + arrow
    } else {
        clamped(c.title@, width, ascii)
    }
}

/// The header label, with the sort indicator on the column that owns the sort.
pub fn header_text(index: usize, width: u16, view: &ViewState, ascii: bool) -> (s: String)
    requires
        index < COLUMN_COUNT,
    ensures
        s@ == header_label(index as int, width as int, *view, ascii),
{
    let c = column(index);
    let owns = match (c.sort_key, view.sort) {
        (Some(a), Some(b)) => a == b,
        _ => false,
    };
    let arrow = if owns {
        view.order_glyph(ascii)
    } else {
        ""
    };
    proof {
        reveal_strlit("");
        assert(""@ =~= Seq::<char>::empty());
    }
    let cells: usize = width_of(arrow);
    if cells > 0 && cells < width as usize {
        let mut s = clamp_cells(c.title, width - cells as u16 - 1, ascii);
        s.append(" ");
        s.append(arrow);
        s
    } else {
        clamp_cells(c.title, width, ascii)
    }
}

/// The browsed row a click landed on, if it hit the body of the table.
pub open spec fn clicked_row(
    area: Rect,
    row: int,
    selected: int,
    visible: int,
) -> Option<int> {
    match screen_of(area) {
        None => None,
        Some(l) => {
            let first = l.table.y + TABLE_CHROME_ROWS;
            let index = window_of(selected, l.table.height - TABLE_CHROME_ROWS, visible).0 + (row - first);
            if row < first || row >= l.table.y + l.table.height || index >= visible {
                None
            } else {
                Some(index)
            }
        },
    }
}

/// The browsed row a click landed on, if it hit the table body.
///
/// Mouse input only accelerates the keyboard: every row a click can reach is
/// already reachable with the movement keys.
pub fn row_at(area: Rect, row: u16, selected: usize, visible: usize) -> (r: Option<usize>)
    requires
        area.wf(),
    ensures
        match r {
            Some(i) => clicked_row(area, row as int, selected as int, visible as int) == Some(
                i as int,
            ),
            None => clicked_row(area, row as int, selected as int, visible as int) is None,
        },
{
    match compute_layout(area) {
        None => None,
        Some(l) => {
            let first: u16 = l.table.y + TABLE_CHROME_ROWS;
            if row < first || row >= l.table.bottom() {
                return None;
            }
            let height: usize = table_rows(l.table.height);
            let (start, _) = window(selected, height, visible);
            let offset: usize = (row - first) as usize;
            if visible <= start || offset >= visible - start {
                None
            } else {
                Some(start + offset)
            }
        },
    }
}

// ---------------------------------------------------------------------------
// The drill-down
// ---------------------------------------------------------------------------

/// Where a proxy is.
pub open spec fn geo_text(p: Proxy, ascii: bool) -> Seq<char> {
    let dot = drawn(Glyph::Dot, ascii);
    shown_text(p.geo.iso_code, "--"@) + " "@ + dot + " "@ + shown_text(p.geo.city_name, "-"@)
        + " "@ + dot + " asn "@ + (match p.geo.asn {
        Some(asn) => decimal(asn as nat),
        None => "-"@,
    })
}

fn shown(t: &Option<String>, other: &str) -> (s: String)
    ensures
        s@ == shown_text(*t, other@),
{
    match t {
        Some(s) => copy_str(s.as_str()),
        None => copy_str(other),
    }
}

/// Where a proxy is.
pub fn geo_summary(proxy: &Proxy, ascii: bool) -> (s: String)
    ensures
        s@ == geo_text(*proxy, ascii),
{
    let mut s = shown(&proxy.geo.iso_code, "--");
    s.append(" ");
    s.append(separator(ascii));
    s.append(" ");
    s.append(shown(&proxy.geo.city_name, "-").as_str());
    s.append(" ");
    s.append(separator(ascii));
    s.append(" asn ");
    let asn = match proxy.geo.asn {
        Some(asn) => to_decimal(asn as u64),
        None => "-".to_owned(),
    };
    s.append(asn.as_str());
    s
}

/// What a proxy was validated for.
pub open spec fn types_text(p: Proxy) -> Seq<char> {
    if p.proxy_types@.len() == 0 {
        "unvalidated"@
    } else {
        joined(type_texts(p.proxy_types@), ", "@)
    }
}

/// What a proxy was validated for.
pub fn types_summary(proxy: &Proxy) -> (s: String)
    ensures
        s@ == types_text(*proxy),
{
    if proxy.proxy_types.len() == 0 {
        "unvalidated".to_owned()
    } else {
        protocol_list(&proxy.proxy_types)
    }
}

/// How fast a proxy answers.
pub open spec fn rtt_text(p: Proxy, ascii: bool) -> Seq<char> {
    let dot = drawn(Glyph::Dot, ascii);
    seconds_text(average(p.runtimes)) + "s "@ + dot + " n="@ + decimal(p.runtimes.count as nat)
        + " "@ + dot + " min "@ + seconds_text(
        Mean {
            total: if p.runtimes.count == 0 {
                0
            } else {
                p.runtimes.min as u128
            },
            count: 1,
        },
    ) + "s max "@ + seconds_text(Mean { total: p.runtimes.max as u128, count: 1 }) + "s"@
}

fn rtt_summary(proxy: &Proxy, ascii: bool) -> (s: String)
    requires
        proxy.wf(),
    ensures
        s@ == rtt_text(*proxy, ascii),
{
    let mut s = String::new();
    push_seconds(&mut s, proxy.avg_response_time());
    assert(s@ =~= seconds_text(average(proxy.runtimes)));
    s.append("s ");
    s.append(separator(ascii));
    s.append(" n=");
    push_decimal(&mut s, proxy.sample_count() as u64);
    s.append(" ");
    s.append(separator(ascii));
    s.append(" min ");
    push_seconds(&mut s, Mean::of(proxy.min_response_time()));
    s.append("s max ");
    push_seconds(&mut s, Mean::of(proxy.max_response_time()));
    s.append("s");
    s
}

/// A text that is padded with blanks to so many characters.
pub open spec fn padded(s: Seq<char>, n: int) -> Seq<char> {
    s + Seq::new(
        (if s.len() < n {
            n - s.len()
        } else {
            0
        }) as nat,
        |i: int| ' ',
    )
}

fn pad(s: &str, n: usize) -> (r: String)
    ensures
        r@ == padded(s@, n as int),
{
    let mut r = copy_str(s);
    let mut len: usize = chars_of(s).len();
    let ghost start = len as int;
    assert(r@ =~= s@ + Seq::new(0, |i: int| ' '));
    while len < n
        invariant
            start == s@.len(),
            start <= len,
            len <= n || len == start,
            r@ == s@ + Seq::new((len - start) as nat, |i: int| ' '),
        decreases n - len,
    {
        r.push(' ');
        len += 1;
        assert(r@ =~= s@ + Seq::new((len - start) as nat, |i: int| ' '));
    }
    assert(r@ =~= padded(s@, n as int));
    r
}

/// One `name  value` line, with the name in a fixed muted gutter.
pub open spec fn field_line(name: Seq<char>, value: Seq<char>) -> Seq<(Seq<char>, Tone)> {
    seq![(" "@ + padded(name, 11) + " "@, Tone::Muted), (value, Tone::Primary)]
}

fn field(name: &str, value: String) -> (v: Vec<Span>)
    ensures
        spans(v@) == field_line(name@, value@),
{
    let mut gutter = " ".to_owned();
    gutter.append(pad(name, 11).as_str());
    gutter.append(" ");
    let mut v = no_spans();
    push_span(&mut v, gutter, Tone::Muted);
    push_span(&mut v, value, Tone::Primary);
    assert(spans(v@) =~= field_line(name@, value@));
    v
}

/// Lines of pieces of text as plain values.
pub open spec fn lines_of(v: Seq<Vec<Span>>) -> Seq<Seq<(Seq<char>, Tone)>> {
    v.map_values(|line: Vec<Span>| spans(line@))
}

fn push_line(v: &mut Vec<Vec<Span>>, line: Vec<Span>)
    ensures
        lines_of(final(v)@) == lines_of(old(v)@).push(spans(line@)),
{
    let ghost before = v@;
    v.push(line);
    assert(lines_of(v@) =~= lines_of(before).push(spans(line@)));
}

fn single(text: String, tone: Tone) -> (v: Vec<Span>)
    ensures
        spans(v@) == seq![(text@, tone)],
{
    let mut v = no_spans();
    push_span(&mut v, text, tone);
    assert(spans(v@) =~= seq![(text@, tone)]);
    v
}

/// The full record of a proxy, with the last failed probe.
pub open spec fn record_lines(proxy: Option<Proxy>, failure: Option<Seq<char>>, ascii: bool) -> Seq<
    Seq<(Seq<char>, Tone)>,
> {
    match proxy {
        None => seq![seq![(" no row selected"@, Tone::Muted)]],
        Some(p) => {
            let lines = seq![
                seq![(" "@ + p.as_text_spec(), Tone::Emphasis)],
                field_line("geo"@, geo_text(p, ascii)),
                field_line("org"@, shown_text(p.geo.aso, "unknown organization"@)),
                field_line("rtt"@, rtt_text(p, ascii)),
                field_line("types"@, types_text(p)),
            ];
            match failure {
                Some(f) => lines.push(field_line("last failure"@, f)),
                None => lines,
            }
        },
    }
}

/// The full record of a proxy, with the last failed probe.
pub fn detail_lines(proxy: Option<&Proxy>, failure: Option<&str>, ascii: bool) -> (v: Vec<
    Vec<Span>,
>)
    requires
        proxy matches Some(p) ==> p.wf(),
    ensures
        lines_of(v@) == record_lines(
            match proxy {
                Some(p) => Some(*p),
                None => None,
            },
            match failure {
                Some(f) => Some(f@),
                None => None,
            },
            ascii,
        ),
{
    let mut v: Vec<Vec<Span>> = Vec::new();
    assert(lines_of(v@) =~= Seq::<Seq<(Seq<char>, Tone)>>::empty());
    match proxy {
        None => {
            push_line(&mut v, single(" no row selected".to_owned(), Tone::Muted));
            assert(lines_of(v@) =~= seq![seq![(" no row selected"@, Tone::Muted)]]);
        },
        Some(p) => {
            let mut endpoint = " ".to_owned();
            endpoint.append(p.as_text());
            push_line(&mut v, single(endpoint, Tone::Emphasis));
            push_line(&mut v, field("geo", geo_summary(p, ascii)));
            push_line(&mut v, field("org", shown(&p.geo.aso, "unknown organization")));
            push_line(&mut v, field("rtt", rtt_summary(p, ascii)));
            push_line(&mut v, field("types", types_summary(p)));
            let ghost lines = seq![
                seq![(" "@ + p.as_text_spec(), Tone::Emphasis)],
                field_line("geo"@, geo_text(*p, ascii)),
                field_line("org"@, shown_text(p.geo.aso, "unknown organization"@)),
                field_line("rtt"@, rtt_text(*p, ascii)),
                field_line("types"@, types_text(*p)),
            ];
            assert(lines_of(v@) =~= lines);
            if let Some(f) = failure {
                push_line(&mut v, field("last failure", copy_str(f)));
            }
        },
    }
    v
}

// ---------------------------------------------------------------------------
// Cells
// ---------------------------------------------------------------------------

/// The bytes of the first characters of a text.
pub open spec fn bytes_before(s: Seq<char>, n: int) -> int {
    encode_utf8(s.take(n)).len() as int
}

/// A text in three pieces, the middle one between two byte offsets.
pub open spec fn cut_at(s: Seq<char>, range: (usize, usize), i: int, j: int) -> bool {
    0 <= i <= j <= s.len() && bytes_before(s, i) == range.0 && bytes_before(s, j) == range.1
}

/// Whether a byte range covers whole characters of a text.
pub open spec fn covers(s: Seq<char>, range: (usize, usize)) -> bool {
    exists|i: int, j: int| cut_at(s, range, i, j)
}

/// What a cell shows. A number reads as metadata; a match is highlighted where
/// all of it is on screen.
pub open spec fn cell_shows(
    v: Seq<(Seq<char>, Tone)>,
    cells: Seq<Seq<char>>,
    ordinal: int,
    source: Source,
    width: int,
    hit: Option<Hit>,
    ascii: bool,
) -> bool {
    match source {
        Source::Ordinal => v == seq![(clamped(decimal(ordinal as nat), width, ascii), Tone::Muted)],
        Source::Cell(cell) => {
            let text = clamped(cells[cell as int], width, ascii);
            match hit {
                Some(h) => if h.column == cell && covers(text, h.range) {
                    exists|i: int, j: int|
                        #[trigger] cut_at(text, h.range, i, j) && v == seq![
                            (text.take(i), Tone::Plain),
                            (text.subrange(i, j), Tone::Match),
                            (text.skip(j), Tone::Plain),
                        ]
                } else {
                    v == seq![(text, Tone::Plain)]
                },
                None => v == seq![(text, Tone::Plain)],
            }
        },
    }
}

/// More characters take more bytes.
proof fn lemma_more_bytes(s: Seq<char>, i: int, j: int)
    requires
        0 <= i < j <= s.len(),
    ensures
        bytes_before(s, i) < bytes_before(s, j),
    decreases j - i,
{
    assert(s.take(j) =~= s.take(j - 1).push(s[j - 1]));
    lemma_encode_push(s.take(j - 1), s[j - 1]);
    assert(encode_scalar(s[j - 1] as u32).len() > 0);
    if i < j - 1 {
        lemma_more_bytes(s, i, j - 1);
    }
}

/// The number of characters that take so many bytes.
fn chars_within(text: &str, cs: &Vec<char>, bytes: usize) -> (r: Option<usize>)
    requires
        cs@ == text@,
    ensures
        match r {
            Some(n) => n <= text@.len() && bytes_before(text@, n as int) == bytes,
            None => forall|n: int| 0 <= n <= text@.len() ==> #[trigger] bytes_before(text@, n) != bytes,
        },
{
    let mut n: usize = 0;
    loop
        invariant
            cs@ == text@,
            n <= cs.len(),
            forall|m: int| 0 <= m < n ==> #[trigger] bytes_before(text@, m) != bytes,
        decreases cs.len() - n,
    {
        if byte_offset(text, cs, n) == bytes {
            return Some(n);
        }
        assert(bytes_before(text@, n as int) != bytes);
        if n == cs.len() {
            return None;
        }
        n += 1;
    }
}

fn highlighted(text: String, range: (usize, usize)) -> (v: Vec<Span>)
    ensures
        if covers(text@, range) {
            exists|i: int, j: int|
                #[trigger] cut_at(text@, range, i, j) && spans(v@) == seq![
                    (text@.take(i), Tone::Plain),
                    (text@.subrange(i, j), Tone::Match),
                    (text@.skip(j), Tone::Plain),
                ]
        } else {
            spans(v@) == seq![(text@, Tone::Plain)]
        },
{
    let cs = chars_of(text.as_str());
    let begin = chars_within(text.as_str(), &cs, range.0);
    let end = chars_within(text.as_str(), &cs, range.1);
    let mut v = no_spans();
    if let (Some(i), Some(j)) = (begin, end) {
        if i <= j {
            assert(cut_at(text@, range, i as int, j as int));
            let all = cs.as_slice();
            push_span(&mut v, string_of(slice_subrange(all, 0, i)), Tone::Plain);
            push_span(&mut v, string_of(slice_subrange(all, i, j)), Tone::Match);
            push_span(&mut v, string_of(slice_subrange(all, j, cs.len())), Tone::Plain);
            assert(spans(v@) =~= seq![
                (text@.take(i as int), Tone::Plain),
                (text@.subrange(i as int, j as int), Tone::Match),
                (text@.skip(j as int), Tone::Plain),
            ]);
            return v;
        }
    }
    proof {
        assert forall|a: int, b: int| !cut_at(text@, range, a, b) by {
            if cut_at(text@, range, a, b) {
                assert(begin is Some && end is Some);
                let i = begin->0;
                let j = end->0;
                if j < b {
                    lemma_more_bytes(text@, j as int, b);
                }
                if b < j {
                    lemma_more_bytes(text@, b, j as int);
                }
                if i < a {
                    lemma_more_bytes(text@, i as int, a);
                }
                if a < i {
                    lemma_more_bytes(text@, a, i as int);
                }
            }
        }
    }
    push_span(&mut v, text, Tone::Plain);
    assert(spans(v@) =~= seq![(text@, Tone::Plain)]);
    v
}

/// What a cell shows.
///
/// The match can sit past the truncation point; then there is nothing on screen
/// to highlight.
pub fn body_cell(
    row: &RowModel,
    ordinal: usize,
    index: usize,
    width: u16,
    hit: Option<Hit>,
    ascii: bool,
) -> (v: Vec<Span>)
    requires
        index < COLUMN_COUNT,
        row.wf(),
    ensures
        cell_shows(
            spans(v@),
            texts(row.cells@),
            ordinal as int,
            column_at(index as int).source,
            width as int,
            hit,
            ascii,
        ),
{
    let c = column(index);
    match c.source {
        Source::Ordinal => {
            let number = to_decimal(ordinal as u64);
            single(clamp_cells(number.as_str(), width, ascii), Tone::Muted)
        },
        Source::Cell(cell) => {
            assert(cell < row.cells@.len());
            assert(texts(row.cells@)[cell as int] == row.cells@[cell as int]@);
            let text = clamp_cells(row.cells[cell].as_str(), width, ascii);
            match hit {
                Some(h) => if h.column == cell {
                    highlighted(text, h.range)
                } else {
                    single(text, Tone::Plain)
                },
                None => single(text, Tone::Plain),
            }
        },
    }
}

// ---------------------------------------------------------------------------
// The footer
// ---------------------------------------------------------------------------

/// The hints of the first so many rows.
pub open spec fn hint_spans(rows: Seq<Binding>, n: int, ascii: bool) -> Seq<(Seq<char>, Tone)>
    decreases n,
{
    if n <= 0 {
        seq![(" "@, Tone::Muted)]
    } else {
        let before = hint_spans(rows, n - 1, ascii);
        let spaced = if n > 1 {
            before.push(("  "@ + drawn(Glyph::Dot, ascii) + "  "@, Tone::Muted))
        } else {
            before
        };
        spaced.push((rows[n - 1].keys_label@, Tone::Accent)).push(
            (" "@ + rows[n - 1].label@, Tone::Muted),
        )
    }
}

/// The first line of the footer. A half-typed row number replaces the hints:
/// what completes it is the only thing worth saying.
pub open spec fn hint_line(context: KeyContext, ascii: bool) -> Seq<(Seq<char>, Tone)> {
    match context.count {
        Some(n) => seq![
            (" "@, Tone::Muted),
            (decimal(n as nat), Tone::Accent),
            (" "@ + "G go to row"@, Tone::Muted),
            ("  "@, Tone::Muted),
        ],
        None => hint_spans(footer(context), footer(context).len() as int, ascii),
    }
}

/// The tone of a message.
pub open spec fn message_tone(kind: MessageKind) -> Tone {
    match kind {
        MessageKind::Info => Tone::Info,
        MessageKind::Warning => Tone::Warning,
        MessageKind::Error => Tone::Error,
    }
}

/// The footer: the hints, and the message where there is one.
pub open spec fn foot(
    context: KeyContext,
    message: Option<(Seq<char>, MessageKind)>,
    ascii: bool,
) -> Seq<Seq<(Seq<char>, Tone)>> {
    let hints = seq![hint_line(context, ascii)];
    match message {
        Some(m) => hints.push(seq![(" "@ + m.0, message_tone(m.1))]),
        None => hints,
    }
}

fn show_hints(context: KeyContext, ascii: bool) -> (v: Vec<Span>)
    ensures
        spans(v@) == hint_line(context, ascii),
{
    let mut v = no_spans();
    push_span(&mut v, " ".to_owned(), Tone::Muted);
    match count_hint(context) {
        Some((count, label)) => {
            push_span(&mut v, count, Tone::Accent);
            let mut s = " ".to_owned();
            s.append(label);
            push_span(&mut v, s, Tone::Muted);
            push_span(&mut v, "  ".to_owned(), Tone::Muted);
            assert(spans(v@) =~= hint_line(context, ascii));
        },
        None => {
            let rows = hints(context);
            let ghost all = footer(context);
            let mut i: usize = 0;
            assert(spans(v@) =~= hint_spans(all, 0, ascii));
            while i < rows.len()
                invariant
                    i <= rows.len(),
                    rows@.len() == all.len(),
                    forall|k: int|
                        0 <= k < rows@.len() ==> (#[trigger] rows@[k]).0@ == all[k].keys_label@
                            && rows@[k].1@ == all[k].label@,
                    spans(v@) == hint_spans(all, i as int, ascii),
                decreases rows.len() - i,
            {
                let (keys, label) = rows[i];
                if i > 0 {
                    let mut gap = "  ".to_owned();
                    gap.append(separator(ascii));
                    gap.append("  ");
                    push_span(&mut v, gap, Tone::Muted);
                }
                push_span(&mut v, keys.to_owned(), Tone::Accent);
                let mut s = " ".to_owned();
                s.append(label);
                push_span(&mut v, s, Tone::Muted);
                i += 1;
            }
        },
    }
    v
}

/// The footer: the keys of the surface that owns the keyboard, and the message
/// where there is one.
pub fn footer_lines(
    context: KeyContext,
    message: Option<(&str, MessageKind)>,
    ascii: bool,
) -> (v: Vec<Vec<Span>>)
    ensures
        lines_of(v@) == foot(
            context,
            match message {
                Some(m) => Some((m.0@, m.1)),
                None => None,
            },
            ascii,
        ),
{
    let mut v: Vec<Vec<Span>> = Vec::new();
    assert(lines_of(v@) =~= Seq::<Seq<(Seq<char>, Tone)>>::empty());
    push_line(&mut v, show_hints(context, ascii));
    assert(lines_of(v@) =~= seq![hint_line(context, ascii)]);
    if let Some((text, kind)) = message {
        let mut s = " ".to_owned();
        s.append(text);
        let tone = match kind {
            MessageKind::Info => Tone::Info,
            MessageKind::Warning => Tone::Warning,
            MessageKind::Error => Tone::Error,
        };
        push_line(&mut v, single(s, tone));
    }
    v
}

// ---------------------------------------------------------------------------
// Overlays
// ---------------------------------------------------------------------------

/// The lesser of two numbers.
pub open spec fn least(a: int, b: int) -> int {
    if a <= b {
        a
    } else {
        b
    }
}

/// A centered rectangle of the given size, clamped inside an area.
pub open spec fn centered(area: Rect, width: int, height: int) -> Rect {
    let w = least(width, area.width as int);
    let h = least(height, area.height as int);
    Rect {
        x: (area.x + (area.width - w) / 2) as u16,
        y: (area.y + (area.height - h) / 2) as u16,
        width: w as u16,
        height: h as u16,
    }
}

/// A centered rectangle of the given size, clamped inside `area`.
pub fn popup_area(area: Rect, width: u16, height: u16) -> (r: Rect)
    requires
        area.wf(),
    ensures
        r == centered(area, width as int, height as int),
{
    let width: u16 = if width <= area.width {
        width
    } else {
        area.width
    };
    let height: u16 = if height <= area.height {
        height
    } else {
        area.height
    };
    Rect {
        x: area.x + (area.width - width) / 2,
        y: area.y + (area.height - height) / 2,
        width,
        height,
    }
}

/// An overlay lies within the area that it covers.
pub proof fn popup_stays_inside(area: Rect, width: int, height: int)
    requires
        area.wf(),
        width >= 0,
        height >= 0,
    ensures
        ({
            let r = centered(area, width, height);
            &&& r.wf()
            &&& area.x <= r.x && r.x + r.width <= area.x + area.width
            &&& area.y <= r.y && r.y + r.height <= area.y + area.height
            &&& r.width <= width && r.height <= height
        }),
{
}

/// A share of a number of cells; a product that no longer fits counts as the
/// largest one.
pub open spec fn share(value: int, percent: int) -> int {
    least(value * percent, 0xffff) / 100
}

/// A share of a number of cells.
pub fn percent_of(value: u16, percent: u16) -> (r: u16)
    ensures
        r == share(value as int, percent as int),
{
    assert(0 <= value * percent <= 0xffff * 0xffff) by (nonlinear_arith)
        requires
            value <= 0xffff,
            percent <= 0xffff,
    ;
    let product: u32 = value as u32 * percent as u32;
    if product <= 0xffff {
        (product / 100) as u16
    } else {
        655
    }
}

/// The width of an overlay.
pub open spec fn wide(area: Rect, percent: int) -> int {
    let w = share(area.width as int, percent);
    if w < MIN_OVERLAY_WIDTH {
        MIN_OVERLAY_WIDTH as int
    } else {
        w
    }
}

/// The width of an overlay that takes a share of an area.
pub fn overlay_width(area: Rect, percent: u16) -> (r: u16)
    ensures
        r == wide(area, percent as int),
{
    let w: u16 = percent_of(area.width, percent);
    if w < MIN_OVERLAY_WIDTH {
        MIN_OVERLAY_WIDTH
    } else {
        w
    }
}

/// Where a prompt goes.
pub fn input_area(area: Rect) -> (r: Rect)
    requires
        area.wf(),
    ensures
        r == centered(area, wide(area, PROMPT_WIDTH_PERCENT as int), PROMPT_ROWS + OVERLAY_CHROME_ROWS),
{
    popup_area(area, overlay_width(area, PROMPT_WIDTH_PERCENT), PROMPT_ROWS + OVERLAY_CHROME_ROWS)
}

/// The title of a prompt.
pub fn input_title(purpose: InputPurpose) -> (s: &'static str)
    ensures
        s@ == (match purpose {
            InputPurpose::Filter => " filter "@,
            InputPurpose::ExportFormat => " export format "@,
            InputPurpose::ExportPath => " export to path "@,
        }),
{
    match purpose {
        InputPurpose::Filter => " filter ",
        InputPurpose::ExportFormat => " export format ",
        InputPurpose::ExportPath => " export to path ",
    }
}

/// Where the caret of a prompt goes: at the end of the text, since the prompt
/// has no cursor keys, and nowhere once the text has outgrown the prompt.
pub fn caret(target: Rect, buffer: &str) -> (r: Option<(u16, u16)>)
    requires
        target.wf(),
        target.height > 0,
    ensures
        match r {
            Some(at) => at.0 == target.x + 2 + text_cells(buffer@) && at.1 == target.y + 1 && at.0
                < target.x + target.width - 1,
            None => target.x + 2 + text_cells(buffer@) >= target.x + target.width - 1,
        },
{
    let cells: usize = width_of(buffer);
    if target.width <= 3 || cells >= (target.width - 3) as usize {
        None
    } else {
        Some((target.x + 2 + cells as u16, target.y + 1))
    }
}

/// Where a confirmation goes.
pub fn confirm_area(area: Rect) -> (r: Rect)
    requires
        area.wf(),
    ensures
        r == centered(
            area,
            wide(area, PROMPT_WIDTH_PERCENT as int),
            CONFIRM_ROWS + OVERLAY_CHROME_ROWS,
        ),
{
    popup_area(area, overlay_width(area, PROMPT_WIDTH_PERCENT), CONFIRM_ROWS + OVERLAY_CHROME_ROWS)
}

/// What a confirmation asks, with the keys that answer it.
pub fn confirm_lines(question: &str) -> (v: Vec<Vec<Span>>)
    ensures
        lines_of(v@) == seq![
            seq![(question@, Tone::Emphasis)],
            seq![
                (" y"@, Tone::Accent),
                (" yes"@, Tone::Muted),
                ("     n"@, Tone::Accent),
                (" no"@, Tone::Muted),
            ],
        ],
{
    let mut v: Vec<Vec<Span>> = Vec::new();
    assert(lines_of(v@) =~= Seq::<Seq<(Seq<char>, Tone)>>::empty());
    push_line(&mut v, single(copy_str(question), Tone::Emphasis));
    let mut answers = no_spans();
    push_span(&mut answers, " y".to_owned(), Tone::Accent);
    push_span(&mut answers, " yes".to_owned(), Tone::Muted);
    push_span(&mut answers, "     n".to_owned(), Tone::Accent);
    push_span(&mut answers, " no".to_owned(), Tone::Muted);
    let ghost answers_of = seq![
        (" y"@, Tone::Accent),
        (" yes"@, Tone::Muted),
        ("     n"@, Tone::Accent),
        (" no"@, Tone::Muted),
    ];
    assert(spans(answers@) =~= answers_of);
    push_line(&mut v, answers);
    assert(lines_of(v@) =~= seq![seq![(question@, Tone::Emphasis)], answers_of]);
    v
}

/// Where the drill-down goes, sized to its lines.
pub fn detail_area(area: Rect, lines: u16) -> (r: Rect)
    requires
        area.wf(),
    ensures
        r == centered(area, wide(area, DETAIL_WIDTH_PERCENT as int), lines + OVERLAY_CHROME_ROWS),
{
    let height: u16 = if lines >= area.height {
        area.height
    } else {
        lines.saturating_add(OVERLAY_CHROME_ROWS)
    };
    popup_area(area, overlay_width(area, DETAIL_WIDTH_PERCENT), height)
}

// ---------------------------------------------------------------------------
// Help
// ---------------------------------------------------------------------------

/// Where the help panel goes and how far it is scrolled.
#[derive(Clone, Copy, Debug, PartialEq, Eq, Structural)]
pub struct HelpPanel {
    pub target: Rect,
    pub scroll: u16,
    /// Interior rows.
    pub visible: u16,
}

/// The help panel sized to its content, so a row is never cut mid-word; the
/// whole screen when the body needs it.
pub open spec fn help_target(area: Rect, rows: int, widest: int) -> Rect {
    let needed = least(rows + OVERLAY_CHROME_ROWS, area.height as int);
    if needed == area.height {
        area
    } else {
        let usual = wide(area, HELP_WIDTH_PERCENT as int);
        centered(
            area,
            if widest + OVERLAY_CHROME_COLUMNS > usual {
                widest + OVERLAY_CHROME_COLUMNS
            } else {
                usual
            },
            needed,
        )
    }
}

/// Where the help panel goes and how far it is scrolled.
pub fn help_panel(area: Rect, rows: u16, widest: u16, help_scroll: u16) -> (r: HelpPanel)
    requires
        area.wf(),
    ensures
        r.target == help_target(area, rows as int, widest as int),
        r.visible == minus(r.target.height as int, OVERLAY_CHROME_ROWS as int),
        r.scroll == least(help_scroll as int, minus(rows as int, r.visible as int)),
{
    let target = if rows >= area.height || rows.saturating_add(OVERLAY_CHROME_ROWS) >= area.height {
        area
    } else {
        let usual: u16 = overlay_width(area, HELP_WIDTH_PERCENT);
        let needed: u16 = widest.saturating_add(OVERLAY_CHROME_COLUMNS);
        let width: u16 = if needed > usual {
            needed
        } else {
            usual
        };
        popup_area(area, width, rows + OVERLAY_CHROME_ROWS)
    };
    let visible: u16 = target.height.saturating_sub(OVERLAY_CHROME_ROWS);
    let hidden: u16 = rows.saturating_sub(visible);
    let scroll: u16 = if help_scroll <= hidden {
        help_scroll
    } else {
        hidden
    };
    HelpPanel { target, scroll, visible }
}

/// The panel never scrolls past its last row.
pub proof fn help_shows_its_last_row(area: Rect, rows: int, widest: int, help_scroll: int)
    requires
        area.wf(),
        rows >= 0,
        widest >= 0,
        help_scroll >= 0,
    ensures
        ({
            let visible = minus(
                help_target(area, rows, widest).height as int,
                OVERLAY_CHROME_ROWS as int,
            );
            let scroll = least(help_scroll, minus(rows, visible));
            scroll + visible >= rows || scroll == help_scroll
        }),
{
}

/// The title of the help panel: the position is only worth reporting where
/// something is hidden.
pub open spec fn help_heading(scroll: int, visible: int, rows: int) -> Seq<char> {
    if scroll == 0 && rows <= visible {
        " help "@
    } else {
        " help "@ + decimal((scroll + 1) as nat) + "-"@ + decimal(
            least(scroll + visible, rows) as nat,
        ) + "/"@ + decimal(rows as nat) + " "@
    }
}

/// The title of the help panel.
pub fn help_title(scroll: u16, visible: u16, rows: u16) -> (s: String)
    ensures
        s@ == help_heading(scroll as int, visible as int, rows as int),
{
    if scroll == 0 && rows <= visible {
        return " help ".to_owned();
    }
    let last: u64 = scroll as u64 + visible as u64;
    let last: u64 = if last <= rows as u64 {
        last
    } else {
        rows as u64
    };
    let mut s = " help ".to_owned();
    push_decimal(&mut s, scroll as u64 + 1);
    s.append("-");
    push_decimal(&mut s, last);
    s.append("/");
    push_decimal(&mut s, rows as u64);
    s.append(" ");
    s
}

/// One binding as the help panel prints it.
pub open spec fn binding_line(keys: Seq<char>, detail: Seq<char>) -> Seq<(Seq<char>, Tone)> {
    seq![("   "@ + padded(keys, 10), Tone::Accent), (detail, Tone::Primary)]
}

/// The bindings of a surface as the help panel prints them.
pub open spec fn binding_lines(rows: Seq<Binding>) -> Seq<Seq<(Seq<char>, Tone)>> {
    rows.map_values(|b: Binding| binding_line(b.keys_label@, b.detail@))
}

/// The bindings of a named surface.
pub open spec fn rows_named(name: Seq<char>) -> Seq<Binding> {
    match named_scope(name) {
        Some(scope) => rows_on(keymap_rows(), scope),
        None => Seq::empty(),
    }
}

/// The first so many surfaces of the help panel, with an empty line between
/// two of them.
pub open spec fn group_lines(n: int) -> Seq<Seq<(Seq<char>, Tone)>>
    decreases n,
{
    if n <= 0 {
        Seq::empty()
    } else {
        let before = group_lines(n - 1);
        let spaced = if before.len() > 0 {
            before.push(Seq::empty())
        } else {
            before
        };
        let group = help_group_texts()[n - 1];
        spaced.push(seq![(" "@ + group.0, Tone::Title)]) + binding_lines(rows_named(group.1))
    }
}

/// Every line of the help panel: the key table grouped by surface, and the
/// facts that have no key.
pub open spec fn help_lines() -> Seq<Seq<(Seq<char>, Tone)>> {
    group_lines(6).push(Seq::empty()).push(seq![(" notes"@, Tone::Title)])
        + help_note_texts().map_values(|note: Seq<char>| seq![("   "@ + note, Tone::Muted)])
}

fn push_group(v: &mut Vec<Vec<Span>>, title: &str, name: &str)
    ensures
        lines_of(final(v)@) == ({
            let before = lines_of(old(v)@);
            let spaced = if before.len() > 0 {
                before.push(Seq::empty())
            } else {
                before
            };
            spaced.push(seq![(" "@ + title@, Tone::Title)]) + binding_lines(rows_named(name@))
        }),
{
    if v.len() > 0 {
        push_line(v, no_spans());
    }
    let mut heading = " ".to_owned();
    heading.append(title);
    push_line(v, single(heading, Tone::Title));
    let ghost start = lines_of(v@);
    let rows = bindings_on(name);
    let ghost all = rows_named(name@);
    let mut i: usize = 0;
    assert(start =~= start + binding_lines(all).take(0));
    while i < rows.len()
        invariant
            i <= rows.len(),
            rows@.len() == all.len(),
            forall|k: int|
                0 <= k < rows@.len() ==> (#[trigger] rows@[k]).0@ == all[k].keys_label@
                    && rows@[k].1@ == all[k].detail@,
            lines_of(v@) == start + binding_lines(all).take(i as int),
        decreases rows.len() - i,
    {
        let (keys, detail) = rows[i];
        let mut s = "   ".to_owned();
        s.append(pad(keys, 10).as_str());
        let mut line = no_spans();
        push_span(&mut line, s, Tone::Accent);
        push_span(&mut line, detail.to_owned(), Tone::Primary);
        assert(spans(line@) =~= binding_line(all[i as int].keys_label@, all[i as int].detail@));
        push_line(v, line);
        assert(lines_of(v@) =~= start + binding_lines(all).take(i + 1));
        i += 1;
    }
    assert(binding_lines(all).take(all.len() as int) =~= binding_lines(all));
}

/// Every line of the `?` panel: the key table grouped by surface, then the
/// facts that have no key.
pub fn help_body() -> (v: Vec<Vec<Span>>)
    ensures
        lines_of(v@) == help_lines(),
{
    let mut v: Vec<Vec<Span>> = Vec::new();
    assert(lines_of(v@) =~= group_lines(0));
    let groups = help_groups();
    let mut i: usize = 0;
    while i < groups.len()
        invariant
            i <= groups.len(),
            groups@.len() == 6,
            forall|k: int|
                0 <= k < 6 ==> (#[trigger] groups@[k]).0@ == help_group_texts()[k].0 && groups@[k].1@
                    == help_group_texts()[k].1,
            lines_of(v@) == group_lines(i as int),
        decreases groups.len() - i,
    {
        let (title, name) = groups[i];
        push_group(&mut v, title, name);
        i += 1;
    }
    push_line(&mut v, no_spans());
    push_line(&mut v, single(" notes".to_owned(), Tone::Title));
    let ghost start = lines_of(v@);
    let ghost all = help_note_texts().map_values(|note: Seq<char>| seq![("   "@ + note, Tone::Muted)]);
    let notes = help_notes();
    let mut k: usize = 0;
    assert(start =~= start + all.take(0));
    while k < notes.len()
        invariant
            k <= notes.len(),
            notes@.len() == 6,
            forall|j: int| 0 <= j < 6 ==> (#[trigger] notes@[j])@ == help_note_texts()[j],
            all == help_note_texts().map_values(
                |note: Seq<char>| seq![("   "@ + note, Tone::Muted)],
            ),
            lines_of(v@) == start + all.take(k as int),
        decreases notes.len() - k,
    {
        let mut s = "   ".to_owned();
        s.append(notes[k]);
        push_line(&mut v, single(s, Tone::Muted));
        assert(lines_of(v@) =~= start + all.take(k + 1));
        k += 1;
    }
    assert(all.take(6) =~= all);
    v
}

// ---------------------------------------------------------------------------
// The mouse
// ---------------------------------------------------------------------------

/// What the mouse did.
#[derive(Clone, Copy, Debug, PartialEq, Eq, Structural)]
pub enum MouseKind {
    ScrollUp,
    ScrollDown,
    /// The left button went down.
    Press,
    Other,
}

/// What a mouse event asks for.
#[derive(Clone, Copy, Debug, PartialEq, Eq, Structural)]
pub enum MouseIntent {
    Nothing,
    Act(Action),
    Select(usize),
}

/// What a mouse event asks for, given the row that it landed on.
pub open spec fn mouse_intent(overlay_open: bool, kind: MouseKind, row: Option<int>) -> MouseIntent {
    match kind {
        MouseKind::ScrollUp if !overlay_open => MouseIntent::Act(Action::ScrollUp),
        MouseKind::ScrollDown if !overlay_open => MouseIntent::Act(Action::ScrollDown),
        MouseKind::Press if !overlay_open && row is Some => MouseIntent::Select(row->0 as usize),
        _ => MouseIntent::Nothing,
    }
}

/// Mouse input only accelerates the keyboard, and only on the browse surface:
/// an overlay owns the frame while it is open.
pub fn handle_mouse(
    overlay_open: bool,
    kind: MouseKind,
    area: Rect,
    row: u16,
    selected: usize,
    visible: usize,
) -> (r: MouseIntent)
    requires
        area.wf(),
    ensures
        if overlay_open {
            r == MouseIntent::Nothing
        } else {
            match kind {
                MouseKind::ScrollUp => r == MouseIntent::Act(Action::ScrollUp),
                MouseKind::ScrollDown => r == MouseIntent::Act(Action::ScrollDown),
                MouseKind::Press => match clicked_row(
                    area,
                    row as int,
                    selected as int,
                    visible as int,
                ) {
                    Some(i) => r matches MouseIntent::Select(k) && k == i,
                    None => r == MouseIntent::Nothing,
                },
                MouseKind::Other => r == MouseIntent::Nothing,
            }
        },
        r == mouse_intent(
            overlay_open,
            kind,
            clicked_row(area, row as int, selected as int, visible as int),
        ),
{
    if overlay_open {
        return MouseIntent::Nothing;
    }
    match kind {
        MouseKind::ScrollUp => MouseIntent::Act(Action::ScrollUp),
        MouseKind::ScrollDown => MouseIntent::Act(Action::ScrollDown),
        MouseKind::Press => match row_at(area, row, selected, visible) {
            Some(index) => MouseIntent::Select(index),
            None => MouseIntent::Nothing,
        },
        MouseKind::Other => MouseIntent::Nothing,
    }
}

// ---------------------------------------------------------------------------
// What holds of what is said
// ---------------------------------------------------------------------------

proof fn lemma_minutes_and_seconds(minutes: int, seconds: int, below: int)
    requires
        0 <= seconds < 60,
        0 <= below < 1_000_000_000,
    ensures
        ({
            let nanos = minutes * 60_000_000_000 + seconds * 1_000_000_000 + below;
            nanos / 60_000_000_000 == minutes && nanos / 1_000_000_000 % 60 == seconds
        }),
{
    let nanos = minutes * 60_000_000_000 + seconds * 1_000_000_000 + below;
    lemma_fundamental_div_mod_converse(
        nanos,
        60_000_000_000,
        minutes,
        seconds * 1_000_000_000 + below,
    );
    lemma_fundamental_div_mod_converse(nanos, 1_000_000_000, 60 * minutes + seconds, below);
    lemma_fundamental_div_mod_converse(60 * minutes + seconds, 60, minutes, seconds);
}

/// From a minute on a duration is told in minutes and seconds, the seconds in
/// two digits; below that whole seconds are told with a decimal of nothing.
pub proof fn durations_are_told(minutes: int, seconds: int, below: int)
    requires
        0 <= seconds < 60,
        0 <= below < 1_000_000_000,
    ensures
        minutes >= 1 ==> clock_text(
            minutes * 60_000_000_000 + seconds * 1_000_000_000 + below,
        ) == decimal(minutes as nat) + "m "@ + two_digits(seconds) + "s"@,
        clock_text(seconds * 1_000_000_000) == decimal(seconds as nat) + ".0s"@,
        seconds < 10 ==> two_digits(seconds) == seq!['0'] + decimal(seconds as nat),
        seconds >= 10 ==> two_digits(seconds) == decimal(seconds as nat),
{
    reveal_strlit("0");
    reveal_strlit(".");
    reveal_strlit("s");
    reveal_strlit(".0s");
    assert("0"@ =~= seq!['0']);
    lemma_minutes_and_seconds(minutes, seconds, below);
    whole_numbers_are_exact(seconds, 1_000_000_000, 10);
    reveal_with_fuel(decimal, 2);
    assert(decimal(0) =~= seq!['0']);
    assert("."@ + decimal(0) + "s"@ =~= ".0s"@);
    assert(seconds * 1_000_000_000 < 60_000_000_000);
    assert(clock_text(seconds * 1_000_000_000) =~= decimal(seconds as nat) + ".0s"@);
}

/// Where nothing was probed the rate is nothing, over any time.
pub proof fn idle_rates_are_nothing(nanos: u64)
    ensures
        rate_text(Rate { probes: 0, nanos }) == "0.0/s"@,
{
    reveal_strlit(".");
    reveal_strlit("/s");
    reveal_strlit("0.0/s");
    reveal_with_fuel(decimal, 2);
    let y = double_of(nanos as int, 1_000_000_000);
    let z = quotient((0int, 0int), y);
    assert(double_of(0, 1) == (0int, 0int));
    assert(z.0 == 0);
    lemma_nothing_is_nothing(z.1);
    assert(decimal(0) =~= seq!['0']);
    assert(rate_text(Rate { probes: 0, nanos }) =~= "0.0/s"@);
}

proof fn lemma_nothing_is_nothing(e: int)
    ensures
        units_of((0, e), 10) == 0,
{
    if e >= 0 {
        assert(0 * pow2(e as nat) * 10 == 0) by (nonlinear_arith);
    } else {
        let unit = pow2((-e) as nat) as int;
        vstd::arithmetic::power2::lemma_pow2_pos((-e) as nat);
        assert(0int / unit == 0) by (nonlinear_arith)
            requires
                unit > 0,
        ;
        assert(0int % unit == 0) by (nonlinear_arith)
            requires
                unit > 0,
        ;
    }
}

/// A percentage of nothing is nothing, and is padded to three characters.
pub proof fn percentages_are_padded(whole: int)
    ensures
        percent_text(0, whole) == "  0%"@,
{
    reveal_strlit("  ");
    reveal_strlit("%");
    reveal_strlit("  0%");
    reveal_with_fuel(decimal, 2);
    lemma2_to64();
    assert(0 * 100 == 0 && 0 * pow2(0) * 1 == 0) by (nonlinear_arith);
    assert(times(double_of(0, whole), 100) == (0int, 0int));
    assert(units_of((0int, 0int), 1) == 0);
    assert(decimal(0) =~= seq!['0']);
    assert(percent_text(0, whole) =~= "  0%"@);
}

/// A health report is trouble exactly where fewer judges are healthy than there
/// are, or more.
pub proof fn sick_judges_are_trouble(healthy: nat, all: nat)
    ensures
        reports_trouble(decimal(healthy) + seq!['/'] + decimal(all) + " judges healthy"@)
            <==> healthy != all,
{
    reveal_strlit(" judges healthy");
    let tail = " judges healthy"@;
    let report = decimal(healthy) + seq!['/'] + decimal(all) + tail;
    let i = decimal(healthy).len() as int;
    digits_are_no_marks(healthy, '/');
    digits_are_no_marks(all, ' ');
    assert forall|j: int| 0 <= j < i implies report[j] != '/' by {
        assert(report[j] == decimal(healthy)[j]);
    }
    lemma_find_char_is(report, '/', i);
    let behind = tail.skip(1);
    assert(tail =~= seq![' '] + behind);
    assert(report.skip(i + 1) =~= decimal(all) + seq![' '] + behind);
    lemma_fields_cons(decimal(all), ' ', behind);
    assert(fields(report.skip(i + 1), ' ')[0] == decimal(all));
    assert(report.take(i) =~= decimal(healthy));
    decimal_reads_back(healthy, healthy);
    decimal_reads_back(all, all);
}

/// The numbers beside the bar are the counts, then the percentage, then the
/// rate; a cramped line drops them from the end, one after the other.
pub proof fn labels_shrink_from_the_end(
    done: int,
    total: int,
    part: int,
    whole: int,
    rate: Rate,
    budget: int,
)
    ensures
        ({
            let forms = label_forms(done, total, part, whole, rate);
            let label = label_text(forms, budget);
            &&& forms[2] == decimal(done as nat) + seq!['/'] + decimal(total as nat)
            &&& forms[1] == forms[2] + seq![' ', ' '] + percent_text(part, whole)
            &&& forms[0] == forms[1] + seq![' ', ' '] + rate_text(rate)
            &&& text_cells(forms[0]) <= budget ==> label == forms[0]
            &&& text_cells(forms[0]) > budget && text_cells(forms[1]) <= budget ==> label
                == forms[1]
            &&& text_cells(forms[0]) > budget && text_cells(forms[1]) > budget ==> label == forms[2]
        }),
{
    reveal_strlit("/");
    reveal_strlit("  ");
    assert("/"@ =~= seq!['/']);
    assert("  "@ =~= seq![' ', ' ']);
}

/// The bar takes a quarter of the line, but ten cells at the least and no more
/// than twenty-four; behind it stand the numbers, and on a line of sixty cells
/// what passed and what failed.
pub proof fn strips_tell_of_the_progress(p: Progress, rate: Rate, width: int, ascii: bool)
    requires
        p.passed <= p.done,
    ensures
        width < 40 ==> bar_share(width) == 10,
        40 <= width <= 96 ==> bar_share(width) == width / 4,
        width > 96 ==> bar_share(width) == 24,
        width < 60 ==> strip(p, rate, width, ascii).len() == 2,
        strip(p, rate, width, ascii)[0].1 is Accent,
        strip(p, rate, width, ascii)[1].1 is Primary,
        width >= 60 ==> ({
            let s = strip(p, rate, width, ascii);
            &&& s.len() == 4
            &&& s[2] == ("  "@ + drawn(Glyph::Check, ascii) + " "@ + decimal(p.passed as nat), Tone::Success)
            &&& s[3] == (
                " "@ + drawn(Glyph::Cross, ascii) + " "@ + decimal((p.done - p.passed) as nat),
                Tone::Error,
            )
        }),
{
}

/// The first line names the program, the command, the state and the clock; a
/// run that is over is told in the tone of how it ended.
pub proof fn identities_are_told(
    mode: Seq<char>,
    screen: Screen,
    cancelled: bool,
    elapsed: int,
    ascii: bool,
)
    ensures
        ({
            let s = identity_line(mode, screen, cancelled, elapsed, ascii);
            &&& s.len() == 6
            &&& s[0] == (" flx"@, Tone::Title)
            &&& s[2] == (mode, Tone::Accent)
            &&& screen is Running ==> s[4] == ("running"@, Tone::Accent)
            &&& screen is Done && cancelled ==> s[4] == ("done"@, Tone::Warning)
            &&& screen is Done && !cancelled ==> s[4] == ("done"@, Tone::Success)
            &&& s[5] == (" "@ + clock_text(elapsed), Tone::Muted)
        }),
{
}

/// A pause, and judges that are down, are said behind the rest of the live line,
/// as warnings and only where they are so.
pub proof fn warnings_stand_last(
    live: LiveLine,
    rate: Rate,
    health: Seq<char>,
    width: int,
    ascii: bool,
)
    ensures
        ({
            let line = live_spans(Some(live), rate, width, ascii);
            let going = live_spans(Some(LiveLine { paused: false, ..live }), rate, width, ascii);
            &&& !live.paused ==> line == going
            &&& live.paused ==> line == going.push(
                ("  "@ + drawn(Glyph::Paused, ascii) + " paused"@, Tone::Warning),
            )
            &&& live.progress is Some ==> going == strip(live.progress->0, rate, width, ascii)
            &&& live.progress is None ==> going == phase_spans(
                live.phase,
                live.phase_elapsed as int,
                live.gathered as int,
                ascii,
            )
            &&& running_line(Some(live), rate, None, width, ascii) == line
            &&& !reports_trouble(health) ==> running_line(
                Some(live),
                rate,
                Some(health),
                width,
                ascii,
            ) == line
            &&& reports_trouble(health) ==> running_line(
                Some(live),
                rate,
                Some(health),
                width,
                ascii,
            ) == line.push(("  "@ + drawn(Glyph::Warning, ascii) + " "@ + health, Tone::Warning))
        }),
{
}

/// A phase is told with what was gathered; a spinner comes before it from a
/// little less than a fifth of a second on.
pub proof fn phases_are_told(phase: Phase, elapsed: int, gathered: int, ascii: bool)
    requires
        elapsed >= 0,
    ensures
        ({
            let s = phase_spans(phase, elapsed, gathered, ascii);
            &&& elapsed < 180_000_000 ==> s.len() == 3
            &&& elapsed >= 180_000_000 ==> s.len() == 5 && s[1] == (
                spinner_text(elapsed / 80_000_000, ascii),
                Tone::Accent,
            )
            &&& s[s.len() - 2] == (phase_text(phase), Tone::Accent)
            &&& s.last() == (
                " "@ + drawn(Glyph::Dot, ascii) + " gathered "@ + decimal(gathered as nat),
                Tone::Primary,
            )
        }),
{
    assert(elapsed / 1_000_000 / 80 == elapsed / 80_000_000);
}

/// The line of a run that is over tells what was kept, what failed where
/// something did, what was gathered in what time, and that it was cancelled
/// where it was; without a tally it tells the rows.
pub proof fn tallies_are_told(
    s: RunSummary,
    results: int,
    cancelled: bool,
    ascii: bool,
)
    ensures
        ({
            let line = done_line(Some(s), results, cancelled, ascii);
            let bare = done_line(None, results, cancelled, ascii);
            let n = 3 + (if s.failed > 0 {
                1int
            } else {
                0
            });
            &&& line.len() == n + (if cancelled {
                1int
            } else {
                0
            })
            &&& line[1] == ("kept "@ + decimal(s.valid as nat), Tone::Success)
            &&& s.failed > 0 ==> line[2] == (
                "  "@ + decimal(s.failed as nat) + " failed"@,
                Tone::Error,
            )
            &&& line[n - 1] == (
                " "@ + drawn(Glyph::Dot, ascii) + " gathered "@ + decimal(s.gathered as nat)
                    + " in "@ + clock_text(s.elapsed as int),
                Tone::Primary,
            )
            &&& cancelled ==> line.last() == ("  cancelled"@, Tone::Warning)
            &&& cancelled ==> bare.last() == ("  cancelled"@, Tone::Warning)
            &&& bare[1] == (decimal(results as nat) + " rows"@, Tone::Primary)
        }),
{
}

/// The title says how many rows of how many are shown and in which order; the
/// filter and the rows over the cap come behind that, where there are any.
pub proof fn titles_tell_of_the_view(
    visible: int,
    results: int,
    view: ViewState,
    overflow: int,
    ascii: bool,
)
    ensures
        ({
            let dot = drawn(Glyph::Dot, ascii);
            let counts = " results "@ + dot + " "@ + decimal(visible as nat) + "/"@ + decimal(
                results as nat,
            );
            let title = title_text(visible, results, view, overflow, ascii);
            let base = title_text(visible, results, view, 0, ascii);
            &&& counts.is_prefix_of(title)
            &&& overflow <= 0 ==> title == base
            &&& overflow > 0 ==> title == base + (dot + " over cap "@ + decimal(overflow as nat)
                + " "@)
            &&& view.filter@.len() == 0 ==> base == counts + (" "@ + dot + " sort "@ + sort_name(
                view.sort,
            ) + " "@ + order_arrow(view.order, ascii) + " "@)
            &&& view.filter@.len() > 0 ==> base == counts + (" "@ + dot + " sort "@ + sort_name(
                view.sort,
            ) + " "@ + order_arrow(view.order, ascii) + " "@) + (dot + " filter \""@ + view.filter@
                + "\" "@)
        }),
{
    let dot = drawn(Glyph::Dot, ascii);
    let counts = " results "@ + dot + " "@ + decimal(visible as nat) + "/"@ + decimal(
        results as nat,
    );
    let sorted = " "@ + dot + " sort "@ + sort_name(view.sort) + " "@ + order_arrow(
        view.order,
        ascii,
    ) + " "@;
    let head = counts + " "@ + dot + " sort "@ + sort_name(view.sort) + " "@ + order_arrow(
        view.order,
        ascii,
    ) + " "@;
    assert(head =~= counts + sorted);
}

/// An arrow up is for the lesser first, one down for the greater first.
pub proof fn arrows_show_the_direction(ascii: bool)
    ensures
        order_arrow(SortOrder::Asc, ascii) == drawn(Glyph::ArrowUp, ascii),
        order_arrow(SortOrder::Desc, ascii) == drawn(Glyph::ArrowDown, ascii),
{
}

/// Only the column that the rows are sorted by shows the arrow; the others show
/// their title, cut to their width.
pub proof fn one_header_has_the_arrow(index: int, width: int, view: ViewState, ascii: bool)
    requires
        0 <= index < 9,
        width > 2,
        text_cells(order_arrow(view.order, ascii)) == 1,
        text_cells(Seq::empty()) == 0,
    ensures
        ({
            let title = column_at(index).title@;
            let sorted = (index == 7 && view.sort == Some(SortKey::AvgResponseTime)) || (index == 4
                && view.sort == Some(SortKey::Country)) || (index == 3 && view.sort == Some(
                SortKey::Anonymity,
            ));
            header_label(index, width, view, ascii) == if sorted {
                clamped(title, width - 2, ascii) + seq![' '] + order_arrow(view.order, ascii)
            } else {
                clamped(title, width, ascii)
            }
        }),
{
    reveal_strlit(" ");
    assert(" "@ =~= seq![' ']);
}

/// A click on a row of the table selects the row that is shown there, and one
/// outside the rows selects nothing.
pub proof fn clicks_select_what_is_shown(area: Rect, selected: int, visible: int, i: int, y: int)
    requires
        area.wf(),
        area.width >= 60,
        area.height >= 12,
        0 <= selected < visible,
    ensures
        ({
            let top = area.y + 4;
            let (start, end) = window_of(selected, area.height - 5, visible);
            &&& start <= i < end ==> clicked_row(area, top + (i - start), selected, visible) == Some(
                i,
            )
            &&& y < top ==> clicked_row(area, y, selected, visible) is None
            &&& y >= area.y + area.height - 1 ==> clicked_row(area, y, selected, visible) is None
            &&& y >= top + (end - start) ==> clicked_row(area, y, selected, visible) is None
        }),
{
    let l = screen_of(area)->0;
    assert(l.table.y == area.y + 3);
    assert(l.table.height == area.height - 4);
}

/// The record of a proxy names it and tells where it is, whose it is, how fast
/// it answers and what it was validated for, and behind that the last failure
/// where there is one.
pub proof fn records_tell_of_the_proxy(p: Proxy, failure: Seq<char>, ascii: bool)
    ensures
        ({
            let lines = record_lines(Some(p), None, ascii);
            &&& lines.len() == 5
            &&& lines[0] == seq![(seq![' '] + p.as_text_spec(), Tone::Emphasis)]
            &&& lines[1] == field_line("geo"@, geo_text(p, ascii))
            &&& p.geo.aso is Some ==> lines[2] == field_line("org"@, p.geo.aso->0@)
            &&& p.geo.aso is None ==> lines[2] == field_line("org"@, "unknown organization"@)
            &&& lines[3] == field_line("rtt"@, rtt_text(p, ascii))
            &&& lines[4] == field_line("types"@, types_text(p))
            &&& record_lines(Some(p), Some(failure), ascii) == lines.push(
                field_line("last failure"@, failure),
            )
            &&& record_lines(None, Some(failure), ascii).len() == 1
            &&& p.proxy_types@.len() == 0 ==> types_text(p) == "unvalidated"@
            &&& p.proxy_types@.len() > 0 ==> types_text(p) == joined(
                type_texts(p.proxy_types@),
                ", "@,
            )
        }),
{
    reveal_strlit(" ");
    assert(" "@ =~= seq![' ']);
}

/// What is padded begins with the text, goes on in blanks, and is as long as it
/// was asked to be, unless the text is longer.
pub proof fn padding_is_blank(s: Seq<char>, n: int, i: int)
    ensures
        s.is_prefix_of(padded(s, n)),
        s.len() <= n ==> padded(s, n).len() == n,
        s.len() > n ==> padded(s, n) == s,
        s.len() <= i < n ==> padded(s, n)[i] == ' ',
{
    if s.len() > n {
        assert(padded(s, n) =~= s);
    }
}

/// The hints stand in the order of the table, keys before what they do, with a
/// dot between two of them.
pub proof fn hints_stand_in_order(rows: Seq<Binding>, n: int, ascii: bool)
    requires
        0 < n <= rows.len(),
    ensures
        ({
            let all = hint_spans(rows, n, ascii);
            &&& all.len() == 3 * n
            &&& all[3 * n - 2] == (rows[n - 1].keys_label@, Tone::Accent)
            &&& all[3 * n - 1] == (" "@ + rows[n - 1].label@, Tone::Muted)
            &&& n > 1 ==> all[3 * n - 3] == (
                "  "@ + drawn(Glyph::Dot, ascii) + "  "@,
                Tone::Muted,
            )
            &&& n > 1 ==> hint_spans(rows, n - 1, ascii).is_prefix_of(all)
        }),
    decreases n,
{
    if n > 1 {
        hints_stand_in_order(rows, n - 1, ascii);
    } else {
        assert(hint_spans(rows, 0, ascii).len() == 1);
    }
}

/// A half-typed number takes the place of the hints, and a message stands below
/// them in the tone of its kind.
pub proof fn footers_tell(
    context: KeyContext,
    n: usize,
    text: Seq<char>,
    kind: MessageKind,
    ascii: bool,
)
    ensures
        context.count == Some(n) ==> hint_line(context, ascii)[1] == (
            decimal(n as nat),
            Tone::Accent,
        ) && hint_line(context, ascii).len() == 4,
        context.count is None ==> hint_line(context, ascii) == hint_spans(
            footer(context),
            footer(context).len() as int,
            ascii,
        ),
        foot(context, None, ascii) == seq![hint_line(context, ascii)],
        foot(context, Some((text, kind)), ascii).len() == 2,
        foot(context, Some((text, kind)), ascii)[0] == hint_line(context, ascii),
        foot(context, Some((text, kind)), ascii)[1] == seq![(" "@ + text, message_tone(kind))],
        message_tone(MessageKind::Info) is Info,
        message_tone(MessageKind::Warning) is Warning,
        message_tone(MessageKind::Error) is Error,
{
}

/// An overlay stands in the middle: what is left on one side differs from what
/// is left on the other by one cell at the most; it has the size that was
/// asked for where there is room.
pub proof fn overlays_are_centered(area: Rect, width: int, height: int)
    requires
        area.wf(),
        width >= 0,
        height >= 0,
    ensures
        ({
            let r = centered(area, width, height);
            let right = area.x + area.width - r.x - r.width;
            let below = area.y + area.height - r.y - r.height;
            &&& 0 <= right - (r.x - area.x) <= 1
            &&& 0 <= below - (r.y - area.y) <= 1
            &&& width <= area.width ==> r.width == width
            &&& width > area.width ==> r.width == area.width
            &&& height <= area.height ==> r.height == height
            &&& height > area.height ==> r.height == area.height
        }),
{
}

/// An overlay takes its share of the width in whole cells, but thirty of them
/// at the least.
pub proof fn overlays_take_their_share(area: Rect, percent: int)
    requires
        0 <= percent <= 100,
        area.width <= 655,
    ensures
        wide(area, percent) >= 30,
        area.width * percent >= 3000 ==> wide(area, percent) * 100 <= area.width * percent < (wide(
            area,
            percent,
        ) + 1) * 100,
        area.width * percent < 3000 ==> wide(area, percent) == 30,
{
    let w = area.width as int;
    assert(0 <= w * percent <= 65500) by (nonlinear_arith)
        requires
            0 <= w <= 655,
            0 <= percent <= 100,
    ;
}

/// The help panel takes the whole screen where its lines need it, and else as
/// many rows as they and its frame need; its title tells the rows on screen
/// where some are not.
pub proof fn help_fits_its_lines(area: Rect, rows: int, widest: int, scroll: int, visible: int)
    requires
        area.wf(),
        rows >= 0,
        0 <= widest <= 1000,
    ensures
        rows + 2 >= area.height ==> help_target(area, rows, widest) == area,
        rows + 2 < area.height ==> help_target(area, rows, widest).height == rows + 2,
        rows + 2 < area.height && widest + 4 <= area.width ==> help_target(area, rows, widest).width
            >= widest + 4,
        rows <= visible ==> help_heading(0, visible, rows) == " help "@,
        scroll + visible < rows && scroll >= 0 ==> help_heading(scroll, visible, rows) == " help "@
            + decimal((scroll + 1) as nat) + "-"@ + decimal((scroll + visible) as nat) + "/"@
            + decimal(rows as nat) + " "@,
{
}

/// The surfaces of the help panel stand one behind the other, each under its
/// title and with all of its keys, with an empty line between two of them.
pub proof fn help_lists_every_surface(n: int)
    requires
        1 < n <= 6,
    ensures
        ({
            let group = help_group_texts()[n - 1];
            let before = group_lines(n - 1);
            let all = group_lines(n);
            let keys = rows_named(group.1);
            &&& before.len() > 0
            &&& before.is_prefix_of(all)
            &&& all.len() == before.len() + 2 + keys.len()
            &&& all[before.len() as int].len() == 0
            &&& all[before.len() as int + 1] == seq![(seq![' '] + group.0, Tone::Title)]
            &&& forall|k: int|
                0 <= k < keys.len() ==> #[trigger] all[before.len() as int + 2 + k] == binding_line(
                    keys[k].keys_label@,
                    keys[k].detail@,
                )
        }),
{
    reveal_strlit(" ");
    assert(" "@ =~= seq![' ']);
    assert(group_lines(n - 1).len() > 0) by {
        let b = group_lines(n - 2);
    }
    let group = help_group_texts()[n - 1];
    let keys = rows_named(group.1);
    assert(binding_lines(keys).len() == keys.len());
}

/// The wheel moves as the keys do and a press selects the row under it; over an
/// open panel the mouse does nothing.
pub proof fn the_mouse_helps_the_keys(kind: MouseKind, row: Option<int>, i: usize)
    ensures
        mouse_intent(true, kind, row) is Nothing,
        mouse_intent(false, MouseKind::ScrollUp, row) == MouseIntent::Act(Action::ScrollUp),
        mouse_intent(false, MouseKind::ScrollDown, row) == MouseIntent::Act(Action::ScrollDown),
        mouse_intent(false, MouseKind::Press, Some(i as int)) == MouseIntent::Select(i),
        mouse_intent(false, MouseKind::Press, None) is Nothing,
        mouse_intent(false, MouseKind::Other, row) is Nothing,
{
}

/// All of something is a hundred percent of it.
pub proof fn all_is_a_hundred_percent(whole: int)
    requires
        whole > 0,
    ensures
        percent_text(whole, whole) == "100%"@,
{
    reveal_strlit("%");
    reveal_strlit("100%");
    wholes_are_whole(whole, 100);
    reveal_with_fuel(decimal, 4);
    assert(decimal(100) =~= seq!['1', '0', '0']);
    assert(percent_text(whole, whole) =~= "100%"@);
}

} // verus!
