//! Application state and action handling.
//!
//! `handle_action`, `on_engine_event`, and `on_tick` are the update half of the
//! loop and touch no terminal; the render half only reads state back out. What
//! the world has to do, an action asks for as an effect.

use crate::net::{ip_text, Ipv4Addr};
use crate::order::distinct_below;
use crate::proxy::models::{average, protocol_text, Protocol, Proxy};
use crate::filters::{proxy_rank, SortKey, SortOrder};
use crate::text::{
    chars_of, copy_str, copy_strings, decimal, is_ascii_digit, is_digit, lemma_texts_push,
    push_decimal, same, string_of, texts, trim_str, trimmed,
};
use crate::tui::event::{Action, InputPurpose, KeyContext, Screen};
use crate::tui::view::{
    clamp_selection, lists_shown, next_sort, other_order, row_cells, shown_text, view_order,
    visible, RowModel, ViewState,
};
use vstd::prelude::*;
use vstd::slice::slice_subrange;

verus! {

/// Upper bound on rows kept in memory for browsing and export.
pub const MAX_RESULTS: usize = 20_000;

/// Upper bound on remembered probe failures.
pub const MAX_FAILURE_LOG: usize = 64;

/// Rows moved by page-up/page-down.
pub const PAGE_ROWS: usize = 10;

/// How often the rate is resampled, in nanoseconds; a coarse cadence keeps it
/// from jittering.
pub const RATE_SAMPLE: u64 = 500_000_000;

/// How long an ephemeral status line stays before it fades, in nanoseconds.
pub const MESSAGE_TTL: u64 = 6_000_000_000;

/// The formats that an export can have.
pub open spec fn export_format_texts() -> Seq<Seq<char>> {
    seq![
        "default"@,
        "text"@,
        "json"@,
        "pretty-json"@,
        "json-lines"@,
        "csv"@,
        "prefix"@,
        "proxychains"@,
    ]
}

/// The formats that an export can have.
pub fn export_formats() -> (v: Vec<String>)
    ensures
        texts(v@) == export_format_texts(),
{
    let v = vec![
        "default".to_owned(),
        "text".to_owned(),
        "json".to_owned(),
        "pretty-json".to_owned(),
        "json-lines".to_owned(),
        "csv".to_owned(),
        "prefix".to_owned(),
        "proxychains".to_owned(),
    ];
    assert(texts(v@) =~= export_format_texts());
    v
}

/// How loud a status line is.
#[derive(Clone, Copy, Debug, PartialEq, Eq, Structural)]
pub enum MessageKind {
    Info,
    Warning,
    Error,
}

/// One ephemeral status line, with the moment it appeared so it can fade.
#[derive(Clone, Debug)]
pub struct Message {
    pub text: String,
    pub kind: MessageKind,
    pub shown_at: u64,
}

/// An active text prompt (filter, export format or export path).
#[derive(Clone, Debug)]
pub struct InputBox {
    pub purpose: InputPurpose,
    pub buffer: String,
    pub original: String,
    pub options: Vec<String>,
    pub selected: usize,
}

/// What a `y/N` prompt will do once confirmed.
#[derive(Clone, Debug)]
pub enum ConfirmKind {
    /// Overwrite the file already at this path.
    OverwriteExport(String),
    /// Abort the in-flight run.
    CancelRun,
}

/// A pending `y/N` question. Nothing irreversible happens until it is answered.
#[derive(Clone, Debug)]
pub struct Confirm {
    pub question: String,
    pub kind: ConfirmKind,
}

/// End-of-run tally.
#[derive(Clone, Copy, Debug, PartialEq, Eq, Structural)]
pub struct RunSummary {
    pub gathered: usize,
    pub valid: usize,
    pub failed: usize,
    /// Nanoseconds that the run took.
    pub elapsed: u64,
}

/// So many probes in so many nanoseconds.
#[derive(Clone, Copy, Debug, PartialEq, Eq, Structural)]
pub struct Rate {
    pub probes: usize,
    pub nanos: u64,
}

/// A moment and the probes that were done by it.
#[derive(Clone, Copy, Debug, PartialEq, Eq, Structural)]
pub struct RateMark {
    pub at: u64,
    pub done: usize,
}

/// Discrete events pushed to the UI.
#[derive(Debug)]
pub enum EngineEvent {
    Proxy(Proxy),
    /// So many of so many judges are healthy.
    JudgeHealth(usize, usize),
    PassChanged(u8),
    /// A probe failed.
    Failure {
        ip: Ipv4Addr,
        port: u16,
        protocol: Protocol,
        reason: String,
    },
    /// Receipt for a background export: rows written, or why it failed.
    ExportDone {
        path: String,
        result: Result<usize, String>,
    },
    Finished(RunSummary),
    Error(String),
}

/// What an action asks of the world.
#[derive(Clone, Debug)]
pub enum Effect {
    Nothing,
    /// Start a run.
    Start,
    /// Abort the run.
    Cancel,
    /// Pause the run, or let it go on.
    TogglePause,
    /// Find out whether there is a file at this path.
    CheckPath(String),
    /// Write the visible rows to this path in this format.
    Export {
        path: String,
        format: String,
    },
}

pub struct App {
    pub screen: Screen,
    pub is_find: bool,
    pub view: ViewState,
    pub results: Vec<Proxy>,
    /// Rendered strings for `results`, kept index-aligned with it: both lists
    /// are only ever cleared together.
    pub rows: Vec<RowModel>,
    pub visible: Vec<usize>,
    pub overflow: usize,
    /// Whether a run is live.
    pub running: bool,
    pub summary: Option<RunSummary>,
    pub health: Option<String>,
    pub failures: Vec<String>,
    pub input: Option<InputBox>,
    pub confirm: Option<Confirm>,
    pub help: bool,
    /// Rows the `?` panel is scrolled down; clamped to its content at render.
    pub help_scroll: u16,
    /// Detail lines are scrollable because the rich record exceeds the viewport.
    pub detail_scroll: u16,
    pub message: Option<Message>,
    pub should_quit: bool,
    pub started: Option<u64>,
    /// When the run ended, which freezes the header's elapsed. `None` while it
    /// is still going.
    pub finished_at: Option<u64>,
    pub cancelled: bool,
    pub rate: Rate,
    /// Set by the first `g`, consumed by the next key.
    pub pending_g: bool,
    /// Digits typed so far, waiting for `G` to turn them into a row number.
    pub count: Option<usize>,
    /// True = selection sticks to the last row while the run is live.
    pub follow: bool,
    /// Output format that exports start from.
    pub format: String,
    /// Whether runs can be started.
    pub connected: bool,
    pub rate_mark: Option<RateMark>,
}

// ---------------------------------------------------------------------------
// The model
// ---------------------------------------------------------------------------

/// A status line as plain values.
#[verifier::ext_equal]
pub struct MessageText {
    pub text: Seq<char>,
    pub kind: MessageKind,
    pub shown_at: u64,
}

/// A text prompt as plain values.
#[verifier::ext_equal]
pub struct InputText {
    pub purpose: InputPurpose,
    pub buffer: Seq<char>,
    pub original: Seq<char>,
    pub options: Seq<Seq<char>>,
    pub selected: usize,
}

/// What a prompt will do, as plain values.
#[verifier::ext_equal]
pub enum ConfirmText {
    OverwriteExport(Seq<char>),
    CancelRun,
}

/// What an action asks of the world, as plain values.
#[verifier::ext_equal]
pub enum EffectText {
    Nothing,
    Start,
    Cancel,
    TogglePause,
    CheckPath(Seq<char>),
    Export(Seq<char>, Seq<char>),
}

/// The application as plain values, but for the rows and which of them are
/// visible.
#[verifier::ext_equal]
pub struct AppModel {
    pub screen: Screen,
    pub is_find: bool,
    pub filter: Seq<char>,
    pub sort: Option<SortKey>,
    pub order: SortOrder,
    pub selected: usize,
    pub detail: bool,
    pub overflow: usize,
    pub running: bool,
    pub summary: Option<RunSummary>,
    pub health: Option<Seq<char>>,
    pub failures: Seq<Seq<char>>,
    pub input: Option<InputText>,
    pub confirm: Option<(Seq<char>, ConfirmText)>,
    pub help: bool,
    pub help_scroll: u16,
    pub detail_scroll: u16,
    pub message: Option<MessageText>,
    pub should_quit: bool,
    pub started: Option<u64>,
    pub finished_at: Option<u64>,
    pub cancelled: bool,
    pub rate: Rate,
    pub pending_g: bool,
    pub count: Option<usize>,
    pub follow: bool,
    pub format: Seq<char>,
    pub connected: bool,
    pub rate_mark: Option<RateMark>,
}

/// The plain values of a prompt.
pub open spec fn input_text(i: Option<InputBox>) -> Option<InputText> {
    match i {
        Some(b) => Some(
            InputText {
                purpose: b.purpose,
                buffer: b.buffer@,
                original: b.original@,
                options: texts(b.options@),
                selected: b.selected,
            },
        ),
        None => None,
    }
}

/// The plain values of a question.
pub open spec fn confirm_text(c: Option<Confirm>) -> Option<(Seq<char>, ConfirmText)> {
    match c {
        Some(q) => Some(
            (
                q.question@,
                match q.kind {
                    ConfirmKind::OverwriteExport(path) => ConfirmText::OverwriteExport(path@),
                    ConfirmKind::CancelRun => ConfirmText::CancelRun,
                },
            ),
        ),
        None => None,
    }
}

/// The plain values of a status line.
pub open spec fn message_text(m: Option<Message>) -> Option<MessageText> {
    match m {
        Some(m) => Some(MessageText { text: m.text@, kind: m.kind, shown_at: m.shown_at }),
        None => None,
    }
}

/// The plain values of an effect.
pub open spec fn effect_text(e: Effect) -> EffectText {
    match e {
        Effect::Nothing => EffectText::Nothing,
        Effect::Start => EffectText::Start,
        Effect::Cancel => EffectText::Cancel,
        Effect::TogglePause => EffectText::TogglePause,
        Effect::CheckPath(path) => EffectText::CheckPath(path@),
        Effect::Export { path, format } => EffectText::Export(path@, format@),
    }
}

impl View for App {
    type V = AppModel;

    open spec fn view(&self) -> AppModel {
        AppModel {
            screen: self.screen,
            is_find: self.is_find,
            filter: self.view.filter@,
            sort: self.view.sort,
            order: self.view.order,
            selected: self.view.selected,
            detail: self.view.detail,
            overflow: self.overflow,
            running: self.running,
            summary: self.summary,
            health: match self.health {
                Some(h) => Some(h@),
                None => None,
            },
            failures: texts(self.failures@),
            input: input_text(self.input),
            confirm: confirm_text(self.confirm),
            help: self.help,
            help_scroll: self.help_scroll,
            detail_scroll: self.detail_scroll,
            message: message_text(self.message),
            should_quit: self.should_quit,
            started: self.started,
            finished_at: self.finished_at,
            cancelled: self.cancelled,
            rate: self.rate,
            pending_g: self.pending_g,
            count: self.count,
            follow: self.follow,
            format: self.format@,
            connected: self.connected,
            rate_mark: self.rate_mark,
        }
    }
}

/// Whether a row is that of a proxy.
pub open spec fn row_of(row: RowModel, p: Proxy) -> bool {
    &&& row.wf()
    &&& texts(row.cells@) == row_cells(p)
    &&& row.rtt == average(p.runtimes)
    &&& row.anonymity_rank == proxy_rank(p)
    &&& row.organization@ == shown_text(p.geo.aso, Seq::empty())
}

impl App {
    /// Rows stand beside their results, no more of them than are kept, and
    /// what is visible is among them, no row twice.
    #[verifier::opaque]
    pub open spec fn wf(self) -> bool {
        &&& self.rows@.len() == self.results@.len()
        &&& self.results@.len() <= MAX_RESULTS
        &&& forall|i: int|
            0 <= i < self.rows@.len() ==> row_of(#[trigger] self.rows@[i], self.results@[i])
        &&& distinct_below(self.visible@, self.rows@.len() as int)
        &&& self.failures@.len() <= MAX_FAILURE_LOG
        &&& self.rate.nanos > 0
        &&& self.input matches Some(input) ==> (input.options@.len() == 0 || input.selected
            < input.options@.len())
    }
}

/// What comes of an action: the next state, what it asks of the world, and
/// whether the visible rows are found anew or everything is cleared.
#[verifier::ext_equal]
pub struct Step {
    pub next: AppModel,
    pub effect: EffectText,
    pub refresh: bool,
    pub clear: bool,
}

/// A step that asks for nothing.
pub open spec fn quiet(next: AppModel) -> Step {
    Step { next, effect: EffectText::Nothing, refresh: false, clear: false }
}

/// A step behind which the visible rows are found anew.
pub open spec fn refreshed(next: AppModel) -> Step {
    Step { next, effect: EffectText::Nothing, refresh: true, clear: false }
}

/// The state with a status line.
pub open spec fn told(m: AppModel, text: Seq<char>, kind: MessageKind, now: u64) -> AppModel {
    AppModel { message: Some(MessageText { text, kind, shown_at: now }), ..m }
}

/// A run starts over: nothing of the last one is left but the settings.
#[verifier::opaque]
pub open spec fn run_begun(m: AppModel, now: u64) -> Step {
    Step {
        next: AppModel {
            overflow: 0,
            health: None,
            failures: Seq::empty(),
            summary: None,
            cancelled: false,
            rate: Rate { probes: 0, nanos: 1 },
            rate_mark: None,
            pending_g: false,
            count: None,
            finished_at: None,
            confirm: None,
            detail_scroll: 0,
            selected: 0,
            follow: true,
            started: Some(now),
            running: m.connected,
            screen: Screen::Running,
            message: None,
            ..m
        },
        effect: if m.connected {
            EffectText::Start
        } else {
            EffectText::Nothing
        },
        refresh: false,
        clear: true,
    }
}

/// The run is given up.
pub open spec fn run_cancelled(m: AppModel, now: u64) -> Step {
    Step {
        next: told(
            AppModel {
                running: false,
                finished_at: Some(now),
                cancelled: true,
                screen: Screen::Done,
                ..m
            },
            "cancelled"@,
            MessageKind::Warning,
            now,
        ),
        effect: if m.running {
            EffectText::Cancel
        } else {
            EffectText::Nothing
        },
        refresh: false,
        clear: false,
    }
}

/// Ctrl+C stops a live run, otherwise leaves.
#[verifier::opaque]
pub open spec fn interrupted(m: AppModel, now: u64) -> Step {
    if m.screen == Screen::Running && m.running {
        run_cancelled(AppModel { input: None, ..m }, now)
    } else {
        quiet(AppModel { should_quit: true, ..m })
    }
}

/// The visible rows are written out.
pub open spec fn exported(m: AppModel, path: Seq<char>, rows: int, now: u64) -> Step {
    Step {
        next: told(
            m,
            "exporting "@ + decimal(rows as nat) + " rows …"@,
            MessageKind::Info,
            now,
        ),
        effect: EffectText::Export(path, m.format),
        refresh: false,
        clear: false,
    }
}

/// The answer to a question.
#[verifier::opaque]
pub open spec fn confirm_step(m: AppModel, action: Action, rows: int, now: u64) -> Step {
    match action {
        Action::ConfirmYes => match m.confirm {
            Some((_, ConfirmText::CancelRun)) => run_cancelled(AppModel { confirm: None, ..m }, now),
            Some((_, ConfirmText::OverwriteExport(path))) => exported(
                AppModel { confirm: None, ..m },
                path,
                rows,
                now,
            ),
            None => quiet(m),
        },
        Action::ConfirmNo => quiet(AppModel { confirm: None, ..m }),
        _ => quiet(m),
    }
}

/// A number less another, but not below zero.
pub open spec fn minus(a: int, b: int) -> int {
    if a < b {
        0
    } else {
        a - b
    }
}

/// A number and another, but not above a limit.
pub open spec fn plus(a: int, b: int, max: int) -> int {
    if a + b > max {
        max
    } else {
        a + b
    }
}

/// Where a panel is scrolled to, if the action scrolls it.
pub open spec fn scrolled(at: u16, action: Action) -> Option<u16> {
    match action {
        Action::ScrollUp => Some(minus(at as int, 1) as u16),
        Action::ScrollDown => Some(plus(at as int, 1, u16::MAX as int) as u16),
        Action::PageUp => Some(minus(at as int, PAGE_ROWS as int) as u16),
        Action::PageDown => Some(plus(at as int, PAGE_ROWS as int, u16::MAX as int) as u16),
        Action::GotoTop => Some(0),
        Action::GotoBottom => Some(u16::MAX),
        _ => None,
    }
}

/// The help panel scrolls itself and closes; no other key of it does anything.
#[verifier::opaque]
pub open spec fn help_step(m: AppModel, action: Action) -> Step {
    if action == Action::ToggleHelp {
        quiet(AppModel { help: false, ..m })
    } else {
        match scrolled(m.help_scroll, action) {
            Some(at) => quiet(AppModel { help_scroll: at, ..m }),
            None => quiet(m),
        }
    }
}

/// A prompt with another of its options chosen.
pub open spec fn chosen(i: InputText, selected: int) -> InputText {
    InputText { selected: selected as usize, buffer: i.options[selected], ..i }
}

/// The filter follows what is typed.
#[verifier::opaque]
pub open spec fn filter_typed(m: AppModel, i: InputText) -> Step {
    let typed = AppModel { input: Some(i), ..m };
    if i.purpose == InputPurpose::Filter {
        refreshed(AppModel { filter: i.buffer, follow: false, selected: 0, ..typed })
    } else {
        quiet(typed)
    }
}

/// How the pipeline is called.
pub open spec fn mode_text(is_find: bool) -> Seq<char> {
    if is_find {
        "find"@
    } else {
        "grab"@
    }
}

/// The extension of files in a format.
pub open spec fn format_extension(format: Seq<char>) -> Seq<char> {
    if format == "json"@ || format == "pretty-json"@ {
        "json"@
    } else if format == "json-lines"@ {
        "jsonl"@
    } else if format == "csv"@ {
        "csv"@
    } else if format == "pac"@ {
        "pac"@
    } else if format == "proxychains"@ {
        "conf"@
    } else {
        "txt"@
    }
}

/// The path that an export is offered.
pub open spec fn export_path(is_find: bool, format: Seq<char>) -> Seq<char> {
    mode_text(is_find) + "."@ + format_extension(format)
}

/// A prompt is submitted.
#[verifier::opaque]
pub open spec fn submitted(m: AppModel, i: InputText, now: u64) -> Step {
    let closed = AppModel { input: None, ..m };
    match i.purpose {
        InputPurpose::Filter => refreshed(
            AppModel { filter: trimmed(i.buffer), follow: false, selected: 0, ..closed },
        ),
        InputPurpose::ExportFormat => quiet(
            AppModel {
                format: i.buffer,
                input: Some(
                    InputText {
                        purpose: InputPurpose::ExportPath,
                        buffer: export_path(m.is_find, i.buffer),
                        original: Seq::empty(),
                        options: Seq::empty(),
                        selected: 0,
                    },
                ),
                ..m
            },
        ),
        InputPurpose::ExportPath => if trimmed(i.buffer).len() == 0 {
            quiet(told(closed, "export cancelled: empty path"@, MessageKind::Warning, now))
        } else {
            Step {
                next: closed,
                effect: EffectText::CheckPath(trimmed(i.buffer)),
                refresh: false,
                clear: false,
            }
        },
    }
}

/// A place of a list so many steps on, going round.
#[verifier::opaque]
pub open spec fn turned(i: int, steps: int, n: int) -> int {
    (i + steps) % n
}

/// The next or the previous format is chosen, going round.
#[verifier::opaque]
pub open spec fn format_turned(m: AppModel, i: InputText, back: bool) -> Step {
    let n = i.options.len() as int;
    if n == 0 {
        quiet(m)
    } else {
        let next = turned(
            i.selected as int,
            if back {
                -1
            } else {
                1
            },
            n,
        );
        quiet(AppModel { input: Some(chosen(i, next)), ..m })
    }
}

/// The format with a number is chosen, where there is one.
#[verifier::opaque]
pub open spec fn format_picked(m: AppModel, i: InputText, c: char) -> Step {
    let index = c as int - 49;
    if is_digit(c) && 0 <= index < 8 && index < i.options.len() {
        quiet(AppModel { input: Some(chosen(i, index)), ..m })
    } else {
        quiet(m)
    }
}

/// A key in the chooser of formats.
#[verifier::opaque]
pub open spec fn format_step(m: AppModel, i: InputText, action: Action, now: u64) -> Step {
    match action {
        Action::ScrollUp => format_turned(m, i, true),
        Action::ScrollDown => format_turned(m, i, false),
        Action::Text(c) => format_picked(m, i, c),
        Action::Submit => submitted(m, i, now),
        Action::Cancel => quiet(AppModel { input: None, ..m }),
        _ => quiet(m),
    }
}

/// A prompt with one more character.
pub open spec fn with_char(i: InputText, c: char) -> InputText {
    InputText { buffer: i.buffer.push(c), ..i }
}

/// A prompt without its last character.
pub open spec fn without_char(i: InputText) -> InputText {
    InputText {
        buffer: if i.buffer.len() == 0 {
            i.buffer
        } else {
            i.buffer.drop_last()
        },
        ..i
    }
}

/// A prompt is given up: a filter goes back to what it was.
#[verifier::opaque]
pub open spec fn abandoned(m: AppModel, i: InputText) -> Step {
    if i.purpose == InputPurpose::Filter {
        refreshed(AppModel { input: None, filter: i.original, ..m })
    } else {
        quiet(AppModel { input: None, ..m })
    }
}

/// A key in a prompt.
#[verifier::opaque]
pub open spec fn typing_step(m: AppModel, i: InputText, action: Action, now: u64) -> Step {
    if i.purpose == InputPurpose::ExportFormat {
        format_step(m, i, action, now)
    } else {
        match action {
            Action::Text(c) => filter_typed(m, with_char(i, c)),
            Action::Backspace => filter_typed(m, without_char(i)),
            Action::Cancel => abandoned(m, i),
            Action::Submit => submitted(m, i, now),
            _ => quiet(m),
        }
    }
}

/// The place of a format among those that an export can have, or the first.
pub open spec fn format_place(format: Seq<char>, i: int) -> int
    decreases 8 - i,
{
    if i < 0 || i >= 8 {
        0
    } else if export_format_texts()[i] == format {
        i
    } else {
        format_place(format, i + 1)
    }
}

/// The selection kept inside so many rows.
pub open spec fn kept_inside(selected: int, rows: int) -> int {
    if rows == 0 {
        0
    } else if selected >= rows {
        rows - 1
    } else {
        selected
    }
}

/// The help panel opens at its top.
#[verifier::opaque]
pub open spec fn help_opened(m: AppModel) -> Step {
    quiet(AppModel { help_scroll: 0, help: true, ..m })
}

/// The drill-down closes, or the Done screen is left.
#[verifier::opaque]
pub open spec fn backed(m: AppModel) -> Step {
    if m.detail {
        quiet(AppModel { detail: false, ..m })
    } else if m.screen == Screen::Done {
        quiet(AppModel { should_quit: true, ..m })
    } else {
        quiet(m)
    }
}

/// A live run is paused, or goes on.
#[verifier::opaque]
pub open spec fn pause_toggled(m: AppModel) -> Step {
    Step {
        effect: if m.running {
            EffectText::TogglePause
        } else {
            EffectText::Nothing
        },
        ..quiet(m)
    }
}

/// A live run is given up after a question only.
#[verifier::opaque]
pub open spec fn cancel_asked(m: AppModel) -> Step {
    if m.screen == Screen::Running && m.running {
        quiet(AppModel { confirm: Some(("cancel the run?"@, ConfirmText::CancelRun)), ..m })
    } else {
        quiet(m)
    }
}

/// The next sort key.
#[verifier::opaque]
pub open spec fn sort_cycled(m: AppModel) -> Step {
    refreshed(AppModel { follow: false, sort: next_sort(m.sort), selected: 0, ..m })
}

/// The other direction.
#[verifier::opaque]
pub open spec fn order_toggled(m: AppModel) -> Step {
    refreshed(AppModel { follow: false, order: other_order(m.order), selected: 0, ..m })
}

/// The filter is put up for editing.
#[verifier::opaque]
pub open spec fn filter_edited(m: AppModel) -> Step {
    quiet(
        AppModel {
            input: Some(
                InputText {
                    purpose: InputPurpose::Filter,
                    buffer: m.filter,
                    original: m.filter,
                    options: Seq::empty(),
                    selected: 0,
                },
            ),
            ..m
        },
    )
}

/// The filter is cleared.
#[verifier::opaque]
pub open spec fn filter_cleared(m: AppModel) -> Step {
    refreshed(AppModel { follow: false, filter: Seq::empty(), selected: 0, ..m })
}

/// The format of an export is asked for, from the one that is set.
#[verifier::opaque]
pub open spec fn export_asked(m: AppModel) -> Step {
    quiet(
        AppModel {
            input: Some(
                InputText {
                    purpose: InputPurpose::ExportFormat,
                    buffer: export_format_texts()[format_place(m.format, 0)],
                    original: Seq::empty(),
                    options: export_format_texts(),
                    selected: format_place(m.format, 0) as usize,
                },
            ),
            ..m
        },
    )
}

/// The drill-down opens, or opens and closes.
#[verifier::opaque]
pub open spec fn drilled(m: AppModel, toggle: bool) -> Step {
    let open = !toggle || !m.detail;
    quiet(
        AppModel {
            detail: open,
            detail_scroll: if open {
                0
            } else {
                m.detail_scroll
            },
            ..m
        },
    )
}

/// A digit more of the row number that is typed.
#[verifier::opaque]
pub open spec fn counted(m: AppModel, digit: u8) -> Step {
    let typed = match m.count {
        Some(n) => n as int,
        None => 0,
    };
    let tens = plus(0, 10 * typed, usize::MAX as int);
    quiet(AppModel { count: Some(plus(tens, digit as int, usize::MAX as int) as usize), ..m })
}

/// The row whose number was typed, or the last one where there is none such.
#[verifier::opaque]
pub open spec fn count_reached(m: AppModel, rows: int) -> Step {
    match m.count {
        Some(n) => {
            let wanted = minus(n as int, 1);
            let last = minus(rows, 1);
            quiet(
                AppModel {
                    count: None,
                    selected: (if wanted < last {
                        wanted
                    } else {
                        last
                    }) as usize,
                    ..m
                },
            )
        },
        None => quiet(m),
    }
}

/// The row that a movement leads to.
pub open spec fn moved(selected: usize, action: Action, rows: int) -> usize {
    match action {
        Action::ScrollUp => minus(selected as int, 1) as usize,
        Action::ScrollDown => plus(selected as int, 1, usize::MAX as int) as usize,
        Action::PageUp => minus(selected as int, PAGE_ROWS as int) as usize,
        Action::PageDown => plus(selected as int, PAGE_ROWS as int, usize::MAX as int) as usize,
        Action::GotoTop => 0,
        Action::GotoBottom => minus(rows, 1) as usize,
        _ => selected,
    }
}

/// What a key does to a browsed list, before the selection is kept inside it.
#[verifier::opaque]
pub open spec fn browse(m: AppModel, action: Action, rows: int, now: u64) -> Step {
    match action {
        Action::Interrupt => interrupted(m, now),
        Action::ToggleHelp => help_opened(m),
        Action::Back => backed(m),
        Action::PauseToggle => pause_toggled(m),
        Action::CancelRun => cancel_asked(m),
        Action::SortCycle => sort_cycled(m),
        Action::OrderToggle => order_toggled(m),
        Action::EditFilter => filter_edited(m),
        Action::ClearFilter => filter_cleared(m),
        Action::Export => export_asked(m),
        Action::Rerun => run_begun(m, now),
        Action::DrillIn => drilled(m, false),
        Action::ToggleDetail => drilled(m, true),
        Action::Count(digit) => counted(m, digit),
        Action::GotoCount => count_reached(m, rows),
        _ => quiet(AppModel { selected: moved(m.selected, action, rows), ..m }),
    }
}

/// Whether the selection sticks to the last row behind an action.
pub open spec fn follows(selected: usize, follow: bool, action: Action, rows: int) -> bool {
    match action {
        Action::ScrollUp => false,
        Action::PageUp => false,
        Action::GotoTop => false,
        Action::GotoCount => false,
        Action::ScrollDown => rows > 0 && selected + 1 >= rows,
        Action::PageDown => rows > 0 && selected + 1 >= rows,
        Action::GotoBottom => true,
        _ => follow,
    }
}

/// The selection kept inside the rows, and whether it sticks to the last one.
pub open spec fn settled(m: AppModel, action: Action, rows: int) -> AppModel {
    let inside = AppModel { selected: kept_inside(m.selected as int, rows) as usize, ..m };
    AppModel { follow: follows(inside.selected, m.follow, action, rows), ..inside }
}

/// What a key does to a browsed list.
#[verifier::opaque]
pub open spec fn browse_step(m: AppModel, action: Action, rows: int, now: u64) -> Step {
    let done = browse(m, action, rows, now);
    Step { next: settled(done.next, action, rows), ..done }
}

/// The state with the keys of a half-typed command brought up to date.
pub open spec fn keys_noted(m: AppModel, action: Action) -> AppModel {
    AppModel {
        pending_g: action == Action::PrefixG,
        count: if action is Count || action == Action::GotoCount {
            m.count
        } else {
            None
        },
        ..m
    }
}

/// What an action does once its keys are noted. Ctrl+C is reserved on every
/// surface and takes an open question away; on the list it keeps the selection
/// inside the rows as every other key does. Of the rest a question owns the
/// keyboard before the help panel, that before a prompt, and that before the
/// drill-down.
#[verifier::opaque]
pub open spec fn dispatched(m: AppModel, action: Action, rows: int, now: u64) -> Step {
    if action == Action::Interrupt && (m.confirm is Some || m.help || m.input is Some) {
        interrupted(AppModel { confirm: None, ..m }, now)
    } else if m.confirm is Some {
        confirm_step(m, action, rows, now)
    } else if m.help {
        help_step(m, action)
    } else if m.input is Some {
        typing_step(m, m.input->0, action, now)
    } else if m.detail && scrolled(m.detail_scroll, action) is Some {
        quiet(AppModel { detail_scroll: scrolled(m.detail_scroll, action)->0, ..m })
    } else {
        browse_step(m, action, rows, now)
    }
}

/// What an action does, with so many rows visible.
pub open spec fn app_step(m: AppModel, action: Action, rows: int, now: u64) -> Step {
    dispatched(keys_noted(m, action), action, rows, now)
}

/// Whether an application came out of another by a step.
#[verifier::opaque]
pub open spec fn stepped(old_app: App, new_app: App, effect: Effect, step: Step) -> bool {
    &&& new_app@ == step.next
    &&& effect_text(effect) == step.effect
    &&& if step.clear {
        new_app.rows@.len() == 0 && new_app.results@.len() == 0 && new_app.visible@.len() == 0
    } else {
        &&& new_app.rows@ == old_app.rows@
        &&& new_app.results@ == old_app.results@
        &&& if step.refresh {
            lists_shown(new_app.visible@, new_app.rows@, new_app.view.filter@) && view_order(
                new_app.visible@,
                new_app.rows@,
                new_app.view,
            )
        } else {
            new_app.visible@ == old_app.visible@
        }
    }
}

/// Whether two applications have the same rows.
pub open spec fn same_rows(a: App, b: App) -> bool {
    &&& a.rows@ == b.rows@
    &&& a.results@ == b.results@
    &&& a.visible@ == b.visible@
}

impl App {
    /// An application that has not started a run.
    pub fn new(is_find: bool, format: String) -> (app: Self)
        ensures
            app.wf(),
            app.rows@.len() == 0,
            app.results@.len() == 0,
            app.visible@.len() == 0,
            app@ == (AppModel {
                screen: Screen::Running,
                is_find,
                filter: Seq::empty(),
                sort: None,
                order: SortOrder::Asc,
                selected: 0,
                detail: false,
                overflow: 0,
                running: false,
                summary: None,
                health: None,
                failures: Seq::empty(),
                input: None,
                confirm: None,
                help: false,
                help_scroll: 0,
                detail_scroll: 0,
                message: None,
                should_quit: false,
                started: None,
                finished_at: None,
                cancelled: false,
                rate: Rate { probes: 0, nanos: 1 },
                pending_g: false,
                count: None,
                follow: true,
                format: format@,
                connected: false,
                rate_mark: None,
            }),
    {
        proof {
            reveal(App::wf);
        }
        let app = App {
            screen: Screen::Running,
            is_find,
            view: ViewState::default(),
            results: Vec::new(),
            rows: Vec::new(),
            visible: Vec::new(),
            overflow: 0,
            running: false,
            summary: None,
            health: None,
            failures: Vec::new(),
            input: None,
            confirm: None,
            help: false,
            help_scroll: 0,
            detail_scroll: 0,
            message: None,
            should_quit: false,
            started: None,
            finished_at: None,
            cancelled: false,
            rate: Rate { probes: 0, nanos: 1 },
            pending_g: false,
            count: None,
            follow: true,
            format,
            connected: false,
            rate_mark: None,
        };
        assert(app.view.filter@ =~= Seq::<char>::empty());
        assert(texts(app.failures@) =~= Seq::<Seq<char>>::empty());
        app
    }

    /// Starts the first run.
    pub fn begin(&mut self, now: u64) -> (effect: Effect)
        requires
            old(self).wf(),
        ensures
            final(self).wf(),
            stepped(
                *old(self),
                *final(self),
                effect,
                run_begun(AppModel { connected: true, ..old(self)@ }, now),
            ),
    {
        proof {
            reveal(run_begun);
            reveal(stepped);
            reveal(App::wf);
        }
        self.connected = true;
        self.begin_run(now)
    }

    fn begin_run(&mut self, now: u64) -> (effect: Effect)
        requires
            old(self).wf(),
        ensures
            final(self).wf(),
            stepped(*old(self), *final(self), effect, run_begun(old(self)@, now)),
    {
        proof {
            reveal(run_begun);
            reveal(stepped);
            reveal(App::wf);
        }
        self.results = Vec::new();
        self.rows = Vec::new();
        self.visible = Vec::new();
        self.overflow = 0;
        self.health = None;
        self.failures = Vec::new();
        self.summary = None;
        self.cancelled = false;
        self.rate = Rate { probes: 0, nanos: 1 };
        self.rate_mark = None;
        self.pending_g = false;
        self.count = None;
        self.finished_at = None;
        self.confirm = None;
        self.detail_scroll = 0;
        self.view.reset_position();
        self.follow = true;
        self.started = Some(now);
        self.running = self.connected;
        self.screen = Screen::Running;
        self.message = None;
        assert(texts(self.failures@) =~= Seq::<Seq<char>>::empty());
        if self.connected {
            Effect::Start
        } else {
            Effect::Nothing
        }
    }

    /// Label for the active pipeline (`find` or `grab`).
    pub fn mode_label(&self) -> (s: &'static str)
        ensures
            s@ == mode_text(self.is_find),
    {
        if self.is_find {
            "find"
        } else {
            "grab"
        }
    }

    /// What the key map needs to know.
    pub fn key_context(&self) -> (c: KeyContext)
        ensures
            c.screen == self.screen,
            c.purpose == (match self.input {
                Some(input) => Some(input.purpose),
                None => None,
            }),
            c.help == self.help,
            c.confirm == (self.confirm is Some),
            c.pending_g == self.pending_g,
            c.count == self.count,
    {
        KeyContext {
            screen: self.screen,
            purpose: match &self.input {
                Some(input) => Some(input.purpose),
                None => None,
            },
            help: self.help,
            confirm: self.confirm.is_some(),
            pending_g: self.pending_g,
            count: self.count,
        }
    }

    /// Whether an overlay currently owns the keyboard and the focus ring.
    pub fn overlay_open(&self) -> (r: bool)
        ensures
            r == (self.help || self.confirm is Some || self.input is Some || self.view.detail),
    {
        self.help || self.confirm.is_some() || self.input.is_some() || self.view.detail
    }

    /// Moves the selection to a browsed row, as a mouse click does.
    pub fn select_visible(&mut self, index: usize)
        requires
            old(self).wf(),
        ensures
            final(self).wf(),
            same_rows(*old(self), *final(self)),
            final(self)@ == (if index < old(self).visible@.len() {
                AppModel { follow: false, selected: index, ..old(self)@ }
            } else {
                old(self)@
            }),
    {
        proof {
            reveal(App::wf);
        }
        if index < self.visible.len() {
            self.follow = false;
            self.view.selected = index;
        }
    }

    fn set_message(&mut self, text: String, kind: MessageKind, now: u64)
        requires
            old(self).wf(),
        ensures
            final(self).wf(),
            same_rows(*old(self), *final(self)),
            final(self)@ == told(old(self)@, text@, kind, now),
    {
        proof {
            reveal(App::wf);
        }
        self.message = Some(Message { text, kind, shown_at: now });
    }

    /// Finds the visible rows anew.
    pub fn refresh_visible(&mut self)
        requires
            old(self).wf(),
        ensures
            final(self).wf(),
            final(self)@ == old(self)@,
            final(self).rows@ == old(self).rows@,
            final(self).results@ == old(self).results@,
            lists_shown(final(self).visible@, final(self).rows@, final(self).view.filter@),
            view_order(final(self).visible@, final(self).rows@, final(self).view),
    {
        proof {
            reveal(App::wf);
        }
        assert forall|i: int| 0 <= i < self.rows@.len() implies (#[trigger] self.rows@[i]).wf() by {
            assert(row_of(self.rows@[i], self.results@[i]));
        }
        let found = visible(&self.rows, &self.view);
        self.visible = found;
    }

    /// Gives the run up.
    pub fn cancel_run(&mut self, now: u64) -> (effect: Effect)
        requires
            old(self).wf(),
        ensures
            final(self).wf(),
            stepped(*old(self), *final(self), effect, run_cancelled(old(self)@, now)),
    {
        proof {
            reveal(stepped);
            reveal(App::wf);
        }
        let effect = if self.running {
            Effect::Cancel
        } else {
            Effect::Nothing
        };
        self.running = false;
        // An elapsed time that kept climbing after the run ended would be a lie.
        self.finished_at = Some(now);
        self.cancelled = true;
        self.screen = Screen::Done;
        self.set_message("cancelled".to_owned(), MessageKind::Warning, now);
        effect
    }

    fn interrupt(&mut self, now: u64) -> (effect: Effect)
        requires
            old(self).wf(),
        ensures
            final(self).wf(),
            stepped(*old(self), *final(self), effect, interrupted(old(self)@, now)),
    {
        proof {
            reveal(interrupted);
            reveal(stepped);
            reveal(App::wf);
        }
        if self.screen == Screen::Running && self.running {
            self.input = None;
            self.cancel_run(now)
        } else {
            self.should_quit = true;
            Effect::Nothing
        }
    }

    fn interrupt_anywhere(&mut self, now: u64) -> (effect: Effect)
        requires
            old(self).wf(),
        ensures
            final(self).wf(),
            stepped(
                *old(self),
                *final(self),
                effect,
                interrupted(AppModel { confirm: None, ..old(self)@ }, now),
            ),
    {
        proof {
            reveal(interrupted);
            reveal(stepped);
            reveal(App::wf);
        }
        self.confirm = None;
        self.interrupt(now)
    }

    fn spawn_export(&mut self, path: String, now: u64) -> (effect: Effect)
        requires
            old(self).wf(),
        ensures
            final(self).wf(),
            stepped(
                *old(self),
                *final(self),
                effect,
                exported(old(self)@, path@, old(self).visible@.len() as int, now),
            ),
    {
        proof {
            reveal(stepped);
            reveal(App::wf);
        }
        let mut text = "exporting ".to_owned();
        push_decimal(&mut text, self.visible.len() as u64);
        text.append(" rows …");
        self.set_message(text, MessageKind::Info, now);
        Effect::Export { path, format: copy_str(self.format.as_str()) }
    }

    fn handle_confirm(&mut self, action: Action, now: u64) -> (effect: Effect)
        requires
            old(self).wf(),
        ensures
            final(self).wf(),
            stepped(
                *old(self),
                *final(self),
                effect,
                confirm_step(old(self)@, action, old(self).visible@.len() as int, now),
            ),
    {
        proof {
            reveal(interrupted);
            reveal(confirm_step);
            reveal(stepped);
            reveal(App::wf);
        }
        match action {
            Action::ConfirmYes => match self.confirm.take() {
                Some(confirm) => match confirm.kind {
                    ConfirmKind::CancelRun => self.cancel_run(now),
                    ConfirmKind::OverwriteExport(path) => self.spawn_export(path, now),
                },
                None => Effect::Nothing,
            },
            Action::ConfirmNo => {
                self.confirm = None;
                Effect::Nothing
            },
            _ => Effect::Nothing,
        }
    }

    fn handle_help(&mut self, action: Action)
        requires
            old(self).wf(),
        ensures
            final(self).wf(),
            stepped(*old(self), *final(self), Effect::Nothing, help_step(old(self)@, action)),
    {
        proof {
            reveal(help_step);
            reveal(stepped);
            reveal(App::wf);
        }
        if action == Action::ToggleHelp {
            self.help = false;
        } else if let Some(at) = scroll(self.help_scroll, action) {
            self.help_scroll = at;
        }
    }
}

/// Where a panel is scrolled to, if the action scrolls it.
pub fn scroll(at: u16, action: Action) -> (r: Option<u16>)
    ensures
        r == scrolled(at, action),
{
    match action {
        Action::ScrollUp => Some(at.saturating_sub(1)),
        Action::ScrollDown => Some(at.saturating_add(1)),
        Action::PageUp => Some(at.saturating_sub(10)),
        Action::PageDown => Some(at.saturating_add(10)),
        Action::GotoTop => Some(0),
        Action::GotoBottom => Some(u16::MAX),
        _ => None,
    }
}

/// Going round a list: the place before the first is the last, and the other
/// way round.
proof fn lemma_turn(i: int, n: int)
    requires
        0 <= i < n,
    ensures
        turned(i, -1, n) == (if i == 0 {
            n - 1
        } else {
            i - 1
        }),
        turned(i, 1, n) == (if i + 1 == n {
            0
        } else {
            i + 1
        }),
{
    reveal(turned);
    assert((-1int) % n == n - 1) by (nonlinear_arith)
        requires
            n > 0,
    ;
    assert(n % n == 0) by (nonlinear_arith)
        requires
            n > 0,
    ;
    if i > 0 {
        vstd::arithmetic::div_mod::lemma_small_mod((i - 1) as nat, n as nat);
    }
    if i + 1 < n {
        vstd::arithmetic::div_mod::lemma_small_mod((i + 1) as nat, n as nat);
    }
}

fn copy_input(i: &InputBox) -> (r: InputBox)
    ensures
        input_text(Some(r)) == input_text(Some(*i)),
        r.options@.len() == i.options@.len(),
        r.selected == i.selected,
{
    let r = InputBox {
        purpose: i.purpose,
        buffer: copy_str(i.buffer.as_str()),
        original: copy_str(i.original.as_str()),
        options: copy_strings(&i.options),
        selected: i.selected,
    };
    assert(texts(r.options@).len() == texts(i.options@).len());
    r
}

impl App {
    fn filter_input(&mut self, input: InputBox) -> (effect: Effect)
        requires
            old(self).wf(),
            input.options@.len() == 0 || input.selected < input.options@.len(),
        ensures
            final(self).wf(),
            stepped(
                *old(self),
                *final(self),
                effect,
                filter_typed(old(self)@, input_text(Some(input))->0),
            ),
    {
        proof {
            reveal(stepped);
            reveal(App::wf);
            reveal(filter_typed);
        }
        if input.purpose == InputPurpose::Filter {
            self.view.filter = copy_str(input.buffer.as_str());
            self.input = Some(input);
            self.follow = false;
            self.view.reset_position();
            self.refresh_visible();
        } else {
            self.input = Some(input);
        }
        Effect::Nothing
    }

    /// The path that an export is offered.
    pub fn default_export_path(&self) -> (s: String)
        ensures
            s@ == export_path(self.is_find, self.format@),
    {
        let format = self.format.as_str();
        let extension = if same(format, "json") || same(format, "pretty-json") {
            "json"
        } else if same(format, "json-lines") {
            "jsonl"
        } else if same(format, "csv") {
            "csv"
        } else if same(format, "pac") {
            "pac"
        } else if same(format, "proxychains") {
            "conf"
        } else {
            "txt"
        };
        let mut s = self.mode_label().to_owned();
        s.append(".");
        s.append(extension);
        s
    }

    fn submit_input(&mut self, input: InputBox, now: u64) -> (effect: Effect)
        requires
            old(self).wf(),
        ensures
            final(self).wf(),
            stepped(
                *old(self),
                *final(self),
                effect,
                submitted(old(self)@, input_text(Some(input))->0, now),
            ),
    {
        proof {
            reveal(stepped);
            reveal(App::wf);
            reveal(submitted);
        }
        match input.purpose {
            InputPurpose::Filter => {
                self.input = None;
                self.view.filter = trim_str(input.buffer.as_str());
                self.follow = false;
                self.view.reset_position();
                self.refresh_visible();
                Effect::Nothing
            },
            InputPurpose::ExportFormat => {
                self.format = input.buffer;
                let path = self.default_export_path();
                let next = InputBox {
                    purpose: InputPurpose::ExportPath,
                    buffer: path,
                    original: String::new(),
                    options: Vec::new(),
                    selected: 0,
                };
                assert(next.original@ =~= Seq::<char>::empty());
                assert(texts(next.options@) =~= Seq::<Seq<char>>::empty());
                self.input = Some(next);
                Effect::Nothing
            },
            InputPurpose::ExportPath => {
                self.input = None;
                let path = trim_str(input.buffer.as_str());
                if chars_of(path.as_str()).len() == 0 {
                    self.set_message(
                        "export cancelled: empty path".to_owned(),
                        MessageKind::Warning,
                        now,
                    );
                    Effect::Nothing
                } else {
                    Effect::CheckPath(path)
                }
            },
        }
    }

    /// Takes whether there is a file at the path of an export: it is not
    /// overwritten without a question.
    pub fn on_path_checked(&mut self, path: String, exists: bool, now: u64) -> (effect: Effect)
        requires
            old(self).wf(),
        ensures
            final(self).wf(),
            stepped(
                *old(self),
                *final(self),
                effect,
                if exists {
                    quiet(
                        AppModel {
                            confirm: Some(
                                (
                                    path@ + " exists — overwrite?"@,
                                    ConfirmText::OverwriteExport(path@),
                                ),
                            ),
                            ..old(self)@
                        },
                    )
                } else {
                    exported(old(self)@, path@, old(self).visible@.len() as int, now)
                },
            ),
    {
        proof {
            reveal(stepped);
            reveal(App::wf);
        }
        if exists {
            let mut question = copy_str(path.as_str());
            question.append(" exists — overwrite?");
            self.confirm = Some(Confirm { question, kind: ConfirmKind::OverwriteExport(path) });
            Effect::Nothing
        } else {
            self.spawn_export(path, now)
        }
    }

    fn choose_format(&mut self, mut input: InputBox, index: usize) -> (effect: Effect)
        requires
            old(self).wf(),
            index < input.options@.len(),
        ensures
            final(self).wf(),
            stepped(
                *old(self),
                *final(self),
                effect,
                quiet(
                    AppModel {
                        input: Some(chosen(input_text(Some(input))->0, index as int)),
                        ..old(self)@
                    },
                ),
            ),
    {
        proof {
            reveal(stepped);
            reveal(App::wf);
        }
        let ghost before = input_text(Some(input))->0;
        input.selected = index;
        let buffer = copy_str(input.options[index].as_str());
        assert(texts(input.options@)[index as int] == input.options@[index as int]@);
        input.buffer = buffer;
        assert(input_text(Some(input))->0 =~= chosen(before, index as int));
        self.input = Some(input);
        Effect::Nothing
    }

    fn stay(&mut self) -> (effect: Effect)
        requires
            old(self).wf(),
        ensures
            final(self).wf(),
            stepped(*old(self), *final(self), effect, quiet(old(self)@)),
    {
        proof {
            reveal(stepped);
            reveal(App::wf);
        }
        Effect::Nothing
    }

    fn close_input(&mut self) -> (effect: Effect)
        requires
            old(self).wf(),
        ensures
            final(self).wf(),
            stepped(
                *old(self),
                *final(self),
                effect,
                quiet(AppModel { input: None, ..old(self)@ }),
            ),
    {
        proof {
            reveal(stepped);
            reveal(App::wf);
        }
        self.input = None;
        Effect::Nothing
    }

    fn restore_filter(&mut self, filter: String) -> (effect: Effect)
        requires
            old(self).wf(),
        ensures
            final(self).wf(),
            stepped(
                *old(self),
                *final(self),
                effect,
                refreshed(AppModel { input: None, filter: filter@, ..old(self)@ }),
            ),
    {
        proof {
            reveal(stepped);
            reveal(App::wf);
        }
        self.input = None;
        self.view.filter = filter;
        self.refresh_visible();
        Effect::Nothing
    }

    fn turn_format(&mut self, input: InputBox, back: bool) -> (effect: Effect)
        requires
            old(self).wf(),
            input_text(Some(input)) == old(self)@.input,
            input.selected < input.options@.len() || input.options@.len() == 0,
        ensures
            final(self).wf(),
            stepped(
                *old(self),
                *final(self),
                effect,
                format_turned(old(self)@, input_text(Some(input))->0, back),
            ),
    {
        proof {
            reveal(format_turned);
        }
        let n: usize = input.options.len();
        assert(texts(input.options@).len() == n);
        if n == 0 {
            return self.stay();
        }
        proof {
            lemma_turn(input.selected as int, n as int);
        }
        let index: usize = if back {
            if input.selected == 0 {
                n - 1
            } else {
                input.selected - 1
            }
        } else if input.selected + 1 == n {
            0
        } else {
            input.selected + 1
        };
        self.choose_format(input, index)
    }

    fn pick_format(&mut self, input: InputBox, c: char) -> (effect: Effect)
        requires
            old(self).wf(),
            input_text(Some(input)) == old(self)@.input,
        ensures
            final(self).wf(),
            stepped(
                *old(self),
                *final(self),
                effect,
                format_picked(old(self)@, input_text(Some(input))->0, c),
            ),
    {
        proof {
            reveal(format_picked);
        }
        let n: usize = input.options.len();
        assert(texts(input.options@).len() == n);
        if is_ascii_digit(c) && '1' <= c {
            let index: usize = (c as u32 - 49) as usize;
            if index < 8 && index < n {
                return self.choose_format(input, index);
            }
        }
        self.stay()
    }

    fn handle_format(&mut self, input: InputBox, action: Action, now: u64) -> (effect: Effect)
        requires
            old(self).wf(),
            input_text(Some(input)) == old(self)@.input,
            input.selected < input.options@.len() || input.options@.len() == 0,
        ensures
            final(self).wf(),
            stepped(
                *old(self),
                *final(self),
                effect,
                format_step(old(self)@, input_text(Some(input))->0, action, now),
            ),
    {
        proof {
            reveal(format_step);
        }
        match action {
            Action::ScrollUp => self.turn_format(input, true),
            Action::ScrollDown => self.turn_format(input, false),
            Action::Text(c) => self.pick_format(input, c),
            Action::Submit => self.submit_input(input, now),
            Action::Cancel => self.close_input(),
            _ => self.stay(),
        }
    }

    fn type_char(&mut self, mut input: InputBox, c: char) -> (effect: Effect)
        requires
            old(self).wf(),
            input.options@.len() == 0 || input.selected < input.options@.len(),
        ensures
            final(self).wf(),
            stepped(
                *old(self),
                *final(self),
                effect,
                filter_typed(old(self)@, with_char(input_text(Some(input))->0, c)),
            ),
    {
        let ghost before = input_text(Some(input))->0;
        input.buffer.push(c);
        assert(input_text(Some(input))->0 =~= with_char(before, c));
        self.filter_input(input)
    }

    fn erase_char(&mut self, mut input: InputBox) -> (effect: Effect)
        requires
            old(self).wf(),
            input.options@.len() == 0 || input.selected < input.options@.len(),
        ensures
            final(self).wf(),
            stepped(
                *old(self),
                *final(self),
                effect,
                filter_typed(old(self)@, without_char(input_text(Some(input))->0)),
            ),
    {
        let ghost before = input_text(Some(input))->0;
        let cs = chars_of(input.buffer.as_str());
        if cs.len() > 0 {
            let shorter = string_of(slice_subrange(cs.as_slice(), 0, cs.len() - 1));
            assert(shorter@ =~= before.buffer.drop_last());
            input.buffer = shorter;
        }
        assert(input_text(Some(input))->0 =~= without_char(before));
        self.filter_input(input)
    }

    fn abandon_input(&mut self, input: InputBox) -> (effect: Effect)
        requires
            old(self).wf(),
        ensures
            final(self).wf(),
            stepped(
                *old(self),
                *final(self),
                effect,
                abandoned(old(self)@, input_text(Some(input))->0),
            ),
    {
        proof {
            reveal(abandoned);
        }
        if input.purpose == InputPurpose::Filter {
            self.restore_filter(input.original)
        } else {
            self.close_input()
        }
    }

    fn handle_typing(&mut self, input: InputBox, action: Action, now: u64) -> (effect: Effect)
        requires
            old(self).wf(),
            input_text(Some(input)) == old(self)@.input,
            input.selected < input.options@.len() || input.options@.len() == 0,
        ensures
            final(self).wf(),
            stepped(
                *old(self),
                *final(self),
                effect,
                typing_step(old(self)@, input_text(Some(input))->0, action, now),
            ),
    {
        proof {
            reveal(typing_step);
        }
        if input.purpose == InputPurpose::ExportFormat {
            return self.handle_format(input, action, now);
        }
        match action {
            Action::Text(c) => self.type_char(input, c),
            Action::Backspace => self.erase_char(input),
            Action::Cancel => self.abandon_input(input),
            Action::Submit => self.submit_input(input, now),
            _ => self.stay(),
        }
    }
}

/// Whether the selection sticks to the last row behind an action.
fn sticks(selected: usize, follow: bool, action: Action, rows: usize) -> (r: bool)
    ensures
        r == follows(selected, follow, action, rows as int),
{
    match action {
        Action::ScrollUp => false,
        Action::PageUp => false,
        Action::GotoTop => false,
        Action::GotoCount => false,
        Action::ScrollDown => rows > 0 && selected >= rows - 1,
        Action::PageDown => rows > 0 && selected >= rows - 1,
        Action::GotoBottom => true,
        _ => follow,
    }
}

/// The place of a format among those that an export can have, or the first.
fn place_of_format(format: &str) -> (i: usize)
    ensures
        i == format_place(format@, 0),
        i < 8,
{
    let formats = export_formats();
    assert(texts(formats@).len() == 8);
    let mut i: usize = 0;
    while i < formats.len()
        invariant
            i <= formats.len(),
            texts(formats@) == export_format_texts(),
            formats@.len() == 8,
            format_place(format@, i as int) == format_place(format@, 0),
        decreases formats.len() - i,
    {
        assert(texts(formats@)[i as int] == formats@[i as int]@);
        if same(formats[i].as_str(), format) {
            return i;
        }
        i += 1;
    }
    0
}

impl App {
    fn open_help(&mut self) -> (effect: Effect)
        requires
            old(self).wf(),
        ensures
            final(self).wf(),
            stepped(*old(self), *final(self), effect, help_opened(old(self)@)),
    {
        proof {
            reveal(stepped);
            reveal(App::wf);
            reveal(help_opened);
        }
        self.help_scroll = 0;
        self.help = true;
        Effect::Nothing
    }

    fn go_back(&mut self) -> (effect: Effect)
        requires
            old(self).wf(),
        ensures
            final(self).wf(),
            stepped(*old(self), *final(self), effect, backed(old(self)@)),
    {
        proof {
            reveal(stepped);
            reveal(App::wf);
            reveal(backed);
        }
        if self.view.detail {
            self.view.detail = false;
        } else if self.screen == Screen::Done {
            self.should_quit = true;
        }
        Effect::Nothing
    }

    fn toggle_pause(&mut self) -> (effect: Effect)
        requires
            old(self).wf(),
        ensures
            final(self).wf(),
            stepped(*old(self), *final(self), effect, pause_toggled(old(self)@)),
    {
        proof {
            reveal(stepped);
            reveal(App::wf);
            reveal(pause_toggled);
        }
        if self.running {
            Effect::TogglePause
        } else {
            Effect::Nothing
        }
    }

    fn ask_cancel(&mut self) -> (effect: Effect)
        requires
            old(self).wf(),
        ensures
            final(self).wf(),
            stepped(*old(self), *final(self), effect, cancel_asked(old(self)@)),
    {
        proof {
            reveal(stepped);
            reveal(App::wf);
            reveal(cancel_asked);
        }
        if self.screen == Screen::Running && self.running {
            self.confirm = Some(
                Confirm { question: "cancel the run?".to_owned(), kind: ConfirmKind::CancelRun },
            );
        }
        Effect::Nothing
    }

    fn cycle_sort(&mut self) -> (effect: Effect)
        requires
            old(self).wf(),
        ensures
            final(self).wf(),
            stepped(*old(self), *final(self), effect, sort_cycled(old(self)@)),
    {
        proof {
            reveal(stepped);
            reveal(App::wf);
            reveal(sort_cycled);
        }
        self.follow = false;
        self.view.cycle_sort();
        self.refresh_visible();
        Effect::Nothing
    }

    fn toggle_order(&mut self) -> (effect: Effect)
        requires
            old(self).wf(),
        ensures
            final(self).wf(),
            stepped(*old(self), *final(self), effect, order_toggled(old(self)@)),
    {
        proof {
            reveal(stepped);
            reveal(App::wf);
            reveal(order_toggled);
        }
        self.follow = false;
        self.view.toggle_order();
        self.refresh_visible();
        Effect::Nothing
    }

    fn edit_filter(&mut self) -> (effect: Effect)
        requires
            old(self).wf(),
        ensures
            final(self).wf(),
            stepped(*old(self), *final(self), effect, filter_edited(old(self)@)),
    {
        proof {
            reveal(stepped);
            reveal(App::wf);
            reveal(filter_edited);
        }
        let input = InputBox {
            purpose: InputPurpose::Filter,
            buffer: copy_str(self.view.filter.as_str()),
            original: copy_str(self.view.filter.as_str()),
            options: Vec::new(),
            selected: 0,
        };
        assert(texts(input.options@) =~= Seq::<Seq<char>>::empty());
        self.input = Some(input);
        Effect::Nothing
    }

    fn clear_filter(&mut self) -> (effect: Effect)
        requires
            old(self).wf(),
        ensures
            final(self).wf(),
            stepped(*old(self), *final(self), effect, filter_cleared(old(self)@)),
    {
        proof {
            reveal(stepped);
            reveal(App::wf);
            reveal(filter_cleared);
        }
        self.follow = false;
        self.view.filter = String::new();
        assert(self.view.filter@ =~= Seq::<char>::empty());
        self.view.reset_position();
        self.refresh_visible();
        Effect::Nothing
    }

    fn ask_export(&mut self) -> (effect: Effect)
        requires
            old(self).wf(),
        ensures
            final(self).wf(),
            stepped(*old(self), *final(self), effect, export_asked(old(self)@)),
    {
        proof {
            reveal(stepped);
            reveal(App::wf);
            reveal(export_asked);
        }
        let selected: usize = place_of_format(self.format.as_str());
        let options = export_formats();
        assert(texts(options@).len() == 8);
        assert(texts(options@)[selected as int] == options@[selected as int]@);
        let buffer = copy_str(options[selected].as_str());
        let input = InputBox {
            purpose: InputPurpose::ExportFormat,
            buffer,
            original: String::new(),
            options,
            selected,
        };
        assert(input.original@ =~= Seq::<char>::empty());
        self.input = Some(input);
        Effect::Nothing
    }

    fn drill(&mut self, toggle: bool) -> (effect: Effect)
        requires
            old(self).wf(),
        ensures
            final(self).wf(),
            stepped(*old(self), *final(self), effect, drilled(old(self)@, toggle)),
    {
        proof {
            reveal(stepped);
            reveal(App::wf);
            reveal(drilled);
        }
        self.view.detail = !toggle || !self.view.detail;
        if self.view.detail {
            self.detail_scroll = 0;
        }
        Effect::Nothing
    }

    fn push_count(&mut self, digit: u8) -> (effect: Effect)
        requires
            old(self).wf(),
        ensures
            final(self).wf(),
            stepped(*old(self), *final(self), effect, counted(old(self)@, digit)),
    {
        proof {
            reveal(stepped);
            reveal(App::wf);
            reveal(counted);
        }
        let typed: usize = match self.count {
            Some(n) => n,
            None => 0,
        };
        let tens: usize = if typed > usize::MAX / 10 {
            usize::MAX
        } else {
            typed * 10
        };
        self.count = Some(tens.saturating_add(digit as usize));
        Effect::Nothing
    }

    fn goto_count(&mut self, rows: usize) -> (effect: Effect)
        requires
            old(self).wf(),
        ensures
            final(self).wf(),
            stepped(*old(self), *final(self), effect, count_reached(old(self)@, rows as int)),
    {
        proof {
            reveal(stepped);
            reveal(App::wf);
            reveal(count_reached);
        }
        if let Some(count) = self.count {
            self.count = None;
            let wanted: usize = count.saturating_sub(1);
            let last: usize = rows.saturating_sub(1);
            self.view.selected = if wanted < last {
                wanted
            } else {
                last
            };
        }
        Effect::Nothing
    }

    fn move_selection(&mut self, action: Action, rows: usize) -> (effect: Effect)
        requires
            old(self).wf(),
        ensures
            final(self).wf(),
            stepped(
                *old(self),
                *final(self),
                effect,
                quiet(
                    AppModel {
                        selected: moved(old(self)@.selected, action, rows as int),
                        ..old(self)@
                    },
                ),
            ),
    {
        proof {
            reveal(stepped);
            reveal(App::wf);
        }
        let selected: usize = self.view.selected;
        self.view.selected = match action {
            Action::ScrollUp => selected.saturating_sub(1),
            Action::ScrollDown => selected.saturating_add(1),
            Action::PageUp => selected.saturating_sub(PAGE_ROWS),
            Action::PageDown => selected.saturating_add(PAGE_ROWS),
            Action::GotoTop => 0,
            Action::GotoBottom => rows.saturating_sub(1),
            _ => selected,
        };
        Effect::Nothing
    }

    fn browse_action(&mut self, action: Action, rows: usize, now: u64) -> (effect: Effect)
        requires
            old(self).wf(),
        ensures
            final(self).wf(),
            stepped(*old(self), *final(self), effect, browse(old(self)@, action, rows as int, now)),
    {
        proof {
            reveal(browse);
        }
        match action {
            Action::Interrupt => self.interrupt(now),
            Action::ToggleHelp => self.open_help(),
            Action::Back => self.go_back(),
            Action::PauseToggle => self.toggle_pause(),
            Action::CancelRun => self.ask_cancel(),
            Action::SortCycle => self.cycle_sort(),
            Action::OrderToggle => self.toggle_order(),
            Action::EditFilter => self.edit_filter(),
            Action::ClearFilter => self.clear_filter(),
            Action::Export => self.ask_export(),
            Action::Rerun => self.begin_run(now),
            Action::DrillIn => self.drill(false),
            Action::ToggleDetail => self.drill(true),
            Action::Count(digit) => self.push_count(digit),
            Action::GotoCount => self.goto_count(rows),
            _ => self.move_selection(action, rows),
        }
    }

    fn settle(&mut self, action: Action, rows: usize)
        requires
            old(self).wf(),
        ensures
            final(self).wf(),
            same_rows(*old(self), *final(self)),
            final(self).view.filter == old(self).view.filter,
            final(self)@ == settled(old(self)@, action, rows as int),
    {
        proof {
            reveal(App::wf);
        }
        clamp_selection(&mut self.view, rows);
        self.follow = sticks(self.view.selected, self.follow, action, rows);
    }

    fn handle_browse(&mut self, action: Action, now: u64) -> (effect: Effect)
        requires
            old(self).wf(),
        ensures
            final(self).wf(),
            stepped(
                *old(self),
                *final(self),
                effect,
                browse_step(old(self)@, action, old(self).visible@.len() as int, now),
            ),
    {
        let rows: usize = self.visible.len();
        let effect = self.browse_action(action, rows, now);
        let ghost mid = *self;
        self.settle(action, rows);
        proof {
            reveal(stepped);
            reveal(browse_step);
            lemma_same_view(mid.visible@, mid.rows@, mid.view, self.view);
        }
        effect
    }
}

/// The order of a view depends on its sort key and direction only.
proof fn lemma_same_view(v: Seq<usize>, rows: Seq<RowModel>, a: ViewState, b: ViewState)
    requires
        a.sort == b.sort,
        a.order == b.order,
    ensures
        view_order(v, rows, a) == view_order(v, rows, b),
{
}

impl App {
    fn scroll_detail(&mut self, at: u16) -> (effect: Effect)
        requires
            old(self).wf(),
        ensures
            final(self).wf(),
            stepped(
                *old(self),
                *final(self),
                effect,
                quiet(AppModel { detail_scroll: at, ..old(self)@ }),
            ),
    {
        proof {
            reveal(stepped);
            reveal(App::wf);
        }
        self.detail_scroll = at;
        Effect::Nothing
    }

    fn dispatch(&mut self, action: Action, now: u64) -> (effect: Effect)
        requires
            old(self).wf(),
        ensures
            final(self).wf(),
            stepped(
                *old(self),
                *final(self),
                effect,
                dispatched(old(self)@, action, old(self).visible@.len() as int, now),
            ),
    {
        proof {
            reveal(dispatched);
        }
        let covered = self.confirm.is_some() || self.help || self.input.is_some();
        if action == Action::Interrupt && covered {
            return self.interrupt_anywhere(now);
        }
        if self.confirm.is_some() {
            return self.handle_confirm(action, now);
        }
        if self.help {
            self.handle_help(action);
            return Effect::Nothing;
        }
        if let Some(input) = &self.input {
            proof {
                reveal(App::wf);
            }
            let input = copy_input(input);
            return self.handle_typing(input, action, now);
        }
        if self.view.detail {
            if let Some(at) = scroll(self.detail_scroll, action) {
                return self.scroll_detail(at);
            }
        }
        self.handle_browse(action, now)
    }

    /// Takes what the user wants.
    pub fn handle_action(&mut self, action: Action, now: u64) -> (effect: Effect)
        requires
            old(self).wf(),
        ensures
            final(self).wf(),
            stepped(
                *old(self),
                *final(self),
                effect,
                app_step(old(self)@, action, old(self).visible@.len() as int, now),
            ),
    {
        self.pending_g = action == Action::PrefixG;
        let keeps_count = match action {
            Action::Count(_) => true,
            Action::GotoCount => true,
            _ => false,
        };
        if !keeps_count {
            self.count = None;
        }
        proof {
            reveal(App::wf);
            reveal(stepped);
            assert(self@ =~= keys_noted(old(self)@, action));
        }
        self.dispatch(action, now)
    }
}

// ---------------------------------------------------------------------------
// Events
// ---------------------------------------------------------------------------

/// A failed probe on one line.
pub open spec fn failure_text(
    ip: Ipv4Addr,
    port: u16,
    protocol: Protocol,
    reason: Seq<char>,
) -> Seq<char> {
    ip_text(ip) + ":"@ + decimal(port as nat) + " "@ + protocol_text(protocol) + " — "@ + reason
}

/// A log with one more line; the oldest leaves when it is full.
pub open spec fn logged(log: Seq<Seq<char>>, line: Seq<char>) -> Seq<Seq<char>> {
    if log.len() >= MAX_FAILURE_LOG {
        log.drop_first().push(line)
    } else {
        log.push(line)
    }
}

/// The state once the run is over.
pub open spec fn run_ended(m: AppModel, now: u64) -> AppModel {
    AppModel { finished_at: Some(now), running: false, screen: Screen::Done, ..m }
}

/// The state behind an event of the run, but for a proxy that it found.
#[verifier::opaque]
pub open spec fn event_taken(m: AppModel, event: EngineEvent, now: u64) -> AppModel {
    match event {
        EngineEvent::Proxy(_) => m,
        EngineEvent::JudgeHealth(healthy, candidates) => AppModel {
            health: Some(
                decimal(healthy as nat) + "/"@ + decimal(candidates as nat) + " judges healthy"@,
            ),
            ..m
        },
        EngineEvent::PassChanged(pass) => told(
            m,
            "validating pass "@ + decimal(pass as nat),
            MessageKind::Info,
            now,
        ),
        EngineEvent::Failure { ip, port, protocol, reason } => AppModel {
            failures: logged(m.failures, failure_text(ip, port, protocol, reason@)),
            ..m
        },
        EngineEvent::ExportDone { path, result } => match result {
            Ok(count) => told(
                m,
                "exported "@ + decimal(count as nat) + " rows → "@ + path@,
                MessageKind::Info,
                now,
            ),
            Err(error) => told(m, "export failed: "@ + error@, MessageKind::Error, now),
        },
        EngineEvent::Finished(summary) => run_ended(AppModel { summary: Some(summary), ..m }, now),
        EngineEvent::Error(text) => run_ended(told(m, text@, MessageKind::Error, now), now),
    }
}

/// Whether an application came out of another by an event of the run. A found
/// proxy is appended to the results and the rows, or only counted where they
/// are full; nothing else touches either.
pub open spec fn event_applied(old_app: App, new_app: App, event: EngineEvent, now: u64) -> bool {
    &&& new_app.visible@ == old_app.visible@
    &&& match event {
        EngineEvent::Proxy(p) => if old_app.results@.len() < MAX_RESULTS {
            &&& new_app@ == old_app@
            &&& new_app.results@ == old_app.results@.push(p)
            &&& new_app.rows@.len() == old_app.rows@.len() + 1
            &&& new_app.rows@.drop_last() == old_app.rows@
            &&& row_of(new_app.rows@.last(), p)
        } else {
            &&& new_app@ == (AppModel { overflow: (old_app.overflow + 1) as usize, ..old_app@ })
            &&& new_app.results@ == old_app.results@
            &&& new_app.rows@ == old_app.rows@
        },
        _ => {
            &&& new_app@ == event_taken(old_app@, event, now)
            &&& new_app.results@ == old_app.results@
            &&& new_app.rows@ == old_app.rows@
        },
    }
}

impl App {
    fn take_proxy(&mut self, proxy: Proxy)
        requires
            old(self).wf(),
            proxy.wf(),
            old(self).results@.len() >= MAX_RESULTS ==> old(self).overflow < usize::MAX,
        ensures
            final(self).wf(),
            final(self).visible@ == old(self).visible@,
            if old(self).results@.len() < MAX_RESULTS {
                &&& final(self)@ == old(self)@
                &&& final(self).results@ == old(self).results@.push(proxy)
                &&& final(self).rows@.len() == old(self).rows@.len() + 1
                &&& final(self).rows@.drop_last() == old(self).rows@
                &&& row_of(final(self).rows@.last(), proxy)
            } else {
                &&& final(self)@ == (AppModel {
                    overflow: (old(self).overflow + 1) as usize,
                    ..old(self)@
                })
                &&& final(self).results@ == old(self).results@
                &&& final(self).rows@ == old(self).rows@
            },
    {
        proof {
            reveal(App::wf);
        }
        if self.results.len() < MAX_RESULTS {
            let ghost before = self.rows@;
            let row = RowModel::new(&proxy);
            self.rows.push(row);
            self.results.push(proxy);
            assert(self.rows@.drop_last() =~= before);
        } else {
            self.overflow = self.overflow + 1;
        }
    }

    fn log_failure(&mut self, line: String)
        requires
            old(self).wf(),
        ensures
            final(self).wf(),
            same_rows(*old(self), *final(self)),
            final(self)@ == (AppModel {
                failures: logged(old(self)@.failures, line@),
                ..old(self)@
            }),
    {
        proof {
            reveal(App::wf);
        }
        let ghost before = self.failures@;
        if self.failures.len() >= MAX_FAILURE_LOG {
            self.failures.remove(0);
            assert(texts(self.failures@) =~= texts(before).drop_first());
        }
        proof {
            lemma_texts_push(self.failures@, line);
        }
        self.failures.push(line);
    }

    fn end_run(&mut self, now: u64)
        requires
            old(self).wf(),
        ensures
            final(self).wf(),
            same_rows(*old(self), *final(self)),
            final(self)@ == run_ended(old(self)@, now),
    {
        proof {
            reveal(App::wf);
        }
        self.finished_at = Some(now);
        self.running = false;
        self.screen = Screen::Done;
    }

    fn on_health(&mut self, healthy: usize, candidates: usize, now: u64)
        requires
            old(self).wf(),
        ensures
            final(self).wf(),
            same_rows(*old(self), *final(self)),
            final(self)@ == event_taken(
                old(self)@,
                EngineEvent::JudgeHealth(healthy, candidates),
                now,
            ),
    {
        proof {
            reveal(App::wf);
            reveal(event_taken);
        }
        let mut s = String::new();
        push_decimal(&mut s, healthy as u64);
        s.append("/");
        push_decimal(&mut s, candidates as u64);
        s.append(" judges healthy");
        assert(s@ =~= decimal(healthy as nat) + "/"@ + decimal(candidates as nat)
            + " judges healthy"@);
        self.health = Some(s);
    }

    fn on_pass(&mut self, pass: u8, now: u64)
        requires
            old(self).wf(),
        ensures
            final(self).wf(),
            same_rows(*old(self), *final(self)),
            final(self)@ == event_taken(old(self)@, EngineEvent::PassChanged(pass), now),
    {
        proof {
            reveal(event_taken);
        }
        let mut s = "validating pass ".to_owned();
        push_decimal(&mut s, pass as u64);
        self.set_message(s, MessageKind::Info, now);
    }

    fn on_failure(&mut self, ip: Ipv4Addr, port: u16, protocol: Protocol, reason: String, now: u64)
        requires
            old(self).wf(),
        ensures
            final(self).wf(),
            same_rows(*old(self), *final(self)),
            final(self)@ == event_taken(
                old(self)@,
                EngineEvent::Failure { ip, port, protocol, reason },
                now,
            ),
    {
        proof {
            reveal(event_taken);
        }
        let mut s = ip.to_text();
        s.append(":");
        push_decimal(&mut s, port as u64);
        s.append(" ");
        s.append(protocol.to_text().as_str());
        s.append(" — ");
        s.append(reason.as_str());
        self.log_failure(s);
    }

    fn on_export_done(&mut self, path: String, result: Result<usize, String>, now: u64)
        requires
            old(self).wf(),
        ensures
            final(self).wf(),
            same_rows(*old(self), *final(self)),
            final(self)@ == event_taken(
                old(self)@,
                EngineEvent::ExportDone { path, result },
                now,
            ),
    {
        proof {
            reveal(event_taken);
        }
        match result {
            Ok(count) => {
                let mut s = "exported ".to_owned();
                push_decimal(&mut s, count as u64);
                s.append(" rows → ");
                s.append(path.as_str());
                self.set_message(s, MessageKind::Info, now);
            },
            Err(error) => {
                let mut s = "export failed: ".to_owned();
                s.append(error.as_str());
                self.set_message(s, MessageKind::Error, now);
            },
        }
    }

    fn on_finished(&mut self, summary: RunSummary, now: u64)
        requires
            old(self).wf(),
        ensures
            final(self).wf(),
            same_rows(*old(self), *final(self)),
            final(self)@ == event_taken(old(self)@, EngineEvent::Finished(summary), now),
    {
        proof {
            reveal(App::wf);
            reveal(event_taken);
        }
        self.summary = Some(summary);
        self.end_run(now);
    }

    fn on_error(&mut self, text: String, now: u64)
        requires
            old(self).wf(),
        ensures
            final(self).wf(),
            same_rows(*old(self), *final(self)),
            final(self)@ == event_taken(old(self)@, EngineEvent::Error(text), now),
    {
        proof {
            reveal(event_taken);
        }
        self.set_message(text, MessageKind::Error, now);
        self.end_run(now);
    }

    /// Takes an event of the run.
    pub fn on_engine_event(&mut self, event: EngineEvent, now: u64)
        requires
            old(self).wf(),
            event matches EngineEvent::Proxy(p) ==> p.wf() && (old(self).results@.len()
                >= MAX_RESULTS ==> old(self).overflow < usize::MAX),
        ensures
            final(self).wf(),
            event_applied(*old(self), *final(self), event, now),
    {
        match event {
            EngineEvent::Proxy(proxy) => {
                self.take_proxy(proxy);
            },
            EngineEvent::JudgeHealth(healthy, candidates) => {
                self.on_health(healthy, candidates, now);
            },
            EngineEvent::PassChanged(pass) => {
                self.on_pass(pass, now);
            },
            EngineEvent::Failure { ip, port, protocol, reason } => {
                self.on_failure(ip, port, protocol, reason, now);
            },
            EngineEvent::ExportDone { path, result } => {
                self.on_export_done(path, result, now);
            },
            EngineEvent::Finished(summary) => {
                self.on_finished(summary, now);
            },
            EngineEvent::Error(text) => {
                self.on_error(text, now);
            },
        }
    }
}

// ---------------------------------------------------------------------------
// Time
// ---------------------------------------------------------------------------

/// Nanoseconds that the current run takes, which stop when the run does.
pub open spec fn elapsed_of(m: AppModel, now: u64) -> int {
    match m.started {
        None => 0,
        Some(started) => minus(
            match m.finished_at {
                Some(end) => end as int,
                None => now as int,
            },
            started as int,
        ),
    }
}

/// The state without a status line that was shown for long enough.
pub open spec fn faded(m: AppModel, now: u64) -> AppModel {
    match m.message {
        Some(message) => if minus(now as int, message.shown_at as int) >= MESSAGE_TTL {
            AppModel { message: None, ..m }
        } else {
            m
        },
        None => m,
    }
}

/// The selection at a tick: on the last row while a live run is followed, else
/// inside the rows.
pub open spec fn tracked_selection(m: AppModel, rows: int) -> AppModel {
    AppModel {
        selected: (if m.follow && m.screen == Screen::Running && rows > 0 {
            rows - 1
        } else {
            kept_inside(m.selected as int, rows)
        }) as usize,
        ..m
    }
}

/// The rate sampled anew, where it is due.
pub open spec fn rate_sampled(m: AppModel, completed: Option<usize>, now: u64) -> AppModel {
    match completed {
        None => m,
        Some(done) => match m.rate_mark {
            None => AppModel { rate_mark: Some(RateMark { at: now, done }), ..m },
            Some(mark) => {
                let nanos = minus(now as int, mark.at as int);
                if nanos < RATE_SAMPLE {
                    m
                } else {
                    AppModel {
                        rate: Rate {
                            probes: minus(done as int, mark.done as int) as usize,
                            nanos: nanos as u64,
                        },
                        rate_mark: Some(RateMark { at: now, done }),
                        ..m
                    }
                }
            },
        },
    }
}

impl App {
    fn fade_message(&mut self, now: u64)
        requires
            old(self).wf(),
        ensures
            final(self).wf(),
            same_rows(*old(self), *final(self)),
            final(self)@ == faded(old(self)@, now),
    {
        proof {
            reveal(App::wf);
        }
        let old_enough = match &self.message {
            Some(message) => now.saturating_sub(message.shown_at) >= MESSAGE_TTL,
            None => false,
        };
        if old_enough {
            self.message = None;
        }
    }

    fn follow_rows(&mut self)
        requires
            old(self).wf(),
        ensures
            final(self).wf(),
            same_rows(*old(self), *final(self)),
            final(self)@ == tracked_selection(old(self)@, old(self).visible@.len() as int),
            final(self).view.sort == old(self).view.sort,
            final(self).view.order == old(self).view.order,
            final(self).view.filter == old(self).view.filter,
    {
        proof {
            reveal(App::wf);
        }
        let rows: usize = self.visible.len();
        if self.follow && self.screen == Screen::Running && rows > 0 {
            self.view.selected = rows - 1;
        } else {
            clamp_selection(&mut self.view, rows);
        }
    }

    fn update_rate(&mut self, completed: Option<usize>, now: u64)
        requires
            old(self).wf(),
        ensures
            final(self).wf(),
            same_rows(*old(self), *final(self)),
            final(self)@ == rate_sampled(old(self)@, completed, now),
            final(self).view == old(self).view,
    {
        proof {
            reveal(App::wf);
        }
        if let Some(done) = completed {
            match self.rate_mark {
                None => {
                    self.rate_mark = Some(RateMark { at: now, done });
                },
                Some(mark) => {
                    let nanos: u64 = now.saturating_sub(mark.at);
                    if nanos >= RATE_SAMPLE {
                        self.rate = Rate { probes: done.saturating_sub(mark.done), nanos };
                        self.rate_mark = Some(RateMark { at: now, done });
                    }
                },
            }
        }
    }

    /// Brings the screen up to date. While nothing runs there are no completed
    /// probes.
    pub fn on_tick(&mut self, completed: Option<usize>, now: u64)
        requires
            old(self).wf(),
        ensures
            final(self).wf(),
            final(self).rows@ == old(self).rows@,
            final(self).results@ == old(self).results@,
            lists_shown(final(self).visible@, final(self).rows@, final(self).view.filter@),
            view_order(final(self).visible@, final(self).rows@, final(self).view),
            final(self)@ == rate_sampled(
                tracked_selection(faded(old(self)@, now), final(self).visible@.len() as int),
                completed,
                now,
            ),
    {
        self.fade_message(now);
        self.refresh_visible();
        let ghost mid = *self;
        self.follow_rows();
        proof {
            lemma_same_view(mid.visible@, mid.rows@, mid.view, self.view);
        }
        self.update_rate(completed, now);
    }

    /// The selected row's full record, for the detail panel.
    pub fn selected_proxy(&self) -> (r: Option<&Proxy>)
        requires
            self.wf(),
        ensures
            match r {
                Some(p) => self.view.selected < self.visible@.len() && *p
                    == self.results@[self.visible@[self.view.selected as int] as int],
                None => self.view.selected >= self.visible@.len(),
            },
    {
        proof {
            reveal(App::wf);
        }
        if self.view.selected < self.visible.len() {
            let index: usize = self.visible[self.view.selected];
            Some(&self.results[index])
        } else {
            None
        }
    }

    /// Nanoseconds that the current run takes, which stop when the run does.
    pub fn elapsed(&self, now: u64) -> (r: u64)
        ensures
            r == elapsed_of(self@, now),
    {
        match self.started {
            None => 0,
            Some(started) => {
                let end: u64 = match self.finished_at {
                    Some(end) => end,
                    None => now,
                };
                end.saturating_sub(started)
            },
        }
    }
}

// ---------------------------------------------------------------------------
// Laws
// ---------------------------------------------------------------------------

proof fn lemma_typing_never_aborts(m: AppModel, i: InputText, action: Action, now: u64)
    ensures
        typing_step(m, i, action, now).effect != EffectText::Cancel,
{
    reveal(typing_step);
    reveal(format_step);
    reveal(format_turned);
    reveal(format_picked);
    reveal(submitted);
    reveal(filter_typed);
    reveal(abandoned);
}

proof fn lemma_browsing_never_aborts(m: AppModel, action: Action, rows: int, now: u64)
    requires
        action != Action::Interrupt,
    ensures
        browse_step(m, action, rows, now).effect != EffectText::Cancel,
{
    reveal(browse_step);
    reveal(browse);
    reveal(help_opened);
    reveal(backed);
    reveal(pause_toggled);
    reveal(cancel_asked);
    reveal(sort_cycled);
    reveal(order_toggled);
    reveal(filter_edited);
    reveal(filter_cleared);
    reveal(export_asked);
    reveal(drilled);
    reveal(counted);
    reveal(count_reached);
    reveal(run_begun);
}

/// A run is never aborted by a slip: only Ctrl+C does it, or a yes to the
/// question whether to.
pub proof fn aborting_takes_intent(m: AppModel, action: Action, rows: int, now: u64)
    requires
        app_step(m, action, rows, now).effect == EffectText::Cancel,
    ensures
        action == Action::Interrupt || (action == Action::ConfirmYes && (m.confirm matches Some(
            (_, ConfirmText::CancelRun),
        ))),
{
    reveal(dispatched);
    let noted = keys_noted(m, action);
    if action == Action::Interrupt {
    } else if noted.confirm is Some {
        reveal(confirm_step);
    } else if noted.help {
        reveal(help_step);
    } else if noted.input is Some {
        lemma_typing_never_aborts(noted, noted.input->0, action, now);
    } else {
        lemma_browsing_never_aborts(noted, action, rows, now);
    }
}

/// No surface swallows Ctrl+C: whatever is open, it cancels a live run, or
/// leaves once nothing is running.
pub proof fn interrupts_are_never_swallowed(m: AppModel, rows: int, now: u64)
    ensures
        ({
            let s = app_step(m, Action::Interrupt, rows, now);
            if m.screen == Screen::Running && m.running {
                &&& s.effect == EffectText::Cancel
                &&& !s.next.running
                &&& s.next.cancelled
                &&& s.next.screen == Screen::Done
                &&& s.next.input is None
                &&& s.next.confirm is None
            } else {
                s.effect == EffectText::Nothing && s.next.should_quit
            }
        }),
{
    reveal(dispatched);
    reveal(interrupted);
    reveal(browse_step);
    reveal(browse);
    assert(scrolled(m.detail_scroll, Action::Interrupt) is None);
}

/// Ctrl+C leaves at the second press at the latest, on every surface.
pub proof fn two_interrupts_leave(m: AppModel, rows: int, now: u64, later: u64)
    ensures
        ({
            let once = app_step(m, Action::Interrupt, rows, now).next;
            let twice = app_step(once, Action::Interrupt, rows, later).next;
            twice.should_quit
        }),
{
    reveal(dispatched);
    reveal(interrupted);
    reveal(browse_step);
    reveal(browse);
}

/// Typing in the filter never loses what it was: it is remembered as long as
/// the prompt is open, and giving the prompt up brings it back.
pub proof fn escape_restores_the_filter(m: AppModel, i: InputText, action: Action, now: u64)
    requires
        i.purpose == InputPurpose::Filter,
    ensures
        (filter_edited(m).next.input matches Some(asked) && asked.purpose == InputPurpose::Filter
            && asked.original == m.filter),
        m.input == Some(i) ==> match typing_step(m, i, action, now).next.input {
            Some(next) => next.original == i.original && next.purpose == InputPurpose::Filter,
            None => true,
        },
        typing_step(m, i, Action::Cancel, now).next.filter == i.original,
        typing_step(m, i, Action::Cancel, now).next.input is None,
{
    reveal(filter_edited);
    reveal(typing_step);
    reveal(filter_typed);
    reveal(submitted);
    reveal(abandoned);
}

/// Whatever the run reports, results and rows stay aligned and bounded, and so
/// does the failure log. A found proxy is the last of both lists, or, where they
/// are full, is only counted. A failure is the last of the log, and takes the
/// place of the oldest one only where the log is full.
pub proof fn events_keep_the_bounds(before: App, after: App, event: EngineEvent, now: u64)
    requires
        before.results@.len() == before.rows@.len() <= MAX_RESULTS,
        before.failures@.len() <= MAX_FAILURE_LOG,
        event_applied(before, after, event, now),
    ensures
        after.results@.len() == after.rows@.len() <= MAX_RESULTS,
        after.failures@.len() <= MAX_FAILURE_LOG,
        event matches EngineEvent::Proxy(p) ==> if before.results@.len() < MAX_RESULTS {
            &&& after.results@ == before.results@.push(p)
            &&& after.rows@.drop_last() == before.rows@
            &&& after.overflow == before.overflow
        } else {
            &&& after.results@ == before.results@
            &&& after.rows@ == before.rows@
            &&& before.overflow < usize::MAX ==> after.overflow == before.overflow + 1
        },
        event matches EngineEvent::Failure { ip, port, protocol, reason } ==> {
            let line = failure_text(ip, port, protocol, reason@);
            let kept = if before@.failures.len() < MAX_FAILURE_LOG {
                before@.failures
            } else {
                before@.failures.drop_first()
            };
            after@.failures == kept.push(line)
        },
        !(event is Failure) ==> after@.failures == before@.failures,
{
    reveal(event_taken);
    assert(after@.failures.len() == after.failures@.len());
    assert(before@.failures.len() == before.failures@.len());
    assert(after@.overflow == after.overflow);
}

/// The clock of a run that is over stands still, however it ended.
pub proof fn clock_stops_with_the_run(m: AppModel, event: EngineEvent, now: u64, a: u64, b: u64)
    requires
        event is Finished || event is Error,
    ensures
        elapsed_of(event_taken(m, event, now), a) == elapsed_of(event_taken(m, event, now), b),
        elapsed_of(run_cancelled(m, now).next, a) == elapsed_of(run_cancelled(m, now).next, b),
{
    reveal(event_taken);
}

/// Whatever key a browsed list gets, the selection is inside it afterwards.
pub proof fn selection_stays_inside(m: AppModel, action: Action, rows: int, now: u64)
    requires
        0 < rows <= usize::MAX,
    ensures
        browse_step(m, action, rows, now).next.selected < rows,
{
    reveal(browse_step);
}

/// A run that starts over keeps the filter, the sort key and the direction,
/// and nothing of what the last run found or said.
pub proof fn rerun_keeps_the_view(m: AppModel, now: u64)
    ensures
        ({
            let s = run_begun(m, now);
            &&& s.clear
            &&& s.next.filter == m.filter
            &&& s.next.sort == m.sort
            &&& s.next.order == m.order
            &&& s.next.format == m.format
            &&& s.next.summary is None
            &&& s.next.failures.len() == 0
            &&& s.next.message is None
            &&& !s.next.cancelled
        }),
{
    reveal(run_begun);
}

/// The drill-down never loses the selected row: neither opening it, nor
/// scrolling in it, nor leaving it moves the selection.
pub proof fn drill_down_keeps_the_row(m: AppModel, action: Action, rows: int, now: u64)
    requires
        m.confirm is None,
        !m.help,
        m.input is None,
        m.selected < rows <= usize::MAX,
    ensures
        app_step(m, Action::DrillIn, rows, now).next.detail,
        app_step(m, Action::DrillIn, rows, now).next.selected == m.selected,
        m.detail && scrolled(m.detail_scroll, action) is Some ==> ({
            let next = app_step(m, action, rows, now).next;
            next.detail && next.selected == m.selected
        }),
        m.detail ==> ({
            let next = app_step(m, Action::Back, rows, now).next;
            !next.detail && next.selected == m.selected && next.filter == m.filter
                && next.should_quit == m.should_quit
        }),
{
    reveal(dispatched);
    reveal(browse_step);
    reveal(browse);
    reveal(drilled);
    reveal(backed);
    assert(scrolled(m.detail_scroll, Action::DrillIn) is None);
    assert(scrolled(m.detail_scroll, Action::Back) is None);
}

/// An export asks for its format first and for its path next; nothing is
/// written before both are known.
pub proof fn export_asks_the_format_first(m: AppModel, i: InputText, rows: int, now: u64)
    requires
        m.confirm is None,
        !m.help,
    ensures
        m.input is None ==> ({
            let s = app_step(m, Action::Export, rows, now);
            &&& s.effect == EffectText::Nothing
            &&& s.next.input matches Some(asked) && asked.purpose == InputPurpose::ExportFormat
        }),
        m.input == Some(i) && i.purpose == InputPurpose::ExportFormat ==> ({
            let s = app_step(m, Action::Submit, rows, now);
            &&& s.effect == EffectText::Nothing
            &&& s.next.format == i.buffer
            &&& s.next.input matches Some(asked) && asked.purpose == InputPurpose::ExportPath
        }),
{
    reveal(dispatched);
    reveal(browse_step);
    reveal(browse);
    reveal(export_asked);
    reveal(typing_step);
    reveal(format_step);
    reveal(submitted);
    assert(scrolled(m.detail_scroll, Action::Export) is None);
}

/// Whether the list owns the keyboard: no question, panel, prompt or drill-down
/// is open.
pub open spec fn is_plain(m: AppModel) -> bool {
    m.confirm is None && !m.help && m.input is None && !m.detail
}

/// The keys that move go one row or ten, or to either end, and stop at the
/// ends; the selection sticks to the last row where a movement down leads
/// there, and no longer where one leads up.
pub proof fn keys_move_the_selection(m: AppModel, rows: int, now: u64)
    requires
        is_plain(m),
        m.selected < rows < usize::MAX - 10,
    ensures
        ({
            let up = app_step(m, Action::ScrollUp, rows, now).next;
            let down = app_step(m, Action::ScrollDown, rows, now).next;
            let page_up = app_step(m, Action::PageUp, rows, now).next;
            let page_down = app_step(m, Action::PageDown, rows, now).next;
            let top = app_step(m, Action::GotoTop, rows, now).next;
            let bottom = app_step(m, Action::GotoBottom, rows, now).next;
            &&& m.selected > 0 ==> up.selected == m.selected - 1
            &&& m.selected == 0 ==> up.selected == 0
            &&& !up.follow
            &&& m.selected + 1 < rows ==> down.selected == m.selected + 1
            &&& m.selected + 1 == rows ==> down.selected == m.selected
            &&& down.follow <==> down.selected + 1 == rows
            &&& m.selected >= 10 ==> page_up.selected == m.selected - 10
            &&& m.selected < 10 ==> page_up.selected == 0
            &&& !page_up.follow
            &&& m.selected + 10 < rows ==> page_down.selected == m.selected + 10
            &&& m.selected + 10 >= rows ==> page_down.selected == rows - 1
            &&& page_down.follow <==> page_down.selected + 1 == rows
            &&& top.selected == 0 && !top.follow
            &&& bottom.selected == rows - 1 && bottom.follow
        }),
{
    reveal(dispatched);
    reveal(browse_step);
    reveal(browse);
}

/// Digits make up the number of a row, the row with that number is reached, or
/// the last one where there are not so many, and the number is used up.
pub proof fn typed_numbers_are_reached(m: AppModel, n: usize, digit: u8, rows: int, now: u64)
    requires
        is_plain(m),
        0 < rows <= usize::MAX,
        10 * n + digit <= usize::MAX,
    ensures
        m.count is None ==> app_step(m, Action::Count(digit), rows, now).next.count == Some(
            digit as usize,
        ),
        m.count == Some(n) ==> ({
            let more = app_step(m, Action::Count(digit), rows, now).next;
            let there = app_step(m, Action::GotoCount, rows, now).next;
            &&& more.count is Some && more.count->0 == 10 * n + digit
            &&& there.count is None
            &&& !there.follow
            &&& 1 <= n <= rows ==> there.selected + 1 == n
            &&& n > rows ==> there.selected + 1 == rows
            &&& n == 0 ==> there.selected == 0
        }),
        app_step(m, Action::ScrollDown, rows, now).next.count is None,
        app_step(m, Action::PrefixG, rows, now).next.pending_g,
        !app_step(m, Action::ScrollDown, rows, now).next.pending_g,
{
    reveal(dispatched);
    reveal(browse_step);
    reveal(browse);
    reveal(counted);
    reveal(count_reached);
}

/// Another order, and a filter that is cleared, show the rows anew, from the
/// first one; neither leaves the filter, the key and the direction but for the
/// one that it changes.
pub proof fn other_views_start_at_the_top(m: AppModel, rows: int, now: u64)
    requires
        is_plain(m),
        0 <= rows <= usize::MAX,
    ensures
        ({
            let key = app_step(m, Action::SortCycle, rows, now);
            let way = app_step(m, Action::OrderToggle, rows, now);
            let all = app_step(m, Action::ClearFilter, rows, now);
            &&& key.refresh && way.refresh && all.refresh
            &&& !key.clear && !way.clear && !all.clear
            &&& key.effect is Nothing && way.effect is Nothing && all.effect is Nothing
            &&& key.next.selected == 0 && way.next.selected == 0 && all.next.selected == 0
            &&& !key.next.follow && !way.next.follow && !all.next.follow
            &&& key.next.sort != m.sort && key.next.order == m.order && key.next.filter == m.filter
            &&& way.next.sort == m.sort && way.next.order != m.order && way.next.filter == m.filter
            &&& all.next.sort == m.sort && all.next.order == m.order && all.next.filter.len() == 0
        }),
{
    reveal(dispatched);
    reveal(browse_step);
    reveal(browse);
    reveal(sort_cycled);
    reveal(order_toggled);
    reveal(filter_cleared);
}

/// What is typed into the filter filters at once, from the first row; a
/// submitted filter loses the blanks around it, and the prompt closes.
pub proof fn filters_follow_the_typing(m: AppModel, i: InputText, c: char, rows: int, now: u64)
    requires
        m.confirm is None,
        !m.help,
    ensures
        is_plain(m) ==> ({
            let asked = app_step(m, Action::EditFilter, rows, now);
            &&& asked.next.input is Some
            &&& asked.next.input->0.purpose is Filter
            &&& asked.next.input->0.buffer == m.filter
            &&& asked.next.filter == m.filter
        }),
        m.input == Some(i) && i.purpose is Filter ==> ({
            let typed = app_step(m, Action::Text(c), rows, now);
            let erased = app_step(m, Action::Backspace, rows, now);
            let done = app_step(m, Action::Submit, rows, now);
            &&& typed.next.filter == i.buffer + seq![c]
            &&& typed.next.input is Some && typed.next.input->0.buffer == i.buffer + seq![c]
            &&& typed.refresh && typed.next.selected == 0 && !typed.next.follow
            &&& i.buffer.len() > 0 ==> erased.next.filter + seq![i.buffer.last()] == i.buffer
            &&& i.buffer.len() == 0 ==> erased.next.filter == i.buffer
            &&& erased.refresh && erased.next.selected == 0
            &&& done.next.filter == trimmed(i.buffer)
            &&& done.next.input is None
            &&& done.refresh && done.next.selected == 0
        }),
{
    reveal(dispatched);
    reveal(browse_step);
    reveal(browse);
    reveal(filter_edited);
    reveal(typing_step);
    reveal(filter_typed);
    reveal(submitted);
    if m.input == Some(i) && i.purpose is Filter {
        let typed = app_step(m, Action::Text(c), rows, now);
        assert(i.buffer.push(c) =~= i.buffer + seq![c]);
        let erased = app_step(m, Action::Backspace, rows, now);
        if i.buffer.len() > 0 {
            assert(i.buffer.drop_last() + seq![i.buffer.last()] =~= i.buffer);
        }
    }
}

proof fn lemma_turned(i: int, n: int)
    requires
        0 <= i < n,
    ensures
        turned(i, 1, n) == (if i + 1 == n {
            0
        } else {
            i + 1
        }),
        turned(i, -1, n) == (if i == 0 {
            n - 1
        } else {
            i - 1
        }),
{
    reveal(turned);
    if i + 1 == n {
        vstd::arithmetic::div_mod::lemma_mod_self_0(n);
    } else {
        vstd::arithmetic::div_mod::lemma_small_mod((i + 1) as nat, n as nat);
    }
    if i == 0 {
        vstd::arithmetic::div_mod::lemma_mod_add_multiples_vanish(-1, n);
        vstd::arithmetic::div_mod::lemma_small_mod((n - 1) as nat, n as nat);
        assert((n - 1) % n == (-1) % n);
    } else {
        vstd::arithmetic::div_mod::lemma_small_mod((i - 1) as nat, n as nat);
    }
}

/// In the chooser of formats down and up go round, a digit picks the format
/// with that number, the format shown is the one that is selected, and
/// submitting it sets it and asks for the path next.
pub proof fn formats_are_chosen(m: AppModel, i: InputText, k: int, rows: int, now: u64)
    requires
        m.confirm is None,
        !m.help,
        m.input == Some(i),
        i.purpose is ExportFormat,
        i.selected < i.options.len() < usize::MAX,
        0 <= k < i.options.len(),
        k < 8,
    ensures
        ({
            let down = app_step(m, Action::ScrollDown, rows, now).next.input;
            let up = app_step(m, Action::ScrollUp, rows, now).next.input;
            let key = (49 + k) as char;
            let picked = app_step(m, Action::Text(key), rows, now).next.input;
            let given = app_step(m, Action::Submit, rows, now);
            &&& down is Some && up is Some && picked is Some
            &&& i.selected + 1 < i.options.len() ==> down->0.selected == i.selected + 1
            &&& i.selected + 1 == i.options.len() ==> down->0.selected == 0
            &&& i.selected > 0 ==> up->0.selected == i.selected - 1
            &&& i.selected == 0 ==> up->0.selected + 1 == i.options.len()
            &&& picked->0.selected == k
            &&& down->0.buffer == i.options[down->0.selected as int]
            &&& up->0.buffer == i.options[up->0.selected as int]
            &&& picked->0.buffer == i.options[k]
            &&& given.next.format == i.buffer
            &&& given.next.input is Some
            &&& given.next.input->0.purpose is ExportPath
            &&& given.next.input->0.buffer == export_path(m.is_find, i.buffer)
            &&& app_step(m, Action::Cancel, rows, now).next.input is None
            &&& app_step(m, Action::Cancel, rows, now).next.format == m.format
        }),
{
    reveal(dispatched);
    reveal(typing_step);
    reveal(format_step);
    reveal(format_turned);
    reveal(format_picked);
    reveal(submitted);
    let n = i.options.len() as int;
    lemma_turned(i.selected as int, n);
    let key = (49 + k) as char;
    assert(key as int == 49 + k);
    assert(is_digit(key));
}

/// A path is checked before anything is written to it, without the blanks
/// around it; an empty one gives the export up with a warning. A yes to
/// overwriting writes the rows to that path in the format that is set, and a no
/// writes nothing.
pub proof fn exports_go_to_their_path(
    m: AppModel,
    i: InputText,
    path: Seq<char>,
    question: Seq<char>,
    rows: int,
    now: u64,
)
    requires
        !m.help,
    ensures
        m.confirm is None && m.input == Some(i) && i.purpose is ExportPath ==> ({
            let s = app_step(m, Action::Submit, rows, now);
            &&& s.next.input is None
            &&& trimmed(i.buffer).len() > 0 ==> s.effect == EffectText::CheckPath(trimmed(i.buffer))
            &&& trimmed(i.buffer).len() == 0 ==> s.effect is Nothing && s.next.message is Some
                && s.next.message->0.kind is Warning
        }),
        m.confirm == Some((question, ConfirmText::OverwriteExport(path))) ==> ({
            let yes = app_step(m, Action::ConfirmYes, rows, now);
            let no = app_step(m, Action::ConfirmNo, rows, now);
            &&& yes.effect == EffectText::Export(path, m.format)
            &&& yes.next.confirm is None
            &&& yes.next.running == m.running
            &&& no.effect is Nothing
            &&& no.next.confirm is None
        }),
{
    reveal(dispatched);
    reveal(typing_step);
    reveal(submitted);
    reveal(confirm_step);
}

/// A live run is given up by asking and a yes; then it is over, at that moment
/// and as one that was cancelled. A no leaves it running.
pub proof fn runs_are_cancelled_by_a_yes(
    m: AppModel,
    question: Seq<char>,
    rows: int,
    now: u64,
)
    ensures
        is_plain(m) ==> ({
            let s = app_step(m, Action::CancelRun, rows, now);
            let live = m.screen is Running && m.running;
            let asked = s.next.confirm->0;
            &&& s.effect is Nothing
            &&& s.next.running == m.running
            &&& live ==> s.next.confirm is Some && asked.1 is CancelRun
            &&& !live ==> s.next.confirm is None
        }),
        m.confirm == Some((question, ConfirmText::CancelRun)) ==> ({
            let yes = app_step(m, Action::ConfirmYes, rows, now);
            let no = app_step(m, Action::ConfirmNo, rows, now);
            &&& yes.effect is Cancel <==> m.running
            &&& !yes.next.running && yes.next.cancelled && yes.next.screen is Done
            &&& yes.next.finished_at == Some(now)
            &&& yes.next.confirm is None
            &&& no.effect is Nothing
            &&& no.next.running == m.running && no.next.screen == m.screen
            &&& no.next.cancelled == m.cancelled
            &&& no.next.confirm is None
        }),
{
    reveal(dispatched);
    reveal(browse_step);
    reveal(browse);
    reveal(cancel_asked);
    reveal(confirm_step);
}

/// The help panel opens at its top, scrolls by one line or ten and between its
/// ends, and closes; the drill-down opens at its top, and its key closes it.
pub proof fn panels_open_scroll_and_close(m: AppModel, rows: int, now: u64)
    requires
        m.confirm is None,
        m.input is None,
    ensures
        !m.help ==> ({
            let s = app_step(m, Action::ToggleHelp, rows, now).next;
            s.help && s.help_scroll == 0
        }),
        m.help ==> !app_step(m, Action::ToggleHelp, rows, now).next.help,
        m.help && 10 <= m.help_scroll < 65000 ==> ({
            let at = m.help_scroll;
            &&& app_step(m, Action::ScrollUp, rows, now).next.help_scroll == at - 1
            &&& app_step(m, Action::ScrollDown, rows, now).next.help_scroll == at + 1
            &&& app_step(m, Action::PageUp, rows, now).next.help_scroll == at - 10
            &&& app_step(m, Action::PageDown, rows, now).next.help_scroll == at + 10
            &&& app_step(m, Action::GotoTop, rows, now).next.help_scroll == 0
            &&& app_step(m, Action::GotoBottom, rows, now).next.help_scroll == 65535
        }),
        !m.help && m.detail && 10 <= m.detail_scroll < 65000 ==> ({
            let at = m.detail_scroll;
            &&& app_step(m, Action::ScrollUp, rows, now).next.detail_scroll == at - 1
            &&& app_step(m, Action::ScrollDown, rows, now).next.detail_scroll == at + 1
            &&& app_step(m, Action::PageUp, rows, now).next.detail_scroll == at - 10
            &&& app_step(m, Action::PageDown, rows, now).next.detail_scroll == at + 10
        }),
        !m.help ==> ({
            let opened = app_step(m, Action::DrillIn, rows, now).next;
            let toggled = app_step(m, Action::ToggleDetail, rows, now).next;
            &&& opened.detail && opened.detail_scroll == 0
            &&& toggled.detail == !m.detail
            &&& toggled.detail ==> toggled.detail_scroll == 0
        }),
        !m.help ==> ({
            let back = app_step(m, Action::Back, rows, now).next;
            &&& !back.detail
            &&& back.should_quit <==> m.should_quit || (!m.detail && m.screen is Done)
        }),
{
    reveal(dispatched);
    reveal(browse_step);
    reveal(browse);
    reveal(help_step);
    reveal(help_opened);
    reveal(drilled);
    reveal(backed);
}

/// Only a live run can be paused, and pausing changes nothing that is shown but
/// by way of the run.
pub proof fn live_runs_are_paused(m: AppModel, rows: int, now: u64)
    requires
        is_plain(m),
    ensures
        ({
            let s = app_step(m, Action::PauseToggle, rows, now);
            &&& s.effect is TogglePause <==> m.running
            &&& s.effect is Nothing <==> !m.running
            &&& s.next.running == m.running && s.next.screen == m.screen
        }),
{
    reveal(dispatched);
    reveal(browse_step);
    reveal(browse);
    reveal(pause_toggled);
}

/// A run that begins is live, and its clock starts, where there is an engine to
/// run it; the list is empty, at its top, and followed.
pub proof fn runs_begin_afresh(m: AppModel, rows: int, now: u64)
    ensures
        ({
            let s = run_begun(m, now);
            &&& s.next.running == m.connected
            &&& s.effect is Start <==> m.connected
            &&& s.effect is Nothing <==> !m.connected
            &&& s.next.started == Some(now)
            &&& s.next.finished_at is None
            &&& s.next.screen is Running
            &&& s.next.selected == 0 && s.next.follow
            &&& s.next.overflow == 0
            &&& s.next.health is None
            &&& s.next.rate.probes == 0 && s.next.rate_mark is None
            &&& s.next.confirm is None && s.next.count is None && !s.next.pending_g
            &&& s.clear
        }),
        is_plain(m) ==> app_step(m, Action::Rerun, rows, now).effect == run_begun(m, now).effect
            && app_step(m, Action::Rerun, rows, now).clear && app_step(
            m,
            Action::Rerun,
            rows,
            now,
        ).next.started == Some(now),
{
    reveal(run_begun);
    reveal(dispatched);
    reveal(browse_step);
    reveal(browse);
}

/// What the run reports ends it, or is said, and nothing else changes: the end
/// of a run is kept with its tally, an error is shown as one and ends the run
/// too, and the other reports leave it running.
pub proof fn reports_are_shown(m: AppModel, event: EngineEvent, now: u64)
    ensures
        ({
            let next = event_taken(m, event, now);
            let ends = event is Finished || event is Error;
            &&& ends ==> !next.running && next.screen is Done && next.finished_at == Some(now)
            &&& !ends ==> next.running == m.running && next.screen == m.screen && next.finished_at
                == m.finished_at
            &&& event is Finished ==> next.summary == Some(event->Finished_0) && next.message
                == m.message
            &&& !(event is Finished) ==> next.summary == m.summary
            &&& event is Error ==> next.message == Some(
                MessageText { text: event->Error_0@, kind: MessageKind::Error, shown_at: now },
            )
            &&& event is ExportDone && event->result is Err ==> next.message is Some
                && next.message->0.kind is Error && next.message->0.text == "export failed: "@
                + event->result->Err_0@
            &&& event is ExportDone && event->result is Ok ==> next.message is Some
                && next.message->0.kind is Info && next.message->0.text == "exported "@ + decimal(
                event->result->Ok_0 as nat,
            ) + " rows → "@ + event->path@
            &&& event is PassChanged ==> next.message is Some && next.message->0.kind is Info
                && next.message->0.text == "validating pass "@ + decimal(
                event->PassChanged_0 as nat,
            )
            &&& event is JudgeHealth ==> next.health is Some && next.message == m.message
            &&& !(event is JudgeHealth) ==> next.health == m.health
            &&& next.selected == m.selected && next.filter == m.filter && next.sort == m.sort
            &&& next.started == m.started && next.cancelled == m.cancelled
            &&& next.input == m.input && next.confirm == m.confirm && next.help == m.help
        }),
{
    reveal(event_taken);
}

/// How many judges are healthy is told before how many there are.
pub proof fn healthy_judges_are_told(m: AppModel, healthy: usize, candidates: usize, now: u64)
    ensures
        event_taken(m, EngineEvent::JudgeHealth(healthy, candidates), now).health == Some(
            decimal(healthy as nat) + seq!['/'] + decimal(candidates as nat) + " judges healthy"@,
        ),
{
    reveal(event_taken);
    reveal_strlit("/");
    assert("/"@ =~= seq!['/']);
}

/// The clock of a run counts from its start, to its end or to now; before a run
/// it stands at zero, and it never goes below that.
pub proof fn clocks_count_from_the_start(m: AppModel, started: u64, end: u64, now: u64)
    ensures
        m.started is None ==> elapsed_of(m, now) == 0,
        m.started == Some(started) && m.finished_at is None && now >= started ==> elapsed_of(m, now)
            + started == now,
        m.started == Some(started) && m.finished_at == Some(end) && end >= started ==> elapsed_of(
            m,
            now,
        ) + started == end,
        elapsed_of(m, now) >= 0,
{
}

/// A status line stands for six seconds and is gone from there on.
pub proof fn messages_fade(m: AppModel, message: MessageText, now: u64)
    requires
        m.message == Some(message),
        message.shown_at <= now,
    ensures
        now - message.shown_at < 6_000_000_000 ==> faded(m, now) == m,
        now - message.shown_at >= 6_000_000_000 ==> faded(m, now) == (AppModel {
            message: None,
            ..m
        }),
{
}

/// The rate is what was done since the last sample, over the time since; it is
/// sampled no more often than twice a second, and not without progress to
/// sample.
pub proof fn rates_are_sampled(m: AppModel, mark: RateMark, done: usize, now: u64)
    ensures
        rate_sampled(m, None, now) == m,
        m.rate_mark is None ==> rate_sampled(m, Some(done), now) == (AppModel {
            rate_mark: Some(RateMark { at: now, done }),
            ..m
        }),
        m.rate_mark == Some(mark) && now < mark.at + 500_000_000 ==> rate_sampled(m, Some(done), now)
            == m,
        m.rate_mark == Some(mark) && now >= mark.at + 500_000_000 && done >= mark.done ==> ({
            let next = rate_sampled(m, Some(done), now);
            &&& next.rate.probes + mark.done == done
            &&& next.rate.nanos + mark.at == now
            &&& next.rate_mark == Some(RateMark { at: now, done })
        }),
{
}

/// While a live run is followed the last row is selected; elsewhere the
/// selection stays where it is, unless its row is gone.
pub proof fn live_runs_are_followed(m: AppModel, rows: int)
    requires
        0 <= rows <= usize::MAX,
    ensures
        m.follow && m.screen is Running && rows > 0 ==> tracked_selection(m, rows).selected + 1
            == rows,
        !m.follow && m.selected < rows ==> tracked_selection(m, rows) == m,
        m.screen is Done && m.selected < rows ==> tracked_selection(m, rows) == m,
        !m.follow && m.selected >= rows > 0 ==> tracked_selection(m, rows).selected + 1 == rows,
{
}

/// The formats of an export are found at their place in the list, and a format
/// that is not in it at the first.
pub proof fn formats_have_their_place(k: int, other: Seq<char>)
    requires
        0 <= k < 8,
        forall|j: int| 0 <= j < 8 ==> #[trigger] export_format_texts()[j] != other,
    ensures
        format_place(export_format_texts()[k], 0) == k,
        format_place(other, 0) == 0,
{
    reveal_strlit("default");
    reveal_strlit("text");
    reveal_strlit("json");
    reveal_strlit("pretty-json");
    reveal_strlit("json-lines");
    reveal_strlit("csv");
    reveal_strlit("prefix");
    reveal_strlit("proxychains");
    let all = export_format_texts();
    assert(all[0].len() == 7 && all[1].len() == 4 && all[2].len() == 4 && all[3].len() == 11
        && all[4].len() == 10 && all[5].len() == 3 && all[6].len() == 6 && all[7].len() == 11);
    assert(all[1][0] == 't' && all[2][0] == 'j');
    assert(all[3][1] == 'r' && all[7][1] == 'r');
    assert(all[3][2] == 'e' && all[7][2] == 'o');
    reveal_with_fuel(format_place, 9);
}

/// A file is offered under the name of the command, with the extension of its
/// format: both kinds of JSON share one, JSON lines, CSV, PAC and proxychains
/// have their own, and all else is text.
pub proof fn exports_are_named_by_their_format(is_find: bool, format: Seq<char>)
    ensures
        export_path(true, format) == "find."@ + format_extension(format),
        export_path(false, format) == "grab."@ + format_extension(format),
        format_extension("json"@) == "json"@,
        format_extension("pretty-json"@) == "json"@,
        format_extension("json-lines"@) == "jsonl"@,
        format_extension("csv"@) == "csv"@,
        format_extension("pac"@) == "pac"@,
        format_extension("proxychains"@) == "conf"@,
        format.len() == 4 && format[0] == 't' ==> format_extension(format) == "txt"@,
        format.len() == 6 || format.len() == 7 ==> format_extension(format) == "txt"@,
{
    reveal_strlit("find.");
    reveal_strlit("grab.");
    reveal_strlit("find");
    reveal_strlit("grab");
    reveal_strlit(".");
    reveal_strlit("json");
    reveal_strlit("pretty-json");
    reveal_strlit("json-lines");
    reveal_strlit("csv");
    reveal_strlit("pac");
    reveal_strlit("proxychains");
    assert("find"@ + "."@ =~= "find."@);
    assert("grab"@ + "."@ =~= "grab."@);
    assert("csv"@[0] != "pac"@[0]);
    assert("proxychains"@[2] != "pretty-json"@[2]);
    assert("proxychains"@.len() == 11 && "json-lines"@.len() == 10 && "json"@.len() == 4
        && "csv"@.len() == 3 && "pac"@.len() == 3);
}

/// A failed probe is logged as its address, its protocol and the reason, on one
/// line.
pub proof fn failures_are_told(ip: Ipv4Addr, port: u16, protocol: Protocol, reason: Seq<char>)
    ensures
        failure_text(ip, port, protocol, reason) == ip_text(ip) + seq![':'] + decimal(port as nat)
            + seq![' '] + protocol_text(protocol) + " — "@ + reason,
{
    reveal_strlit(":");
    reveal_strlit(" ");
    assert(":"@ =~= seq![':']);
    assert(" "@ =~= seq![' ']);
}

} // verus!
