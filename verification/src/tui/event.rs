//! Key handling: one table that drives dispatch, the footer hints, and `?`.
//!
//! Keeping a single keymap means the footer cannot drift from what the keys do,
//! and the `?` panel cannot drift either: it prints the same rows at greater
//! length.

use crate::text::{is_ascii_digit, is_digit, same, to_decimal, decimal};
use vstd::prelude::*;

verus! {

/// Which screen the TUI is showing.
#[derive(Clone, Copy, Debug, PartialEq, Eq, Structural)]
pub enum Screen {
    Running,
    Done,
}

/// What an active text input is collecting.
#[derive(Clone, Copy, Debug, PartialEq, Eq, Structural)]
pub enum InputPurpose {
    /// Typing the results filter.
    Filter,
    /// Choosing the export format.
    ExportFormat,
    /// Typing the export destination path.
    ExportPath,
}

/// Everything the key map needs to know about the current UI.
#[derive(Clone, Copy, Debug)]
pub struct KeyContext {
    pub screen: Screen,
    pub purpose: Option<InputPurpose>,
    pub help: bool,
    pub confirm: bool,
    /// Whether a `g` is waiting for its second press.
    pub pending_g: bool,
    /// Digits typed so far, waiting for `G` to use them.
    pub count: Option<usize>,
}

/// A user intent decoupled from the physical key that produced it.
#[derive(Clone, Copy, Debug, PartialEq, Eq, Structural)]
pub enum Action {
    ToggleHelp,
    /// Esc: close the drill-down, dismiss a prompt, or leave the Done screen.
    Back,
    /// Ctrl+C: cancel a live run, or quit once nothing is running.
    Interrupt,
    Submit,
    Cancel,
    Backspace,
    Text(char),
    PauseToggle,
    CancelRun,
    SortCycle,
    OrderToggle,
    EditFilter,
    ClearFilter,
    Export,
    Rerun,
    /// Enter: open the drill-down.
    DrillIn,
    /// `d`: open or close the drill-down.
    ToggleDetail,
    /// First `g` of `gg`.
    PrefixG,
    GotoTop,
    GotoBottom,
    /// A digit joined the pending count.
    Count(u8),
    /// `G` (or `gg`) with a count in front: go to that row.
    GotoCount,
    ScrollUp,
    ScrollDown,
    PageUp,
    PageDown,
    ConfirmYes,
    ConfirmNo,
}

/// A key as the table writes it down.
#[derive(Clone, Copy, Debug, PartialEq, Eq, Structural)]
pub enum Key {
    Char(char),
    Ctrl(char),
    Up,
    Down,
    PageUp,
    PageDown,
    Enter,
    Esc,
    Backspace,
    /// Any printable character; the text-prompt scope matches on this.
    Printable,
    /// Any ASCII digit; the browse scope accumulates these into a count.
    Digit,
}

/// Which surface a binding belongs to.
#[derive(Clone, Copy, Debug, PartialEq, Eq, Structural)]
pub enum Scope {
    /// The browse keymap, active while no prompt or help owns the keyboard.
    Screen,
    Running,
    Done,
    Input,
    Confirm,
    /// The `?` panel: it scrolls, and it closes.
    Help,
}

/// Whether a surface owns the keyboard. Help is modal, and so is a
/// confirmation: only their own bindings apply while they are open.
pub open spec fn scope_applies(scope: Scope, context: KeyContext) -> bool {
    if context.help {
        scope == Scope::Help
    } else if context.confirm {
        scope == Scope::Confirm
    } else {
        match scope {
            Scope::Confirm => false,
            Scope::Help => false,
            Scope::Input => context.purpose is Some,
            Scope::Screen => context.purpose is None,
            Scope::Running => context.purpose is None && context.screen == Screen::Running,
            Scope::Done => context.purpose is None && context.screen == Screen::Done,
        }
    }
}

impl Scope {
    /// Whether the surface owns the keyboard.
    pub fn applies(self, context: KeyContext) -> (r: bool)
        ensures
            r == scope_applies(self, context),
    {
        if context.help {
            return self == Scope::Help;
        }
        if context.confirm {
            return self == Scope::Confirm;
        }
        match self {
            Scope::Confirm => false,
            Scope::Help => false,
            Scope::Input => context.purpose.is_some(),
            Scope::Screen => context.purpose.is_none(),
            Scope::Running => context.purpose.is_none() && context.screen == Screen::Running,
            Scope::Done => context.purpose.is_none() && context.screen == Screen::Done,
        }
    }
}

/// One row of the keymap.
#[derive(Clone, Copy, Debug)]
pub struct Binding {
    pub key: Key,
    pub second: Option<Key>,
    pub third: Option<Key>,
    /// How the keys are written, in the footer and in `?`.
    pub keys_label: &'static str,
    pub action: Action,
    /// The footer's wording: one short phrase, because the footer is one line.
    pub label: &'static str,
    /// The `?` panel's wording: what the key does, including where that differs
    /// by screen. Longer than `label`, and never a copy of it.
    pub detail: &'static str,
    pub scope: Scope,
    /// Whether the contextual footer advertises this binding.
    pub hint: bool,
}

/// One row of the keymap.
pub open spec fn row_of(
    key: Key,
    second: Option<Key>,
    third: Option<Key>,
    keys_label: &'static str,
    action: Action,
    label: &'static str,
    detail: &'static str,
    scope: Scope,
    hint: bool,
) -> Binding {
    Binding { key, second, third, keys_label, action, label, detail, scope, hint }
}

/// Builds one keymap row, so the table stays one line per binding.
pub fn row(
    key: Key,
    second: Option<Key>,
    third: Option<Key>,
    keys_label: &'static str,
    action: Action,
    label: &'static str,
    detail: &'static str,
    scope: Scope,
    hint: bool,
) -> (r: Binding)
    ensures
        r == row_of(key, second, third, keys_label, action, label, detail, scope, hint),
{
    Binding { key, second, third, keys_label, action, label, detail, scope, hint }
}

/// The footer never shows more than this many keys.
pub const MAX_HINTS: usize = 5;

/// The whole keymap.
///
/// Order matters twice: dispatch takes the first match, and the footer keeps the
/// first hints, so the most useful keys come first. A row with the character
/// zero means any printable key, and a row with the count zero any digit.
pub open spec fn keymap_rows() -> Seq<Binding> {
    seq![
        row_of(Key::Char('?'), None, None, "?", Action::ToggleHelp, "help", "open this key table", Scope::Screen, false),
        row_of(Key::Esc, None, None, "esc", Action::Back, "back", "close the drill-down, then leave", Scope::Screen, false),
        row_of(Key::Up, Some(Key::Char('k')), None, "\u{2191}/k", Action::ScrollUp, "up", "move up one row", Scope::Screen, false),
        row_of(Key::Down, Some(Key::Char('j')), None, "\u{2193}/j", Action::ScrollDown, "down", "move down one row", Scope::Screen, false),
        row_of(Key::PageUp, None, None, "pgup", Action::PageUp, "page up", "move up one page", Scope::Screen, false),
        row_of(Key::PageDown, None, None, "pgdn", Action::PageDown, "page down", "move down one page", Scope::Screen, false),
        row_of(Key::Char('g'), None, None, "gg/{n}G", Action::PrefixG, "top / row n", "top of the list, or row n", Scope::Screen, false),
        row_of(Key::Char('G'), None, None, "G", Action::GotoBottom, "bottom", "bottom of the list", Scope::Screen, false),
        row_of(Key::Digit, None, None, "1-9", Action::Count(0), "then G: row n", "digits, then G: go to that row", Scope::Screen, false),
        row_of(Key::Char('p'), None, None, "p", Action::PauseToggle, "pause", "pause or resume probing", Scope::Running, true),
        row_of(Key::Char('c'), None, None, "c", Action::CancelRun, "cancel", "cancel the run, after asking", Scope::Running, true),
        row_of(Key::Char('s'), None, None, "s", Action::SortCycle, "sort", "cycle the sort key", Scope::Screen, true),
        row_of(Key::Char('/'), None, None, "/", Action::EditFilter, "filter", "live-filter rows (smart-case); Esc restores", Scope::Screen, true),
        row_of(Key::Char('e'), None, None, "e", Action::Export, "export", "export the visible rows", Scope::Screen, true),
        row_of(Key::Char('d'), None, None, "d", Action::ToggleDetail, "detail", "open or close the drill-down", Scope::Screen, true),
        row_of(Key::Enter, None, None, "enter", Action::DrillIn, "open", "open the drill-down", Scope::Screen, false),
        row_of(Key::Char('S'), None, None, "S", Action::OrderToggle, "order", "reverse the sort order", Scope::Screen, false),
        row_of(Key::Char('x'), None, None, "x", Action::ClearFilter, "clear filter", "clear the filter", Scope::Screen, false),
        row_of(Key::Char('r'), None, None, "r", Action::Rerun, "re-run", "run again with the same options", Scope::Done, true),
        row_of(Key::Enter, None, None, "enter", Action::Submit, "submit", "submit the prompt", Scope::Input, false),
        row_of(Key::Up, None, None, "up", Action::ScrollUp, "up", "choose the previous export format", Scope::Input, false),
        row_of(Key::Down, None, None, "down", Action::ScrollDown, "down", "choose the next export format", Scope::Input, false),
        row_of(Key::Esc, None, None, "esc", Action::Cancel, "cancel", "abandon the prompt", Scope::Input, true),
        row_of(Key::Backspace, None, None, "backspace", Action::Backspace, "delete", "delete one character", Scope::Input, false),
        row_of(Key::Printable, None, None, "text", Action::Text('\0'), "type", "type text; digits type here too", Scope::Input, false),
        row_of(Key::Char('y'), Some(Key::Char('Y')), None, "y", Action::ConfirmYes, "yes", "yes, go ahead", Scope::Confirm, true),
        row_of(Key::Char('n'), Some(Key::Char('N')), None, "n", Action::ConfirmNo, "no", "no; any other key declines", Scope::Confirm, true),
        row_of(Key::Esc, Some(Key::Char('?')), None, "esc", Action::ToggleHelp, "close", "close this help", Scope::Help, true),
        row_of(Key::Down, Some(Key::Char('j')), Some(Key::PageDown), "\u{2193}/j", Action::ScrollDown, "scroll", "scroll down", Scope::Help, true),
        row_of(Key::Up, Some(Key::Char('k')), Some(Key::PageUp), "\u{2191}/k", Action::ScrollUp, "scroll", "scroll back up", Scope::Help, false),
    ]
}

/// The whole keymap.
pub fn keymap() -> (v: Vec<Binding>)
    ensures
        v@ == keymap_rows(),
{
    let v = vec![
        row(Key::Char('?'), None, None, "?", Action::ToggleHelp, "help", "open this key table", Scope::Screen, false),
        row(Key::Esc, None, None, "esc", Action::Back, "back", "close the drill-down, then leave", Scope::Screen, false),
        row(Key::Up, Some(Key::Char('k')), None, "\u{2191}/k", Action::ScrollUp, "up", "move up one row", Scope::Screen, false),
        row(Key::Down, Some(Key::Char('j')), None, "\u{2193}/j", Action::ScrollDown, "down", "move down one row", Scope::Screen, false),
        row(Key::PageUp, None, None, "pgup", Action::PageUp, "page up", "move up one page", Scope::Screen, false),
        row(Key::PageDown, None, None, "pgdn", Action::PageDown, "page down", "move down one page", Scope::Screen, false),
        row(Key::Char('g'), None, None, "gg/{n}G", Action::PrefixG, "top / row n", "top of the list, or row n", Scope::Screen, false),
        row(Key::Char('G'), None, None, "G", Action::GotoBottom, "bottom", "bottom of the list", Scope::Screen, false),
        row(Key::Digit, None, None, "1-9", Action::Count(0), "then G: row n", "digits, then G: go to that row", Scope::Screen, false),
        row(Key::Char('p'), None, None, "p", Action::PauseToggle, "pause", "pause or resume probing", Scope::Running, true),
        row(Key::Char('c'), None, None, "c", Action::CancelRun, "cancel", "cancel the run, after asking", Scope::Running, true),
        row(Key::Char('s'), None, None, "s", Action::SortCycle, "sort", "cycle the sort key", Scope::Screen, true),
        row(Key::Char('/'), None, None, "/", Action::EditFilter, "filter", "live-filter rows (smart-case); Esc restores", Scope::Screen, true),
        row(Key::Char('e'), None, None, "e", Action::Export, "export", "export the visible rows", Scope::Screen, true),
        row(Key::Char('d'), None, None, "d", Action::ToggleDetail, "detail", "open or close the drill-down", Scope::Screen, true),
        row(Key::Enter, None, None, "enter", Action::DrillIn, "open", "open the drill-down", Scope::Screen, false),
        row(Key::Char('S'), None, None, "S", Action::OrderToggle, "order", "reverse the sort order", Scope::Screen, false),
        row(Key::Char('x'), None, None, "x", Action::ClearFilter, "clear filter", "clear the filter", Scope::Screen, false),
        row(Key::Char('r'), None, None, "r", Action::Rerun, "re-run", "run again with the same options", Scope::Done, true),
        row(Key::Enter, None, None, "enter", Action::Submit, "submit", "submit the prompt", Scope::Input, false),
        row(Key::Up, None, None, "up", Action::ScrollUp, "up", "choose the previous export format", Scope::Input, false),
        row(Key::Down, None, None, "down", Action::ScrollDown, "down", "choose the next export format", Scope::Input, false),
        row(Key::Esc, None, None, "esc", Action::Cancel, "cancel", "abandon the prompt", Scope::Input, true),
        row(Key::Backspace, None, None, "backspace", Action::Backspace, "delete", "delete one character", Scope::Input, false),
        row(Key::Printable, None, None, "text", Action::Text('\0'), "type", "type text; digits type here too", Scope::Input, false),
        row(Key::Char('y'), Some(Key::Char('Y')), None, "y", Action::ConfirmYes, "yes", "yes, go ahead", Scope::Confirm, true),
        row(Key::Char('n'), Some(Key::Char('N')), None, "n", Action::ConfirmNo, "no", "no; any other key declines", Scope::Confirm, true),
        row(Key::Esc, Some(Key::Char('?')), None, "esc", Action::ToggleHelp, "close", "close this help", Scope::Help, true),
        row(Key::Down, Some(Key::Char('j')), Some(Key::PageDown), "\u{2193}/j", Action::ScrollDown, "scroll", "scroll down", Scope::Help, true),
        row(Key::Up, Some(Key::Char('k')), Some(Key::PageUp), "\u{2191}/k", Action::ScrollUp, "scroll", "scroll back up", Scope::Help, false),
    ];
    assert(v@ =~= keymap_rows());
    v
}

/// Facts the `?` panel states that have no key of their own.
pub open spec fn help_note_texts() -> Seq<Seq<char>> {
    seq![
        "Row numbers follow the view, not the run."@,
        "The filter is smart-case: lowercase ignores case."@,
        "The mouse scrolls and clicks; Shift selects text."@,
        "Every flag you passed still configures the run."@,
        "Judge health shows only when a judge is down."@,
        "Ctrl+C cancels, then exits on the next press."@,
    ]
}

/// Facts the `?` panel states that have no key of their own.
pub fn help_notes() -> (v: Vec<&'static str>)
    ensures
        v@.len() == 6,
        forall|i: int| 0 <= i < 6 ==> (#[trigger] v@[i])@ == help_note_texts()[i],
{
    vec![
        "Row numbers follow the view, not the run.",
        "The filter is smart-case: lowercase ignores case.",
        "The mouse scrolls and clicks; Shift selects text.",
        "Every flag you passed still configures the run.",
        "Judge health shows only when a judge is down.",
        "Ctrl+C cancels, then exits on the next press.",
    ]
}

/// A key that a terminal reports.
#[derive(Clone, Copy, Debug, PartialEq, Eq, Structural)]
pub enum KeyCode {
    Char(char),
    Up,
    Down,
    PageUp,
    PageDown,
    Enter,
    Esc,
    Backspace,
    /// Any other key.
    Other,
}

/// A key event that a terminal reports.
#[derive(Clone, Copy, Debug, PartialEq, Eq, Structural)]
pub struct KeyEvent {
    pub code: KeyCode,
    /// Whether the key went down, rather than up or on.
    pub press: bool,
    pub control: bool,
    /// Whether a modifier is held that no binding uses.
    pub foreign: bool,
}

/// Whether a character is a control character.
pub open spec fn is_control(c: char) -> bool {
    (c as u32) < 0x20 || 0x7f <= (c as u32) <= 0x9f
}

/// The table key of a terminal event, where the table claims it. Only presses
/// are actions.
pub open spec fn key_of(event: KeyEvent) -> Option<Key> {
    if !event.press {
        None
    } else if event.control {
        match event.code {
            KeyCode::Char(c) => Some(Key::Ctrl(crate::text::lower(c))),
            _ => None,
        }
    } else if event.foreign {
        None
    } else {
        match event.code {
            KeyCode::Char(c) => if is_control(c) {
                None
            } else {
                Some(Key::Char(c))
            },
            KeyCode::Up => Some(Key::Up),
            KeyCode::Down => Some(Key::Down),
            KeyCode::PageUp => Some(Key::PageUp),
            KeyCode::PageDown => Some(Key::PageDown),
            KeyCode::Enter => Some(Key::Enter),
            KeyCode::Esc => Some(Key::Esc),
            KeyCode::Backspace => Some(Key::Backspace),
            KeyCode::Other => None,
        }
    }
}

/// Normalizes a terminal event into a table key, or `None` when the key is one
/// the table never claims.
pub fn resolve_key(event: KeyEvent) -> (r: Option<Key>)
    ensures
        r == key_of(event),
{
    if !event.press {
        return None;
    }
    if event.control {
        return match event.code {
            KeyCode::Char(c) => Some(Key::Ctrl(crate::text::lower_char(c))),
            _ => None,
        };
    }
    if event.foreign {
        return None;
    }
    match event.code {
        KeyCode::Char(c) => {
            let u: u32 = c as u32;
            if u < 0x20 || (0x7f <= u && u <= 0x9f) {
                None
            } else {
                Some(Key::Char(c))
            }
        },
        KeyCode::Up => Some(Key::Up),
        KeyCode::Down => Some(Key::Down),
        KeyCode::PageUp => Some(Key::PageUp),
        KeyCode::PageDown => Some(Key::PageDown),
        KeyCode::Enter => Some(Key::Enter),
        KeyCode::Esc => Some(Key::Esc),
        KeyCode::Backspace => Some(Key::Backspace),
        KeyCode::Other => None,
    }
}

/// Whether a key of the table stands for a pressed one.
pub open spec fn key_matches(candidate: Key, pressed: Key) -> bool {
    match candidate {
        Key::Printable => pressed is Char,
        Key::Digit => pressed matches Key::Char(c) && is_digit(c),
        other => other == pressed,
    }
}

/// Whether a row claims a pressed key.
pub open spec fn row_matches(b: Binding, pressed: Key) -> bool {
    ||| key_matches(b.key, pressed)
    ||| b.second matches Some(k) && key_matches(k, pressed)
    ||| b.third matches Some(k) && key_matches(k, pressed)
}

fn stands_for(candidate: Key, pressed: Key) -> (r: bool)
    ensures
        r == key_matches(candidate, pressed),
{
    match candidate {
        Key::Printable => match pressed {
            Key::Char(_) => true,
            _ => false,
        },
        Key::Digit => match pressed {
            Key::Char(c) => is_ascii_digit(c),
            _ => false,
        },
        other => other == pressed,
    }
}

/// Whether a row claims a pressed key.
pub fn matches(binding: &Binding, pressed: Key) -> (r: bool)
    ensures
        r == row_matches(*binding, pressed),
{
    if stands_for(binding.key, pressed) {
        return true;
    }
    if let Some(k) = binding.second {
        if stands_for(k, pressed) {
            return true;
        }
    }
    match binding.third {
        Some(k) => stands_for(k, pressed),
        None => false,
    }
}

/// The digit that a press is, where it is one.
pub open spec fn pressed_digit(pressed: Key) -> Option<u8> {
    match pressed {
        Key::Char(c) => if is_digit(c) {
            Some((c as u32 - 48) as u8)
        } else {
            None
        },
        _ => None,
    }
}

/// The digit a press represents, when it is one.
pub fn digit_of(pressed: Key) -> (r: Option<u8>)
    ensures
        r == pressed_digit(pressed),
{
    match pressed {
        Key::Char(c) => if is_ascii_digit(c) {
            Some((c as u32 - 48) as u8)
        } else {
            None
        },
        _ => None,
    }
}

/// The first of some rows on an active surface that claims a key.
pub open spec fn first_binding(rows: Seq<Binding>, pressed: Key, context: KeyContext) -> Option<
    Binding,
>
    decreases rows.len(),
{
    if rows.len() == 0 {
        None
    } else if scope_applies(rows[0].scope, context) && row_matches(rows[0], pressed) {
        Some(rows[0])
    } else {
        first_binding(rows.drop_first(), pressed, context)
    }
}

/// The first binding on an active surface that claims this key.
pub fn binding_for(pressed: Key, context: KeyContext) -> (r: Option<Binding>)
    ensures
        r == first_binding(keymap_rows(), pressed, context),
{
    let rows = keymap();
    let mut i: usize = 0;
    assert(rows@.skip(0) =~= rows@);
    while i < rows.len()
        invariant
            i <= rows.len(),
            rows@ == keymap_rows(),
            first_binding(rows@.skip(i as int), pressed, context) == first_binding(
                keymap_rows(),
                pressed,
                context,
            ),
        decreases rows.len() - i,
    {
        assert(rows@.skip(i as int)[0] == rows@[i as int]);
        assert(rows@.skip(i as int).drop_first() =~= rows@.skip(i + 1));
        if rows[i].scope.applies(context) && matches(&rows[i], pressed) {
            return Some(rows[i]);
        }
        i += 1;
    }
    None
}

/// What a row asks for, where a key of some kind was pressed: rows that mean
/// "any key of this kind" carry the key itself.
pub open spec fn carried(action: Action, pressed: Key) -> Option<Action> {
    if action == Action::Text('\0') {
        match pressed {
            Key::Char(c) => Some(Action::Text(c)),
            _ => None,
        }
    } else if action == Action::Count(0) {
        match pressed_digit(pressed) {
            Some(d) => Some(Action::Count(d)),
            None => None,
        }
    } else {
        Some(action)
    }
}

/// The intent of a pressed table key.
pub open spec fn intent(pressed: Key, context: KeyContext) -> Option<Action> {
    if pressed == Key::Ctrl('c') {
        Some(Action::Interrupt)
    } else if context.confirm {
        if pressed == Key::Char('y') || pressed == Key::Char('Y') {
            Some(Action::ConfirmYes)
        } else {
            Some(Action::ConfirmNo)
        }
    } else if context.help {
        match first_binding(keymap_rows(), pressed, context) {
            Some(b) => Some(b.action),
            None => Some(Action::ToggleHelp),
        }
    } else if context.count is Some && pressed == Key::Char('G') {
        Some(Action::GotoCount)
    } else if context.pending_g && pressed == Key::Char('g') {
        if context.count is Some {
            Some(Action::GotoCount)
        } else {
            Some(Action::GotoTop)
        }
    } else {
        match first_binding(keymap_rows(), pressed, context) {
            Some(b) => carried(b.action, pressed),
            None => None,
        }
    }
}

/// The intent of a key event.
pub open spec fn event_intent(event: KeyEvent, context: KeyContext) -> Option<Action> {
    match key_of(event) {
        Some(pressed) => intent(pressed, context),
        None => None,
    }
}

/// Maps a key press to an intent, or `None` when the key is unbound.
pub fn action_for(event: KeyEvent, context: KeyContext) -> (r: Option<Action>)
    ensures
        r == event_intent(event, context),
{
    let pressed = match resolve_key(event) {
        Some(pressed) => pressed,
        None => {
            return None;
        },
    };
    // Ctrl+C is reserved for the interrupt path on every surface, so a prompt
    // can never swallow it and no binding can repurpose it.
    if pressed == Key::Ctrl('c') {
        return Some(Action::Interrupt);
    }
    if context.confirm {
        // Default No: only an explicit `y` goes ahead.
        return if pressed == Key::Char('y') || pressed == Key::Char('Y') {
            Some(Action::ConfirmYes)
        } else {
            Some(Action::ConfirmNo)
        };
    }
    if context.help {
        // Scrolling is bound; anything else dismisses, so the panel can never
        // trap someone who does not know the way out.
        return match binding_for(pressed, context) {
            Some(b) => Some(b.action),
            None => Some(Action::ToggleHelp),
        };
    }
    // A count in front of `G` (or `gg`) turns "go to the bottom" into "go to
    // that row".
    let has_count = context.count.is_some();
    if has_count && pressed == Key::Char('G') {
        return Some(Action::GotoCount);
    }
    // `gg` is the one binding that needs the previous press to be remembered.
    if context.pending_g && pressed == Key::Char('g') {
        return if has_count {
            Some(Action::GotoCount)
        } else {
            Some(Action::GotoTop)
        };
    }
    match binding_for(pressed, context) {
        Some(b) => {
            if b.action == Action::Text('\0') {
                match pressed {
                    Key::Char(c) => Some(Action::Text(c)),
                    _ => None,
                }
            } else if b.action == Action::Count(0) {
                match digit_of(pressed) {
                    Some(d) => Some(Action::Count(d)),
                    None => None,
                }
            } else {
                Some(b.action)
            }
        },
        None => None,
    }
}

/// The rows that the footer could advertise on the active surface.
pub open spec fn hint_rows(rows: Seq<Binding>, context: KeyContext) -> Seq<Binding> {
    rows.filter(|b: Binding| b.hint && scope_applies(b.scope, context))
}

/// The footer hints: keys and wording of the first rows that are advertised;
/// none while a count is being typed.
pub open spec fn footer(context: KeyContext) -> Seq<Binding> {
    let all = hint_rows(keymap_rows(), context);
    if context.count is Some {
        Seq::empty()
    } else if all.len() > MAX_HINTS {
        all.take(MAX_HINTS as int)
    } else {
        all
    }
}

/// Contextual footer hints: at most `MAX_HINTS` keys for the current surface.
///
/// A half-typed count takes the line over: the digits and what finishes them
/// are the only thing the user needs to see right now. A bare `g` keeps the
/// usual hints, so `gg` does not blank the footer while it waits.
pub fn hints(context: KeyContext) -> (r: Vec<(&'static str, &'static str)>)
    ensures
        r@.len() == footer(context).len(),
        forall|i: int|
            0 <= i < r@.len() ==> (#[trigger] r@[i]).0@ == footer(context)[i].keys_label@
                && r@[i].1@ == footer(context)[i].label@,
{
    let mut r: Vec<(&'static str, &'static str)> = Vec::new();
    if context.count.is_some() {
        return r;
    }
    let rows = keymap();
    let ghost all = hint_rows(keymap_rows(), context);
    let mut i: usize = 0;
    proof {
        assert(rows@.take(0) =~= Seq::<Binding>::empty());
        reveal(Seq::filter);
    }
    while i < rows.len() && r.len() < MAX_HINTS
        invariant
            i <= rows.len(),
            rows@ == keymap_rows(),
            r@.len() <= MAX_HINTS,
            r@.len() == hint_rows(rows@.take(i as int), context).len(),
            forall|j: int|
                0 <= j < r@.len() ==> (#[trigger] r@[j]).0@ == hint_rows(
                    rows@.take(i as int),
                    context,
                )[j].keys_label@ && r@[j].1@ == hint_rows(rows@.take(i as int), context)[j].label@,
        decreases rows.len() - i,
    {
        let ghost f = |b: Binding| b.hint && scope_applies(b.scope, context);
        proof {
            reveal(Seq::filter);
            let next = rows@.take(i + 1);
            assert(next.drop_last() =~= rows@.take(i as int));
            assert(next.last() == rows@[i as int]);
        }
        if rows[i].hint && rows[i].scope.applies(context) {
            r.push((rows[i].keys_label, rows[i].label));
        }
        i += 1;
    }
    proof {
        lemma_filter_prefix(rows@, context, i as int);
        assert(rows@.take(rows@.len() as int) =~= rows@);
    }
    r
}

/// What is advertised of the first rows comes first of what is advertised.
proof fn lemma_filter_prefix(rows: Seq<Binding>, context: KeyContext, i: int)
    requires
        0 <= i <= rows.len(),
    ensures
        hint_rows(rows.take(i), context).len() <= hint_rows(rows, context).len(),
        forall|j: int|
            0 <= j < hint_rows(rows.take(i), context).len() ==> hint_rows(rows.take(i), context)[j]
                == #[trigger] hint_rows(rows, context)[j],
    decreases rows.len() - i,
{
    if i == rows.len() {
        assert(rows.take(i) =~= rows);
    } else {
        lemma_filter_prefix(rows, context, i + 1);
        reveal(Seq::filter);
        let next = rows.take(i + 1);
        assert(next.drop_last() =~= rows.take(i));
        let a = hint_rows(rows.take(i), context);
        let b = hint_rows(next, context);
        assert(b == a || b == a.push(next.last()));
        assert forall|j: int| 0 <= j < a.len() implies a[j] == #[trigger] hint_rows(
            rows,
            context,
        )[j] by {
            assert(b[j] == a[j]);
        }
    }
}

/// The count being typed, with the key that completes it.
///
/// Discoverability for a typed sequence has to be immediate: the footer is
/// where the user is already looking.
pub fn count_hint(context: KeyContext) -> (r: Option<(String, &'static str)>)
    ensures
        match context.count {
            Some(n) => r matches Some((digits, label)) && digits@ == decimal(n as nat) && label@
                == "G go to row"@,
            None => r is None,
        },
{
    match context.count {
        Some(n) => Some((to_decimal(n as u64), "G go to row")),
        None => None,
    }
}

/// The surfaces `?` documents, in the order it lists them: the title, and the
/// name of the scope.
pub open spec fn help_group_texts() -> Seq<(Seq<char>, Seq<char>)> {
    seq![
        ("both screens"@, "screen"@),
        ("while running"@, "running"@),
        ("when done"@, "done"@),
        ("in a prompt"@, "input"@),
        ("in a confirmation"@, "confirm"@),
        ("in this help"@, "help"@),
    ]
}

/// The surfaces `?` documents, in the order it lists them.
///
/// Titled by where they apply, not by an internal scope name: a reader wants
/// to know which keys work right now, and "both screens" is the honest answer
/// for the keys that are not tied to one.
pub fn help_groups() -> (v: Vec<(&'static str, &'static str)>)
    ensures
        v@.len() == 6,
        forall|i: int|
            0 <= i < 6 ==> (#[trigger] v@[i]).0@ == help_group_texts()[i].0 && v@[i].1@
                == help_group_texts()[i].1,
{
    vec![
        ("both screens", "screen"),
        ("while running", "running"),
        ("when done", "done"),
        ("in a prompt", "input"),
        ("in a confirmation", "confirm"),
        ("in this help", "help"),
    ]
}

/// The surface that a name stands for.
pub open spec fn named_scope(name: Seq<char>) -> Option<Scope> {
    if name == "screen"@ {
        Some(Scope::Screen)
    } else if name == "running"@ {
        Some(Scope::Running)
    } else if name == "done"@ {
        Some(Scope::Done)
    } else if name == "input"@ {
        Some(Scope::Input)
    } else if name == "confirm"@ {
        Some(Scope::Confirm)
    } else if name == "help"@ {
        Some(Scope::Help)
    } else {
        None
    }
}

/// The surface that a name stands for.
pub fn scope_of(scope_name: &str) -> (r: Option<Scope>)
    ensures
        r == named_scope(scope_name@),
{
    if same(scope_name, "screen") {
        Some(Scope::Screen)
    } else if same(scope_name, "running") {
        Some(Scope::Running)
    } else if same(scope_name, "done") {
        Some(Scope::Done)
    } else if same(scope_name, "input") {
        Some(Scope::Input)
    } else if same(scope_name, "confirm") {
        Some(Scope::Confirm)
    } else if same(scope_name, "help") {
        Some(Scope::Help)
    } else {
        None
    }
}

/// The rows of the keymap on a surface.
pub open spec fn rows_on(rows: Seq<Binding>, scope: Scope) -> Seq<Binding> {
    rows.filter(|b: Binding| b.scope == scope)
}

/// Every binding on one named surface, as `?` prints it.
pub fn bindings_on(scope_name: &str) -> (r: Vec<(&'static str, &'static str)>)
    ensures
        match named_scope(scope_name@) {
            Some(scope) => r@.len() == rows_on(keymap_rows(), scope).len() && forall|i: int|
                0 <= i < r@.len() ==> (#[trigger] r@[i]).0@ == rows_on(
                    keymap_rows(),
                    scope,
                )[i].keys_label@ && r@[i].1@ == rows_on(keymap_rows(), scope)[i].detail@,
            None => r@.len() == 0,
        },
{
    let mut r: Vec<(&'static str, &'static str)> = Vec::new();
    let scope = match scope_of(scope_name) {
        Some(scope) => scope,
        None => {
            return r;
        },
    };
    let rows = keymap();
    let mut i: usize = 0;
    proof {
        assert(rows@.take(0) =~= Seq::<Binding>::empty());
        reveal(Seq::filter);
    }
    while i < rows.len()
        invariant
            i <= rows.len(),
            rows@ == keymap_rows(),
            r@.len() == rows_on(rows@.take(i as int), scope).len(),
            forall|j: int|
                0 <= j < r@.len() ==> (#[trigger] r@[j]).0@ == rows_on(
                    rows@.take(i as int),
                    scope,
                )[j].keys_label@ && r@[j].1@ == rows_on(rows@.take(i as int), scope)[j].detail@,
        decreases rows.len() - i,
    {
        proof {
            reveal(Seq::filter);
            let next = rows@.take(i + 1);
            assert(next.drop_last() =~= rows@.take(i as int));
            assert(next.last() == rows@[i as int]);
        }
        if rows[i].scope == scope {
            r.push((rows[i].keys_label, rows[i].detail));
        }
        i += 1;
    }
    assert(rows@.take(rows@.len() as int) =~= rows@);
    r
}

// ---------------------------------------------------------------------------
// Laws
// ---------------------------------------------------------------------------

/// Ctrl+C interrupts whatever owns the keyboard.
pub proof fn ctrl_c_always_interrupts(context: KeyContext)
    ensures
        intent(Key::Ctrl('c'), context) == Some(Action::Interrupt),
{
}

/// A confirmation goes ahead on an explicit yes only, and every other key is
/// an answer too.
pub proof fn only_yes_confirms(pressed: Key, context: KeyContext)
    requires
        context.confirm,
        pressed != Key::Ctrl('c'),
    ensures
        intent(pressed, context) is Some,
        intent(pressed, context) == Some(Action::ConfirmYes) <==> (pressed == Key::Char('y')
            || pressed == Key::Char('Y')),
{
}

/// A binding that claims a key belongs to a surface that owns the keyboard,
/// and to the keymap.
pub proof fn bindings_stay_on_their_surface(
    rows: Seq<Binding>,
    pressed: Key,
    context: KeyContext,
)
    ensures
        first_binding(rows, pressed, context) matches Some(b) ==> scope_applies(b.scope, context)
            && row_matches(b, pressed) && rows.contains(b),
    decreases rows.len(),
{
    if rows.len() > 0 {
        bindings_stay_on_their_surface(rows.drop_first(), pressed, context);
        if let Some(b) = first_binding(rows.drop_first(), pressed, context) {
            let rest = rows.drop_first();
            let i = choose|i: int| 0 <= i < rest.len() && rest[i] == b;
            assert(rows[i + 1] == b);
        }
        assert(rows.contains(rows[0]));
    }
}

/// The help panel never traps anyone: every key scrolls it or closes it.
pub proof fn help_is_no_trap(pressed: Key, context: KeyContext)
    requires
        context.help,
        !context.confirm,
        pressed != Key::Ctrl('c'),
    ensures
        ({
            let r = intent(pressed, context);
            r == Some(Action::ToggleHelp) || r == Some(Action::ScrollDown) || r == Some(
                Action::ScrollUp,
            )
        }),
{
    bindings_stay_on_their_surface(keymap_rows(), pressed, context);
    assert forall|i: int| 0 <= i < keymap_rows().len() && (#[trigger] keymap_rows()[i]).scope
        == Scope::Help implies keymap_rows()[i].action == Action::ToggleHelp
        || keymap_rows()[i].action == Action::ScrollDown || keymap_rows()[i].action
        == Action::ScrollUp by {}
}

/// The footer shows no more keys than fit, all of them on surfaces that own
/// the keyboard.
pub proof fn footer_is_short_and_true(context: KeyContext, i: int)
    requires
        0 <= i < footer(context).len(),
    ensures
        footer(context).len() <= MAX_HINTS,
        footer(context)[i].hint,
        scope_applies(footer(context)[i].scope, context),
{
    let all = hint_rows(keymap_rows(), context);
    let f = |b: Binding| b.hint && scope_applies(b.scope, context);
    keymap_rows().filter_lemma(f);
    assert(f(all[i]));
}

/// Help owns the keyboard before a question, that before a prompt, and each
/// surface has the keys to itself; the keys of one screen do nothing on the
/// other.
pub proof fn surfaces_take_turns(context: KeyContext)
    ensures
        scope_applies(Scope::Help, context) <==> context.help,
        scope_applies(Scope::Confirm, context) <==> context.confirm && !context.help,
        scope_applies(Scope::Input, context) <==> context.purpose is Some && !context.confirm
            && !context.help,
        scope_applies(Scope::Screen, context) <==> context.purpose is None && !context.confirm
            && !context.help,
        scope_applies(Scope::Running, context) <==> scope_applies(Scope::Screen, context)
            && context.screen is Running,
        scope_applies(Scope::Done, context) <==> scope_applies(Scope::Screen, context)
            && context.screen is Done,
{
}

/// The first row of the table that claims a key on an active surface is the one
/// that counts, and none does only where no row claims it.
pub proof fn the_first_claim_counts(rows: Seq<Binding>, pressed: Key, context: KeyContext, i: int)
    requires
        forall|j: int|
            0 <= j < i && j < rows.len() ==> !(scope_applies((#[trigger] rows[j]).scope, context)
                && row_matches(rows[j], pressed)),
        0 <= i <= rows.len(),
        i < rows.len() ==> scope_applies(rows[i].scope, context) && row_matches(rows[i], pressed),
    ensures
        first_binding(rows, pressed, context) == (if i < rows.len() {
            Some(rows[i])
        } else {
            None
        }),
    decreases rows.len(),
{
    if rows.len() > 0 && i > 0 {
        let rest = rows.drop_first();
        assert forall|j: int| 0 <= j < i - 1 && j < rest.len() implies !(scope_applies(
            (#[trigger] rest[j]).scope,
            context,
        ) && row_matches(rest[j], pressed)) by {
            assert(rest[j] == rows[j + 1]);
        }
        the_first_claim_counts(rest, pressed, context, i - 1);
        if i < rows.len() {
            assert(rest[i - 1] == rows[i]);
        }
    }
}

/// Whether the list has the keyboard, with no half-typed command.
pub open spec fn on_the_list(context: KeyContext) -> bool {
    !context.help && !context.confirm && context.purpose is None && !context.pending_g
        && context.count is None
}

proof fn lemma_claimed(pressed: Key, context: KeyContext, i: int)
    requires
        0 <= i <= keymap_rows().len(),
        i < keymap_rows().len() ==> scope_applies(keymap_rows()[i].scope, context) && row_matches(
            keymap_rows()[i],
            pressed,
        ),
        forall|j: int|
            0 <= j < i && j < keymap_rows().len() ==> !(scope_applies(
                (#[trigger] keymap_rows()[j]).scope,
                context,
            ) && row_matches(keymap_rows()[j], pressed)),
    ensures
        first_binding(keymap_rows(), pressed, context) == (if i < keymap_rows().len() {
            Some(keymap_rows()[i])
        } else {
            None
        }),
{
    the_first_claim_counts(keymap_rows(), pressed, context, i);
}

/// The keys that move about the list.
pub proof fn movement_keys_move(context: KeyContext)
    requires
        on_the_list(context),
    ensures
        intent(Key::Up, context) == Some(Action::ScrollUp),
        intent(Key::Char('k'), context) == Some(Action::ScrollUp),
        intent(Key::Down, context) == Some(Action::ScrollDown),
        intent(Key::Char('j'), context) == Some(Action::ScrollDown),
        intent(Key::PageUp, context) == Some(Action::PageUp),
        intent(Key::PageDown, context) == Some(Action::PageDown),
        intent(Key::Char('g'), context) == Some(Action::PrefixG),
        intent(Key::Char('G'), context) == Some(Action::GotoBottom),
        intent(Key::Esc, context) == Some(Action::Back),
        intent(Key::Enter, context) == Some(Action::DrillIn),
{
    lemma_claimed(Key::Up, context, 2);
    lemma_claimed(Key::Char('k'), context, 2);
    lemma_claimed(Key::Down, context, 3);
    lemma_claimed(Key::Char('j'), context, 3);
    lemma_claimed(Key::PageUp, context, 4);
    lemma_claimed(Key::PageDown, context, 5);
    lemma_claimed(Key::Char('g'), context, 6);
    lemma_claimed(Key::Char('G'), context, 7);
    lemma_claimed(Key::Esc, context, 1);
    lemma_claimed(Key::Enter, context, 15);
}

/// The keys that act on the list and on the run.
pub proof fn command_keys_command(context: KeyContext)
    requires
        on_the_list(context),
    ensures
        intent(Key::Char('?'), context) == Some(Action::ToggleHelp),
        intent(Key::Char('s'), context) == Some(Action::SortCycle),
        intent(Key::Char('S'), context) == Some(Action::OrderToggle),
        intent(Key::Char('/'), context) == Some(Action::EditFilter),
        intent(Key::Char('x'), context) == Some(Action::ClearFilter),
        intent(Key::Char('e'), context) == Some(Action::Export),
        intent(Key::Char('d'), context) == Some(Action::ToggleDetail),
        context.screen is Running ==> intent(Key::Char('p'), context) == Some(Action::PauseToggle),
        context.screen is Running ==> intent(Key::Char('c'), context) == Some(Action::CancelRun),
        context.screen is Running ==> intent(Key::Char('r'), context) is None,
        context.screen is Done ==> intent(Key::Char('r'), context) == Some(Action::Rerun),
        context.screen is Done ==> intent(Key::Char('p'), context) is None,
        context.screen is Done ==> intent(Key::Char('c'), context) is None,
{
    lemma_claimed(Key::Char('?'), context, 0);
    lemma_claimed(Key::Char('s'), context, 11);
    lemma_claimed(Key::Char('S'), context, 16);
    lemma_claimed(Key::Char('/'), context, 12);
    lemma_claimed(Key::Char('x'), context, 17);
    lemma_claimed(Key::Char('e'), context, 13);
    lemma_claimed(Key::Char('d'), context, 14);
    if context.screen is Running {
        lemma_claimed(Key::Char('p'), context, 9);
        lemma_claimed(Key::Char('c'), context, 10);
        lemma_claimed(Key::Char('r'), context, 30);
    } else {
        lemma_claimed(Key::Char('r'), context, 18);
        lemma_claimed(Key::Char('p'), context, 30);
        lemma_claimed(Key::Char('c'), context, 30);
    }
}

/// A digit on the list counts as itself, and a count or a first `g` gives the
/// next key its meaning: the row, or the top.
pub proof fn numbers_and_prefixes_combine(context: KeyContext, d: u8, n: usize)
    requires
        !context.help,
        !context.confirm,
        context.purpose is None,
        d < 10,
    ensures
        intent(Key::Char((48 + d) as char), context) == Some(Action::Count(d)),
        context.count == Some(n) ==> intent(Key::Char('G'), context) == Some(Action::GotoCount),
        context.count == Some(n) && context.pending_g ==> intent(Key::Char('g'), context) == Some(
            Action::GotoCount,
        ),
        context.count is None && context.pending_g ==> intent(Key::Char('g'), context) == Some(
            Action::GotoTop,
        ),
{
    let c = (48 + d) as char;
    assert(c as u32 == 48 + d);
    assert(is_digit(c));
    lemma_claimed(Key::Char(c), context, 8);
}

/// In a prompt every character is typed as it is, and the keys for submitting,
/// leaving, erasing and choosing do that.
pub proof fn prompts_take_what_is_typed(context: KeyContext, c: char)
    requires
        !context.help,
        !context.confirm,
        context.purpose is Some,
        !context.pending_g,
        context.count is None,
    ensures
        intent(Key::Char(c), context) == Some(Action::Text(c)),
        intent(Key::Enter, context) == Some(Action::Submit),
        intent(Key::Esc, context) == Some(Action::Cancel),
        intent(Key::Backspace, context) == Some(Action::Backspace),
        intent(Key::Up, context) == Some(Action::ScrollUp),
        intent(Key::Down, context) == Some(Action::ScrollDown),
{
    lemma_claimed(Key::Char(c), context, 24);
    lemma_claimed(Key::Enter, context, 19);
    lemma_claimed(Key::Esc, context, 22);
    lemma_claimed(Key::Backspace, context, 23);
    lemma_claimed(Key::Up, context, 20);
    lemma_claimed(Key::Down, context, 21);
}

/// The help panel is left by escape and by its own key, and scrolled by the
/// keys that move.
pub proof fn help_is_scrolled_and_left(context: KeyContext)
    requires
        context.help,
        !context.confirm,
    ensures
        intent(Key::Esc, context) == Some(Action::ToggleHelp),
        intent(Key::Char('?'), context) == Some(Action::ToggleHelp),
        intent(Key::Down, context) == Some(Action::ScrollDown),
        intent(Key::Char('j'), context) == Some(Action::ScrollDown),
        intent(Key::PageDown, context) == Some(Action::ScrollDown),
        intent(Key::Up, context) == Some(Action::ScrollUp),
        intent(Key::Char('k'), context) == Some(Action::ScrollUp),
        intent(Key::PageUp, context) == Some(Action::ScrollUp),
        intent(Key::Char('q'), context) == Some(Action::ToggleHelp),
{
    lemma_claimed(Key::Esc, context, 27);
    lemma_claimed(Key::Char('?'), context, 27);
    lemma_claimed(Key::Down, context, 28);
    lemma_claimed(Key::Char('j'), context, 28);
    lemma_claimed(Key::PageDown, context, 28);
    lemma_claimed(Key::Up, context, 29);
    lemma_claimed(Key::Char('k'), context, 29);
    lemma_claimed(Key::PageUp, context, 29);
    lemma_claimed(Key::Char('q'), context, 30);
}

/// Only a press is an action. With the control key a letter is that letter in
/// lower case, and nothing else is claimed; another modifier takes every key
/// away, and no control character is typed.
pub proof fn presses_become_keys(event: KeyEvent, c: char)
    ensures
        !event.press ==> key_of(event) is None,
        event.press && event.control && event.code == KeyCode::Char(c) ==> key_of(event) == Some(
            Key::Ctrl(
                if 'A' <= c <= 'Z' {
                    (c as u32 + 32) as char
                } else {
                    c
                },
            ),
        ),
        event.press && event.control && !(event.code is Char) ==> key_of(event) is None,
        event.press && !event.control && event.foreign ==> key_of(event) is None,
        event.press && !event.control && !event.foreign && event.code == KeyCode::Char(c) ==> (
        key_of(event) == if (c as u32) < 32 || 127 <= (c as u32) < 160 {
            None
        } else {
            Some(Key::Char(c))
        }),
        event.press && !event.control && !event.foreign ==> {
            &&& event.code is Up ==> key_of(event) == Some(Key::Up)
            &&& event.code is Down ==> key_of(event) == Some(Key::Down)
            &&& event.code is PageUp ==> key_of(event) == Some(Key::PageUp)
            &&& event.code is PageDown ==> key_of(event) == Some(Key::PageDown)
            &&& event.code is Enter ==> key_of(event) == Some(Key::Enter)
            &&& event.code is Esc ==> key_of(event) == Some(Key::Esc)
            &&& event.code is Backspace ==> key_of(event) == Some(Key::Backspace)
            &&& event.code is Other ==> key_of(event) is None
        },
{
}

/// The footer is silent while a number is typed, and otherwise shows the first
/// of the rows that are advertised, five at the most.
pub proof fn footers_show_the_first_hints(context: KeyContext)
    ensures
        context.count is Some ==> footer(context).len() == 0,
        context.count is None ==> footer(context).is_prefix_of(
            hint_rows(keymap_rows(), context),
        ),
        context.count is None && footer(context).len() < 5 ==> footer(context) == hint_rows(
            keymap_rows(),
            context,
        ),
        footer(context).len() <= 5,
{
    let all = hint_rows(keymap_rows(), context);
    assert(all.take(all.len() as int) =~= all);
}

/// Each surface that is documented is found under its name, and under no other.
pub proof fn surfaces_are_found_by_name(name: Seq<char>)
    ensures
        named_scope("screen"@) == Some(Scope::Screen),
        named_scope("running"@) == Some(Scope::Running),
        named_scope("done"@) == Some(Scope::Done),
        named_scope("input"@) == Some(Scope::Input),
        named_scope("confirm"@) == Some(Scope::Confirm),
        named_scope("help"@) == Some(Scope::Help),
        name.len() < 4 || name.len() > 7 ==> named_scope(name) is None,
        forall|i: int|
            0 <= i < help_group_texts().len() ==> named_scope(
                (#[trigger] help_group_texts()[i]).1,
            ) is Some,
{
    reveal_strlit("screen");
    reveal_strlit("running");
    reveal_strlit("done");
    reveal_strlit("input");
    reveal_strlit("confirm");
    reveal_strlit("help");
    assert("done"@[0] != "help"@[0]);
    assert("running"@[0] != "confirm"@[0]);
    assert("input"@.len() == 5 && "screen"@.len() == 6 && "running"@.len() == 7 && "done"@.len() == 4
        && "confirm"@.len() == 7 && "help"@.len() == 4);
}

} // verus!
