//! The keys of the workbench and what they mean.

use flx::tui::event::{
    action_for, binding_for, bindings_on, count_hint, digit_of, help_groups, help_notes, hints, keymap,
    resolve_key, scope_of, Action, InputPurpose, Key, KeyCode, KeyContext, KeyEvent, Scope,
    Screen, MAX_HINTS,
};


fn key(code: KeyCode) -> KeyEvent {
    KeyEvent {
        code,
        press: true,
        control: false,
        foreign: false,
    }
}

fn context(screen: Screen) -> KeyContext {
    KeyContext {
        screen,
        purpose: None,
        help: false,
        confirm: false,
        pending_g: false,
        count: None,
    }
}

fn typing(purpose: InputPurpose) -> KeyContext {
    KeyContext {
        purpose: Some(purpose),
        ..context(Screen::Running)
    }
}

fn reading_help() -> KeyContext {
    KeyContext {
        help: true,
        ..context(Screen::Done)
    }
}

#[test]
fn ctrl_c_interrupts_whatever_owns_the_keyboard() {
    let ctrl_c = KeyEvent {
            code: KeyCode::Char('c'),
            press: true,
            control: true,
            foreign: false,
        };
    for context in [
        context(Screen::Running),
        context(Screen::Done),
        typing(InputPurpose::Filter),
        reading_help(),
    ] {
        assert_eq!(
            action_for(ctrl_c, context),
            Some(Action::Interrupt),
            "Ctrl+C must stay the interrupt path"
        );
    }
}

#[test]
fn typing_takes_over_when_an_input_is_active() {
    let active = typing(InputPurpose::Filter);
    assert_eq!(
        action_for(key(KeyCode::Char('p')), active),
        Some(Action::Text('p')),
        "printable aliases yield to a focused prompt"
    );
    assert_eq!(
        action_for(key(KeyCode::Enter), active),
        Some(Action::Submit)
    );
    assert_eq!(action_for(key(KeyCode::Esc), active), Some(Action::Cancel));
    assert_eq!(
        action_for(key(KeyCode::Backspace), active),
        Some(Action::Backspace)
    );
}

#[test]
fn browsing_keys_are_bound_on_the_done_screen() {
    assert_eq!(
        action_for(key(KeyCode::Char('s')), context(Screen::Done)),
        Some(Action::SortCycle)
    );
    assert_eq!(
        action_for(key(KeyCode::Char('r')), context(Screen::Done)),
        Some(Action::Rerun)
    );
    assert_eq!(
        action_for(key(KeyCode::Char('z')), context(Screen::Done)),
        None
    );
}

#[test]
fn esc_is_the_one_back_key_on_both_screens() {
    // What `Back` means differs per screen; that decision lives in `App`.
    for screen in [Screen::Running, Screen::Done] {
        assert_eq!(
            action_for(key(KeyCode::Esc), context(screen)),
            Some(Action::Back)
        );
    }
}

#[test]
fn p_pauses_only_while_running() {
    assert_eq!(
        action_for(key(KeyCode::Char('p')), context(Screen::Running)),
        Some(Action::PauseToggle)
    );
    assert_eq!(
        action_for(key(KeyCode::Char('p')), context(Screen::Done)),
        None
    );
}

#[test]
fn paging_and_jumping_work_on_both_screens() {
    for screen in [Screen::Running, Screen::Done] {
        assert_eq!(
            action_for(key(KeyCode::PageUp), context(screen)),
            Some(Action::PageUp)
        );
        assert_eq!(
            action_for(key(KeyCode::PageDown), context(screen)),
            Some(Action::PageDown)
        );
        assert_eq!(
            action_for(key(KeyCode::Char('j')), context(screen)),
            Some(Action::ScrollDown)
        );
        assert_eq!(
            action_for(key(KeyCode::Char('G')), context(screen)),
            Some(Action::GotoBottom)
        );
    }
}

#[test]
fn g_needs_a_second_press_to_jump_to_the_top() {
    let done = context(Screen::Done);
    assert_eq!(
        action_for(key(KeyCode::Char('g')), done),
        Some(Action::PrefixG)
    );
    let pending = KeyContext {
        pending_g: true,
        ..done
    };
    assert_eq!(
        action_for(key(KeyCode::Char('g')), pending),
        Some(Action::GotoTop)
    );
    assert_eq!(
        action_for(key(KeyCode::Char('d')), pending),
        Some(Action::ToggleDetail),
        "an unfinished `g` must not swallow the next key"
    );
}

#[test]
fn digits_accumulate_into_a_row_number() {
    let done = context(Screen::Done);
    assert_eq!(
        action_for(key(KeyCode::Char('1')), done),
        Some(Action::Count(1)),
        "digits are a count, not an action"
    );
    assert_eq!(
        action_for(key(KeyCode::Char('0')), done),
        Some(Action::Count(0)),
        "zero is a digit like any other"
    );
}

#[test]
fn a_count_turns_g_into_a_row_jump() {
    let done = context(Screen::Done);
    let counted = KeyContext {
        count: Some(12),
        ..done
    };
    assert_eq!(
        action_for(key(KeyCode::Char('G')), counted),
        Some(Action::GotoCount)
    );
    // `{n}gg` is the same jump, so the count cannot silently mean "top".
    let pending = KeyContext {
        pending_g: true,
        ..counted
    };
    assert_eq!(
        action_for(key(KeyCode::Char('g')), pending),
        Some(Action::GotoCount)
    );

    // Without a count both keys keep their documented meaning.
    assert_eq!(
        action_for(key(KeyCode::Char('G')), done),
        Some(Action::GotoBottom)
    );
}

#[test]
fn digits_still_type_into_a_prompt() {
    assert_eq!(
        action_for(key(KeyCode::Char('7')), typing(InputPurpose::Filter)),
        Some(Action::Text('7')),
        "a filter may well contain digits"
    );
}

#[test]
fn a_pending_count_takes_the_footer_over() {
    let counted = KeyContext {
        count: Some(12),
        ..context(Screen::Done)
    };
    assert!(
        hints(counted).is_empty(),
        "the digits and their key are the whole story while typing them"
    );
    assert_eq!(count_hint(counted), Some(("12".to_owned(), "G go to row")));
    assert_eq!(count_hint(context(Screen::Done)), None);
}

#[test]
fn the_help_panel_scrolls_and_otherwise_dismisses() {
    let help = reading_help();
    for (code, expected) in [
        (KeyCode::Char('j'), Action::ScrollDown),
        (KeyCode::Down, Action::ScrollDown),
        (KeyCode::PageDown, Action::ScrollDown),
        (KeyCode::Char('k'), Action::ScrollUp),
        (KeyCode::Up, Action::ScrollUp),
        (KeyCode::PageUp, Action::ScrollUp),
    ] {
        assert_eq!(action_for(key(code), help), Some(expected), "{code:?}");
    }

    // Leaving is explicit; an unbound key leaves too, so the panel can never
    // trap someone who does not know the way out. A bound browse key is
    // rebound rather than shadowed: `s` closes instead of sorting.
    for code in [
        KeyCode::Esc,
        KeyCode::Char('q'),
        KeyCode::Char('?'),
        KeyCode::Char('z'),
        KeyCode::Char('s'),
    ] {
        assert_eq!(
            action_for(key(code), help),
            Some(Action::ToggleHelp),
            "{code:?} must close the help"
        );
    }
}

#[test]
fn confirmation_defaults_to_no() {
    let confirm = KeyContext {
        confirm: true,
        ..context(Screen::Done)
    };
    assert_eq!(
        action_for(key(KeyCode::Char('y')), confirm),
        Some(Action::ConfirmYes)
    );
    for code in [KeyCode::Char('n'), KeyCode::Esc, KeyCode::Char('q')] {
        assert_eq!(
            action_for(key(code), confirm),
            Some(Action::ConfirmNo),
            "{code:?} must not confirm"
        );
    }
}

#[test]
fn terminal_reserved_keys_stay_unbound() {
    let done = context(Screen::Done);
    for character in ['z', 'h', 's', 'q', '\\'] {
        let event = KeyEvent {
            code: KeyCode::Char(character),
            press: true,
            control: true,
            foreign: false,
        };
        assert_eq!(
            action_for(event, done),
            None,
            "Ctrl+{character} belongs to the terminal"
        );
    }
}

#[test]
fn key_releases_are_not_actions() {
    let release = KeyEvent {
        code: KeyCode::Char('q'),
        press: false,
        control: false,
        foreign: false,
    };
    assert_eq!(action_for(release, context(Screen::Done)), None);
}

#[test]
fn footer_hints_are_contextual_and_bounded() {
    let running = hints(context(Screen::Running));
    let done = hints(context(Screen::Done));

    assert!((3..=MAX_HINTS).contains(&running.len()), "got {running:?}");
    assert!((3..=MAX_HINTS).contains(&done.len()), "got {done:?}");
    assert!(
        running.iter().any(|(keys, _)| *keys == "p"),
        "pausing belongs in the running footer"
    );
    assert!(
        !done.iter().any(|(keys, _)| *keys == "p"),
        "a finished run cannot be paused"
    );
    assert!(
        done.iter().any(|(keys, _)| *keys == "r"),
        "re-running belongs in the done footer"
    );
}

#[test]
fn the_help_footer_says_how_to_leave_and_how_to_scroll() {
    let hints = hints(reading_help());
    assert!(
        hints.iter().any(|(_, label)| *label == "close"),
        "the way out must be visible: {hints:?}"
    );
    assert!(
        hints.iter().any(|(_, label)| *label == "scroll"),
        "the scroll keys must be visible: {hints:?}"
    );
}

#[test]
fn a_prompt_and_a_confirmation_advertise_their_own_keys() {
    let prompt = hints(typing(InputPurpose::ExportPath));
    assert!(
        prompt.iter().any(|(keys, _)| *keys == "esc"),
        "a prompt must show how to leave it: {prompt:?}"
    );

    let confirm = hints(KeyContext {
        confirm: true,
        ..context(Screen::Done)
    });
    assert_eq!(confirm, vec![("y", "yes"), ("n", "no")]);
}

#[test]
fn a_confirmation_hides_the_browse_keys_it_replaces() {
    let confirm = KeyContext {
        confirm: true,
        ..context(Screen::Done)
    };
    assert!(
        !hints(confirm).iter().any(|(keys, _)| *keys == "s"),
        "sorting is unreachable while a prompt is modal"
    );
}

#[test]
fn the_help_table_covers_every_surface() {
    for (_, scope) in help_groups() {
        assert!(
            !bindings_on(scope).is_empty(),
            "the `{scope}` group would render empty"
        );
    }
    assert!(bindings_on("nonsense").is_empty());
}

#[test]
fn every_binding_explains_itself_in_the_help_panel() {
    for (keys, detail) in help_groups()
        .into_iter()
        .flat_map(|(_, scope)| bindings_on(scope))
    {
        assert!(
            detail.len() > 4,
            "`{keys}` needs a real description, got {detail:?}"
        );
        assert!(
            !detail.ends_with('.'),
            "`{keys}` reads as a label, not a sentence: {detail:?}"
        );
    }
}

#[test]
fn the_help_panel_documents_its_own_keys() {
    let help = bindings_on("help");
    assert!(
        help.iter().any(|(_, detail)| detail.contains("close")),
        "the panel must say how to leave it: {help:?}"
    );
    assert!(
        help.iter().any(|(_, detail)| detail.contains("scroll")),
        "the panel must say how to scroll: {help:?}"
    );
}

#[test]
fn esc_is_documented_on_every_surface_that_binds_it() {
    for scope in ["screen", "input", "help"] {
        assert!(
            bindings_on(scope).iter().any(|(keys, _)| *keys == "esc"),
            "the `{scope}` surface binds Esc but does not document it"
        );
    }
}

#[test]
fn the_footer_word_is_never_longer_than_the_help_text() {
    // They serve different widths; the footer's must stay the shorter one.
    for binding in keymap() {
        assert!(
            binding.label.len() <= binding.detail.len(),
            "`{}` has a longer footer word than help text",
            binding.keys_label
        );
    }
}

#[test]
fn every_note_fits_the_narrowest_panel() {
    // Notes render in a single column inside a 60-column terminal.
    for note in help_notes() {
        assert!(
            note.chars().count() <= 52,
            "{note:?} would wrap in the narrowest supported panel"
        );
        assert!(!note.is_empty());
    }
}

#[test]
fn a_key_with_a_foreign_modifier_is_no_action() {
    let event = KeyEvent {
        code: KeyCode::Char('j'),
        press: true,
        control: false,
        foreign: true,
    };
    assert_eq!(action_for(event, context(Screen::Done)), None);
}

#[test]
fn digits_are_read_one_at_a_time() {
    assert_eq!(digit_of(Key::Char('0')), Some(0));
    assert_eq!(digit_of(Key::Char('9')), Some(9));
    assert_eq!(digit_of(Key::Char('a')), None);
    assert_eq!(digit_of(Key::Enter), None);
}

#[test]
fn a_scope_applies_on_its_own_surface() {
    assert!(Scope::Running.applies(context(Screen::Running)));
    assert!(!Scope::Running.applies(context(Screen::Done)));
    assert!(Scope::Help.applies(reading_help()));
    assert!(!Scope::Screen.applies(reading_help()));
    assert!(Scope::Input.applies(typing(InputPurpose::ExportFormat)));
    assert!(!Scope::Done.applies(typing(InputPurpose::Filter)));
    assert_eq!(scope_of("confirm"), Some(Scope::Confirm));
    assert_eq!(scope_of("overlay"), None);
}

#[test]
fn a_binding_is_found_by_any_of_its_keys() {
    let down = binding_for(Key::Char('j'), context(Screen::Done)).unwrap();
    assert_eq!(down.action, Action::ScrollDown);
    assert!(flx::tui::event::matches(&down, Key::Down));
    assert!(!flx::tui::event::matches(&down, Key::Up));
    assert_eq!(resolve_key(key(KeyCode::Enter)), Some(Key::Enter));
}
