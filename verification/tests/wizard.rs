//! The questions of the wizard, and the settings that their answers make.

use flx::wizard::{
    anonymity_hint, ask, ask_yn, build_config, formats_hint, prompt, resolve_target, run_questions,
    run_wizard, split_list, target_question, validate, Answers, Outcome, Target, Turn, Vocabulary,
    WizardArgs, WizardError,
};

fn words(list: &[&str]) -> Vec<String> {
    list.iter().map(|w| w.to_string()).collect()
}

fn vocabulary() -> Vocabulary {
    Vocabulary {
        formats: words(&["default", "text", "json", "csv"]),
        levels: words(&["transparent", "anonymous", "elite"]),
    }
}

fn args() -> WizardArgs {
    WizardArgs { path: None, user: false, yes: false, force: false }
}

fn answered(typed: &[&str]) -> Answers {
    match run_questions(&words(typed), &vocabulary()) {
        Turn::Done(answers) => answers,
        _ => panic!("the questions are not over"),
    }
}

#[test]
fn yes_writes_minimal_project_config() {
    let args = WizardArgs { yes: true, ..args() };
    assert_eq!(resolve_target(&args, None), Some(Target::Project));
    assert_eq!(run_wizard(&args, false, None, None), Outcome::Write);
    let cfg = build_config(&Answers::default());
    assert!(cfg.global.is_none() && cfg.fetch.is_none());
    assert!(cfg.output.is_none() && cfg.validate.is_none());
}

#[test]
fn yes_existing_file_requires_force() {
    let args = WizardArgs { yes: true, ..args() };
    assert_eq!(run_wizard(&args, true, None, None), Outcome::Refuse);
}

#[test]
fn yes_force_overwrites_existing_file() {
    let args = WizardArgs {
        yes: true,
        force: true,
        path: Some("custom.toml".to_string()),
        ..args()
    };
    assert_eq!(resolve_target(&args, None), Some(Target::Path("custom.toml".to_string())));
    assert_eq!(run_wizard(&args, true, None, None), Outcome::Write);
}

#[test]
fn interactive_answers_land_in_the_written_toml() {
    let answers = answered(&[
        "geonode\n", "us, de\n", "csv\n", "50\n", "elite\n", "socks5\n", "30\n", "y\n",
    ]);
    assert!(validate(&answers, &vocabulary(), &vec![true]).is_ok());
    assert_eq!(run_wizard(&args(), false, None, Some("y\n")), Outcome::Write);
    let cfg = build_config(&answers);
    let fetch = cfg.fetch.unwrap();
    assert_eq!(fetch.providers, Some(words(&["geonode"])));
    assert_eq!(fetch.countries, Some(words(&["US", "DE"])));
    assert_eq!(fetch.cache_ttl, Some(30));
    let output = cfg.output.unwrap();
    assert_eq!(output.format.as_deref(), Some("csv"));
    assert_eq!(output.limit, Some(50));
    assert_eq!(output.min_anonymity.as_deref(), Some("elite"));
    assert_eq!(cfg.validate.unwrap().types, Some(words(&["SOCKS5"])));
    assert_eq!(cfg.global.unwrap().quiet, Some(true));
}

#[test]
fn interactive_aborts_on_declined_confirm() {
    let answers = answered(&["\n", "\n", "\n", "\n", "\n", "\n", "\n", "\n"]);
    assert_eq!(answers, Answers::default());
    assert_eq!(run_wizard(&args(), false, None, None), Outcome::AskWrite);
    assert_eq!(run_wizard(&args(), false, None, Some("n\n")), Outcome::Abort);
}

#[test]
fn defaults_answer_without_typed_input() {
    let answers = answered(&["", "", "", "", "", "", "", ""]);
    assert_eq!(answers, Answers::default());
}

#[test]
fn build_config_defaults_are_minimal() {
    let cfg = build_config(&Answers::default());
    assert!(cfg.global.is_none());
    assert!(cfg.fetch.is_none());
    assert!(cfg.output.is_none());
    assert!(cfg.validate.is_none());
}

#[test]
fn build_config_skips_default_values() {
    let answers = Answers {
        providers: vec!["geonode".to_owned()],
        countries: vec!["US".to_owned()],
        cache_ttl: 15, // default: must not be written
        ..Default::default()
    };
    let cfg = build_config(&answers);
    let fetch = cfg.fetch.unwrap();
    assert_eq!(fetch.cache_ttl, None);
    assert_eq!(
        fetch.providers.as_deref(),
        Some(&["geonode".to_owned()][..])
    );
}

#[test]
fn split_list_trims_and_drops_empty() {
    assert_eq!(split_list(" a, b ,, c "), vec!["a", "b", "c"]);
    assert!(split_list("").is_empty());
    assert!(split_list(",").is_empty());
}

#[test]
fn validate_rejects_bad_format() {
    let err = validate(
        &Answers { format: "bogus".into(), ..Default::default() },
        &vocabulary(),
        &vec![true],
    )
    .unwrap_err();
    assert!(err.to_text(&vocabulary()).contains("unknown output format"));
}

#[test]
fn validate_rejects_bad_anonymity() {
    let err = validate(
        &Answers { min_anonymity: Some("super".into()), ..Default::default() },
        &vocabulary(),
        &vec![true],
    )
    .unwrap_err();
    assert!(err.to_text(&vocabulary()).contains("unknown anonymity level"));
}

#[test]
fn validate_rejects_bad_type() {
    let err = validate(
        &Answers { types: vec!["NOPE".into()], ..Default::default() },
        &vocabulary(),
        &vec![false],
    )
    .unwrap_err();
    assert!(err.to_text(&vocabulary()).contains("invalid proxy type"));
}

#[test]
fn validate_rejects_unknown_provider() {
    let err = validate(
        &Answers { providers: vec!["nope-provider".into()], ..Default::default() },
        &vocabulary(),
        &vec![true],
    )
    .unwrap_err();
    assert!(err.to_text(&vocabulary()).contains("unknown provider"));
}

#[test]
fn validate_accepts_the_defaults_and_any_case_of_a_provider() {
    assert!(validate(&Answers::default(), &vocabulary(), &vec![true]).is_ok());
    let answers = Answers { providers: vec!["GeoNode".into()], ..Default::default() };
    assert!(validate(&answers, &vocabulary(), &vec![true]).is_ok());
}

#[test]
fn errors_name_what_is_allowed() {
    let err = WizardError::UnknownFormat("bogus".to_string());
    assert_eq!(
        err.to_text(&vocabulary()),
        "unknown output format `bogus` (allowed: default, text, json, csv)"
    );
    let err = WizardError::UnknownLevel("super".to_string());
    assert_eq!(
        err.to_text(&vocabulary()),
        "unknown anonymity level `super` (allowed: transparent, anonymous, elite)"
    );
    let err = WizardError::InvalidType("NOPE".to_string());
    assert_eq!(err.to_text(&vocabulary()), "invalid proxy type `NOPE`");
}

#[test]
fn numbers_have_to_be_numbers() {
    let typed = words(&["", "", "", "many"]);
    match run_questions(&typed, &vocabulary()) {
        Turn::Failed(err) => {
            assert_eq!(err.to_text(&vocabulary()), "limit must be a number")
        }
        _ => panic!("a limit in words was taken"),
    }
    let typed = words(&["", "", "", "", "", "", "-1"]);
    match run_questions(&typed, &vocabulary()) {
        Turn::Failed(err) => {
            assert_eq!(err.to_text(&vocabulary()), "cache TTL must be a number")
        }
        _ => panic!("a negative time was taken"),
    }
}

#[test]
fn questions_come_one_by_one() {
    match run_questions(&Vec::new(), &vocabulary()) {
        Turn::Ask(text) => assert_eq!(
            text,
            "Providers to scrape, comma-separated ('all' = every provider) [all]: "
        ),
        _ => panic!("nothing was asked"),
    }
    match run_questions(&words(&["", ""]), &vocabulary()) {
        Turn::Ask(text) => {
            assert_eq!(text, "Output format (default, text, json, csv) [default]: ")
        }
        _ => panic!("nothing was asked"),
    }
}

#[test]
fn resolve_target_path_flag() {
    let args = WizardArgs { path: Some("x.toml".to_string()), ..args() };
    assert_eq!(resolve_target(&args, None), Some(Target::Path("x.toml".to_string())));
}

#[test]
fn resolve_target_user_flag() {
    let args = WizardArgs { user: true, ..args() };
    assert_eq!(resolve_target(&args, None), Some(Target::User));
}

#[test]
fn resolve_target_yes_flag() {
    let args = WizardArgs { yes: true, ..args() };
    assert_eq!(resolve_target(&args, None), Some(Target::Project));
}

#[test]
fn resolve_target_interactive_choice_2() {
    assert_eq!(resolve_target(&args(), None), None);
    assert_eq!(resolve_target(&args(), Some("2\n")), Some(Target::User));
    assert_eq!(resolve_target(&args(), Some("\n")), Some(Target::Project));
}

#[test]
fn a_file_that_is_there_is_kept_without_consent() {
    assert_eq!(run_wizard(&args(), true, None, Some("y")), Outcome::AskOverwrite);
    assert_eq!(run_wizard(&args(), true, Some(""), Some("y")), Outcome::Abort);
    assert_eq!(run_wizard(&args(), true, Some("YES"), None), Outcome::AskWrite);
    assert_eq!(run_wizard(&args(), true, Some("1"), Some("true")), Outcome::Write);
}

#[test]
fn lines_answer_questions() {
    assert_eq!(prompt("Choice", "1"), "Choice [1]: ");
    assert_eq!(ask("  two \n", "1"), "two");
    assert_eq!(ask(" \n", "1"), "1");
    assert!(ask_yn("Yes", false));
    assert!(!ask_yn("FALSE", true));
    assert!(ask_yn("perhaps", true));
    assert_eq!(formats_hint(&vocabulary()), "default, text, json, csv");
    assert_eq!(anonymity_hint(&vocabulary()), "transparent, anonymous, elite");
    assert_eq!(
        target_question("a", "b"),
        "Where should the config be written?\n  [1] a (project)\n  [2] b (user)\nChoice [1]: "
    );
}

#[test]
fn country_codes_are_capitalised_beyond_ascii() {
    let answers = answered(&["all", "stra\u{df}e", "", "", "", "", "", ""]);
    assert_eq!(answers.countries, words(&["STRASSE"]));
}

#[test]
fn letters_beyond_ascii_are_raised_too() {
    let answers = answered(&["\n", "us, s\u{e3}o\n", "\n", "\n", "\n", "socks5\n", "\n", "\n"]);
    assert_eq!(answers.countries, words(&["US", "S\u{c3}O"]));
    assert_eq!(answers.types, words(&["SOCKS5"]));
}
