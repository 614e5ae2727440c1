//! Log lines, and the version check.

use flx::logging::{
    color_enabled, enabled, log_module_allowed, log_prefix_color, write_record_to, Level,
    TUI_LOG_FILE,
};
use flx::version::{check_version, manifest_version};

#[test]
fn log_module_gate_accepts_only_crate_targets() {
    assert!(log_module_allowed("flx"));
    assert!(log_module_allowed("flx::validator::work"));
    assert!(!log_module_allowed("other_crate"));
    assert!(!log_module_allowed("flx2"));
    assert!(!log_module_allowed("fl"));
}

#[test]
fn log_prefix_colors_match_the_documented_palette() {
    assert_eq!(log_prefix_color(Level::Error), "\x1b[31m");
    assert_eq!(log_prefix_color(Level::Warn), "\x1b[33m");
    assert_eq!(log_prefix_color(Level::Info), "\x1b[34m");
    assert_eq!(log_prefix_color(Level::Debug), "\x1b[36m");
    assert_eq!(log_prefix_color(Level::Trace), "\x1b[35m");
}

#[test]
fn a_file_sink_writes_uncolored_lines() {
    // Color is only ever requested for a terminal.
    let written = write_record_to("flx::test", Level::Warn, "noise", false);
    assert_eq!(written, "flx::test: WARN noise\n");
    assert!(
        !written.contains('\u{1b}'),
        "a log file is paged through later, never painted"
    );
    assert!(TUI_LOG_FILE.ends_with(".log"));
}

#[test]
fn terminals_are_colored_unless_dumb_or_asked_not_to() {
    assert!(color_enabled(Some("xterm"), false, true));
    assert!(!color_enabled(Some("dumb"), false, true));
    assert!(!color_enabled(Some("xterm"), true, true));
    assert!(!color_enabled(Some("xterm"), false, false));
    assert!(!color_enabled(None, false, true));
}

#[test]
fn records_pass_by_gravity_and_target() {
    assert!(enabled(Level::Warn, Some(Level::Info), "flx::a"));
    assert!(!enabled(Level::Debug, Some(Level::Info), "flx::a"));
    assert!(!enabled(Level::Error, None, "flx::a"));
    assert!(!enabled(Level::Error, Some(Level::Trace), "hyper"));
}

#[test]
fn newer_releases_are_told() {
    assert!(check_version("1.2.3", "1.2.4"));
    assert!(check_version("1.9.0", "v1.10.0"));
    assert!(!check_version("1.2.3", "1.2.3"));
    assert!(!check_version("2.0.0", "1.9.9"));
    assert!(check_version("1.2", "1.2.0"));
    assert!(!check_version("1.2.3-rc1", " v1.2.3 "));
    assert!(!check_version("1.0", ""));
}

#[test]
fn the_manifest_names_its_version() {
    let manifest = "[package]\nname = \"flx\"\nversion = \"0.3.1\"\nedition = \"2021\"\n";
    assert_eq!(manifest_version(manifest).as_deref(), Some("0.3.1"));
    assert_eq!(manifest_version("  version='1.0'\r\n").as_deref(), Some("1.0"));
    assert_eq!(manifest_version("version\nversion = \"2\""), None);
    assert_eq!(manifest_version("name = \"flx\""), None);
}
