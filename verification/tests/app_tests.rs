use clippo::clippo_app::copy_step;
use clippo::clippo_app::validate_clipboard_entry;
use clippo::clippo_app::ClippoApp;
use clippo::clippo_app::CopyAttemptOutcome;
use clippo::clippo_app::CopyStep;
use clippo::clippo_app::ImageBufferError;
use clippo::clippo_app::PayloadError;
use clippo::clippo_app::CLIPBOARD_WRITE_RETRIES;
use clippo::config::default_exit_on_copy;
use clippo::config::ClippoConfig;
use clippo::entry::entry_eq;
use clippo::entry::ClipboardHistoryEntry;
use clippo::entry::ClipboardImageEntry;

fn text(s: &str) -> ClipboardHistoryEntry {
    ClipboardHistoryEntry::Text(String::from(s))
}

fn app() -> ClippoApp {
    ClippoApp::new(ClippoConfig::default())
}

#[test]
fn default_config_values() {
    let c = ClippoConfig::default();
    assert!(c.dark_mode);
    assert_eq!(c.max_entry_display_length, 100);
    assert!(c.minimize_on_copy);
    assert!(c.exit_on_copy);
    assert!(c.minimize_on_clear);
    assert!(c.enable_search);
    assert!(default_exit_on_copy());
}

#[test]
fn a_fresh_app_starts_empty() {
    let a = app();
    assert!(a.history_cache.is_empty());
    assert!(a.search_query.is_empty());
    assert!(a.style_needs_update);
    assert!(a.last_action.is_none());
    assert!(!a.confirm_clear);
    assert!(!a.search_focus_requested);
    assert!(a.selected_entry_index.is_none());
}

#[test]
fn only_known_settings_may_be_toggled() {
    let mut a = app();
    assert!(a.toggle_config_field("minimize_on_copy"));
    assert!(a.toggle_config_field("exit_on_copy"));
    assert!(a.toggle_config_field("minimize_on_clear"));
    assert!(a.toggle_config_field("dark_mode"));
    assert!(a.toggle_config_field("max_entry_display_length"));
    assert!(a.toggle_config_field("enable_search"));
    assert!(!a.toggle_config_field("no_such_setting"));
    assert!(!a.toggle_config_field(""));
}

#[test]
fn set_last_action_records_message_and_time() {
    let mut a = app();
    a.set_last_action(String::from("Copied."), 1234);
    let (message, at) = a.last_action.clone().unwrap();
    assert_eq!(message, "Copied.");
    assert_eq!(at, 1234);
}

#[test]
fn payloads_parse_tagged_then_legacy_then_fail() {
    let tagged = ClippoApp::parse_history_payload("[Text(\"a\")]").unwrap();
    assert_eq!(tagged.len(), 1);
    assert!(entry_eq(&tagged[0], &text("a")));

    let legacy = ClippoApp::parse_history_payload("[\"a\",\"b\"]").unwrap();
    assert_eq!(legacy.len(), 2);
    assert!(entry_eq(&legacy[0], &text("a")));
    assert!(entry_eq(&legacy[1], &text("b")));

    assert!(matches!(
        ClippoApp::parse_history_payload("nonsense"),
        Err(PayloadError::Malformed)
    ));
}

#[test]
fn initial_history_fills_or_falls_back_empty() {
    let mut a = app();
    a.fill_initial_history(Some("[Text(\"x\")]")).unwrap();
    assert_eq!(a.history_cache.len(), 1);

    // No reply from the daemon: the cache empties.
    a.fill_initial_history(None).unwrap();
    assert!(a.history_cache.is_empty());

    // A malformed reply is an error and leaves the cache alone.
    a.fill_initial_history(Some("[\"kept\"]")).unwrap();
    assert!(a.fill_initial_history(Some("broken")).is_err());
    assert_eq!(a.history_cache.len(), 1);
    assert!(entry_eq(&a.history_cache[0], &text("kept")));
}

#[test]
fn clear_history_empties_the_cache() {
    let mut a = app();
    a.fill_initial_history(Some("[\"a\",\"b\"]")).unwrap();
    a.clear_history();
    assert!(a.history_cache.is_empty());
}

#[test]
fn text_previews_flatten_and_truncate() {
    let mut c = ClippoConfig::default();
    c.max_entry_display_length = 5;
    let a = ClippoApp::new(c);
    assert_eq!(a.preview_entry(&text("ab")), "ab");
    assert_eq!(a.preview_entry(&text("abcde")), "abcde");
    assert_eq!(a.preview_entry(&text("abcdefgh")), "abcde...");
    assert_eq!(a.preview_entry(&text("a\nb\rc")), "a bc");
}

#[test]
fn image_previews_show_the_dimensions() {
    let a = app();
    let img = ClipboardHistoryEntry::Image(ClipboardImageEntry {
        width: 12,
        height: 34,
        bytes: vec![],
    });
    assert_eq!(a.preview_entry(&img), "Image (12x34)");
}

#[test]
fn write_back_validation_checks_the_buffer_length() {
    assert!(validate_clipboard_entry(&text("any text")).is_ok());

    let good = ClipboardHistoryEntry::Image(ClipboardImageEntry {
        width: 2,
        height: 2,
        bytes: vec![0; 16],
    });
    assert!(validate_clipboard_entry(&good).is_ok());

    let short = ClipboardHistoryEntry::Image(ClipboardImageEntry {
        width: 2,
        height: 2,
        bytes: vec![0; 15],
    });
    assert!(matches!(
        validate_clipboard_entry(&short),
        Err(ImageBufferError::WrongLength)
    ));

    let oversized = ClipboardHistoryEntry::Image(ClipboardImageEntry {
        width: usize::MAX,
        height: 2,
        bytes: vec![],
    });
    assert!(matches!(
        validate_clipboard_entry(&oversized),
        Err(ImageBufferError::Oversized)
    ));
}

#[test]
fn clipboard_writes_retry_only_while_occupied() {
    assert!(matches!(copy_step(0, &CopyAttemptOutcome::Written), CopyStep::Done));
    assert!(matches!(
        copy_step(0, &CopyAttemptOutcome::ClipboardOccupied),
        CopyStep::RetryAfterDelay
    ));
    assert!(matches!(
        copy_step(CLIPBOARD_WRITE_RETRIES - 1, &CopyAttemptOutcome::ClipboardOccupied),
        CopyStep::Fail
    ));
    assert!(matches!(copy_step(0, &CopyAttemptOutcome::OtherFailure), CopyStep::Fail));
}
