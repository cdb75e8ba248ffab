use clippo::entry::entry_eq;
use clippo::entry::ClipboardHistoryEntry;
use clippo::entry::ClipboardImageEntry;
use clippo::history::History;
use clippo::monitor::candidate_entry;
use clippo::monitor::is_blank;
use clippo::monitor::monitor_tick;

fn sample_image() -> ClipboardImageEntry {
    ClipboardImageEntry { width: 1, height: 1, bytes: vec![1, 2, 3, 4] }
}

#[test]
fn blankness_goes_by_trimmed_content() {
    assert!(is_blank(""));
    assert!(is_blank("   \n\r\t"));
    assert!(!is_blank(" a "));
}

#[test]
fn non_blank_text_wins_over_an_image() {
    let got = candidate_entry(Some(String::from("hello")), Some(sample_image())).unwrap();
    assert!(entry_eq(&got, &ClipboardHistoryEntry::Text(String::from("hello"))));
}

#[test]
fn blank_text_falls_back_to_the_image() {
    let got = candidate_entry(Some(String::from("  \n")), Some(sample_image())).unwrap();
    assert!(entry_eq(&got, &ClipboardHistoryEntry::Image(sample_image())));
}

#[test]
fn blank_text_without_an_image_is_nothing_new() {
    assert!(candidate_entry(Some(String::from("   ")), None).is_none());
    assert!(candidate_entry(None, None).is_none());
}

#[test]
fn an_unchanged_clipboard_is_inserted_only_once() {
    let mut h = History::new();
    let first = candidate_entry(Some(String::from("same")), None);
    assert!(monitor_tick(&mut h, first));
    // The next poll ticks see the same clipboard content.
    for _ in 0..3 {
        let again = candidate_entry(Some(String::from("same")), None);
        assert!(!monitor_tick(&mut h, again));
    }
    assert_eq!(h.len(), 1);
}

#[test]
fn a_tick_without_a_candidate_changes_nothing() {
    let mut h = History::new();
    assert!(!monitor_tick(&mut h, None));
    assert_eq!(h.len(), 0);
}
