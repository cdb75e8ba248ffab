use clippo::codec::encode_entries;
use clippo::entry::entry_eq;
use clippo::entry::ClipboardHistoryEntry;
use clippo::entry::ClipboardImageEntry;
use clippo::persist::load_history;
use clippo::persist::save_payload;

fn text(s: &str) -> ClipboardHistoryEntry {
    ClipboardHistoryEntry::Text(String::from(s))
}

#[test]
fn missing_file_loads_as_empty_history() {
    let h = load_history(None);
    assert_eq!(h.len(), 0);
}

#[test]
fn empty_file_loads_as_empty_history() {
    let h = load_history(Some(""));
    assert_eq!(h.len(), 0);
}

#[test]
fn corrupt_file_loads_as_empty_history() {
    assert_eq!(load_history(Some("not a history")).len(), 0);
    assert_eq!(load_history(Some("[Text(\"unclosed")).len(), 0);
    assert_eq!(load_history(Some("{\"wrong\":\"shape\"}")).len(), 0);
}

#[test]
fn tagged_file_loads_every_entry() {
    let entries = vec![
        text("one"),
        ClipboardHistoryEntry::Image(ClipboardImageEntry {
            width: 1,
            height: 1,
            bytes: vec![9, 8, 7, 6],
        }),
    ];
    let payload = encode_entries(&entries);
    let h = load_history(Some(&payload));
    let snap = h.snapshot();
    assert_eq!(snap.len(), entries.len());
    for (a, b) in snap.iter().zip(entries.iter()) {
        assert!(entry_eq(a, b));
    }
}

#[test]
fn legacy_file_migrates_to_text_entries_in_order() {
    let h = load_history(Some("[\"first\",\"second\",\"third\"]"));
    let snap = h.snapshot();
    assert_eq!(snap.len(), 3);
    assert!(entry_eq(&snap[0], &text("first")));
    assert!(entry_eq(&snap[1], &text("second")));
    assert!(entry_eq(&snap[2], &text("third")));
    // The next save writes the tagged shape: the migration is one-shot.
    assert_eq!(
        save_payload(&h),
        "[Text(\"first\"),Text(\"second\"),Text(\"third\")]"
    );
}

#[test]
fn save_then_load_gives_the_same_history() {
    let mut h = clippo::history::History::new();
    h.insert_front(text("a"));
    h.insert_front(ClipboardHistoryEntry::Image(ClipboardImageEntry {
        width: 2,
        height: 2,
        bytes: vec![0; 16],
    }));
    h.insert_front(text("b\"c\\d"));
    let payload = save_payload(&h);
    let back = load_history(Some(&payload));
    let old_snap = h.snapshot();
    let new_snap = back.snapshot();
    assert_eq!(old_snap.len(), new_snap.len());
    for (a, b) in old_snap.iter().zip(new_snap.iter()) {
        assert!(entry_eq(a, b));
    }
}
