use clippo::codec::encode_entries;
use clippo::entry::entry_eq;
use clippo::entry::ClipboardHistoryEntry;
use clippo::entry::ClipboardImageEntry;
use clippo::history::History;
use clippo::history::MAX_HISTORY_LENGTH;

fn text(s: &str) -> ClipboardHistoryEntry {
    ClipboardHistoryEntry::Text(String::from(s))
}

fn image(width: usize, height: usize, bytes: Vec<u8>) -> ClipboardHistoryEntry {
    ClipboardHistoryEntry::Image(ClipboardImageEntry { width, height, bytes })
}

fn encoded(h: &History) -> String {
    encode_entries(&h.snapshot())
}

#[test]
fn second_insert_of_equal_text_is_a_noop() {
    let mut h = History::new();
    assert!(h.insert_front(text("a")));
    assert!(!h.insert_front(text("a")));
    assert_eq!(h.len(), 1);
    assert_eq!(encoded(&h), "[Text(\"a\")]");
}

#[test]
fn newer_entry_stands_in_front() {
    let mut h = History::new();
    assert!(h.insert_front(text("a")));
    assert!(h.insert_front(text("b")));
    assert_eq!(encoded(&h), "[Text(\"b\"),Text(\"a\")]");
}

#[test]
fn cap_evicts_the_oldest_entry() {
    let mut h = History::new();
    for i in 0..=MAX_HISTORY_LENGTH {
        assert!(h.insert_front(text(&format!("entry {i}"))));
    }
    assert_eq!(h.len(), MAX_HISTORY_LENGTH);
    assert!(!h.contains(&text("entry 0")));
    for i in 1..=MAX_HISTORY_LENGTH {
        assert!(h.contains(&text(&format!("entry {i}"))));
    }
    let snap = h.snapshot();
    assert!(entry_eq(&snap[0], &text(&format!("entry {MAX_HISTORY_LENGTH}"))));
    assert!(entry_eq(&snap[snap.len() - 1], &text("entry 1")));
}

#[test]
fn dedup_checks_the_whole_list_not_just_the_head() {
    let mut h = History::new();
    assert!(h.insert_front(text("a")));
    assert!(h.insert_front(text("b")));
    assert!(h.insert_front(text("c")));
    assert!(!h.insert_front(text("a")));
    assert_eq!(h.len(), 3);
}

#[test]
fn clear_empties_the_list() {
    let mut h = History::new();
    h.insert_front(text("a"));
    h.insert_front(image(1, 1, vec![0, 0, 0, 255]));
    h.clear();
    assert_eq!(h.len(), 0);
    assert_eq!(encoded(&h), "[]");
}

#[test]
fn equal_images_dedup_and_different_images_do_not() {
    let mut h = History::new();
    assert!(h.insert_front(image(2, 1, vec![1, 2, 3, 4, 5, 6, 7, 8])));
    assert!(!h.insert_front(image(2, 1, vec![1, 2, 3, 4, 5, 6, 7, 8])));
    assert!(h.insert_front(image(2, 1, vec![1, 2, 3, 4, 5, 6, 7, 9])));
    assert!(h.insert_front(image(1, 2, vec![1, 2, 3, 4, 5, 6, 7, 8])));
    assert_eq!(h.len(), 3);
}

#[test]
fn text_and_image_never_compare_equal() {
    let a = text("x");
    let b = image(1, 1, vec![b'x']);
    assert!(!entry_eq(&a, &b));
    assert!(entry_eq(&a, &text("x")));
}
