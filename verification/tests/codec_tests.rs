use clippo::codec::encode_entries;
use clippo::entry::entry_eq;
use clippo::entry::ClipboardHistoryEntry;
use clippo::entry::ClipboardImageEntry;
use clippo::parse::decode_entries;
use clippo::parse::decode_legacy;

fn text(s: &str) -> ClipboardHistoryEntry {
    ClipboardHistoryEntry::Text(String::from(s))
}

fn image(width: usize, height: usize, bytes: Vec<u8>) -> ClipboardHistoryEntry {
    ClipboardHistoryEntry::Image(ClipboardImageEntry { width, height, bytes })
}

#[test]
fn text_entry_encodes_tagged_and_quoted() {
    assert_eq!(encode_entries(&vec![text("a")]), "[Text(\"a\")]");
}

#[test]
fn empty_history_encodes_as_empty_list() {
    assert_eq!(encode_entries(&Vec::new()), "[]");
}

#[test]
fn image_entry_encodes_with_explicit_fields() {
    assert_eq!(
        encode_entries(&vec![image(2, 1, vec![0, 255])]),
        "[Image((width:2,height:1,bytes:[0,255]))]"
    );
}

#[test]
fn quotes_and_backslashes_are_escaped() {
    let payload = encode_entries(&vec![text("a\"b\\c\nd")]);
    assert_eq!(payload, "[Text(\"a\\\"b\\\\c\nd\")]");
    let back = decode_entries(&payload).unwrap();
    assert!(entry_eq(&back[0], &text("a\"b\\c\nd")));
}

#[test]
fn mixed_history_round_trips() {
    let entries = vec![
        text("plain"),
        image(2, 2, vec![1, 2, 3, 4, 5, 6, 7, 8, 9, 10, 11, 12, 13, 14, 15, 16]),
        text("with \"quotes\" and \\slashes\\"),
        image(0, 0, vec![]),
        text("  spaced  "),
    ];
    let payload = encode_entries(&entries);
    let back = decode_entries(&payload).expect("the canonical encoding must decode");
    assert_eq!(back.len(), entries.len());
    for (a, b) in back.iter().zip(entries.iter()) {
        assert!(entry_eq(a, b));
    }
    assert_eq!(encode_entries(&back), payload);
}

#[test]
fn trailing_garbage_is_rejected() {
    assert!(decode_entries("[Text(\"a\")]x").is_none());
    assert!(decode_entries("[Text(\"a\")] ").is_none());
}

#[test]
fn malformed_payloads_are_rejected() {
    assert!(decode_entries("").is_none());
    assert!(decode_entries("[").is_none());
    assert!(decode_entries("[Text(\"a\")").is_none());
    assert!(decode_entries("[Frob(\"a\")]").is_none());
    assert!(decode_entries("[Text(\"a]").is_none());
    assert!(decode_entries("not a history").is_none());
}

#[test]
fn numbers_with_leading_zeros_are_rejected() {
    assert!(decode_entries("[Image((width:01,height:1,bytes:[]))]").is_none());
    assert!(decode_entries("[Image((width:1,height:1,bytes:[00]))]").is_none());
}

#[test]
fn byte_values_above_the_byte_range_are_rejected() {
    assert!(decode_entries("[Image((width:1,height:1,bytes:[256]))]").is_none());
    assert!(decode_entries("[Image((width:1,height:1,bytes:[255]))]").is_some());
}

#[test]
fn legacy_string_list_decodes_in_order() {
    let back = decode_legacy("[\"a\",\"b c\",\"d\\\"e\"]").unwrap();
    assert_eq!(back, vec!["a", "b c", "d\"e"]);
}

#[test]
fn legacy_decoder_rejects_tagged_payloads() {
    assert!(decode_legacy("[Text(\"a\")]").is_none());
    assert!(decode_legacy("garbage").is_none());
}

#[test]
fn empty_list_decodes_under_both_encodings() {
    assert!(decode_entries("[]").unwrap().is_empty());
    assert!(decode_legacy("[]").unwrap().is_empty());
}
