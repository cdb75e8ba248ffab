use clippo::entry::entry_eq;
use clippo::entry::ClipboardHistoryEntry;
use clippo::history::History;
use clippo::parse::decode_entries;
use clippo::protocol::classify_request;
use clippo::protocol::handle_ui_request;
use clippo::protocol::listener_step;
use clippo::protocol::push_step;
use clippo::protocol::ListenerVerdict;
use clippo::protocol::PushStep;
use clippo::protocol::UiRequest;
use clippo::protocol::STREAM_MAX_RETRIES;

fn text(s: &str) -> ClipboardHistoryEntry {
    ClipboardHistoryEntry::Text(String::from(s))
}

fn sample_history() -> History {
    let mut h = History::new();
    h.insert_front(text("older"));
    h.insert_front(text("newer"));
    h
}

#[test]
fn commands_match_on_trimmed_text() {
    assert!(matches!(classify_request("GET_HISTORY"), UiRequest::GetHistory));
    assert!(matches!(classify_request("GET_HISTORY\n"), UiRequest::GetHistory));
    assert!(matches!(classify_request("  RESET_HISTORY \r\n"), UiRequest::ResetHistory));
    assert!(matches!(classify_request("GET_HISTORYX"), UiRequest::Other));
    assert!(matches!(classify_request("get_history"), UiRequest::Other));
    assert!(matches!(classify_request(""), UiRequest::Other));
}

#[test]
fn get_history_replies_with_the_decodable_snapshot() {
    let mut h = sample_history();
    let before = h.snapshot();
    let resp = handle_ui_request(&mut h, "GET_HISTORY\n");
    assert!(!resp.delete_file);
    let decoded = decode_entries(&resp.reply).expect("the reply must decode");
    assert_eq!(decoded.len(), before.len());
    for (a, b) in decoded.iter().zip(before.iter()) {
        assert!(entry_eq(a, b));
    }
    // The query is read-only.
    assert_eq!(h.len(), before.len());
}

#[test]
fn reset_history_empties_and_asks_for_the_file_to_go() {
    let mut h = sample_history();
    let resp = handle_ui_request(&mut h, "RESET_HISTORY\n");
    assert_eq!(resp.reply, "OK");
    assert!(resp.delete_file);
    assert_eq!(h.len(), 0);
}

#[test]
fn unknown_commands_change_nothing() {
    let mut h = sample_history();
    let resp = handle_ui_request(&mut h, "FETCH_EVERYTHING");
    assert_eq!(resp.reply, "BAD_REQUEST");
    assert!(!resp.delete_file);
    assert_eq!(h.len(), 2);
    assert!(h.contains(&text("newer")));
    assert!(h.contains(&text("older")));
}

#[test]
fn listener_success_resets_the_failure_streak() {
    let (count, verdict) = listener_step(3, true);
    assert_eq!(count, 0);
    assert!(matches!(verdict, ListenerVerdict::Continue));
}

#[test]
fn listener_failures_retry_until_the_cap_is_fatal() {
    let mut failures: u32 = 0;
    for _ in 0..STREAM_MAX_RETRIES - 1 {
        let (count, verdict) = listener_step(failures, false);
        assert_eq!(count, failures + 1);
        assert!(matches!(verdict, ListenerVerdict::RetryAfterDelay));
        failures = count;
    }
    let (count, verdict) = listener_step(failures, false);
    assert_eq!(count, STREAM_MAX_RETRIES);
    assert!(matches!(verdict, ListenerVerdict::Fatal));
}

#[test]
fn push_attempts_stop_on_success_or_exhaustion() {
    assert!(matches!(push_step(0, true), PushStep::Done));
    assert!(matches!(push_step(3, true), PushStep::Done));
    assert!(matches!(push_step(0, false), PushStep::Retry));
    assert!(matches!(push_step(STREAM_MAX_RETRIES - 1, false), PushStep::GiveUp));
}
