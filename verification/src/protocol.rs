//! The control protocol between the presentation process and the daemon:
//! classifying a received command, answering it against the history store,
//! and the bounded-failure rules of the listener and the pusher.

use vstd::prelude::*;

use crate::codec::spec_encode_history;
use crate::entry::EntryModel;
use crate::history::History;
use crate::persist::save_payload;
use crate::text::chars_of;
use crate::text::range_eq_lit;
use crate::text::spec_trim;
use crate::text::trim_range;

verus! {

/// How many times in a row a stream operation may fail before the
/// activity gives up: the pusher surfaces an error, the listener
/// escalates a fatal signal to its owner.
pub const STREAM_MAX_RETRIES: u32 = 5;

/// A command received from the presentation process.
pub enum UiRequest {
    GetHistory,
    ResetHistory,
    Other,
}

pub open spec fn get_history_lit() -> Seq<char> {
    seq!['G', 'E', 'T', '_', 'H', 'I', 'S', 'T', 'O', 'R', 'Y']
}

pub open spec fn reset_history_lit() -> Seq<char> {
    seq!['R', 'E', 'S', 'E', 'T', '_', 'H', 'I', 'S', 'T', 'O', 'R', 'Y']
}

/// What a received command means: an exact match on the trimmed text.
pub open spec fn spec_classify(s: Seq<char>) -> UiRequest {
    if spec_trim(s) == get_history_lit() {
        UiRequest::GetHistory
    } else if spec_trim(s) == reset_history_lit() {
        UiRequest::ResetHistory
    } else {
        UiRequest::Other
    }
}

/// Classify one received command by trimmed exact match.
pub fn classify_request(req: &str) -> (r: UiRequest)
    ensures
        r == spec_classify(req@),
{
    proof {
        reveal_strlit("GET_HISTORY");
        reveal_strlit("RESET_HISTORY");
        assert("GET_HISTORY"@ =~= get_history_lit());
        assert("RESET_HISTORY"@ =~= reset_history_lit());
    }
    let v = chars_of(req);
    let (a, b) = trim_range(&v);
    if range_eq_lit(&v, a, b, "GET_HISTORY") {
        UiRequest::GetHistory
    } else if range_eq_lit(&v, a, b, "RESET_HISTORY") {
        UiRequest::ResetHistory
    } else {
        UiRequest::Other
    }
}

/// The answer to one command: the text to write back, and whether the
/// persisted file must be deleted.
pub struct UiResponse {
    pub reply: String,
    pub delete_file: bool,
}

pub open spec fn ok_lit() -> Seq<char> {
    seq!['O', 'K']
}

pub open spec fn bad_request_lit() -> Seq<char> {
    seq!['B', 'A', 'D', '_', 'R', 'E', 'Q', 'U', 'E', 'S', 'T']
}

/// Answer one command against the history store, as the control listener
/// does: a query is read-only and replies with the encoded snapshot, a
/// reset empties the history, replies `OK` and asks for the file to go,
/// and anything else replies `BAD_REQUEST` and changes nothing.
pub fn handle_ui_request(history: &mut History, req: &str) -> (resp: UiResponse)
    ensures
        spec_classify(req@) is GetHistory ==> final(history)@ == old(history)@ && resp.reply@
            == spec_encode_history(old(history)@) && !resp.delete_file,
        spec_classify(req@) is ResetHistory ==> final(history)@ == Seq::<EntryModel>::empty()
            && resp.reply@ == ok_lit() && resp.delete_file,
        spec_classify(req@) is Other ==> final(history)@ == old(history)@ && resp.reply@
            == bad_request_lit() && !resp.delete_file,
        old(history).wf() ==> final(history).wf(),
{
    match classify_request(req) {
        UiRequest::GetHistory => {
            let payload = save_payload(history);
            UiResponse { reply: payload, delete_file: false }
        },
        UiRequest::ResetHistory => {
            history.clear();
            let reply = String::from_str("OK");
            proof {
                reveal_strlit("OK");
                assert("OK"@ =~= ok_lit());
            }
            UiResponse { reply, delete_file: true }
        },
        UiRequest::Other => {
            let reply = String::from_str("BAD_REQUEST");
            proof {
                reveal_strlit("BAD_REQUEST");
                assert("BAD_REQUEST"@ =~= bad_request_lit());
            }
            UiResponse { reply, delete_file: false }
        },
    }
}

/// What the listener does after one handled connection.
pub enum ListenerVerdict {
    /// The connection was handled; the failure streak is over.
    Continue,
    /// The connection failed; wait briefly and serve the next one.
    RetryAfterDelay,
    /// Too many consecutive failures: the listener must stop for good,
    /// and its owner decides what becomes of the process.
    Fatal,
}

/// Advance the listener's consecutive-failure count after one connection:
/// a success resets the streak, a failure lengthens it, and the streak
/// reaching the retry cap is fatal for the listener.
pub fn listener_step(consecutive_failures: u32, ok: bool) -> (r: (u32, ListenerVerdict))
    requires
        consecutive_failures < STREAM_MAX_RETRIES,
    ensures
        ok ==> r.0 == 0 && r.1 is Continue,
        !ok ==> r.0 == consecutive_failures + 1,
        !ok && consecutive_failures + 1 < STREAM_MAX_RETRIES ==> r.1 is RetryAfterDelay,
        !ok && consecutive_failures + 1 >= STREAM_MAX_RETRIES ==> r.1 is Fatal,
{
    if ok {
        (0, ListenerVerdict::Continue)
    } else {
        let next = consecutive_failures + 1;
        if next >= STREAM_MAX_RETRIES {
            (next, ListenerVerdict::Fatal)
        } else {
            (next, ListenerVerdict::RetryAfterDelay)
        }
    }
}

/// What the pusher does after one write attempt.
pub enum PushStep {
    /// The write went through: the push is done.
    Done,
    /// The write failed and attempts remain: wait briefly and retry.
    Retry,
    /// The write failed for the last allowed time: surface the error.
    GiveUp,
}

/// Decide the pusher's next move after write attempt number `attempt`
/// (counted from zero) came back.
pub fn push_step(attempt: u32, write_ok: bool) -> (r: PushStep)
    requires
        attempt < STREAM_MAX_RETRIES,
    ensures
        write_ok ==> r is Done,
        !write_ok && attempt + 1 < STREAM_MAX_RETRIES ==> r is Retry,
        !write_ok && attempt + 1 >= STREAM_MAX_RETRIES ==> r is GiveUp,
{
    if write_ok {
        PushStep::Done
    } else if attempt + 1 >= STREAM_MAX_RETRIES {
        PushStep::GiveUp
    } else {
        PushStep::Retry
    }
}

/// The reply to a query is faithful: decoding the payload sent for
/// `GET_HISTORY` gives exactly the snapshot it was made from.
pub proof fn lemma_reply_decodes_to_snapshot(history: &History)
    ensures
        crate::codec::spec_decode_history(spec_encode_history(history@)) == Some(history@),
{
    crate::history::lemma_history_entries_bounded(history);
    crate::roundtrip::lemma_round_trip(history@);
}

} // verus!
