//! The presentation process's state around its cached copy of the
//! history: filling and clearing the cache from received payloads,
//! preference toggling, preview texts and the last-action notice. The
//! sockets, the preference store and the rendering stay with the caller.

use vstd::prelude::*;

use crate::codec::spec_decode_history;
use crate::codec::spec_decode_legacy;
use crate::config::ClippoConfig;
use crate::entry::ClipboardHistoryEntry;
use crate::entry::EntryModel;
use crate::history::entries_view;
use crate::parse::decode_entries;
use crate::parse::decode_legacy;
use crate::persist::wrap_legacy;
use crate::persist::wrap_legacy_model;
use crate::text::chars_of;
use crate::text::dec_seq;
use crate::text::push_dec;
use crate::text::push_str_chars;
use crate::text::str_eq;
use crate::text::string_of;

verus! {

/// A received history payload matched neither the tagged nor the legacy
/// encoding.
#[derive(Debug)]
pub enum PayloadError {
    Malformed,
}

/// The presentation process's state: its cached copy of the history and
/// the user-interface flags around it. The cache is only ever a copy
/// received over the wire, never the daemon's live list.
pub struct ClippoApp {
    pub history_cache: Vec<ClipboardHistoryEntry>,
    pub search_query: String,
    pub config: ClippoConfig,
    pub style_needs_update: bool,
    pub last_action: Option<(String, u64)>,
    pub confirm_clear: bool,
    pub search_focus_requested: bool,
    pub selected_entry_index: Option<usize>,
}

/// The two states agree on everything but the history cache.
pub open spec fn same_but_cache(a: ClippoApp, b: ClippoApp) -> bool {
    &&& a.search_query == b.search_query
    &&& a.config == b.config
    &&& a.style_needs_update == b.style_needs_update
    &&& a.last_action == b.last_action
    &&& a.confirm_clear == b.confirm_clear
    &&& a.search_focus_requested == b.search_focus_requested
    &&& a.selected_entry_index == b.selected_entry_index
}

/// How one character of a preview flattens: a newline becomes a space, a
/// carriage return goes, anything else stands.
pub open spec fn flat_char(c: char) -> Seq<char> {
    if c == '\n' {
        seq![' ']
    } else if c == '\r' {
        Seq::empty()
    } else {
        seq![c]
    }
}

pub open spec fn flatten_text(t: Seq<char>) -> Seq<char>
    decreases t.len(),
{
    if t.len() == 0 {
        Seq::empty()
    } else {
        flat_char(t.first()) + flatten_text(t.drop_first())
    }
}

proof fn lemma_flatten_snoc(t: Seq<char>, c: char)
    ensures
        flatten_text(t.push(c)) == flatten_text(t) + flat_char(c),
    decreases t.len(),
{
    if t.len() == 0 {
        assert(t.push(c).len() == 1);
        assert(t.push(c).first() == c);
        assert(t.push(c).drop_first() =~= Seq::<char>::empty());
        assert(flatten_text(Seq::<char>::empty()) == Seq::<char>::empty());
        assert(flatten_text(t.push(c)) == flat_char(c) + Seq::<char>::empty());
        assert(flat_char(c) + Seq::<char>::empty() =~= flat_char(c));
        assert(flatten_text(t) + flat_char(c) =~= flat_char(c));
    } else {
        assert(t.push(c).first() == t.first());
        assert(t.push(c).drop_first() =~= t.drop_first().push(c));
        lemma_flatten_snoc(t.drop_first(), c);
        assert(flatten_text(t.push(c)) =~= flatten_text(t) + flat_char(c));
    }
}

/// The one-line preview of an entry: flattened text cut at the display
/// cap with an ellipsis, or the image's dimensions.
pub open spec fn spec_preview(max: nat, e: EntryModel) -> Seq<char> {
    match e {
        EntryModel::Text(t) => {
            let f = flatten_text(t);
            if f.len() > max {
                f.take(max as int) + seq!['.', '.', '.']
            } else {
                f
            }
        },
        EntryModel::Image(im) => seq!['I', 'm', 'a', 'g', 'e', ' ', '('] + dec_seq(im.width)
            + seq!['x'] + dec_seq(im.height) + seq![')'],
    }
}

/// Whether a preference name is one the preferences screen may toggle.
pub open spec fn spec_allowed_setting(s: Seq<char>) -> bool {
    ||| s == "minimize_on_copy"@
    ||| s == "exit_on_copy"@
    ||| s == "minimize_on_clear"@
    ||| s == "dark_mode"@
    ||| s == "max_entry_display_length"@
    ||| s == "enable_search"@
}

impl ClippoApp {
    /// A fresh presentation state over the given preferences: an empty
    /// cache, no search, no pending notice or selection.
    pub fn new(config: ClippoConfig) -> (app: Self)
        ensures
            app.history_cache@.len() == 0,
            app.search_query@.len() == 0,
            app.config == config,
            app.style_needs_update,
            app.last_action is None,
            !app.confirm_clear,
            !app.search_focus_requested,
            app.selected_entry_index is None,
    {
        ClippoApp {
            history_cache: Vec::new(),
            search_query: String::new(),
            config,
            style_needs_update: true,
            last_action: None,
            confirm_clear: false,
            search_focus_requested: false,
            selected_entry_index: None,
        }
    }

    /// Decode one received history payload: the tagged shape first, then
    /// the legacy string list with each string wrapped as a text entry.
    pub fn parse_history_payload(payload: &str) -> (r: Result<
        Vec<ClipboardHistoryEntry>,
        PayloadError,
    >)
        ensures
            spec_decode_history(payload@) matches Some(h) ==> r matches Ok(es) && entries_view(es@)
                == h,
            spec_decode_history(payload@) is None ==> (spec_decode_legacy(payload@) matches Some(
                ss,
            ) ==> r matches Ok(es) && entries_view(es@) == wrap_legacy_model(ss)),
            spec_decode_history(payload@) is None && spec_decode_legacy(payload@) is None ==> (r
                matches Err(e) && e == PayloadError::Malformed),
    {
        match decode_entries(payload) {
            Some(es) => Ok(es),
            None => {
                match decode_legacy(payload) {
                    Some(ss) => Ok(wrap_legacy(ss)),
                    None => Err(PayloadError::Malformed),
                }
            },
        }
    }

    /// Fill the cache from the reply to the initial history request, or
    /// empty it when no reply could be had. A malformed reply leaves the
    /// cache as it was and surfaces the error.
    pub fn fill_initial_history(&mut self, response: Option<&str>) -> (r: Result<(), PayloadError>)
        ensures
            same_but_cache(*final(self), *old(self)),
            response is None ==> r is Ok && final(self).history_cache@.len() == 0,
            response matches Some(s) ==> {
                &&& spec_decode_history(s@) matches Some(h) ==> r is Ok && entries_view(
                    final(self).history_cache@,
                ) == h
                &&& spec_decode_history(s@) is None ==> (spec_decode_legacy(s@) matches Some(ss)
                    ==> r is Ok && entries_view(final(self).history_cache@) == wrap_legacy_model(
                    ss,
                ))
                &&& spec_decode_history(s@) is None && spec_decode_legacy(s@) is None ==> r is Err
                    && final(self).history_cache == old(self).history_cache
            },
    {
        match response {
            None => {
                self.history_cache = Vec::new();
                Ok(())
            },
            Some(s) => {
                match Self::parse_history_payload(s) {
                    Ok(es) => {
                        self.history_cache = es;
                        Ok(())
                    },
                    Err(e) => Err(e),
                }
            },
        }
    }

    /// Empty the cached copy of the history. Asking the daemon to reset
    /// its own history is the caller's request to make.
    pub fn clear_history(&mut self)
        ensures
            same_but_cache(*final(self), *old(self)),
            final(self).history_cache@.len() == 0,
    {
        self.history_cache = Vec::new();
    }

    /// Record a short notice for the user, stamped with the caller's
    /// clock reading in milliseconds.
    pub fn set_last_action(&mut self, message: String, now_ms: u64)
        ensures
            final(self).last_action matches Some(p) && p.0 == message && p.1 == now_ms,
            final(self).history_cache == old(self).history_cache,
            final(self).search_query == old(self).search_query,
            final(self).config == old(self).config,
            final(self).style_needs_update == old(self).style_needs_update,
            final(self).confirm_clear == old(self).confirm_clear,
            final(self).search_focus_requested == old(self).search_focus_requested,
            final(self).selected_entry_index == old(self).selected_entry_index,
    {
        self.last_action = Some((message, now_ms));
    }

    /// Whether a preference name may be toggled from the preferences
    /// screen; only then does the caller store the configuration.
    pub fn toggle_config_field(&mut self, field_name: &str) -> (accepted: bool)
        ensures
            accepted == spec_allowed_setting(field_name@),
            *final(self) == *old(self),
    {
        str_eq(field_name, "minimize_on_copy") || str_eq(field_name, "exit_on_copy") || str_eq(
            field_name,
            "minimize_on_clear",
        ) || str_eq(field_name, "dark_mode") || str_eq(field_name, "max_entry_display_length")
            || str_eq(field_name, "enable_search")
    }

    /// The one-line preview of an entry for the history list: text is
    /// flattened to one line and cut at the configured cap with an
    /// ellipsis; an image shows as its dimensions.
    pub fn preview_entry(&self, value: &ClipboardHistoryEntry) -> (r: String)
        ensures
            r@ == spec_preview(self.config.max_entry_display_length as nat, value@),
    {
        match value {
            ClipboardHistoryEntry::Text(text) => {
                let cs = chars_of(text.as_str());
                let n = cs.len();
                let mut flat: Vec<char> = Vec::new();
                let mut i: usize = 0;
                while i < n
                    invariant
                        n == cs@.len(),
                        i <= n,
                        flat@ == flatten_text(cs@.take(i as int)),
                    decreases n - i,
                {
                    let c = cs[i];
                    if c == '\n' {
                        flat.push(' ');
                    } else if c == '\r' {
                    } else {
                        flat.push(c);
                    }
                    proof {
                        assert(cs@.take(i + 1) =~= cs@.take(i as int).push(cs@[i as int]));
                        lemma_flatten_snoc(cs@.take(i as int), cs@[i as int]);
                        assert(flat@ =~= flatten_text(cs@.take(i + 1)));
                    }
                    i = i + 1;
                }
                proof {
                    assert(cs@.take(n as int) =~= cs@);
                }
                let max = self.config.max_entry_display_length;
                if flat.len() > max {
                    let ghost full = flat@;
                    flat.truncate(max);
                    proof {
                        assert(flat@ =~= full.take(max as int));
                    }
                    push_str_chars(&mut flat, "...");
                    proof {
                        reveal_strlit("...");
                        assert("..."@ =~= seq!['.', '.', '.']);
                    }
                }
                string_of(&flat)
            },
            ClipboardHistoryEntry::Image(img) => {
                let mut out: Vec<char> = Vec::new();
                push_str_chars(&mut out, "Image (");
                push_dec(&mut out, img.width);
                out.push('x');
                push_dec(&mut out, img.height);
                out.push(')');
                proof {
                    reveal_strlit("Image (");
                    assert("Image ("@ =~= seq!['I', 'm', 'a', 'g', 'e', ' ', '(']);
                    assert(out@ =~= spec_preview(
                        self.config.max_entry_display_length as nat,
                        value@,
                    ));
                }
                string_of(&out)
            },
        }
    }
}

/// How many times a clipboard write is attempted while the OS clipboard
/// is held by someone else.
pub const CLIPBOARD_WRITE_RETRIES: u32 = 6;

/// Why an entry may not be written back to the OS clipboard.
#[derive(Debug)]
pub enum ImageBufferError {
    /// The dimensions are too large: width * height * 4 does not fit the
    /// machine word.
    Oversized,
    /// The buffer holds a different number of bytes than the dimensions
    /// call for.
    WrongLength,
}

/// The check made right before an entry is written back to the OS
/// clipboard: a text always passes, an image only when its buffer holds
/// exactly width * height * 4 bytes (4 bytes per pixel).
pub fn validate_clipboard_entry(value: &ClipboardHistoryEntry) -> (r: Result<
    (),
    ImageBufferError,
>)
    ensures
        match value@ {
            EntryModel::Text(_) => r is Ok,
            EntryModel::Image(im) => {
                &&& r is Ok <==> im.width * im.height * 4 == im.bytes.len()
                &&& (r matches Err(e) && e is Oversized) <==> im.width * im.height * 4
                    > usize::MAX
                &&& (r matches Err(e) && e is WrongLength) <==> (im.width * im.height * 4
                    <= usize::MAX && im.width * im.height * 4 != im.bytes.len())
            },
        },
{
    match value {
        ClipboardHistoryEntry::Text(_) => Ok(()),
        ClipboardHistoryEntry::Image(img) => {
            let len = img.bytes.len();
            proof {
                assert(img.width as nat * img.height as nat <= 0xffff_ffff_ffff_ffff
                    * 0xffff_ffff_ffff_ffff) by (nonlinear_arith)
                    requires
                        img.width as nat <= 0xffff_ffff_ffff_ffff,
                        img.height as nat <= 0xffff_ffff_ffff_ffff,
                ;
            }
            let pixels: u128 = img.width as u128 * img.height as u128;
            if pixels > usize::MAX as u128 {
                proof {
                    assert(img.width as nat * img.height as nat * 4 >= img.width as nat
                        * img.height as nat);
                }
                return Err(ImageBufferError::Oversized);
            }
            let expected: u128 = pixels * 4;
            if expected > usize::MAX as u128 {
                return Err(ImageBufferError::Oversized);
            }
            if len as u128 == expected {
                Ok(())
            } else {
                Err(ImageBufferError::WrongLength)
            }
        },
    }
}

/// The outcome of one attempt to write a value to the OS clipboard.
pub enum CopyAttemptOutcome {
    /// The value went through.
    Written,
    /// The clipboard was held by someone else: worth a brief wait.
    ClipboardOccupied,
    /// Any other failure: retrying will not help.
    OtherFailure,
}

/// What the write loop does next.
pub enum CopyStep {
    Done,
    RetryAfterDelay,
    Fail,
}

/// Decide the clipboard write loop's next move after attempt number
/// `attempt` (counted from zero): only an occupied clipboard is retried,
/// a bounded number of times; any other failure ends the loop at once.
pub fn copy_step(attempt: u32, outcome: &CopyAttemptOutcome) -> (r: CopyStep)
    requires
        attempt < CLIPBOARD_WRITE_RETRIES,
    ensures
        outcome is Written ==> r is Done,
        outcome is ClipboardOccupied && attempt + 1 < CLIPBOARD_WRITE_RETRIES ==> r
            is RetryAfterDelay,
        outcome is ClipboardOccupied && attempt + 1 >= CLIPBOARD_WRITE_RETRIES ==> r is Fail,
        outcome is OtherFailure ==> r is Fail,
{
    match outcome {
        CopyAttemptOutcome::Written => CopyStep::Done,
        CopyAttemptOutcome::ClipboardOccupied => {
            if attempt + 1 >= CLIPBOARD_WRITE_RETRIES {
                CopyStep::Fail
            } else {
                CopyStep::RetryAfterDelay
            }
        },
        CopyAttemptOutcome::OtherFailure => CopyStep::Fail,
    }
}

} // verus!
