//! Persistence of the history, short of the file itself: what is written
//! is the tagged encoding of the current snapshot, and what was read back
//! is decoded under the tagged encoding first, then under the legacy
//! encoding with every string wrapped as a text entry, and falls back to
//! an empty history when neither fits or the file is missing. A corrupt
//! or missing history file never stops the daemon from starting.

use vstd::prelude::*;

use crate::codec::encode_entries;
use crate::codec::spec_decode_history;
use crate::codec::spec_decode_legacy;
use crate::codec::spec_encode_history;
use crate::entry::ClipboardHistoryEntry;
use crate::entry::EntryModel;
use crate::history::History;
use crate::history::entries_view;
use crate::parse::decode_entries;
use crate::parse::decode_legacy;
use crate::parse::strings_view;

verus! {

/// Every legacy string as a text entry, in the original order.
pub open spec fn wrap_legacy_model(ss: Seq<Seq<char>>) -> Seq<EntryModel> {
    ss.map_values(|t: Seq<char>| EntryModel::Text(t))
}

/// What loading given file content yields: the tagged decoding when it
/// fits, else the migrated legacy decoding, else an empty history; a
/// missing file yields an empty history.
pub open spec fn spec_load(content: Option<Seq<char>>) -> Seq<EntryModel> {
    match content {
        None => Seq::empty(),
        Some(s) => match spec_decode_history(s) {
            Some(h) => h,
            None => match spec_decode_legacy(s) {
                Some(ss) => wrap_legacy_model(ss),
                None => Seq::empty(),
            },
        },
    }
}

/// Wrap decoded legacy strings as text entries.
pub fn wrap_legacy(ss: Vec<String>) -> (r: Vec<ClipboardHistoryEntry>)
    ensures
        entries_view(r@) == wrap_legacy_model(strings_view(ss@)),
{
    let n = ss.len();
    let mut out: Vec<ClipboardHistoryEntry> = Vec::new();
    let mut i: usize = 0;
    while i < n
        invariant
            n == ss@.len(),
            i <= n,
            out@.len() == i,
            forall|k: int| 0 <= k < i ==> out@[k]@ == EntryModel::Text(ss@[k]@),
        decreases n - i,
    {
        let t = ss[i].clone();
        out.push(ClipboardHistoryEntry::Text(t));
        i = i + 1;
    }
    proof {
        assert(entries_view(out@) =~= wrap_legacy_model(strings_view(ss@)));
    }
    out
}

/// Bring a persisted history back from the file's content, `None` standing
/// for a missing or unreadable file. Never fails: whatever does not parse
/// yields an empty history.
pub fn load_history(content: Option<&str>) -> (h: History)
    ensures
        content is None ==> h@ == Seq::<EntryModel>::empty(),
        content matches Some(s) ==> h@ == spec_load(Some(s@)),
{
    match content {
        None => History::new(),
        Some(s) => {
            match decode_entries(s) {
                Some(es) => History::from_entries(es),
                None => {
                    match decode_legacy(s) {
                        Some(ss) => History::from_entries(wrap_legacy(ss)),
                        None => History::new(),
                    }
                },
            }
        },
    }
}

/// The exact text that belongs in the history file for this snapshot.
pub fn save_payload(h: &History) -> (s: String)
    ensures
        s@ == spec_encode_history(h@),
{
    let snap = h.snapshot();
    encode_entries(&snap)
}

/// Saving a history and loading it back gives the same history, whole,
/// for any entries whose dimensions fit the machine word.
pub proof fn lemma_save_load_round_trip(h: Seq<EntryModel>)
    requires
        forall|i: int| 0 <= i < h.len() ==> crate::codec::entry_bounded(#[trigger] h[i]),
    ensures
        spec_load(Some(spec_encode_history(h))) == h,
{
    crate::roundtrip::lemma_round_trip(h);
}

/// A file holding a legacy string list loads as exactly those strings
/// wrapped as text entries, in their original order: the one-shot
/// migration loses nothing and invents nothing.
pub proof fn lemma_legacy_migration(ss: Seq<Seq<char>>)
    ensures
        spec_load(Some(crate::codec::spec_encode_legacy(ss))) == wrap_legacy_model(ss),
{
    crate::roundtrip::lemma_legacy_round_trip(ss);
    if ss.len() == 0 {
        assert(spec_decode_history(crate::codec::spec_encode_legacy(ss)) == Some(Seq::<
            EntryModel,
        >::empty())) by {
            crate::roundtrip::lemma_round_trip(Seq::<EntryModel>::empty());
            assert(spec_encode_history(Seq::<EntryModel>::empty())
                =~= crate::codec::spec_encode_legacy(ss));
        }
        assert(wrap_legacy_model(ss) =~= Seq::<EntryModel>::empty());
    } else {
        crate::roundtrip::lemma_tagged_rejects_legacy(ss);
    }
}

} // verus!
