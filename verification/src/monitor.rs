//! The decisions of the clipboard monitor's poll tick: which clipboard
//! sample becomes a candidate entry, and what one tick does to the
//! history. Reading the clipboard itself, and the pushing and saving that
//! follow an insertion, are the caller's I/O.

use vstd::prelude::*;

use crate::entry::ClipboardHistoryEntry;
use crate::entry::ClipboardImageEntry;
use crate::entry::EntryModel;
use crate::entry::ImageModel;
use crate::history::History;
use crate::history::spec_insert_front;
use crate::text::chars_of;
use crate::text::spec_trim;
use crate::text::trim_range;

verus! {

pub open spec fn opt_text_view(t: Option<String>) -> Option<Seq<char>> {
    match t {
        Some(s) => Some(s@),
        None => None,
    }
}

pub open spec fn opt_image_view(im: Option<ClipboardImageEntry>) -> Option<ImageModel> {
    match im {
        Some(i) => Some(i@),
        None => None,
    }
}

/// Which entry one clipboard sample stands for: text when present and not
/// blank after trimming, else the image when present, else nothing new.
pub open spec fn spec_candidate(text: Option<Seq<char>>, image: Option<ImageModel>) -> Option<
    EntryModel,
> {
    match text {
        Some(t) => if spec_trim(t).len() > 0 {
            Some(EntryModel::Text(t))
        } else {
            match image {
                Some(im) => Some(EntryModel::Image(im)),
                None => None,
            }
        },
        None => match image {
            Some(im) => Some(EntryModel::Image(im)),
            None => None,
        },
    }
}

/// Whether a text is blank: nothing is left of it after trimming.
pub fn is_blank(s: &str) -> (r: bool)
    ensures
        r == (spec_trim(s@).len() == 0),
{
    let v = chars_of(s);
    let (a, b) = trim_range(&v);
    a == b
}

/// Turn one clipboard sample into the candidate entry, if any: non-blank
/// text wins over an image, and a sample with neither means nothing new
/// this tick.
pub fn candidate_entry(text: Option<String>, image: Option<ClipboardImageEntry>) -> (r: Option<
    ClipboardHistoryEntry,
>)
    ensures
        match r {
            Some(e) => spec_candidate(opt_text_view(text), opt_image_view(image)) == Some(e@),
            None => spec_candidate(opt_text_view(text), opt_image_view(image)) is None,
        },
{
    match text {
        Some(t) => {
            if !is_blank(t.as_str()) {
                Some(ClipboardHistoryEntry::Text(t))
            } else {
                match image {
                    Some(im) => Some(ClipboardHistoryEntry::Image(im)),
                    None => None,
                }
            }
        },
        None => {
            match image {
                Some(im) => Some(ClipboardHistoryEntry::Image(im)),
                None => None,
            }
        },
    }
}

/// What one poll tick does to the history: nothing without a candidate;
/// with one, the insert-at-front rule. The result says whether an
/// insertion actually happened, which is when the caller persists the
/// snapshot and pushes it to the presentation process.
pub fn monitor_tick(history: &mut History, candidate: Option<ClipboardHistoryEntry>) -> (inserted:
    bool)
    ensures
        candidate is None ==> final(history)@ == old(history)@ && !inserted,
        candidate matches Some(e) ==> final(history)@ == spec_insert_front(old(history)@, e@)
            && inserted == !old(history)@.contains(e@),
        old(history).wf() ==> final(history).wf(),
{
    match candidate {
        None => false,
        Some(e) => history.insert_front(e),
    }
}

} // verus!
