//! The entry model: the tagged value stored in history (text or image) and
//! its structural equality, which drives deduplication.

use vstd::prelude::*;

verus! {

/// Mathematical model of a raw raster image: dimensions and pixel bytes.
#[verifier::ext_equal]
pub ghost struct ImageModel {
    pub width: nat,
    pub height: nat,
    pub bytes: Seq<u8>,
}

/// Mathematical model of one history entry: tagged text or image.
#[verifier::ext_equal]
pub ghost enum EntryModel {
    Text(Seq<char>),
    Image(ImageModel),
}

/// A raw image taken from the clipboard. `bytes` is expected to hold
/// `width * height * 4` bytes (4 bytes per pixel) when the entry is written
/// back out to the clipboard; the history store itself does not enforce this.
pub struct ClipboardImageEntry {
    pub width: usize,
    pub height: usize,
    pub bytes: Vec<u8>,
}

/// One clipboard snapshot held in history: plain text or a raw image.
pub enum ClipboardHistoryEntry {
    Text(String),
    Image(ClipboardImageEntry),
}

impl View for ClipboardImageEntry {
    type V = ImageModel;

    open spec fn view(&self) -> ImageModel {
        ImageModel { width: self.width as nat, height: self.height as nat, bytes: self.bytes@ }
    }
}

impl View for ClipboardHistoryEntry {
    type V = EntryModel;

    open spec fn view(&self) -> EntryModel {
        match self {
            ClipboardHistoryEntry::Text(s) => EntryModel::Text(s@),
            ClipboardHistoryEntry::Image(img) => EntryModel::Image(img@),
        }
    }
}

impl Clone for ClipboardImageEntry {
    fn clone(&self) -> (r: Self)
        ensures
            r@ == self@,
    {
        ClipboardImageEntry { width: self.width, height: self.height, bytes: self.bytes.clone() }
    }
}

impl Clone for ClipboardHistoryEntry {
    fn clone(&self) -> (r: Self)
        ensures
            r@ == self@,
    {
        match self {
            ClipboardHistoryEntry::Text(s) => ClipboardHistoryEntry::Text(s.clone()),
            ClipboardHistoryEntry::Image(img) => ClipboardHistoryEntry::Image(img.clone()),
        }
    }
}

/// Structural equality of two byte buffers.
fn bytes_eq(a: &Vec<u8>, b: &Vec<u8>) -> (r: bool)
    ensures
        r == (a@ == b@),
{
    if a.len() != b.len() {
        return false;
    }
    let n = a.len();
    let mut i: usize = 0;
    while i < n
        invariant
            n == a.len() == b.len(),
            i <= n,
            forall|k: int| 0 <= k < i ==> a@[k] == b@[k],
        decreases n - i,
    {
        if a[i] != b[i] {
            return false;
        }
        i = i + 1;
    }
    proof {
        assert(a@ =~= b@);
    }
    true
}

/// Structural equality of two entries: same variant and same content.
/// This is the comparison the history store deduplicates by.
pub fn entry_eq(a: &ClipboardHistoryEntry, b: &ClipboardHistoryEntry) -> (r: bool)
    ensures
        r == (a@ == b@),
{
    match (a, b) {
        (ClipboardHistoryEntry::Text(s), ClipboardHistoryEntry::Text(t)) => s.eq(t),
        (ClipboardHistoryEntry::Image(x), ClipboardHistoryEntry::Image(y)) => {
            x.width == y.width && x.height == y.height && bytes_eq(&x.bytes, &y.bytes)
        },
        _ => false,
    }
}

} // verus!
