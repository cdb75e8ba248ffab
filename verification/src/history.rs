//! The history store: an ordered, bounded, deduplicated list of entries,
//! most recent first. It owns the mutation rules (insert at the front, cap
//! the length by evicting the oldest, clear) and performs no I/O.

use vstd::prelude::*;

use crate::entry::ClipboardHistoryEntry;
use crate::entry::EntryModel;

verus! {

/// The cap on how many entries the history may hold.
pub const MAX_HISTORY_LENGTH: usize = 100;

/// The model of a sequence of stored entries: each exec entry viewed.
pub open spec fn entries_view(v: Seq<ClipboardHistoryEntry>) -> Seq<EntryModel> {
    Seq::new(v.len(), |i: int| v[i]@)
}

/// The store's invariant: bounded length and no two structurally equal
/// entries anywhere in the list.
pub open spec fn history_wf(h: Seq<EntryModel>) -> bool {
    &&& h.len() <= MAX_HISTORY_LENGTH
    &&& forall|i: int, j: int| 0 <= i < j < h.len() ==> h[i] != h[j]
}

/// What one insertion does to the model: a no-op when the entry is already
/// present anywhere in the list; otherwise the entry is prepended and, when
/// the cap is exceeded, the oldest (last) element is dropped.
pub open spec fn spec_insert_front(h: Seq<EntryModel>, e: EntryModel) -> Seq<EntryModel> {
    if h.contains(e) {
        h
    } else {
        let g = seq![e] + h;
        if g.len() > MAX_HISTORY_LENGTH {
            g.drop_last()
        } else {
            g
        }
    }
}

/// The in-memory clipboard history. Exclusive access is the caller's
/// concern: the store itself is pure data plus invariant enforcement.
pub struct History {
    entries: Vec<ClipboardHistoryEntry>,
}

impl View for History {
    type V = Seq<EntryModel>;

    closed spec fn view(&self) -> Seq<EntryModel> {
        entries_view(self.entries@)
    }
}

impl History {
    pub open spec fn wf(&self) -> bool {
        history_wf(self@)
    }

    /// An empty history.
    pub fn new() -> (h: History)
        ensures
            h@ == Seq::<EntryModel>::empty(),
            h.wf(),
    {
        let h = History { entries: Vec::new() };
        proof {
            assert(h@ =~= Seq::<EntryModel>::empty());
        }
        h
    }

    /// A history holding exactly the given entries, newest first. Used when
    /// a persisted snapshot is brought back; the list is taken as it is.
    pub fn from_entries(entries: Vec<ClipboardHistoryEntry>) -> (h: History)
        ensures
            h@ == entries_view(entries@),
    {
        History { entries }
    }

    pub fn len(&self) -> (n: usize)
        ensures
            n == self@.len(),
    {
        self.entries.len()
    }

    /// Whether a structurally equal entry is already anywhere in the list.
    pub fn contains(&self, entry: &ClipboardHistoryEntry) -> (r: bool)
        ensures
            r == self@.contains(entry@),
    {
        let n = self.entries.len();
        let mut i: usize = 0;
        while i < n
            invariant
                n == self.entries@.len(),
                i <= n,
                forall|k: int| 0 <= k < i ==> self@[k] != entry@,
            decreases n - i,
        {
            if crate::entry::entry_eq(&self.entries[i], entry) {
                proof {
                    assert(self@[i as int] == entry@);
                }
                return true;
            }
            i = i + 1;
        }
        proof {
            assert(forall|k: int| 0 <= k < self@.len() ==> self@[k] != entry@);
        }
        false
    }

    /// Insert an entry at the front unless an equal one is already present;
    /// when the cap is exceeded, evict the oldest (last) element. Returns
    /// whether an insertion actually happened, so the caller can decide
    /// whether to persist and push.
    pub fn insert_front(&mut self, entry: ClipboardHistoryEntry) -> (inserted: bool)
        ensures
            final(self)@ == spec_insert_front(old(self)@, entry@),
            inserted == !old(self)@.contains(entry@),
            old(self).wf() ==> final(self).wf(),
    {
        proof {
            if old(self).wf() {
                lemma_insert_front_preserves_invariant(old(self)@, entry@);
            }
        }
        if self.contains(&entry) {
            return false;
        }
        let ghost e = entry@;
        let ghost h0 = self@;
        self.entries.insert(0, entry);
        proof {
            assert(self@ =~= seq![e] + h0);
        }
        if self.entries.len() > MAX_HISTORY_LENGTH {
            let ghost g = self@;
            self.entries.pop();
            proof {
                assert(self@ =~= g.drop_last());
            }
        }
        true
    }

    /// Empty the list unconditionally.
    pub fn clear(&mut self)
        ensures
            final(self)@ == Seq::<EntryModel>::empty(),
            final(self).wf(),
    {
        self.entries.clear();
        proof {
            assert(self@ =~= Seq::<EntryModel>::empty());
        }
    }

    /// A copy of the current list, for serialization or display.
    pub fn snapshot(&self) -> (r: Vec<ClipboardHistoryEntry>)
        ensures
            entries_view(r@) == self@,
    {
        let n = self.entries.len();
        let mut out: Vec<ClipboardHistoryEntry> = Vec::new();
        let mut i: usize = 0;
        while i < n
            invariant
                n == self.entries@.len(),
                i <= n,
                out@.len() == i,
                forall|k: int| 0 <= k < i ==> out@[k]@ == self@[k],
            decreases n - i,
        {
            out.push(self.entries[i].clone());
            i = i + 1;
        }
        proof {
            assert(entries_view(out@) =~= self@);
        }
        out
    }
}

/// One insertion keeps the invariant: the result stays bounded by the cap
/// and free of duplicates, and when the cap forces an eviction it is the
/// oldest (last) element that is dropped.
pub proof fn lemma_insert_front_preserves_invariant(h: Seq<EntryModel>, e: EntryModel)
    requires
        history_wf(h),
    ensures
        history_wf(spec_insert_front(h, e)),
        !h.contains(e) && h.len() == MAX_HISTORY_LENGTH ==> spec_insert_front(h, e) == seq![e]
            + h.drop_last(),
        !h.contains(e) && h.len() < MAX_HISTORY_LENGTH ==> spec_insert_front(h, e) == seq![e] + h,
        h.contains(e) ==> spec_insert_front(h, e) == h,
{
    if !h.contains(e) {
        let g = seq![e] + h;
        if g.len() > MAX_HISTORY_LENGTH {
            let r = g.drop_last();
            assert(forall|i: int| 0 <= i < h.len() ==> g[i + 1] == h[i]);
            assert(forall|i: int, j: int| 0 <= i < j < r.len() ==> r[i] != r[j]) by {
                assert(forall|i: int| 0 <= i < h.len() ==> h.contains(h[i]));
            }
        } else {
            assert(forall|i: int, j: int| 0 <= i < j < g.len() ==> g[i] != g[j]) by {
                assert(forall|i: int| 0 <= i < h.len() ==> h.contains(h[i]));
            }
        }
    }
}

/// Inserting the same entry again changes nothing: a clipboard that
/// stays the same across poll ticks is stored, and pushed, only once.
pub proof fn lemma_insert_front_idempotent(h: Seq<EntryModel>, e: EntryModel)
    ensures
        spec_insert_front(spec_insert_front(h, e), e) == spec_insert_front(h, e),
{
    let r = spec_insert_front(h, e);
    if h.contains(e) {
    } else {
        let g = seq![e] + h;
        assert(r[0] == e);
        assert(r.contains(e));
    }
}

/// One mutation of the history, as seen by the store.
pub ghost enum HistoryOp {
    Insert(EntryModel),
    Clear,
}

/// The model of one mutation applied to a history.
pub open spec fn apply_op(h: Seq<EntryModel>, op: HistoryOp) -> Seq<EntryModel> {
    match op {
        HistoryOp::Insert(e) => spec_insert_front(h, e),
        HistoryOp::Clear => Seq::empty(),
    }
}

/// The model of a whole sequence of mutations, applied in order.
pub open spec fn apply_ops(h: Seq<EntryModel>, ops: Seq<HistoryOp>) -> Seq<EntryModel>
    decreases ops.len(),
{
    if ops.len() == 0 {
        h
    } else {
        apply_ops(apply_op(h, ops.first()), ops.drop_first())
    }
}

/// Any sequence of inserts and clears, starting from a history that meets
/// the invariant, leaves a history that meets it: never a duplicate entry,
/// never more than the cap.
pub proof fn lemma_ops_preserve_invariant(h: Seq<EntryModel>, ops: Seq<HistoryOp>)
    requires
        history_wf(h),
    ensures
        history_wf(apply_ops(h, ops)),
    decreases ops.len(),
{
    if ops.len() > 0 {
        match ops.first() {
            HistoryOp::Insert(e) => {
                lemma_insert_front_preserves_invariant(h, e);
            },
            HistoryOp::Clear => {
            },
        }
        lemma_ops_preserve_invariant(apply_op(h, ops.first()), ops.drop_first());
    }
}

/// Every entry a history actually holds is bounded: its dimensions came
/// from machine words.
pub proof fn lemma_history_entries_bounded(h: &History)
    ensures
        forall|i: int| 0 <= i < h@.len() ==> crate::codec::entry_bounded(#[trigger] h@[i]),
{
    assert forall|i: int| 0 <= i < h@.len() implies crate::codec::entry_bounded(h@[i]) by {
        assert(h@[i] == h.entries@[i]@);
        match h.entries@[i] {
            ClipboardHistoryEntry::Text(_) => {},
            ClipboardHistoryEntry::Image(img) => {
                assert(img@.width <= usize::MAX);
            },
        }
    }
}

} // verus!
