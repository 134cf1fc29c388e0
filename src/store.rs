use vstd::prelude::*;
use crate::entry::{bytes_eq, views, Entry, EntryData, EntryView};
use crate::error::StorageError;

verus! {

/// The version of `key` that a reader at snapshot `ts` sees in `log`: the
/// entry of the highest version not above `ts`, the earliest such one where
/// several share that version.
pub open spec fn visible(log: Seq<EntryView>, key: Seq<u8>, ts: u64) -> Option<EntryView>
    decreases log.len(),
{
    if log.len() == 0 {
        None
    } else {
        let prev = visible(log.drop_last(), key, ts);
        let e = log.last();
        if e.key == key && e.version <= ts && (prev is None || prev->Some_0.version < e.version) {
            Some(e)
        } else {
            prev
        }
    }
}

/// A reader never sees a version above its snapshot, nor another key.
pub proof fn lemma_visible_bounded(log: Seq<EntryView>, key: Seq<u8>, ts: u64)
    ensures
        visible(log, key, ts) matches Some(e) ==> e.key == key && e.version <= ts
            && log.contains(e),
    decreases log.len(),
{
    if log.len() > 0 {
        lemma_visible_bounded(log.drop_last(), key, ts);
        if visible(log.drop_last(), key, ts) is Some {
            let e = visible(log.drop_last(), key, ts)->Some_0;
            let j = choose|j: int| 0 <= j < log.drop_last().len() && log.drop_last()[j] == e;
            assert(log[j] == e);
        }
        assert(log[log.len() - 1] == log.last());
    }
}

/// The bytes a batch entry is counted for: key, value and an 8-byte
/// version, saturated at `u64::MAX`.
pub open spec fn entry_size(e: EntryView) -> u64 {
    let n = e.key.len() + (if e.value is Some { e.value->Some_0.len() } else { 0 }) + 8;
    if n > u64::MAX { u64::MAX } else { n as u64 }
}

/// An in-memory multi-version store: a log of committed versioned entries,
/// with the limits that bound one batch.
pub struct MemStore {
    pub log: Vec<Entry>,
    pub max_batch_entries: u64,
    pub max_batch_size: u64,
}

impl MemStore {
    pub fn new(max_batch_entries: u64, max_batch_size: u64) -> (r: MemStore)
        ensures
            r.log@.len() == 0,
            r.max_batch_entries == max_batch_entries,
            r.max_batch_size == max_batch_size,
    {
        MemStore { log: Vec::new(), max_batch_entries, max_batch_size }
    }

    pub open spec fn log_view(&self) -> Seq<EntryView> {
        views(self.log@)
    }

    /// Where the version of `key` visible at `ts` stands in the log.
    pub fn find_visible(&self, key: &Vec<u8>, ts: u64) -> (r: Option<usize>)
        ensures
            visible(self.log_view(), key@, ts) matches Some(e) ==> (r matches Some(i) && i
                < self.log@.len() && self.log@[i as int]@ == e),
            visible(self.log_view(), key@, ts) is None ==> r is None,
    {
        let mut best: Option<usize> = None;
        let mut i: usize = 0;
        while i < self.log.len()
            invariant
                0 <= i <= self.log@.len(),
                visible(views(self.log@.subrange(0, i as int)), key@, ts) matches Some(e) ==> (
                best matches Some(b) && b < i && self.log@[b as int]@ == e),
                visible(views(self.log@.subrange(0, i as int)), key@, ts) is None ==> best is None,
            decreases self.log@.len() - i,
        {
            let ghost pre = views(self.log@.subrange(0, i as int));
            proof {
                let nxt = views(self.log@.subrange(0, i as int + 1));
                assert(nxt.drop_last() =~= pre);
                assert(nxt.last() == self.log@[i as int]@);
            }
            let e = &self.log[i];
            if bytes_eq(e.key(), key) && e.version <= ts {
                let newer = match best {
                    None => true,
                    Some(b) => self.log[b].version < e.version,
                };
                if newer {
                    best = Some(i);
                }
            }
            i = i + 1;
        }
        assert(self.log@.subrange(0, self.log@.len() as int) =~= self.log@);
        best
    }

    /// Checks an entry against the store's rules: its key must not be empty.
    pub fn validate_entry(&self, e: &Entry) -> (r: Result<(), StorageError>)
        ensures
            r is Ok <==> e@.key.len() > 0,
            r matches Err(x) ==> x == StorageError::EmptyKey,
    {
        if e.key().len() == 0 {
            Err(StorageError::EmptyKey)
        } else {
            Ok(())
        }
    }

    /// How many bytes `e` adds to a batch.
    pub fn estimate_size(&self, e: &Entry) -> (r: u64)
        ensures
            r == entry_size(e@),
    {
        let k = e.key().len() as u64;
        let v: u64 = match &e.data {
            EntryData::Insert { value, .. } => value.len() as u64,
            EntryData::Remove(_) => 0,
        };
        k.saturating_add(v).saturating_add(8)
    }

    /// Applies a batch: every entry of it becomes visible at its version.
    pub fn apply(&mut self, entries: Vec<Entry>)
        ensures
            final(self).log_view() == old(self).log_view() + views(entries@),
            final(self).max_batch_entries == old(self).max_batch_entries,
            final(self).max_batch_size == old(self).max_batch_size,
    {
        let mut entries = entries;
        let ghost added = entries@;
        self.log.append(&mut entries);
        assert(views(self.log@) =~= views(old(self).log@) + views(added));
    }
}

} // verus!
