use vstd::prelude::*;
use crate::entry::{bytes_eq, views, Entry, EntryView};

verus! {

/// True when no two entries of `s` share a key.
pub open spec fn unique_keys(s: Seq<EntryView>) -> bool {
    forall|i: int, j: int| 0 <= i < s.len() && 0 <= j < s.len() && i != j ==> s[i].key != s[j].key
}

/// True when some entry of `s` has key `k`.
pub open spec fn has_key(s: Seq<EntryView>, k: Seq<u8>) -> bool {
    exists|i: int| 0 <= i < s.len() && s[i].key == k
}

/// A transaction's overlay of not yet committed writes: at most one entry
/// per key, kept in the order in which keys were first written since their
/// last removal from the overlay.
pub struct PendingWrites {
    pub entries: Vec<Entry>,
}

impl View for PendingWrites {
    type V = Seq<EntryView>;

    open spec fn view(&self) -> Seq<EntryView> {
        views(self.entries@)
    }
}

impl PendingWrites {
    pub open spec fn wf(&self) -> bool {
        unique_keys(self@)
    }

    pub fn new() -> (r: PendingWrites)
        ensures
            r@.len() == 0,
            r.wf(),
    {
        PendingWrites { entries: Vec::new() }
    }

    pub fn len(&self) -> (r: usize)
        ensures
            r == self@.len(),
    {
        self.entries.len()
    }

    pub fn is_empty(&self) -> (r: bool)
        ensures
            r == (self@.len() == 0),
    {
        self.entries.len() == 0
    }

    /// Where the entry for `key` stands, if there is one.
    pub fn find(&self, key: &Vec<u8>) -> (r: Option<usize>)
        ensures
            r matches Some(i) ==> i < self@.len() && self@[i as int].key == key@,
            r is None ==> !has_key(self@, key@),
    {
        let mut i: usize = 0;
        while i < self.entries.len()
            invariant
                0 <= i <= self@.len(),
                forall|j: int| 0 <= j < i ==> self@[j].key != key@,
            decreases self@.len() - i,
        {
            if bytes_eq(self.entries[i].key(), key) {
                return Some(i);
            }
            i = i + 1;
        }
        None
    }

    /// The entry at index `i`.
    pub fn entry(&self, i: usize) -> (r: &Entry)
        requires
            i < self@.len(),
        ensures
            r@ == self@[i as int],
    {
        &self.entries[i]
    }

    /// Takes out the entry for `key`, if there is one.
    pub fn remove_entry(&mut self, key: &Vec<u8>) -> (r: Option<Entry>)
        requires
            old(self).wf(),
        ensures
            final(self).wf(),
            !has_key(final(self)@, key@),
            r is None ==> !has_key(old(self)@, key@) && final(self)@ == old(self)@,
            r matches Some(e) ==> exists|i: int|
                0 <= i < old(self)@.len() && old(self)@[i] == e@ && e@.key == key@
                    && final(self)@ == old(self)@.remove(i),
    {
        match self.find(key) {
            None => None,
            Some(i) => {
                let e = self.entries.remove(i);
                proof {
                    assert(views(self.entries@) =~= views(old(self).entries@).remove(i as int));
                    let s = old(self)@;
                    assert forall|j: int| 0 <= j < self@.len() implies self@[j].key != key@ by {
                        if j < i {
                            assert(self@[j] == s[j]);
                        } else {
                            assert(self@[j] == s[j + 1]);
                        }
                    }
                }
                Some(e)
            },
        }
    }

    /// Adds an entry for a key the overlay does not hold.
    pub fn insert(&mut self, e: Entry)
        requires
            old(self).wf(),
            !has_key(old(self)@, e@.key),
        ensures
            final(self).wf(),
            final(self)@ == old(self)@.push(e@),
    {
        self.entries.push(e);
        assert(views(self.entries@) =~= views(old(self).entries@).push(e@));
    }

    /// The entries, in overlay order.
    pub fn into_entries(self) -> (r: Vec<Entry>)
        ensures
            views(r@) == self@,
    {
        self.entries
    }
}

} // verus!
