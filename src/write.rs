use vstd::prelude::*;
use crate::entry::{bytes_eq, fingerprint, fingerprint_of, restamp, views, Entry, EntryData, EntryView};
use crate::error::{Error, StorageError};
use crate::oracle::{conflicts, removed_one, CreateCommitTimestampResult, Oracle};
use crate::pending::{has_key, PendingWrites};
use crate::store::{entry_size, lemma_visible_bounded, visible, MemStore};

verus! {

/// The shared state that transactions commit into: the store and the
/// timestamp oracle. Exclusive access to it while a commit runs is what
/// keeps the order of timestamp issuance and of batch submission the same.
pub struct TransactionDB {
    pub store: MemStore,
    pub orc: Oracle,
}

/// A batch whose commit timestamp was issued and whose application to the
/// store is still to come.
pub struct CommitBatch {
    pub commit_ts: u64,
    pub entries: Vec<Entry>,
}

/// What a read through a transaction finds.
pub enum Item {
    /// The transaction's own uncommitted write.
    Pending(Entry),
    /// A committed version from the store.
    Committed(Entry),
}

pub enum ItemView {
    Pending(EntryView),
    Committed(EntryView),
}

impl View for Item {
    type V = ItemView;

    open spec fn view(&self) -> ItemView {
        match self {
            Item::Pending(e) => ItemView::Pending(e@),
            Item::Committed(e) => ItemView::Committed(e@),
        }
    }
}

pub open spec fn opt_item_view(o: Option<Item>) -> Option<ItemView> {
    match o {
        Some(i) => Some(i@),
        None => None,
    }
}

pub open spec fn opt_seq(o: Option<Vec<u64>>) -> Option<Seq<u64>> {
    match o {
        Some(v) => Some(v@),
        None => None,
    }
}

/// The entry for `k` in an overlay with unique keys, if any.
pub open spec fn overlay_lookup(pw: Seq<EntryView>, k: Seq<u8>) -> Option<EntryView> {
    if has_key(pw, k) {
        Some(pw[choose|i: int| 0 <= i < pw.len() && pw[i].key == k])
    } else {
        None
    }
}

/// What a read of `k` at snapshot `ts` returns, given the overlay `pw` and
/// the store's log: the overlay's entry first, a deletion marker reading as
/// absent; otherwise the store's visible version.
pub open spec fn read_spec(pw: Seq<EntryView>, log: Seq<EntryView>, ts: u64, k: Seq<u8>) -> Option<
    ItemView,
> {
    match overlay_lookup(pw, k) {
        Some(e) => if e.value is None {
            None
        } else {
            Some(ItemView::Pending(e))
        },
        None => match visible(log, k, ts) {
            Some(e) => if e.value is None {
                None
            } else {
                Some(ItemView::Committed(e))
            },
            None => None,
        },
    }
}

/// The overlay and the superseded entries after buffering `e`: an earlier
/// entry for the same key leaves the overlay, and is kept among the
/// superseded ones when its version differs from `e`'s.
pub open spec fn buffer_write(pw: Seq<EntryView>, dup: Seq<EntryView>, e: EntryView) -> (
    Seq<EntryView>,
    Seq<EntryView>,
) {
    if has_key(pw, e.key) {
        let i = choose|i: int| 0 <= i < pw.len() && pw[i].key == e.key;
        (pw.remove(i).push(e), if pw[i].version != e.version {
            dup.push(pw[i])
        } else {
            dup
        })
    } else {
        (pw.push(e), dup)
    }
}

/// The batch a commit at `ts` submits: the overlay's entries, then the
/// superseded ones, all stamped with `ts`.
pub open spec fn commit_batch(pw: Seq<EntryView>, dup: Seq<EntryView>, ts: u64) -> Seq<EntryView> {
    (pw + dup).map_values(|e: EntryView| restamp(e, ts))
}

/// The read snapshot `ts` released once, unless `done` says it already was.
pub open spec fn released(done: bool, ts: u64, before: Seq<u64>, after: Seq<u64>) -> bool {
    if done {
        after == before
    } else {
        removed_one(before, after, ts)
    }
}

/// The set of fingerprints after tracking `fp`.
pub open spec fn track(c: Seq<u64>, fp: u64) -> Seq<u64> {
    if c.contains(fp) {
        c
    } else {
        c.push(fp)
    }
}

/// Copies an entry.
pub fn copy_entry(e: &Entry) -> (r: Entry)
    ensures
        r@ == e@,
{
    let data = match &e.data {
        EntryData::Insert { key, value } => EntryData::Insert { key: key.clone(), value: value.clone() },
        EntryData::Remove(key) => EntryData::Remove(key.clone()),
    };
    let r = Entry { data, version: e.version };
    proof {
        match (&e.data, &r.data) {
            (EntryData::Insert { key: k1, value: v1 }, EntryData::Insert { key: k2, value: v2 }) => {
                assert(k1@ =~= k2@);
                assert(v1@ =~= v2@);
            },
            (EntryData::Remove(k1), EntryData::Remove(k2)) => {
                assert(k1@ =~= k2@);
            },
            _ => {},
        }
    }
    r
}

/// Stamps every entry of `v` with `ts`.
fn stamp_all(v: &mut Vec<Entry>, ts: u64)
    ensures
        views(final(v)@) == views(old(v)@).map_values(|e: EntryView| restamp(e, ts)),
{
    let mut i: usize = 0;
    while i < v.len()
        invariant
            0 <= i <= v@.len(),
            v@.len() == old(v)@.len(),
            forall|j: int| 0 <= j < i ==> v@[j]@ == restamp(old(v)@[j]@, ts),
            forall|j: int| i <= j < v@.len() ==> v@[j] == old(v)@[j],
        decreases v@.len() - i,
    {
        v[i].version = ts;
        i = i + 1;
    }
    assert(views(v@) =~= views(old(v)@).map_values(|e: EntryView| restamp(e, ts)));
}

/// True when the oracle finds a conflict for `t` against what `db` has
/// committed.
pub open spec fn commit_conflicts(t: WriteTransaction, db: TransactionDB) -> bool {
    conflicts(db.orc.committed_view(), t.read_ts, t.reads@, opt_seq(t.conflict_keys))
}

/// What discarding does: a discarded transaction stays as it is; a live
/// one is marked discarded and its read snapshot released, once.
pub open spec fn discard_effect(t: WriteTransaction, u: WriteTransaction, a: TransactionDB, b: TransactionDB) -> bool {
    if t.discarded {
        u == t && b == a
    } else {
        &&& u == (WriteTransaction { discarded: true, done_read: true, ..t })
        &&& released(t.done_read, t.read_ts, a.orc.read_marks@, b.orc.read_marks@)
        &&& unissued(a, b)
    }
}

/// True when a transaction can still read, write and commit.
pub open spec fn live(t: WriteTransaction) -> bool {
    !t.discarded && !t.too_large
}

/// From `a` to `b` no timestamp was issued and nothing reached the store:
/// at most a read snapshot was released.
pub open spec fn unissued(a: TransactionDB, b: TransactionDB) -> bool {
    b == (TransactionDB { orc: Oracle { read_marks: b.orc.read_marks, ..a.orc }, ..a })
}

/// From `a` to `b` the next timestamp was issued and is in flight, with the
/// write fingerprints `ck` recorded under it where conflicts are tracked.
pub open spec fn issued(a: TransactionDB, b: TransactionDB, ck: Option<Seq<u64>>) -> bool {
    let ts = (a.orc.last_ts + 1) as u64;
    &&& b.orc.last_ts == ts
    &&& b.orc.pending_commits@ == a.orc.pending_commits@.push(ts)
    &&& b.orc.committed_view() == match ck {
        Some(c) => a.orc.committed_view().push((ts, c)),
        None => a.orc.committed_view(),
    }
}

/// From `a` to `b` the next timestamp was issued, `batch` was appended to
/// the store, and the timestamp was finalized.
pub open spec fn applied(a: TransactionDB, b: TransactionDB, ck: Option<Seq<u64>>, batch: Seq<EntryView>) -> bool {
    let ts = (a.orc.last_ts + 1) as u64;
    &&& b.store.log_view() == a.store.log_view() + batch
    &&& b.store.max_batch_entries == a.store.max_batch_entries
    &&& b.store.max_batch_size == a.store.max_batch_size
    &&& b.orc.last_ts == ts
    &&& removed_one(a.orc.pending_commits@.push(ts), b.orc.pending_commits@, ts)
    &&& b.orc.committed_view() == match ck {
        Some(c) => a.orc.committed_view().push((ts, c)),
        None => a.orc.committed_view(),
    }
}

/// Whether `x` is among the fingerprints of `v`.
fn contains_fp(v: &Vec<u64>, x: u64) -> (r: bool)
    ensures
        r == v@.contains(x),
{
    let mut i: usize = 0;
    while i < v.len()
        invariant
            0 <= i <= v@.len(),
            forall|j: int| 0 <= j < i ==> v@[j] != x,
        decreases v@.len() - i,
    {
        if v[i] == x {
            assert(v@[i as int] == x);
            return true;
        }
        i = i + 1;
    }
    false
}

/// The error a write of `e` meets, if any: a discarded transaction, one
/// already over the limits, a key the store rejects, or a batch that `e`
/// would take to a limit, in that order.
pub open spec fn write_error(t: WriteTransaction, store: MemStore, e: EntryView) -> Option<Error> {
    if t.discarded {
        Some(Error::Discarded)
    } else if t.too_large {
        Some(Error::TooLarge)
    } else if e.key.len() == 0 {
        Some(Error::Storage(StorageError::EmptyKey))
    } else if t.exceeds_limits(store, e) {
        Some(Error::TooLarge)
    } else {
        None
    }
}

/// How a write of `e` with result `r` takes the transaction from `t` to
/// `u`. On success `e` is counted and buffered and its key's fingerprint
/// tracked; going over a limit leaves only the poison mark; any other
/// failure changes nothing.
pub open spec fn modified(
    t: WriteTransaction,
    u: WriteTransaction,
    store: MemStore,
    e: EntryView,
    r: Result<(), Error>,
) -> bool {
    match write_error(t, store, e) {
        Some(x) => {
            &&& r == Err::<(), Error>(x)
            &&& if !t.discarded && !t.too_large && e.key.len() > 0 {
                u == (WriteTransaction { too_large: true, ..t })
            } else {
                u == t
            }
        },
        None => {
            &&& r is Ok
            &&& u.count == t.count + 1
            &&& u.size == t.size + entry_size(e)
            &&& (u.pending_writes@, u.dup_view()) == buffer_write(t.pending_writes@, t.dup_view(), e)
            &&& opt_seq(u.conflict_keys) == match opt_seq(t.conflict_keys) {
                Some(c) => Some(track(c, fingerprint_of(e.key))),
                None => None,
            }
            &&& u.reads == t.reads
            &&& u.read_ts == t.read_ts
            &&& u.discarded == t.discarded
            &&& u.done_read == t.done_read
            &&& u.too_large == t.too_large
        },
    }
}

/// The key an item is for.
pub open spec fn item_key(v: ItemView) -> Seq<u8> {
    match v {
        ItemView::Pending(e) => e.key,
        ItemView::Committed(e) => e.key,
    }
}

/// True when `items` holds exactly what reads at snapshot `ts` find over
/// the overlay `pw` and the store's `log`: one item for each key that reads
/// as present, and nothing else.
pub open spec fn snapshot_items(items: Seq<ItemView>, pw: Seq<EntryView>, log: Seq<EntryView>, ts: u64) -> bool {
    &&& forall|i: int, j: int|
        0 <= i < items.len() && 0 <= j < items.len() && i != j ==> item_key(items[i]) != item_key(
            items[j],
        )
    &&& forall|i: int| 0 <= i < items.len() ==> read_spec(pw, log, ts, #[trigger] item_key(items[i]))
        == Some(items[i])
    &&& forall|k: Seq<u8>| #[trigger] read_spec(pw, log, ts, k) is Some ==> exists|i: int|
        0 <= i < items.len() && item_key(items[i]) == k
}

pub open spec fn item_views(s: Seq<Item>) -> Seq<ItemView> {
    s.map_values(|i: Item| i@)
}

/// Whether some item of `items` is for `key`.
fn items_have_key(items: &Vec<Item>, key: &Vec<u8>) -> (r: bool)
    ensures
        r == exists|i: int| 0 <= i < items@.len() && item_key(items@[i]@) == key@,
{
    let mut i: usize = 0;
    while i < items.len()
        invariant
            0 <= i <= items@.len(),
            forall|j: int| 0 <= j < i ==> item_key(items@[j]@) != key@,
        decreases items@.len() - i,
    {
        let k = match &items[i] {
            Item::Pending(e) => e.key(),
            Item::Committed(e) => e.key(),
        };
        if bytes_eq(k, key) {
            return true;
        }
        i = i + 1;
    }
    false
}

/// A write transaction: reads see the snapshot `read_ts` overlaid with the
/// transaction's own writes, which are buffered until commit.
pub struct WriteTransaction {
    /// The snapshot timestamp fixed at creation.
    pub read_ts: u64,
    /// Bytes buffered so far.
    pub size: u64,
    /// Entries buffered so far.
    pub count: u64,
    /// Fingerprints of the keys read from the store.
    pub reads: Vec<u64>,
    /// Fingerprints of the keys written, where conflicts are tracked.
    pub conflict_keys: Option<Vec<u64>>,
    /// The overlay of buffered writes.
    pub pending_writes: PendingWrites,
    /// Entries superseded in the overlay by a write under another version.
    pub duplicate_writes: Vec<Entry>,
    /// The transaction has ended.
    pub discarded: bool,
    /// The read snapshot has been released.
    pub done_read: bool,
    /// A write went over the batch limits; only discarding is left.
    pub too_large: bool,
}

impl WriteTransaction {
    pub open spec fn wf(&self) -> bool {
        &&& self.pending_writes.wf()
        &&& (self.conflict_keys matches Some(c) ==> c@.no_duplicates())
    }

    pub open spec fn dup_view(&self) -> Seq<EntryView> {
        views(self.duplicate_writes@)
    }

    /// True when buffering `e` would take the transaction to the store's
    /// entry-count or byte-size limit.
    pub open spec fn exceeds_limits(&self, store: MemStore, e: EntryView) -> bool {
        self.count + 1 >= store.max_batch_entries || self.size + entry_size(e)
            >= store.max_batch_size
    }

    /// A transaction just opened at snapshot `read_ts`: nothing read,
    /// written or released yet.
    pub open spec fn fresh(&self, read_ts: u64, track_conflicts: bool) -> bool {
        &&& self.wf()
        &&& self.read_ts == read_ts
        &&& self.size == 0
        &&& self.count == 0
        &&& self.reads@.len() == 0
        &&& track_conflicts ==> (self.conflict_keys matches Some(c) && c@.len() == 0)
        &&& !track_conflicts ==> self.conflict_keys is None
        &&& self.pending_writes@.len() == 0
        &&& self.dup_view().len() == 0
        &&& !self.discarded
        &&& !self.done_read
        &&& !self.too_large
    }

    /// A live transaction at snapshot `read_ts`, with conflict tracking
    /// where `track_conflicts` holds.
    pub fn new(read_ts: u64, track_conflicts: bool) -> (r: WriteTransaction)
        ensures
            r.fresh(read_ts, track_conflicts),
    {
        WriteTransaction {
            read_ts,
            size: 0,
            count: 0,
            reads: Vec::new(),
            conflict_keys: if track_conflicts {
                Some(Vec::new())
            } else {
                None
            },
            pending_writes: PendingWrites::new(),
            duplicate_writes: Vec::new(),
            discarded: false,
            done_read: false,
            too_large: false,
        }
    }

    /// The store of `db`, which this transaction reads from and commits to.
    pub fn database<'a>(&self, db: &'a TransactionDB) -> (r: &'a MemStore)
        ensures
            *r == db.store,
    {
        &db.store
    }

    /// The timestamp oracle of `db`.
    pub fn orc<'a>(&self, db: &'a TransactionDB) -> (r: &'a Oracle)
        ensures
            *r == db.orc,
    {
        &db.orc
    }

    /// Counts `ent` against the batch limits: the count and size grow by it,
    /// or, where that would reach a limit, nothing changes and the result is
    /// `TooLarge`.
    pub fn check_and_update_size(&mut self, db: &TransactionDB, ent: &Entry) -> (r: Result<(), Error>)
        ensures
            old(self).exceeds_limits(db.store, ent@) ==> r == Err::<(), Error>(Error::TooLarge)
                && *final(self) == *old(self),
            !old(self).exceeds_limits(db.store, ent@) ==> r is Ok && final(self).count == old(self).count + 1
                && final(self).size == old(self).size + entry_size(ent@) && *final(self) == (
            WriteTransaction { count: final(self).count, size: final(self).size, ..*old(self) }),
    {
        let database = self.database(db);
        let est = database.estimate_size(ent);
        let max_entries = database.max_batch_entries;
        let max_size = database.max_batch_size;
        if self.count >= max_entries || self.count + 1 >= max_entries || est >= max_size || self.size
            >= max_size - est {
            return Err(Error::TooLarge);
        }
        self.count = self.count + 1;
        self.size = self.size + est;
        Ok(())
    }
    /// Buffers `ent`: it is validated by the store, counted against the
    /// batch limits, its key's fingerprint is tracked for conflicts, and it
    /// replaces the overlay's entry for its key.
    fn modify(&mut self, db: &TransactionDB, ent: Entry) -> (r: Result<(), Error>)
        requires
            old(self).wf(),
        ensures
            final(self).wf(),
            modified(*old(self), *final(self), db.store, ent@, r),
    {
        if self.discarded {
            return Err(Error::Discarded);
        }
        if self.too_large {
            return Err(Error::TooLarge);
        }
        match db.store.validate_entry(&ent) {
            Err(e) => {
                return Err(Error::Storage(e));
            },
            Ok(()) => {},
        }
        match self.check_and_update_size(db, &ent) {
            Err(e) => {
                self.too_large = true;
                return Err(e);
            },
            Ok(()) => {},
        }
        let mut ck: Option<Vec<u64>> = None;
        core::mem::swap(&mut ck, &mut self.conflict_keys);
        match ck {
            Some(mut keys) => {
                let fp = fingerprint(ent.key());
                if !contains_fp(&keys, fp) {
                    keys.push(fp);
                }
                self.conflict_keys = Some(keys);
            },
            None => {},
        }
        let ghost pw0 = self.pending_writes@;
        let ghost dup0 = self.dup_view();
        let ghost ev = ent@;
        let prior = self.pending_writes.remove_entry(ent.key());
        match prior {
            Some(p) => {
                proof {
                    let i = choose|i: int|
                        0 <= i < pw0.len() && pw0[i] == p@ && p@.key == ev.key
                            && self.pending_writes@ == pw0.remove(i);
                    let c = choose|c: int| 0 <= c < pw0.len() && pw0[c].key == ev.key;
                    assert(c == i);
                }
                if p.version != ent.version {
                    self.duplicate_writes.push(p);
                    assert(self.dup_view() =~= dup0.push(p@));
                }
            },
            None => {},
        }
        self.pending_writes.insert(ent);
        Ok(())
    }

    /// Buffers an insert of `key` with `value`, at the snapshot version.
    pub fn insert(&mut self, db: &TransactionDB, key: Vec<u8>, value: Vec<u8>) -> (r: Result<(), Error>)
        requires
            old(self).wf(),
        ensures
            final(self).wf(),
            modified(
                *old(self),
                *final(self),
                db.store,
                EntryView { key: key@, value: Some(value@), version: old(self).read_ts },
                r,
            ),
    {
        self.insert_with_in(db, key, value)
    }

    fn insert_with_in(&mut self, db: &TransactionDB, key: Vec<u8>, value: Vec<u8>) -> (r: Result<(), Error>)
        requires
            old(self).wf(),
        ensures
            final(self).wf(),
            modified(
                *old(self),
                *final(self),
                db.store,
                EntryView { key: key@, value: Some(value@), version: old(self).read_ts },
                r,
            ),
    {
        let ent = Entry { data: EntryData::Insert { key, value }, version: self.read_ts };
        self.modify(db, ent)
    }

    /// Buffers a deletion marker for `key`, at the unassigned version 0;
    /// the commit stamps it with the commit timestamp.
    pub fn remove(&mut self, db: &TransactionDB, key: Vec<u8>) -> (r: Result<(), Error>)
        requires
            old(self).wf(),
        ensures
            final(self).wf(),
            modified(
                *old(self),
                *final(self),
                db.store,
                EntryView { key: key@, value: None, version: 0 },
                r,
            ),
    {
        self.modify(db, Entry { data: EntryData::Remove(key), version: 0 })
    }
    /// Reads `key`: the transaction's own write where there is one, with no
    /// read tracked; otherwise the store's version visible at `read_ts`,
    /// after the key's fingerprint is logged among the reads.
    pub fn get(&mut self, db: &TransactionDB, key: &Vec<u8>) -> (r: Result<Option<Item>, Error>)
        requires
            old(self).wf(),
        ensures
            final(self).wf(),
            old(self).discarded ==> (r matches Err(Error::Discarded)) && *final(self) == *old(self),
            !old(self).discarded && old(self).too_large ==> (r matches Err(Error::TooLarge))
                && *final(self) == *old(self),
            !old(self).discarded && !old(self).too_large ==> (r matches Ok(o) && opt_item_view(o)
                == read_spec(old(self).pending_writes@, db.store.log_view(), old(self).read_ts, key@)),
            !old(self).discarded && !old(self).too_large && has_key(old(self).pending_writes@, key@)
                ==> *final(self) == *old(self),
            !old(self).discarded && !old(self).too_large && !has_key(old(self).pending_writes@, key@)
                ==> final(self).reads@ == old(self).reads@.push(fingerprint_of(key@)) && *final(self)
                == (WriteTransaction { reads: final(self).reads, ..*old(self) }),
    {
        if self.discarded {
            return Err(Error::Discarded);
        }
        if self.too_large {
            return Err(Error::TooLarge);
        }
        match self.pending_writes.find(key) {
            Some(i) => {
                let e = self.pending_writes.entry(i);
                proof {
                    let pw = self.pending_writes@;
                    let c = choose|c: int| 0 <= c < pw.len() && pw[c].key == key@;
                    assert(c == i);
                }
                if e.is_remove() {
                    return Ok(None);
                }
                return Ok(Some(Item::Pending(copy_entry(e))));
            },
            None => {
                let fp = fingerprint(key);
                self.reads.push(fp);
            },
        }
        let database = self.database(db);
        match database.find_visible(key, self.read_ts) {
            Some(i) => {
                let e = &database.log[i];
                if e.is_remove() {
                    Ok(None)
                } else {
                    Ok(Some(Item::Committed(copy_entry(e))))
                }
            },
            None => Ok(None),
        }
    }

    /// Everything the transaction reads as present: its own inserts, then
    /// the versions visible at `read_ts` of the other keys of the store.
    /// No read is logged.
    pub fn iter(&self, db: &TransactionDB) -> (r: Result<Vec<Item>, Error>)
        requires
            self.wf(),
        ensures
            self.discarded ==> (r matches Err(Error::Discarded)),
            !self.discarded && self.too_large ==> (r matches Err(Error::TooLarge)),
            live(*self) ==> (r matches Ok(items) && snapshot_items(
                item_views(items@),
                self.pending_writes@,
                db.store.log_view(),
                self.read_ts,
            )),
    {
        if self.discarded {
            return Err(Error::Discarded);
        }
        if self.too_large {
            return Err(Error::TooLarge);
        }
        let ghost pw = self.pending_writes@;
        let ghost log = db.store.log_view();
        let ghost ts = self.read_ts;
        let mut out: Vec<Item> = Vec::new();
        let n = self.pending_writes.len();
        let mut i: usize = 0;
        while i < n
            invariant
                n == pw.len(),
                pw == self.pending_writes@,
                self.wf(),
                0 <= i <= n,
                forall|a: int, b: int|
                    0 <= a < out@.len() && 0 <= b < out@.len() && a != b ==> item_key(out@[a]@)
                        != item_key(out@[b]@),
                forall|a: int| 0 <= a < out@.len() ==> read_spec(pw, log, ts, #[trigger] item_key(out@[a]@))
                    == Some(out@[a]@),
                forall|a: int| 0 <= a < out@.len() ==> exists|c: int|
                    0 <= c < i && pw[c].key == item_key(#[trigger] out@[a]@),
                forall|c: int| 0 <= c < i ==> pw[c].value is Some ==> exists|a: int|
                    0 <= a < out@.len() && item_key(out@[a]@) == #[trigger] pw[c].key,
            decreases n - i,
        {
            let e = self.pending_writes.entry(i);
            proof {
                let c = choose|c: int| 0 <= c < pw.len() && pw[c].key == pw[i as int].key;
                assert(c == i);
                assert(overlay_lookup(pw, pw[i as int].key) == Some(pw[i as int]));
            }
            if !e.is_remove() {
                let ghost before = out@;
                out.push(Item::Pending(copy_entry(e)));
                proof {
                    assert forall|a: int| 0 <= a < before.len() implies item_key(before[a]@) != pw[i as int].key by {
                        let c = choose|c: int| 0 <= c < i && pw[c].key == item_key(before[a]@);
                    }
                    assert(out@[before.len() as int] == out@.last());
                    assert forall|c: int| 0 <= c < i + 1 && pw[c].value is Some implies exists|a: int|
                        0 <= a < out@.len() && item_key(out@[a]@) == #[trigger] pw[c].key by {
                        if c < i {
                            let a = choose|a: int| 0 <= a < before.len() && item_key(before[a]@) == pw[c].key;
                            assert(out@[a] == before[a]);
                        } else {
                            assert(item_key(out@[before.len() as int]@) == pw[c].key);
                        }
                    }
                    assert forall|a: int| 0 <= a < out@.len() implies exists|c: int|
                        0 <= c < i + 1 && pw[c].key == item_key(#[trigger] out@[a]@) by {
                        if a < before.len() {
                            assert(out@[a] == before[a]);
                            let c = choose|c: int| 0 <= c < i && pw[c].key == item_key(before[a]@);
                        } else {
                            assert(pw[i as int].key == item_key(out@[a]@));
                        }
                    }
                }
            }
            i = i + 1;
        }
        let m = db.store.log.len();
        let mut j: usize = 0;
        while j < m
            invariant
                m == db.store.log@.len(),
                log == db.store.log_view(),
                pw == self.pending_writes@,
                ts == self.read_ts,
                self.wf(),
                0 <= j <= m,
                forall|a: int, b: int|
                    0 <= a < out@.len() && 0 <= b < out@.len() && a != b ==> item_key(out@[a]@)
                        != item_key(out@[b]@),
                forall|a: int| 0 <= a < out@.len() ==> read_spec(pw, log, ts, #[trigger] item_key(out@[a]@))
                    == Some(out@[a]@),
                forall|c: int| 0 <= c < pw.len() ==> pw[c].value is Some ==> exists|a: int|
                    0 <= a < out@.len() && item_key(out@[a]@) == #[trigger] pw[c].key,
                forall|c: int| 0 <= c < j ==> read_spec(pw, log, ts, #[trigger] log[c].key) is Some ==> exists|a: int|
                    0 <= a < out@.len() && item_key(out@[a]@) == log[c].key,
            decreases m - j,
        {
            let k = db.store.log[j].key();
            assert(k@ == log[j as int].key);
            if self.pending_writes.find(k).is_none() && !items_have_key(&out, k) {
                match db.store.find_visible(k, self.read_ts) {
                    Some(x) => {
                        proof {
                            lemma_visible_bounded(log, k@, ts);
                        }
                        let e = &db.store.log[x];
                        if !e.is_remove() {
                            let ghost before = out@;
                            out.push(Item::Committed(copy_entry(e)));
                            proof {
                                let nk = item_key(out@[before.len() as int]@);
                                assert(nk == k@);
                                assert forall|a: int| 0 <= a < before.len() implies out@[a] == before[a] by {}
                                assert forall|c: int| 0 <= c < pw.len() && pw[c].value is Some implies exists|a: int|
                                    0 <= a < out@.len() && item_key(out@[a]@) == #[trigger] pw[c].key by {
                                    let a = choose|a: int| 0 <= a < before.len() && item_key(before[a]@) == pw[c].key;
                                    assert(out@[a] == before[a]);
                                }
                                assert forall|c: int|
                                    0 <= c < j && read_spec(pw, log, ts, #[trigger] log[c].key) is Some
                                    implies exists|a: int|
                                    0 <= a < out@.len() && item_key(out@[a]@) == log[c].key by {
                                    let a = choose|a: int| 0 <= a < before.len() && item_key(before[a]@) == log[c].key;
                                    assert(out@[a] == before[a]);
                                }
                            }
                        }
                    },
                    None => {},
                }
            }
            j = j + 1;
        }
        proof {
            let items = item_views(out@);
            assert forall|a: int| 0 <= a < items.len() implies items[a] == out@[a]@ by {}
            assert forall|k: Seq<u8>| #[trigger] read_spec(pw, log, ts, k) is Some implies exists|a: int|
                0 <= a < items.len() && item_key(items[a]) == k by {
                if has_key(pw, k) {
                    let c = choose|c: int| 0 <= c < pw.len() && pw[c].key == k;
                    assert(overlay_lookup(pw, k) == Some(pw[c]));
                    assert(pw[c].value is Some);
                    let a = choose|a: int| 0 <= a < out@.len() && item_key(out@[a]@) == pw[c].key;
                    assert(item_key(items[a]) == k);
                } else {
                    lemma_visible_bounded(log, k, ts);
                    let e = visible(log, k, ts)->Some_0;
                    let c = choose|c: int| 0 <= c < log.len() && log[c] == e;
                    assert(log[c].key == k);
                    assert(read_spec(pw, log, ts, log[c].key) is Some);
                    let a = choose|a: int| 0 <= a < out@.len() && item_key(out@[a]@) == log[c].key;
                    assert(item_key(items[a]) == k);
                }
            }
        }
        Ok(out)
    }

    /// The keys of everything the transaction reads as present, in the
    /// order `iter` gives them.
    pub fn keys(&self, db: &TransactionDB) -> (r: Result<Vec<Vec<u8>>, Error>)
        requires
            self.wf(),
        ensures
            self.discarded ==> (r matches Err(Error::Discarded)),
            !self.discarded && self.too_large ==> (r matches Err(Error::TooLarge)),
            live(*self) ==> (r matches Ok(keys) && exists|items: Seq<ItemView>|
                snapshot_items(items, self.pending_writes@, db.store.log_view(), self.read_ts)
                    && keys@.len() == items.len() && forall|i: int|
                    0 <= i < items.len() ==> (#[trigger] keys@[i])@ == item_key(items[i])),
    {
        let items = match self.iter(db) {
            Err(e) => {
                return Err(e);
            },
            Ok(items) => items,
        };
        let mut keys: Vec<Vec<u8>> = Vec::new();
        let mut i: usize = 0;
        while i < items.len()
            invariant
                0 <= i <= items@.len(),
                keys@.len() == i,
                forall|a: int| 0 <= a < i ==> (#[trigger] keys@[a])@ == item_key(items@[a]@),
            decreases items@.len() - i,
        {
            let k = match &items[i] {
                Item::Pending(e) => e.key().clone(),
                Item::Committed(e) => e.key().clone(),
            };
            keys.push(k);
            i = i + 1;
        }
        proof {
            let iv = item_views(items@);
            assert forall|a: int| 0 <= a < iv.len() implies (#[trigger] keys@[a])@ == item_key(iv[a]) by {
                assert(iv[a] == items@[a]@);
            }
        }
        Ok(keys)
    }

    /// Releases the read snapshot, once.
    fn done_read(&mut self, db: &mut TransactionDB)
        ensures
            final(self).done_read,
            *final(self) == (WriteTransaction { done_read: true, ..*old(self) }),
            released(old(self).done_read, old(self).read_ts, old(db).orc.read_marks@, final(db).orc.read_marks@),
            *final(db) == (TransactionDB {
                orc: Oracle { read_marks: final(db).orc.read_marks, ..old(db).orc },
                ..*old(db)
            }),
    {
        if !self.done_read {
            self.done_read = true;
            db.orc.done_read(self.read_ts);
        }
    }

    /// Ends the transaction, releasing its read snapshot if that was not
    /// done yet. Discarding again changes nothing.
    pub fn discard(&mut self, db: &mut TransactionDB)
        ensures
            final(self).discarded,
            discard_effect(*old(self), *final(self), *old(db), *final(db)),
    {
        if self.discarded {
            return;
        }
        self.discarded = true;
        self.done_read(db);
    }
    /// Takes a commit timestamp for this transaction and builds its batch:
    /// the read log and write fingerprints go to the oracle, which either
    /// reports a conflict and hands them back, or issues the next timestamp,
    /// with which every buffered entry is stamped.
    fn commit_entries(&mut self, db: &mut TransactionDB) -> (r: Result<CommitBatch, Error>)
        requires
            old(self).wf(),
            old(db).orc.last_ts < u64::MAX,
        ensures
            final(self).wf(),
            final(self).done_read,
            released(old(self).done_read, old(self).read_ts, old(db).orc.read_marks@, final(db).orc.read_marks@),
            final(db).store == old(db).store,
            commit_conflicts(*old(self), *old(db)) ==> (r matches Err(Error::Conflict)) && *final(self)
                == (WriteTransaction {
                reads: final(self).reads,
                conflict_keys: final(self).conflict_keys,
                done_read: true,
                ..*old(self)
            }) && final(self).reads@ == old(self).reads@ && opt_seq(final(self).conflict_keys)
                == opt_seq(old(self).conflict_keys) && final(db).orc == (Oracle {
                read_marks: final(db).orc.read_marks,
                ..old(db).orc
            }),
            !commit_conflicts(*old(self), *old(db)) ==> (r matches Ok(b)
                && b.commit_ts == old(db).orc.last_ts + 1
                && views(b.entries@) == commit_batch(old(self).pending_writes@, old(self).dup_view(), b.commit_ts))
                && issued(*old(db), *final(db), opt_seq(old(self).conflict_keys))
                && final(self).discarded == old(self).discarded,
    {
        let mut reads: Vec<u64> = Vec::new();
        core::mem::swap(&mut reads, &mut self.reads);
        let mut conflict_keys: Option<Vec<u64>> = None;
        core::mem::swap(&mut conflict_keys, &mut self.conflict_keys);
        match db.orc.new_commit_ts(&mut self.done_read, self.read_ts, reads, conflict_keys) {
            CreateCommitTimestampResult::Conflict { reads, conflict_keys } => {
                self.reads = reads;
                self.conflict_keys = conflict_keys;
                Err(Error::Conflict)
            },
            CreateCommitTimestampResult::Timestamp(commit_ts) => {
                let mut pending = PendingWrites::new();
                core::mem::swap(&mut pending, &mut self.pending_writes);
                let mut duplicates: Vec<Entry> = Vec::new();
                core::mem::swap(&mut duplicates, &mut self.duplicate_writes);
                let ghost pw = pending@;
                let ghost dup = views(duplicates@);
                let mut entries = pending.into_entries();
                stamp_all(&mut entries, commit_ts);
                stamp_all(&mut duplicates, commit_ts);
                let ghost a = views(entries@);
                let ghost b = views(duplicates@);
                entries.append(&mut duplicates);
                proof {
                    assert(views(entries@) =~= a + b);
                    assert(a + b =~= commit_batch(pw, dup, commit_ts));
                }
                Ok(CommitBatch { commit_ts, entries })
            },
        }
    }

    /// Commits the transaction. With nothing buffered it is discarded and
    /// no timestamp is taken. Otherwise a commit timestamp is issued unless
    /// the oracle finds a conflict, the stamped batch is applied to the
    /// store, the timestamp is finalized and the transaction discarded. A
    /// conflict leaves the transaction open and the store unchanged; every
    /// other failure discards it.
    pub fn commit(&mut self, db: &mut TransactionDB) -> (r: Result<(), Error>)
        requires
            old(self).wf(),
            live(*old(self)) && old(self).pending_writes@.len() > 0 ==> old(db).orc.last_ts < u64::MAX,
        ensures
            final(self).wf(),
            old(self).discarded ==> (r matches Err(Error::Discarded)) && *final(self) == *old(self)
                && *final(db) == *old(db),
            !old(self).discarded ==> final(self).done_read && released(
                old(self).done_read,
                old(self).read_ts,
                old(db).orc.read_marks@,
                final(db).orc.read_marks@,
            ),
            !old(self).discarded && old(self).too_large ==> (r matches Err(Error::TooLarge))
                && final(self).discarded && unissued(*old(db), *final(db)),
            live(*old(self)) && old(self).pending_writes@.len() == 0 ==> r is Ok
                && final(self).discarded && unissued(*old(db), *final(db)),
            live(*old(self)) && old(self).pending_writes@.len() > 0
                && commit_conflicts(*old(self), *old(db)) ==> (r matches Err(Error::Conflict))
                && !final(self).discarded && unissued(*old(db), *final(db))
                && final(self).pending_writes == old(self).pending_writes
                && final(self).duplicate_writes == old(self).duplicate_writes
                && final(self).reads@ == old(self).reads@ && opt_seq(final(self).conflict_keys)
                == opt_seq(old(self).conflict_keys),
            live(*old(self)) && old(self).pending_writes@.len() > 0
                && !commit_conflicts(*old(self), *old(db)) ==> r is Ok && final(self).discarded
                && applied(
                *old(db),
                *final(db),
                opt_seq(old(self).conflict_keys),
                commit_batch(old(self).pending_writes@, old(self).dup_view(), (old(db).orc.last_ts + 1) as u64),
            ),
    {
        if self.discarded {
            return Err(Error::Discarded);
        }
        if self.too_large {
            self.discard(db);
            return Err(Error::TooLarge);
        }
        if self.pending_writes.is_empty() {
            self.discard(db);
            return Ok(());
        }
        match self.commit_entries(db) {
            Err(e) => Err(e),
            Ok(batch) => {
                db.apply_batch(batch);
                self.discard(db);
                Ok(())
            },
        }
    }

    /// Commits as `commit` does, up to the issued timestamp: the stamped
    /// batch is handed back, to be applied with `TransactionDB::apply_batch`
    /// as a separate unit of work, and the transaction is discarded. With
    /// nothing buffered the result is `None`.
    pub fn commit_with_task(&mut self, db: &mut TransactionDB) -> (r: Result<Option<CommitBatch>, Error>)
        requires
            old(self).wf(),
            live(*old(self)) && old(self).pending_writes@.len() > 0 ==> old(db).orc.last_ts < u64::MAX,
        ensures
            final(self).wf(),
            old(self).discarded ==> (r matches Err(Error::Discarded)) && *final(self) == *old(self)
                && *final(db) == *old(db),
            !old(self).discarded ==> final(self).done_read && released(
                old(self).done_read,
                old(self).read_ts,
                old(db).orc.read_marks@,
                final(db).orc.read_marks@,
            ),
            !old(self).discarded && old(self).too_large ==> (r matches Err(Error::TooLarge))
                && final(self).discarded && unissued(*old(db), *final(db)),
            live(*old(self)) && old(self).pending_writes@.len() == 0 ==> (r matches Ok(None))
                && final(self).discarded && unissued(*old(db), *final(db)),
            live(*old(self)) && old(self).pending_writes@.len() > 0
                && commit_conflicts(*old(self), *old(db)) ==> (r matches Err(Error::Conflict))
                && !final(self).discarded && unissued(*old(db), *final(db))
                && final(self).pending_writes == old(self).pending_writes
                && final(self).duplicate_writes == old(self).duplicate_writes
                && final(self).reads@ == old(self).reads@ && opt_seq(final(self).conflict_keys)
                == opt_seq(old(self).conflict_keys),
            live(*old(self)) && old(self).pending_writes@.len() > 0
                && !commit_conflicts(*old(self), *old(db)) ==> (r matches Ok(Some(b))
                && b.commit_ts == old(db).orc.last_ts + 1
                && views(b.entries@) == commit_batch(old(self).pending_writes@, old(self).dup_view(), b.commit_ts))
                && final(self).discarded && issued(*old(db), *final(db), opt_seq(old(self).conflict_keys))
                && final(db).store == old(db).store,
    {
        if self.discarded {
            return Err(Error::Discarded);
        }
        if self.too_large {
            self.discard(db);
            return Err(Error::TooLarge);
        }
        if self.pending_writes.is_empty() {
            self.discard(db);
            return Ok(None);
        }
        match self.commit_entries(db) {
            Err(e) => Err(e),
            Ok(batch) => {
                self.discard(db);
                Ok(Some(batch))
            },
        }
    }
}

impl TransactionDB {
    /// An empty store with the given batch limits, whose oracle has issued
    /// timestamps up to `last_ts`.
    pub fn new(max_batch_entries: u64, max_batch_size: u64, last_ts: u64) -> (r: TransactionDB)
        ensures
            r.store.log_view().len() == 0,
            r.store.max_batch_entries == max_batch_entries,
            r.store.max_batch_size == max_batch_size,
            r.orc.last_ts == last_ts,
            r.orc.committed_view().len() == 0,
            r.orc.read_marks@.len() == 0,
            r.orc.pending_commits@.len() == 0,
    {
        TransactionDB { store: MemStore::new(max_batch_entries, max_batch_size), orc: Oracle::new(last_ts) }
    }

    /// Opens a write transaction at the latest issued timestamp, with
    /// conflict tracking where `track_conflicts` holds.
    pub fn write(&mut self, track_conflicts: bool) -> (r: WriteTransaction)
        ensures
            r.fresh(old(self).orc.last_ts, track_conflicts),
            final(self).orc.read_marks@ == old(self).orc.read_marks@.push(old(self).orc.last_ts),
            *final(self) == (TransactionDB {
                orc: Oracle { read_marks: final(self).orc.read_marks, ..old(self).orc },
                ..*old(self)
            }),
    {
        let read_ts = self.orc.begin_read();
        WriteTransaction::new(read_ts, track_conflicts)
    }

    /// Applies a batch whose timestamp was issued and finalizes that
    /// timestamp.
    pub fn apply_batch(&mut self, batch: CommitBatch)
        ensures
            final(self).store.log_view() == old(self).store.log_view() + views(batch.entries@),
            final(self).store.max_batch_entries == old(self).store.max_batch_entries,
            final(self).store.max_batch_size == old(self).store.max_batch_size,
            removed_one(old(self).orc.pending_commits@, final(self).orc.pending_commits@, batch.commit_ts),
            final(self).orc == (Oracle { pending_commits: final(self).orc.pending_commits, ..old(self).orc }),
    {
        let CommitBatch { commit_ts, entries } = batch;
        self.store.apply(entries);
        self.orc.done_commit(commit_ts);
    }
}

} // verus!
