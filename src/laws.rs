use vstd::prelude::*;
use crate::entry::{fingerprint_of, restamp, EntryView};
use crate::error::Error;
use crate::oracle::{any_written_after, written_after};
use crate::pending::{has_key, unique_keys};
use crate::store::{lemma_visible_bounded, MemStore};
use crate::write::{
    applied, buffer_write, commit_batch, commit_conflicts, discard_effect, modified, opt_seq,
    read_spec, write_error, ItemView, TransactionDB, WriteTransaction,
};

verus! {

/// A read at snapshot `ts` that is served by the store never sees a
/// version above `ts`, nor an entry of another key.
pub proof fn lemma_snapshot_isolation(pw: Seq<EntryView>, log: Seq<EntryView>, ts: u64, k: Seq<u8>)
    ensures
        read_spec(pw, log, ts, k) matches Some(ItemView::Committed(e)) ==> e.version <= ts && e.key
            == k,
{
    lemma_visible_bounded(log, k, ts);
}

/// After a successful insert of `k` with `v`, a read of `k` in the same
/// transaction returns that write from the overlay, and so logs no read.
pub proof fn lemma_own_write_visible(
    t: WriteTransaction,
    u: WriteTransaction,
    store: MemStore,
    k: Seq<u8>,
    v: Seq<u8>,
    r: Result<(), Error>,
    log: Seq<EntryView>,
)
    requires
        u.wf(),
        modified(t, u, store, EntryView { key: k, value: Some(v), version: t.read_ts }, r),
        r is Ok,
    ensures
        has_key(u.pending_writes@, k),
        read_spec(u.pending_writes@, log, u.read_ts, k) == Some(
            ItemView::Pending(EntryView { key: k, value: Some(v), version: t.read_ts }),
        ),
{
    let e = EntryView { key: k, value: Some(v), version: t.read_ts };
    let pw = u.pending_writes@;
    let n = pw.len() - 1;
    assert(pw[n] == e);
    let c = choose|c: int| 0 <= c < pw.len() && pw[c].key == k;
    assert(c == n);
}

/// A tracked write of a key puts its fingerprint among the transaction's
/// conflict keys.
pub proof fn lemma_write_tracks_key(
    t: WriteTransaction,
    u: WriteTransaction,
    store: MemStore,
    e: EntryView,
    r: Result<(), Error>,
)
    requires
        modified(t, u, store, e, r),
        r is Ok,
        t.conflict_keys is Some,
    ensures
        u.conflict_keys matches Some(c) && c@.contains(fingerprint_of(e.key)),
{
    let c = t.conflict_keys->Some_0@;
    let fp = fingerprint_of(e.key);
    if !c.contains(fp) {
        assert(c.push(fp)[c.len() as int] == fp);
    }
}

/// If `t1` read key `k` from the store, and a transaction that wrote `k`
/// under conflict tracking committed after `t1`'s snapshot, then `t1`'s
/// commit meets a conflict.
pub proof fn lemma_conflict_soundness(
    t1: WriteTransaction,
    t2: WriteTransaction,
    k: Seq<u8>,
    a: TransactionDB,
    b: TransactionDB,
    batch: Seq<EntryView>,
)
    requires
        t1.reads@.contains(fingerprint_of(k)),
        t1.read_ts <= a.orc.last_ts,
        a.orc.last_ts < u64::MAX,
        t2.conflict_keys matches Some(c) && c@.contains(fingerprint_of(k)),
        applied(a, b, opt_seq(t2.conflict_keys), batch),
    ensures
        commit_conflicts(t1, b),
{
    let fp = fingerprint_of(k);
    let cv = b.orc.committed_view();
    let i = cv.len() - 1;
    assert(cv[i].0 > t1.read_ts && cv[i].1.contains(fp));
    assert(written_after(cv, t1.read_ts, fp));
    let j = choose|j: int| 0 <= j < t1.reads@.len() && t1.reads@[j] == fp;
    assert(any_written_after(cv, t1.read_ts, t1.reads@));
}

/// If no fingerprint that `t` read or tracked as written was written by a
/// transaction that committed after `t`'s snapshot, `t`'s commit meets no
/// conflict.
pub proof fn lemma_conflict_completeness(t: WriteTransaction, db: TransactionDB)
    requires
        forall|fp: u64|
            #![trigger written_after(db.orc.committed_view(), t.read_ts, fp)]
            (t.reads@.contains(fp) || (t.conflict_keys matches Some(c) && c@.contains(fp)))
                ==> !written_after(db.orc.committed_view(), t.read_ts, fp),
    ensures
        !commit_conflicts(t, db),
{
    let cv = db.orc.committed_view();
    assert forall|j: int| 0 <= j < t.reads@.len() implies !written_after(cv, t.read_ts, t.reads@[j]) by {
        assert(t.reads@.contains(t.reads@[j]));
    }
    if let Some(c) = t.conflict_keys {
        assert forall|j: int| 0 <= j < c@.len() implies !written_after(cv, t.read_ts, c@[j]) by {
            let fp = c@[j];
            assert(c@.contains(fp));
            assert(t.conflict_keys matches Some(cc) && cc@.contains(fp));
        }
    }
}

/// Writing a key twice in one transaction: under two different versions
/// both writes reach the committed batch; under the same version the
/// second write replaces the first, as if it alone had been made.
pub proof fn lemma_duplicate_preservation(
    pw: Seq<EntryView>,
    dup: Seq<EntryView>,
    e1: EntryView,
    e2: EntryView,
    ts: u64,
)
    requires
        unique_keys(pw),
        e1.key == e2.key,
    ensures
        ({
            let (p1, d1) = buffer_write(pw, dup, e1);
            let (p2, d2) = buffer_write(p1, d1, e2);
            &&& e1.version != e2.version ==> commit_batch(p2, d2, ts).contains(restamp(e1, ts))
                && commit_batch(p2, d2, ts).contains(restamp(e2, ts))
            &&& e1.version == e2.version ==> (p2, d2) == buffer_write(pw, dup, e2)
        }),
{
    let (p1, d1) = buffer_write(pw, dup, e1);
    let (p2, d2) = buffer_write(p1, d1, e2);
    let n = p1.len() - 1;
    let base = if has_key(pw, e1.key) {
        let i = choose|i: int| 0 <= i < pw.len() && pw[i].key == e1.key;
        pw.remove(i)
    } else {
        pw
    };
    assert(p1 == base.push(e1));
    assert(!has_key(base, e1.key)) by {
        if has_key(pw, e1.key) {
            let i = choose|i: int| 0 <= i < pw.len() && pw[i].key == e1.key;
            assert forall|j: int| 0 <= j < base.len() implies base[j].key != e1.key by {
                if j < i {
                    assert(base[j] == pw[j]);
                } else {
                    assert(base[j] == pw[j + 1]);
                }
            }
        }
    }
    assert(p1[n] == e1);
    assert(has_key(p1, e2.key));
    let c = choose|c: int| 0 <= c < p1.len() && p1[c].key == e2.key;
    assert(c == n) by {
        if c != n {
            assert(p1[c] == base[c]);
        }
    }
    assert(p1.remove(n) =~= base);
    assert(p2 == base.push(e2));
    let all = p2 + d2;
    if e1.version != e2.version {
        assert(d2 == d1.push(e1));
        let m = (p2.len() + d1.len()) as int;
        assert(all[m] == e1);
        assert(all[p2.len() - 1] == e2);
        assert(commit_batch(p2, d2, ts)[m] == restamp(e1, ts));
        assert(commit_batch(p2, d2, ts)[p2.len() - 1] == restamp(e2, ts));
    } else {
        assert(d2 == d1);
        if has_key(pw, e1.key) {
            assert(buffer_write(pw, dup, e2).0 =~= p2);
        } else {
            assert(base == pw);
        }
    }
}

/// Once the entry count reaches the store's limit, a further write fails
/// with `TooLarge`, and every write after it fails too.
pub proof fn lemma_batch_limit(
    t: WriteTransaction,
    u: WriteTransaction,
    w: WriteTransaction,
    store: MemStore,
    e1: EntryView,
    e2: EntryView,
    r1: Result<(), Error>,
    r2: Result<(), Error>,
)
    requires
        !t.discarded,
        !t.too_large,
        e1.key.len() > 0,
        t.count + 1 >= store.max_batch_entries,
        modified(t, u, store, e1, r1),
        modified(u, w, store, e2, r2),
    ensures
        r1 == Err::<(), Error>(Error::TooLarge),
        u.too_large,
        r2 is Err,
{
}

/// Discarding twice has the effect of discarding once, and after a discard
/// every write fails with `Discarded`.
pub proof fn lemma_discard_idempotent(
    t: WriteTransaction,
    u: WriteTransaction,
    w: WriteTransaction,
    a: TransactionDB,
    b: TransactionDB,
    c: TransactionDB,
    store: MemStore,
    e: EntryView,
)
    requires
        discard_effect(t, u, a, b),
        discard_effect(u, w, b, c),
    ensures
        w == u,
        c == b,
        u.discarded,
        write_error(u, store, e) == Some(Error::Discarded),
{
}

} // verus!
