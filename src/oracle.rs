use vstd::prelude::*;

verus! {

/// The key fingerprints a committed transaction wrote, under its commit
/// timestamp.
pub struct CommitRecord {
    pub ts: u64,
    pub keys: Vec<u64>,
}

/// True when a transaction that committed after `read_ts` wrote a key of
/// fingerprint `fp`.
pub open spec fn written_after(committed: Seq<(u64, Seq<u64>)>, read_ts: u64, fp: u64) -> bool {
    exists|i: int| 0 <= i < committed.len() && committed[i].0 > read_ts && committed[i].1.contains(fp)
}

/// True when some fingerprint of `fps` was written after `read_ts`.
pub open spec fn any_written_after(committed: Seq<(u64, Seq<u64>)>, read_ts: u64, fps: Seq<u64>) -> bool {
    exists|j: int| 0 <= j < fps.len() && written_after(committed, read_ts, fps[j])
}

/// The conflict rule: a fingerprint read, or written under conflict
/// tracking, by a transaction at snapshot `read_ts` was written by a
/// transaction that committed after it.
pub open spec fn conflicts(
    committed: Seq<(u64, Seq<u64>)>,
    read_ts: u64,
    reads: Seq<u64>,
    conflict_keys: Option<Seq<u64>>,
) -> bool {
    any_written_after(committed, read_ts, reads) || (conflict_keys matches Some(c)
        && any_written_after(committed, read_ts, c))
}

/// What the oracle answers to a commit-timestamp request.
pub enum CreateCommitTimestampResult {
    /// A fresh commit timestamp.
    Timestamp(u64),
    /// A conflict; the request's logs are handed back unconsumed.
    Conflict { reads: Vec<u64>, conflict_keys: Option<Vec<u64>> },
}

/// True when `after` is `before` with one occurrence of `x` taken out, or
/// `before` itself where it holds none.
pub open spec fn removed_one(before: Seq<u64>, after: Seq<u64>, x: u64) -> bool {
    if before.contains(x) {
        exists|i: int| 0 <= i < before.len() && before[i] == x && after == before.remove(i)
    } else {
        after == before
    }
}

/// Takes one occurrence of `x` out of `v`, if there is one.
fn remove_one(v: &mut Vec<u64>, x: u64)
    ensures
        removed_one(old(v)@, final(v)@, x),
{
    let mut i: usize = 0;
    while i < v.len()
        invariant
            0 <= i <= v@.len(),
            *v == *old(v),
            forall|j: int| 0 <= j < i ==> v@[j] != x,
        decreases v@.len() - i,
    {
        if v[i] == x {
            v.remove(i);
            return;
        }
        i = i + 1;
    }
}

/// The process-wide timestamp authority: it issues commit timestamps,
/// detects conflicts, and tracks the read snapshots and commits in flight.
pub struct Oracle {
    /// The latest commit timestamp issued.
    pub last_ts: u64,
    /// The transactions committed with conflict tracking.
    pub committed: Vec<CommitRecord>,
    /// Read snapshots still held by open transactions.
    pub read_marks: Vec<u64>,
    /// Commit timestamps issued whose batches are not yet finalized.
    pub pending_commits: Vec<u64>,
}

impl Oracle {
    pub open spec fn committed_view(&self) -> Seq<(u64, Seq<u64>)> {
        self.committed@.map_values(|c: CommitRecord| (c.ts, c.keys@))
    }

    /// An oracle whose latest issued timestamp is `last_ts`.
    pub fn new(last_ts: u64) -> (r: Oracle)
        ensures
            r.last_ts == last_ts,
            r.committed_view().len() == 0,
            r.read_marks@.len() == 0,
            r.pending_commits@.len() == 0,
    {
        Oracle { last_ts, committed: Vec::new(), read_marks: Vec::new(), pending_commits: Vec::new() }
    }

    /// Opens a read snapshot at the latest issued timestamp and returns it.
    pub fn begin_read(&mut self) -> (r: u64)
        ensures
            r == old(self).last_ts,
            final(self).read_marks@ == old(self).read_marks@.push(r),
            *final(self) == (Oracle { read_marks: final(self).read_marks, ..*old(self) }),
    {
        let ts = self.last_ts;
        self.read_marks.push(ts);
        ts
    }

    /// Releases one hold on the read snapshot `ts`.
    pub fn done_read(&mut self, ts: u64)
        ensures
            removed_one(old(self).read_marks@, final(self).read_marks@, ts),
            *final(self) == (Oracle { read_marks: final(self).read_marks, ..*old(self) }),
    {
        remove_one(&mut self.read_marks, ts);
    }

    /// Finalizes the commit issued at `ts`.
    pub fn done_commit(&mut self, ts: u64)
        ensures
            removed_one(old(self).pending_commits@, final(self).pending_commits@, ts),
            *final(self) == (Oracle { pending_commits: final(self).pending_commits, ..*old(self) }),
    {
        remove_one(&mut self.pending_commits, ts);
    }

    /// Whether a transaction that committed after `read_ts` wrote `fp`.
    pub fn is_written_after(&self, read_ts: u64, fp: u64) -> (r: bool)
        ensures
            r == written_after(self.committed_view(), read_ts, fp),
    {
        let ghost cv = self.committed_view();
        let mut i: usize = 0;
        while i < self.committed.len()
            invariant
                0 <= i <= cv.len(),
                cv == self.committed_view(),
                forall|k: int| 0 <= k < i ==> !(cv[k].0 > read_ts && cv[k].1.contains(fp)),
            decreases cv.len() - i,
        {
            let c = &self.committed[i];
            if c.ts > read_ts {
                let mut j: usize = 0;
                while j < c.keys.len()
                    invariant
                        0 <= i < cv.len(),
                        cv == self.committed_view(),
                        *c == self.committed@[i as int],
                        c.ts > read_ts,
                        0 <= j <= c.keys@.len(),
                        forall|m: int| 0 <= m < j ==> c.keys@[m] != fp,
                    decreases c.keys@.len() - j,
                {
                    if c.keys[j] == fp {
                        assert(cv[i as int].1[j as int] == fp);
                        assert(cv[i as int].1.contains(fp));
                        return true;
                    }
                    j = j + 1;
                }
                assert(!cv[i as int].1.contains(fp));
            }
            i = i + 1;
        }
        false
    }

    /// Whether some fingerprint of `fps` was written after `read_ts`.
    pub fn any_written_after(&self, read_ts: u64, fps: &Vec<u64>) -> (r: bool)
        ensures
            r == any_written_after(self.committed_view(), read_ts, fps@),
    {
        let mut j: usize = 0;
        while j < fps.len()
            invariant
                0 <= j <= fps@.len(),
                forall|m: int| 0 <= m < j ==> !written_after(self.committed_view(), read_ts, fps@[m]),
            decreases fps@.len() - j,
        {
            if self.is_written_after(read_ts, fps[j]) {
                return true;
            }
            j = j + 1;
        }
        false
    }

    /// Requests a commit timestamp for a transaction at snapshot `read_ts`
    /// with the given read log and write fingerprints. The read snapshot is
    /// released first, unless `done_read` says it already was. On a
    /// conflict the logs come back unconsumed; otherwise the next timestamp
    /// is issued and recorded as in flight, together with the write
    /// fingerprints where conflicts are tracked.
    pub fn new_commit_ts(
        &mut self,
        done_read: &mut bool,
        read_ts: u64,
        reads: Vec<u64>,
        conflict_keys: Option<Vec<u64>>,
    ) -> (r: CreateCommitTimestampResult)
        requires
            old(self).last_ts < u64::MAX,
        ensures
            *final(done_read),
            *old(done_read) ==> final(self).read_marks@ == old(self).read_marks@,
            !*old(done_read) ==> removed_one(old(self).read_marks@, final(self).read_marks@, read_ts),
            ({
                let ck = match conflict_keys {
                    Some(c) => Some(c@),
                    None => None,
                };
                if conflicts(old(self).committed_view(), read_ts, reads@, ck) {
                    &&& r matches CreateCommitTimestampResult::Conflict { reads: r2, conflict_keys: c2 }
                    &&& r2@ == reads@
                    &&& (match c2 {
                        Some(c) => Some(c@),
                        None => None,
                    }) == ck
                    &&& *final(self) == (Oracle { read_marks: final(self).read_marks, ..*old(self) })
                } else {
                    let ts = (old(self).last_ts + 1) as u64;
                    &&& r == CreateCommitTimestampResult::Timestamp(ts)
                    &&& final(self).last_ts == ts
                    &&& final(self).pending_commits@ == old(self).pending_commits@.push(ts)
                    &&& final(self).committed_view() == match ck {
                        Some(c) => old(self).committed_view().push((ts, c)),
                        None => old(self).committed_view(),
                    }
                }
            }),
    {
        if !*done_read {
            self.done_read(read_ts);
            *done_read = true;
        }
        let hit = self.any_written_after(read_ts, &reads) || match &conflict_keys {
            Some(c) => self.any_written_after(read_ts, c),
            None => false,
        };
        if hit {
            return CreateCommitTimestampResult::Conflict { reads, conflict_keys };
        }
        let ts = self.last_ts + 1;
        self.last_ts = ts;
        self.pending_commits.push(ts);
        match conflict_keys {
            Some(keys) => {
                let ghost kv = keys@;
                self.committed.push(CommitRecord { ts, keys });
                assert(self.committed_view() =~= old(self).committed_view().push((ts, kv)));
            },
            None => {},
        }
        CreateCommitTimestampResult::Timestamp(ts)
    }
}

} // verus!
