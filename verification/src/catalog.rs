//! The backup catalog: the registry of all known snapshots under one backup
//! root, each with its file manifest, ordered oldest first.  Paths and
//! directory names are byte strings, as the filesystem hands them out; the
//! unverified edge converts them to and from OS strings.

use vstd::prelude::*;

use crate::checksum::Digest;

verus! {

/// One file inside one snapshot.
pub struct FileRecord {
    /// Path relative to the snapshot root (and to the source root).
    pub relative_path: Vec<u8>,
    /// Byte length at capture time.
    pub size_bytes: u64,
    /// The source file's last-modification timestamp, in seconds since the
    /// Unix epoch, preserved onto the stored copy.
    pub modified_at: i64,
    /// Digest of the file content, used for integrity checks and dedup lookup.
    pub checksum: Digest,
}

/// The mathematical value of a `FileRecord`.
pub ghost struct FileRecordV {
    pub relative_path: Seq<u8>,
    pub size_bytes: u64,
    pub modified_at: i64,
    pub checksum: Digest,
}

impl View for FileRecord {
    type V = FileRecordV;

    open spec fn view(&self) -> FileRecordV {
        FileRecordV {
            relative_path: self.relative_path@,
            size_bytes: self.size_bytes,
            modified_at: self.modified_at,
            checksum: self.checksum,
        }
    }
}

impl Clone for FileRecord {
    fn clone(&self) -> (r: Self)
        ensures
            r@ == self@,
    {
        FileRecord {
            relative_path: clone_bytes(&self.relative_path),
            size_bytes: self.size_bytes,
            modified_at: self.modified_at,
            checksum: self.checksum,
        }
    }
}

/// An exact copy of a byte string.
pub fn clone_bytes(v: &Vec<u8>) -> (r: Vec<u8>)
    ensures
        r@ == v@,
{
    let mut r: Vec<u8> = Vec::new();
    let mut i: usize = 0;
    while i < v.len()
        invariant
            i <= v.len(),
            r@ == v@.take(i as int),
        decreases v.len() - i,
    {
        r.push(v[i]);
        assert(r@ =~= v@.take(i + 1 as int));
        i = i + 1;
    }
    proof {
        assert(v@.take(v.len() as int) =~= v@);
    }
    r
}

/// The sum of the recorded sizes of a sequence of file records.
pub open spec fn sum_sizes(files: Seq<FileRecordV>) -> int
    decreases files.len(),
{
    if files.len() == 0 {
        0
    } else {
        sum_sizes(files.drop_last()) + files.last().size_bytes
    }
}

/// One completed backup run: a named capture of the source tree.
pub struct Snapshot {
    /// Unique, sortable identifier, also the on-disk directory name under the
    /// backup root.
    pub name: Vec<u8>,
    /// Capture time, in seconds since the Unix epoch.
    pub created_at: i64,
    /// Disambiguator when two snapshots are requested within the same clock
    /// second; part of the name.
    pub sequence: u64,
    /// One record per copied file, in traversal order.  Directories are
    /// structural and not recorded.
    pub files: Vec<FileRecord>,
    /// Sum of `files[*].size_bytes`.
    pub total_size_bytes: u64,
}

/// The mathematical value of a `Snapshot`.
pub ghost struct SnapshotV {
    pub name: Seq<u8>,
    pub created_at: i64,
    pub sequence: u64,
    pub files: Seq<FileRecordV>,
    pub total_size_bytes: u64,
}

impl SnapshotV {
    /// A snapshot's running total is exactly the sum of its records' sizes,
    /// and its capture time is never before the epoch.
    pub open spec fn wf(self) -> bool {
        &&& self.total_size_bytes == sum_sizes(self.files)
        &&& self.created_at >= 0
    }
}

impl View for Snapshot {
    type V = SnapshotV;

    open spec fn view(&self) -> SnapshotV {
        SnapshotV {
            name: self.name@,
            created_at: self.created_at,
            sequence: self.sequence,
            files: self.files@.map_values(|f: FileRecord| f@),
            total_size_bytes: self.total_size_bytes,
        }
    }
}

impl Snapshot {
    pub open spec fn wf(self) -> bool {
        self@.wf()
    }

    /// A fresh, empty snapshot.
    pub fn new(name: Vec<u8>, created_at: i64, sequence: u64) -> (r: Self)
        requires
            created_at >= 0,
        ensures
            r.wf(),
            r@.name == name@,
            r@.created_at == created_at,
            r@.sequence == sequence,
            r@.files == Seq::<FileRecordV>::empty(),
            r@.total_size_bytes == 0,
    {
        let r = Snapshot { name, created_at, sequence, files: Vec::new(), total_size_bytes: 0 };
        proof {
            assert(r@.files =~= Seq::<FileRecordV>::empty());
        }
        r
    }

    /// Append one record and account its size into the running total.
    pub fn push_record(&mut self, rec: FileRecord)
        requires
            old(self).wf(),
            old(self)@.total_size_bytes + rec@.size_bytes <= u64::MAX,
        ensures
            final(self).wf(),
            final(self)@.files == old(self)@.files.push(rec@),
            final(self)@.total_size_bytes == old(self)@.total_size_bytes + rec@.size_bytes,
            final(self)@.name == old(self)@.name,
            final(self)@.created_at == old(self)@.created_at,
            final(self)@.sequence == old(self)@.sequence,
    {
        self.total_size_bytes = self.total_size_bytes + rec.size_bytes;
        self.files.push(rec);
        proof {
            assert(self@.files =~= old(self)@.files.push(self.files@.last()@));
            assert(self@.files.drop_last() =~= old(self)@.files);
        }
    }

    /// Append one record if its size still fits the running total; report
    /// whether it did.  The snapshot is unchanged when it did not.
    pub fn try_push_record(&mut self, rec: FileRecord) -> (ok: bool)
        requires
            old(self).wf(),
        ensures
            final(self).wf(),
            ok == (old(self)@.total_size_bytes + rec@.size_bytes <= u64::MAX),
            ok ==> final(self)@.files == old(self)@.files.push(rec@)
                && final(self)@.total_size_bytes == old(self)@.total_size_bytes + rec@.size_bytes,
            !ok ==> *final(self) == *old(self),
            final(self)@.name == old(self)@.name,
            final(self)@.created_at == old(self)@.created_at,
            final(self)@.sequence == old(self)@.sequence,
    {
        match self.total_size_bytes.checked_add(rec.size_bytes) {
            Some(_) => {
                self.push_record(rec);
                true
            },
            None => false,
        }
    }
}

/// Chronological order on snapshots: by capture time, ties broken by the
/// disambiguating sequence number (and so by name).
pub open spec fn chrono_before(a: SnapshotV, b: SnapshotV) -> bool {
    a.created_at < b.created_at || (a.created_at == b.created_at && a.sequence < b.sequence)
}

/// The view of a vector of snapshots.
pub open spec fn snaps_view(s: Seq<Snapshot>) -> Seq<SnapshotV> {
    s.map_values(|x: Snapshot| x@)
}

/// The sum of the snapshots' recorded total sizes.
pub open spec fn total_of(s: Seq<SnapshotV>) -> int
    decreases s.len(),
{
    if s.len() == 0 {
        0
    } else {
        total_of(s.drop_last()) + s.last().total_size_bytes
    }
}

/// The total is never negative and at most `len * u64::MAX`.
pub proof fn lemma_total_of_bound(s: Seq<SnapshotV>)
    ensures
        0 <= total_of(s) <= s.len() * (u64::MAX as int),
    decreases s.len(),
{
    if s.len() > 0 {
        lemma_total_of_bound(s.drop_last());
        assert(s.len() * (u64::MAX as int) == (s.len() - 1) * (u64::MAX as int) + u64::MAX)
            by (nonlinear_arith);
    }
}

/// The total splits at any cut: prefix plus suffix.
pub proof fn lemma_total_of_split(s: Seq<SnapshotV>, k: int)
    requires
        0 <= k <= s.len(),
    ensures
        total_of(s.take(k)) + total_of(s.skip(k)) == total_of(s),
    decreases s.len(),
{
    if k == s.len() {
        assert(s.take(k) =~= s);
        assert(s.skip(k) =~= Seq::<SnapshotV>::empty());
    } else {
        let dl = s.drop_last();
        lemma_total_of_split(dl, k);
        assert(s.take(k) =~= dl.take(k));
        assert(s.skip(k).drop_last() =~= dl.skip(k));
        assert(s.skip(k).last() == s.last());
    }
}

/// The set of all known snapshots under one backup root, oldest first.
pub struct Catalog {
    pub snapshots: Vec<Snapshot>,
}

impl View for Catalog {
    type V = Seq<SnapshotV>;

    open spec fn view(&self) -> Seq<SnapshotV> {
        snaps_view(self.snapshots@)
    }
}

impl Catalog {
    /// Every snapshot is well formed, and they stand in strictly increasing
    /// chronological order, oldest first.
    pub open spec fn wf(self) -> bool {
        &&& forall|i: int| 0 <= i < self@.len() ==> (#[trigger] self@[i]).wf()
        &&& forall|i: int, j: int|
            0 <= i < j < self@.len() ==> chrono_before(#[trigger] self@[i], #[trigger] self@[j])
    }

    /// An empty catalog.
    pub fn new() -> (r: Self)
        ensures
            r.wf(),
            r@ == Seq::<SnapshotV>::empty(),
    {
        let r = Catalog { snapshots: Vec::new() };
        proof {
            assert(r@ =~= Seq::<SnapshotV>::empty());
        }
        r
    }

    /// The snapshots, oldest first.
    pub fn oldest_first(&self) -> (r: &Vec<Snapshot>)
        ensures
            snaps_view(r@) == self@,
    {
        &self.snapshots
    }

    /// Append a newly completed snapshot.  It is accepted exactly when it is
    /// well formed and newer than everything already recorded; otherwise the
    /// catalog is left unchanged and the snapshot is handed back.
    pub fn record(&mut self, s: Snapshot) -> (r: Result<(), Snapshot>)
        requires
            old(self).wf(),
        ensures
            final(self).wf(),
            r is Ok <==> (s@.wf() && (old(self)@.len() == 0 || chrono_before(
                old(self)@.last(),
                s@,
            ))),
            r is Ok ==> final(self)@ == old(self)@.push(s@),
            r matches Err(back) ==> final(self)@ == old(self)@ && back == s,
    {
        let fits: bool = if self.snapshots.len() == 0 {
            true
        } else {
            let last = &self.snapshots[self.snapshots.len() - 1];
            last.created_at < s.created_at
                || (last.created_at == s.created_at && last.sequence < s.sequence)
        };
        let sound: bool = check_snapshot_wf(&s);
        if fits && sound {
            self.snapshots.push(s);
            proof {
                assert(self@ =~= old(self)@.push(self.snapshots@.last()@));
                assert forall|i: int, j: int| 0 <= i < j < self@.len() implies chrono_before(
                    #[trigger] self@[i],
                    #[trigger] self@[j],
                ) by {
                    if j < self@.len() - 1 {
                        assert(chrono_before(old(self)@[i], old(self)@[j]));
                    } else {
                        assert(self@[j] == s@);
                        assert(self@[i] == old(self)@[i]);
                        if i < old(self)@.len() - 1 {
                            assert(chrono_before(old(self)@[i], old(self)@[old(self)@.len() - 1]));
                        }
                        assert(chrono_before(old(self)@.last(), s@));
                    }
                }
            }
            Ok(())
        } else {
            Err(s)
        }
    }

    /// The total recorded size across all snapshots, wide enough that it can
    /// never overflow.
    pub fn total_size(&self) -> (t: u128)
        ensures
            t == total_of(self@),
    {
        let mut t: u128 = 0;
        let mut i: usize = 0;
        while i < self.snapshots.len()
            invariant
                i <= self.snapshots.len(),
                t == total_of(self@.take(i as int)),
            decreases self.snapshots.len() - i,
        {
            proof {
                lemma_total_of_bound(self@.take(i as int));
                assert(self@.take(i as int).len() * (u64::MAX as int) + u64::MAX
                    < u128::MAX as int) by (nonlinear_arith)
                    requires self@.take(i as int).len() <= u64::MAX;
                assert(self@.take(i + 1 as int).drop_last() =~= self@.take(i as int));
            }
            t = t + self.snapshots[i].total_size_bytes as u128;
            i = i + 1;
        }
        proof {
            assert(self@.take(self.snapshots@.len() as int) =~= self@);
        }
        t
    }
}

/// Rebuild the catalog from the snapshots found under one backup root, in
/// whatever order the scan delivered them.  Every candidate either enters the
/// catalog or comes back in the second component — degraded, never silently
/// dropped: exactly those that are malformed or that share a capture stamp
/// with an accepted snapshot are handed back, to be surfaced as unknown and
/// left untouched on disk.
#[verifier::rlimit(100)]
#[verifier::spinoff_prover]
pub fn load_catalog(snaps: Vec<Snapshot>) -> (r: (Catalog, Vec<Snapshot>))
    ensures
        r.0.wf(),
        snaps_view(snaps@).to_multiset() == r.0@.to_multiset().add(
            snaps_view(r.1@).to_multiset(),
        ),
        r.0@.len() + r.1@.len() == snaps@.len(),
        forall|i: int|
            0 <= i < r.1@.len() ==> !(#[trigger] r.1@[i]@).wf() || exists|j: int|
                0 <= j < r.0@.len() && (#[trigger] r.0@[j]).created_at == r.1@[i]@.created_at
                    && r.0@[j].sequence == r.1@[i]@.sequence,
{
    broadcast use vstd::seq_lib::group_to_multiset_ensures;

    let ghost minput = snaps_view(snaps@).to_multiset();
    let mut rest = snaps;
    let mut cat = Catalog::new();
    let mut rejected: Vec<Snapshot> = Vec::new();
    proof {
        assert(snaps_view(rejected@) =~= Seq::<SnapshotV>::empty());
        assert(minput =~= cat@.to_multiset().add(snaps_view(rejected@).to_multiset()).add(
            snaps_view(rest@).to_multiset(),
        ));
    }
    while rest.len() > 0
        invariant
            cat.wf(),
            minput == snaps_view(snaps@).to_multiset(),
            minput == cat@.to_multiset().add(snaps_view(rejected@).to_multiset()).add(
                snaps_view(rest@).to_multiset(),
            ),
            cat@.len() + rejected@.len() + rest@.len() == snaps@.len(),
            forall|j: int|
                0 <= j < rest@.len() && cat@.len() > 0 ==> !chrono_before(
                    (#[trigger] rest@[j])@,
                    cat@.last(),
                ),
            forall|i: int|
                0 <= i < rejected@.len() ==> !(#[trigger] rejected@[i]@).wf() || exists|j: int|
                    0 <= j < cat@.len() && (#[trigger] cat@[j]).created_at
                        == rejected@[i]@.created_at && cat@[j].sequence == rejected@[i]@.sequence,
        decreases rest@.len(),
    {
        // Find the chronologically first remaining candidate.
        let mut min_i: usize = 0;
        let mut i: usize = 1;
        while i < rest.len()
            invariant
                rest@.len() > 0,
                min_i < rest@.len(),
                i <= rest@.len(),
                forall|j: int|
                    0 <= j < i ==> !chrono_before((#[trigger] rest@[j])@, rest@[min_i as int]@),
            decreases rest@.len() - i,
        {
            let earlier: bool = rest[i].created_at < rest[min_i].created_at || (rest[i].created_at
                == rest[min_i].created_at && rest[i].sequence < rest[min_i].sequence);
            if earlier {
                min_i = i;
            }
            i = i + 1;
        }
        let ghost rest_pre = rest@;
        let s = rest.remove(min_i);
        proof {
            assert forall|x: int| 0 <= x < rest@.len() implies snaps_view(rest@)[x] == snaps_view(
                rest_pre,
            ).remove(min_i as int)[x] by {
                assert(snaps_view(rest@)[x] == rest@[x]@);
                if x < min_i as int {
                    assert(rest@[x] == rest_pre[x]);
                } else {
                    assert(rest@[x] == rest_pre[x + 1]);
                }
            }
            assert(snaps_view(rest@) =~= snaps_view(rest_pre).remove(min_i as int));
            assert(snaps_view(rest_pre)[min_i as int] == s@);
            snaps_view(rest_pre).to_multiset_ensures();
            assert(snaps_view(rest_pre).contains(s@)) by {
                assert(snaps_view(rest_pre)[min_i as int] == s@);
            }
            assert(snaps_view(rest_pre).remove(min_i as int).to_multiset() =~= snaps_view(
                rest_pre,
            ).to_multiset().remove(s@));
            assert(snaps_view(rest_pre).to_multiset().contains(s@));
        }
        let ghost cat_pre = cat@;
        let ghost rejected_pre = rejected@;
        match cat.record(s) {
            Ok(()) => {
                proof {
                    assert(cat@ == cat_pre.push(s@));
                    vstd::seq_lib::to_multiset_build(cat_pre, s@);
                    assert(minput =~= cat@.to_multiset().add(
                        snaps_view(rejected@).to_multiset(),
                    ).add(snaps_view(rest@).to_multiset()));
                    assert forall|j: int| 0 <= j < rest@.len() && cat@.len() > 0 implies
                        !chrono_before((#[trigger] rest@[j])@, cat@.last()) by {
                        assert(cat@.last() == s@);
                        if j < min_i as int {
                            assert(rest@[j] == rest_pre[j]);
                        } else {
                            assert(rest@[j] == rest_pre[j + 1]);
                        }
                    }
                    assert forall|x: int| 0 <= x < rejected@.len() implies !(
                    #[trigger] rejected@[x]@).wf() || exists|j: int|
                        0 <= j < cat@.len() && (#[trigger] cat@[j]).created_at
                            == rejected@[x]@.created_at && cat@[j].sequence
                            == rejected@[x]@.sequence by {
                        if rejected@[x]@.wf() {
                            let j = choose|j: int|
                                0 <= j < cat_pre.len() && (#[trigger] cat_pre[j]).created_at
                                    == rejected@[x]@.created_at && cat_pre[j].sequence
                                    == rejected@[x]@.sequence;
                            assert(cat@[j] == cat_pre[j]);
                        }
                    }
                }
            },
            Err(back) => {
                rejected.push(back);
                proof {
                    assert(back@ == s@);
                    assert(snaps_view(rejected@) =~= snaps_view(rejected_pre).push(back@));
                    vstd::seq_lib::to_multiset_build(snaps_view(rejected_pre), back@);
                    assert(minput =~= cat@.to_multiset().add(
                        snaps_view(rejected@).to_multiset(),
                    ).add(snaps_view(rest@).to_multiset()));
                    assert forall|x: int| 0 <= x < rejected@.len() implies !(
                    #[trigger] rejected@[x]@).wf() || exists|j: int|
                        0 <= j < cat@.len() && (#[trigger] cat@[j]).created_at
                            == rejected@[x]@.created_at && cat@[j].sequence
                            == rejected@[x]@.sequence by {
                        if x == rejected@.len() - 1 {
                            if back@.wf() {
                                // A well-formed candidate is refused only on a
                                // stamp that is not after the newest accepted
                                // one; remaining candidates are never before
                                // it either, so the stamps are equal.
                                assert(cat_pre.len() > 0);
                                assert(!chrono_before(back@, cat_pre.last()));
                                assert(!chrono_before(cat_pre.last(), back@));
                                assert(cat@[cat@.len() - 1].created_at == back@.created_at
                                    && cat@[cat@.len() - 1].sequence == back@.sequence);
                            }
                        } else {
                            assert(rejected@[x] == rejected_pre[x]);
                        }
                    }
                }
            },
        }
    }
    proof {
        assert(snaps_view(rest@) =~= Seq::<SnapshotV>::empty());
        assert(snaps_view(snaps@).to_multiset() =~= cat@.to_multiset().add(
            snaps_view(rejected@).to_multiset(),
        ));
        assert forall|i: int| 0 <= i < rejected@.len() implies !(#[trigger] rejected@[i]@).wf()
            || exists|j: int|
            0 <= j < cat@.len() && (#[trigger] cat@[j]).created_at == rejected@[i]@.created_at
                && cat@[j].sequence == rejected@[i]@.sequence by {
            if rejected@[i]@.wf() {
                let j = choose|j: int|
                    0 <= j < cat@.len() && (#[trigger] cat@[j]).created_at
                        == rejected@[i]@.created_at && cat@[j].sequence == rejected@[i]@.sequence;
                assert(0 <= j < cat@.len() && cat@[j].created_at == rejected@[i]@.created_at
                    && cat@[j].sequence == rejected@[i]@.sequence);
            }
        }
    }
    (cat, rejected)
}

/// Whether a snapshot value satisfies its invariant: the running total equals
/// the sum of the record sizes and the capture time is not before the epoch.
pub fn check_snapshot_wf(s: &Snapshot) -> (r: bool)
    ensures
        r == s@.wf(),
{
    if s.created_at < 0 {
        return false;
    }
    let mut sum: u128 = 0;
    let mut i: usize = 0;
    while i < s.files.len()
        invariant
            i <= s.files.len(),
            sum == sum_sizes(s@.files.take(i as int)),
        decreases s.files.len() - i,
    {
        proof {
            lemma_sum_sizes_bound(s@.files.take(i as int));
            assert(s@.files.take(i as int).len() * (u64::MAX as int) + u64::MAX
                < u128::MAX as int) by (nonlinear_arith)
                requires s@.files.take(i as int).len() <= u64::MAX;
            assert(s@.files.take(i + 1 as int).drop_last() =~= s@.files.take(i as int));
        }
        sum = sum + s.files[i].size_bytes as u128;
        i = i + 1;
    }
    proof {
        assert(s@.files.take(s.files@.len() as int) =~= s@.files);
    }
    sum == s.total_size_bytes as u128
}

/// The sum of record sizes is never negative and at most `len * u64::MAX`.
pub proof fn lemma_sum_sizes_bound(files: Seq<FileRecordV>)
    ensures
        0 <= sum_sizes(files) <= files.len() * (u64::MAX as int),
    decreases files.len(),
{
    if files.len() > 0 {
        lemma_sum_sizes_bound(files.drop_last());
        assert(files.len() * (u64::MAX as int) == (files.len() - 1) * (u64::MAX as int) + u64::MAX)
            by (nonlinear_arith);
    }
}

} // verus!
