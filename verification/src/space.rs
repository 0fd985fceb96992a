//! The space manager: the retention policy.  While the total stored size
//! exceeds the budget and more than one snapshot remains, the single oldest
//! snapshot is removed from the catalog and handed back for deletion.  At
//! least one snapshot is always retained — an empty backup root is a worse
//! failure than an over-budget one.  Each eviction carries its rescue set:
//! the records whose content a retained snapshot still references, which must
//! survive the deletion.  When a deletion fails midway, the caller recomputes
//! the actual remaining size from disk and continues with
//! `manage_backup_space_from`; an eviction failure never aborts a backup run.

use vstd::prelude::*;

use crate::BackupError;
use crate::catalog::{
    chrono_before, lemma_total_of_bound, lemma_total_of_split, snaps_view, total_of, Catalog,
    FileRecord, FileRecordV, Snapshot, SnapshotV,
};
use crate::checksum::Digest;
use crate::content_store::catalog_has_checksum;

verus! {

/// One decided eviction: the snapshot to delete, and the records of it whose
/// content some retained snapshot still references — the caller must see that
/// this content survives (by links that keep the bytes alive, or by re-copying
/// into a retained snapshot) before the directory goes.
pub struct Eviction {
    pub snapshot: Snapshot,
    pub rescue: Vec<FileRecord>,
}

/// The views of the evicted snapshots, oldest first.
pub open spec fn ev_snaps(s: Seq<Eviction>) -> Seq<SnapshotV> {
    s.map_values(|e: Eviction| e.snapshot@)
}

/// Whether every eviction's rescue set names exactly the records whose
/// content the retained snapshots still reference.
pub open spec fn rescues_complete(evs: Seq<Eviction>, retained: Seq<SnapshotV>) -> bool {
    forall|i: int|
        0 <= i < evs.len() ==> (#[trigger] evs[i]).rescue@.map_values(|f: FileRecord| f@)
            == evs[i].snapshot@.files.filter(
            |f: FileRecordV| catalog_has_checksum(retained, f.checksum),
        )
}

/// What remains of a measured on-disk total after deleting these snapshots,
/// counting each at its recorded size and never below zero.
pub open spec fn drained(start: int, s: Seq<SnapshotV>) -> int
    decreases s.len(),
{
    if s.len() == 0 {
        start
    } else {
        let prev = drained(start, s.drop_last());
        if prev >= s.last().total_size_bytes {
            prev - s.last().total_size_bytes
        } else {
            0
        }
    }
}

/// Deleting a prefix of the catalog drains its recorded total to exactly the
/// total of the rest: the recorded arithmetic never bottoms out.
pub proof fn lemma_drained_exact(s: Seq<SnapshotV>, i: int)
    requires
        0 <= i <= s.len(),
    ensures
        drained(total_of(s), s.take(i)) == total_of(s.skip(i)),
    decreases i,
{
    if i == 0 {
        assert(s.take(0) =~= Seq::<SnapshotV>::empty());
        assert(s.skip(0) =~= s);
    } else {
        lemma_drained_exact(s, i - 1);
        lemma_total_of_split(s, i - 1);
        lemma_total_of_split(s, i);
        lemma_total_of_bound(s.skip(i));
        assert(s.take(i).drop_last() =~= s.take(i - 1));
        assert(s.take(i).last() == s[i - 1]);
        assert(s.take(i - 1).push(s[i - 1]) =~= s.take(i));
        assert(total_of(s.take(i)) == total_of(s.take(i - 1)) + s[i - 1].total_size_bytes) by {
            assert(s.take(i).drop_last() =~= s.take(i - 1));
        }
        assert(total_of(s.skip(i - 1)) == total_of(s) - total_of(s.take(i - 1)));
        assert(total_of(s.skip(i)) == total_of(s) - total_of(s.take(i)));
    }
}

/// Enforce the budget against a measured on-disk total: evict oldest
/// snapshots, each counted at its recorded size, until the drained total is
/// within `max_space` — but never below one remaining snapshot.  This is the
/// follow-up when a deletion failed midway: the caller recomputes the actual
/// remaining size from disk, hands it in, and eviction continues with the
/// next-oldest candidate instead of aborting the run.
pub fn manage_backup_space_from(catalog: &mut Catalog, actual_total: u128, max_space: u64) -> (r: (
    Vec<Eviction>,
    Result<(), BackupError>,
))
    requires
        old(catalog).wf(),
    ensures
        final(catalog).wf(),
        old(catalog)@ == ev_snaps(r.0@) + final(catalog)@,
        final(catalog)@ == old(catalog)@.skip(r.0@.len() as int),
        old(catalog)@.len() > 0 ==> final(catalog)@.len() >= 1,
        drained(actual_total as int, ev_snaps(r.0@)) <= max_space || final(catalog)@.len() <= 1,
        forall|i: int|
            0 <= i < r.0@.len() ==> drained(actual_total as int, ev_snaps(r.0@).take(i))
                > max_space,
        r.1 is Ok <==> drained(actual_total as int, ev_snaps(r.0@)) <= max_space,
        r.1 matches Err(e) ==> e == BackupError::BudgetUnsatisfiable,
        rescues_complete(r.0@, final(catalog)@),
{
    let ghost orig = old(catalog)@;
    let mut evicted: Vec<Snapshot> = Vec::new();
    let mut total: u128 = actual_total;
    proof {
        assert(snaps_view(evicted@) =~= orig.take(0));
        assert(catalog@ =~= orig.skip(0));
        assert(drained(actual_total as int, snaps_view(evicted@)) == actual_total);
    }
    while total > max_space as u128 && catalog.snapshots.len() > 1
        invariant
            catalog.wf(),
            orig.len() > 0 ==> catalog.snapshots@.len() >= 1,
            evicted@.len() + catalog.snapshots@.len() == orig.len(),
            snaps_view(evicted@) == orig.take(evicted@.len() as int),
            catalog@ == orig.skip(evicted@.len() as int),
            total == drained(actual_total as int, snaps_view(evicted@)),
            forall|i: int|
                0 <= i < evicted@.len() ==> drained(
                    actual_total as int,
                    snaps_view(evicted@).take(i),
                ) > max_space,
        decreases catalog.snapshots@.len(),
    {
        let ghost k = evicted@.len() as int;
        let ghost pre = catalog.snapshots@;
        let s = catalog.snapshots.remove(0);
        proof {
            assert(snaps_view(pre) == orig.skip(k));
            assert(snaps_view(pre)[0] == pre[0]@);
            assert(s@ == orig[k]);
            assert(catalog.snapshots@ =~= pre.skip(1));
            assert forall|x: int| 0 <= x < catalog.snapshots@.len() implies snaps_view(
                catalog.snapshots@,
            )[x] == orig.skip(k + 1)[x] by {
                assert(snaps_view(catalog.snapshots@)[x] == catalog.snapshots@[x]@);
                assert(catalog.snapshots@[x] == pre[x + 1]);
                assert(snaps_view(pre)[x + 1] == pre[x + 1]@);
            }
            assert(catalog@ =~= orig.skip(k + 1));
            assert forall|i: int, j: int| 0 <= i < j < catalog@.len() implies chrono_before(
                #[trigger] catalog@[i],
                #[trigger] catalog@[j],
            ) by {
                assert(orig.skip(k)[i + 1] == catalog@[i]);
                assert(orig.skip(k)[j + 1] == catalog@[j]);
            }
            assert forall|i: int| 0 <= i < catalog@.len() implies (#[trigger] catalog@[i]).wf() by {
                assert(catalog@[i] == orig.skip(k)[i + 1]);
            }
        }
        let recorded = s.total_size_bytes;
        let ghost pre_ev = evicted@;
        evicted.push(s);
        proof {
            assert(snaps_view(evicted@) =~= orig.take(k + 1));
            assert(snaps_view(evicted@).drop_last() =~= orig.take(k));
        }
        total = if total >= recorded as u128 {
            total - recorded as u128
        } else {
            0
        };
        proof {
            assert(snaps_view(evicted@).last() == s@);
            assert(total == drained(actual_total as int, snaps_view(evicted@)));
            assert forall|i: int| 0 <= i < evicted@.len() implies drained(
                actual_total as int,
                snaps_view(evicted@).take(i),
            ) > max_space by {
                if i < k {
                    assert(snaps_view(evicted@).take(i) =~= snaps_view(pre_ev).take(i));
                } else {
                    assert(snaps_view(evicted@).take(k) =~= snaps_view(pre_ev));
                }
            }
        }
    }
    let within = total <= max_space as u128;
    let ghost final_views = catalog@;
    let mut out: Vec<Eviction> = Vec::new();
    let total_evicted: usize = evicted.len();
    let ghost evs = evicted@;
    let mut k2: usize = 0;
    proof {
        assert(ev_snaps(out@) =~= snaps_view(evs.take(0)));
        assert(evicted@ =~= evs.skip(0));
    }
    while evicted.len() > 0
        invariant
            catalog.wf(),
            catalog@ == final_views,
            evs.len() == total_evicted,
            k2 + evicted@.len() == evs.len(),
            evicted@ == evs.skip(k2 as int),
            ev_snaps(out@) == snaps_view(evs.take(k2 as int)),
            out@.len() == k2,
            rescues_complete(out@, final_views),
            orig == snaps_view(evs) + final_views,
            final_views == orig.skip(evs.len() as int),
            orig.len() > 0 ==> final_views.len() >= 1,
            drained(actual_total as int, snaps_view(evs)) <= max_space || final_views.len() <= 1,
            forall|i: int|
                0 <= i < evs.len() ==> drained(actual_total as int, snaps_view(evs).take(i))
                    > max_space,
            within == (drained(actual_total as int, snaps_view(evs)) <= max_space),
        decreases evicted@.len(),
    {
        let ghost pre_out = out@;
        let s = evicted.remove(0);
        proof {
            assert(s == evs.skip(k2 as int)[0]);
            assert(s == evs[k2 as int]);
            assert(evicted@ =~= evs.skip(k2 + 1 as int));
        }
        let rescue = crate::space::shared_content(&s, catalog.oldest_first());
        out.push(Eviction { snapshot: s, rescue });
        proof {
            assert(out@.drop_last() =~= pre_out);
            assert forall|x: int| 0 <= x < ev_snaps(out@).len() implies ev_snaps(out@)[x]
                == snaps_view(evs.take(k2 + 1 as int))[x] by {
                assert(ev_snaps(out@)[x] == out@[x].snapshot@);
                assert(evs.take(k2 + 1 as int)[x] == evs[x]);
                assert(snaps_view(evs.take(k2 + 1 as int))[x] == evs[x]@);
                if x < k2 as int {
                    assert(out@[x] == pre_out[x]);
                    assert(ev_snaps(pre_out)[x] == pre_out[x].snapshot@);
                    assert(snaps_view(evs.take(k2 as int))[x] == evs.take(k2 as int)[x]@);
                    assert(evs.take(k2 as int)[x] == evs[x]);
                } else {
                    assert(out@[x].snapshot == s);
                }
            }
            assert(ev_snaps(out@) =~= snaps_view(evs.take(k2 + 1 as int)));
            assert forall|i: int| 0 <= i < out@.len() implies (#[trigger] out@[i]).rescue@.map_values(
                |f: FileRecord| f@,
            ) == out@[i].snapshot@.files.filter(
                |f: FileRecordV| catalog_has_checksum(final_views, f.checksum),
            ) by {
                if i < k2 as int {
                    assert(out@[i] == pre_out[i]);
                }
            }
        }
        k2 = k2 + 1;
    }
    proof {
        assert(evs.take(evs.len() as int) =~= evs);
        assert(ev_snaps(out@) == snaps_view(evs));
        assert forall|i: int| 0 <= i < out@.len() implies drained(
            actual_total as int,
            ev_snaps(out@).take(i),
        ) > max_space by {
            assert(ev_snaps(out@).take(i) == snaps_view(evs).take(i));
            assert(snaps_view(evs).take(i) =~= snaps_view(evs.take(i)));
            assert(snaps_view(evs.take(i)).take(i) =~= snaps_view(evs.take(i)));
            assert(drained(actual_total as int, snaps_view(evs).take(i)) > max_space);
        }
    }
    if within {
        (out, Ok(()))
    } else {
        (out, Err(BackupError::BudgetUnsatisfiable))
    }
}

/// Enforce the budget against the catalog's own recorded total: compute the
/// total across all known snapshots and evict the oldest while it exceeds
/// `max_space` and more than one snapshot remains.  The retained snapshots
/// are exactly the most recent ones — a snapshot is evicted only while the
/// total of it and everything newer still exceeds the budget — and the budget
/// is unmet only when a single snapshot remains that alone exceeds it.
pub fn manage_backup_space(catalog: &mut Catalog, max_space: u64) -> (r: (
    Vec<Eviction>,
    Result<(), BackupError>,
))
    requires
        old(catalog).wf(),
    ensures
        final(catalog).wf(),
        old(catalog)@ == ev_snaps(r.0@) + final(catalog)@,
        final(catalog)@ == old(catalog)@.skip(r.0@.len() as int),
        old(catalog)@.len() > 0 ==> final(catalog)@.len() >= 1,
        total_of(final(catalog)@) <= max_space || final(catalog)@.len() == 1,
        forall|i: int| 0 <= i < r.0@.len() ==> total_of(old(catalog)@.skip(i)) > max_space,
        r.1 is Ok <==> total_of(final(catalog)@) <= max_space,
        r.1 matches Err(e) ==> e == BackupError::BudgetUnsatisfiable,
        rescues_complete(r.0@, final(catalog)@),
{
    let ghost orig = old(catalog)@;
    let total = catalog.total_size();
    let r = manage_backup_space_from(catalog, total, max_space);
    proof {
        let n = r.0@.len() as int;
        lemma_drained_exact(orig, n);
        assert(ev_snaps(r.0@) =~= orig.take(n)) by {
            assert(orig == ev_snaps(r.0@) + catalog@);
            assert forall|x: int| 0 <= x < n implies orig.take(n)[x] == ev_snaps(r.0@)[x] by {
                assert(orig[x] == (ev_snaps(r.0@) + catalog@)[x]);
            }
        }
        assert forall|i: int| 0 <= i < n implies total_of(orig.skip(i)) > max_space by {
            lemma_drained_exact(orig, i);
            assert(ev_snaps(r.0@).take(i) =~= orig.take(i));
        }
        assert(drained(total as int, ev_snaps(r.0@)) == total_of(orig.skip(n)));
        assert(catalog@ == orig.skip(n));
        if catalog@.len() == 0 {
            assert(total_of(catalog@) == 0);
        }
    }
    r
}

/// Whether any of these snapshots still records content with this checksum.
pub fn is_checksum_referenced(snapshots: &Vec<Snapshot>, checksum: Digest) -> (r: bool)
    ensures
        r == catalog_has_checksum(snaps_view(snapshots@), checksum),
{
    let ghost cat = snaps_view(snapshots@);
    let mut si: usize = 0;
    while si < snapshots.len()
        invariant
            si <= snapshots.len(),
            cat == snaps_view(snapshots@),
            cat.len() == snapshots@.len(),
            forall|a: int, b: int|
                0 <= a < si && 0 <= b < cat[a].files.len() ==> (#[trigger] cat[a].files[b]).checksum
                    != checksum,
        decreases snapshots.len() - si,
    {
        let snap = &snapshots[si];
        let mut fi: usize = 0;
        while fi < snap.files.len()
            invariant
                si < snapshots.len(),
                fi <= snap.files.len(),
                cat == snaps_view(snapshots@),
                cat.len() == snapshots@.len(),
                snap == snapshots@[si as int],
                snap@.files.len() == snap.files@.len(),
                forall|a: int, b: int|
                    0 <= a < si && 0 <= b < cat[a].files.len() ==> (#[trigger] cat[a].files[b]).checksum
                        != checksum,
                forall|b: int|
                    0 <= b < fi ==> (#[trigger] cat[si as int].files[b]).checksum != checksum,
            decreases snap.files.len() - fi,
        {
            if snap.files[fi].checksum == checksum {
                assert(cat[si as int].files[fi as int].checksum == checksum);
                return true;
            }
            fi = fi + 1;
        }
        si = si + 1;
    }
    false
}

/// The records of a snapshot about to be evicted whose content some retained
/// snapshot still references.
pub fn shared_content(evicted: &Snapshot, retained: &Vec<Snapshot>) -> (r: Vec<FileRecord>)
    ensures
        r@.map_values(|f: FileRecord| f@) == evicted@.files.filter(
            |f: FileRecordV| catalog_has_checksum(snaps_view(retained@), f.checksum),
        ),
{
    let ghost pred = |f: FileRecordV| catalog_has_checksum(snaps_view(retained@), f.checksum);
    let mut r: Vec<FileRecord> = Vec::new();
    let mut i: usize = 0;
    proof {
        reveal(Seq::filter);
        assert(r@.map_values(|f: FileRecord| f@) =~= evicted@.files.take(0).filter(pred));
    }
    while i < evicted.files.len()
        invariant
            i <= evicted.files.len(),
            evicted@.files.len() == evicted.files@.len(),
            pred == (|f: FileRecordV| catalog_has_checksum(snaps_view(retained@), f.checksum)),
            r@.map_values(|f: FileRecord| f@) == evicted@.files.take(i as int).filter(pred),
        decreases evicted.files.len() - i,
    {
        let f = &evicted.files[i];
        let ghost taken = evicted@.files.take(i as int);
        proof {
            reveal(Seq::filter);
            assert(evicted@.files.take(i + 1 as int).drop_last() =~= taken);
            assert(evicted@.files.take(i + 1 as int).last() == f@);
            assert(pred(f@) == catalog_has_checksum(snaps_view(retained@), f@.checksum));
        }
        if is_checksum_referenced(retained, f.checksum) {
            r.push(f.clone());
            proof {
                reveal(Seq::filter);
                assert(r@.map_values(|x: FileRecord| x@) =~= taken.filter(pred).push(f@));
                assert(evicted@.files.take(i + 1 as int).filter(pred) == taken.filter(pred).push(
                    f@,
                ));
            }
        } else {
            proof {
                reveal(Seq::filter);
                assert(evicted@.files.take(i + 1 as int).filter(pred) == taken.filter(pred));
            }
        }
        i = i + 1;
    }
    proof {
        assert(evicted@.files.take(evicted.files@.len() as int) =~= evicted@.files);
    }
    r
}

} // verus!
