//! The snapshot builder: mirrors a source tree into a new snapshot, handing
//! every file to the dedup resolver and accumulating the file records and the
//! aggregate size.  The walk itself — reading directories, bytes and
//! timestamps — happens at the unverified edge; it hands the builder one
//! `FileMeta` per regular file, in traversal order, and performs the returned
//! placement actions.  Completeness does not depend on the traversal order,
//! only on every source file being handed over exactly once.

use vstd::prelude::*;

use crate::BackupError;
use crate::catalog::{clone_bytes, FileRecordV, Snapshot};
use crate::checksum::Digest;
use crate::content_store::{
    is_link_to, placed_record, resolve_and_place, spec_stored_path, ContentIndex, PlaceAction,
};

verus! {

/// What the walk of the source tree hands the builder for one regular file:
/// its path relative to the source root, its byte length, its
/// last-modification time, and the digest of the bytes that were read.
pub struct FileMeta {
    pub relative_path: Vec<u8>,
    pub size_bytes: u64,
    pub modified_at: i64,
    pub checksum: Digest,
}

/// The mathematical value of a `FileMeta`.
pub ghost struct FileMetaV {
    pub relative_path: Seq<u8>,
    pub size_bytes: u64,
    pub modified_at: i64,
    pub checksum: Digest,
}

impl View for FileMeta {
    type V = FileMetaV;

    open spec fn view(&self) -> FileMetaV {
        FileMetaV {
            relative_path: self.relative_path@,
            size_bytes: self.size_bytes,
            modified_at: self.modified_at,
            checksum: self.checksum,
        }
    }
}

/// The view of a vector of file metadata.
pub open spec fn metas_view(s: Seq<FileMeta>) -> Seq<FileMetaV> {
    s.map_values(|m: FileMeta| m@)
}

/// The record that placing this file leaves in the snapshot.
pub open spec fn record_of(m: FileMetaV) -> FileRecordV {
    placed_record(m.relative_path, m.size_bytes, m.modified_at, m.checksum)
}

/// The sum of the files' sizes.
pub open spec fn sum_meta_sizes(s: Seq<FileMetaV>) -> int
    decreases s.len(),
{
    if s.len() == 0 {
        0
    } else {
        sum_meta_sizes(s.drop_last()) + s.last().size_bytes
    }
}

/// The sum of sizes is never negative and at most `len * u64::MAX`.
pub proof fn lemma_sum_meta_bound(s: Seq<FileMetaV>)
    ensures
        0 <= sum_meta_sizes(s) <= s.len() * (u64::MAX as int),
    decreases s.len(),
{
    if s.len() > 0 {
        lemma_sum_meta_bound(s.drop_last());
        assert(s.len() * (u64::MAX as int) == (s.len() - 1) * (u64::MAX as int) + u64::MAX)
            by (nonlinear_arith);
    }
}

/// The sum splits at any cut: prefix plus suffix.
pub proof fn lemma_sum_meta_split(s: Seq<FileMetaV>, k: int)
    requires
        0 <= k <= s.len(),
    ensures
        sum_meta_sizes(s.take(k)) + sum_meta_sizes(s.skip(k)) == sum_meta_sizes(s),
    decreases s.len(),
{
    if k == s.len() {
        assert(s.take(k) =~= s);
        assert(s.skip(k) =~= Seq::<FileMetaV>::empty());
    } else {
        let dl = s.drop_last();
        lemma_sum_meta_split(dl, k);
        assert(s.take(k) =~= dl.take(k));
        assert(s.skip(k).drop_last() =~= dl.skip(k));
        assert(s.skip(k).last() == s.last());
    }
}

/// Whether the content of file `i` was already known when the builder reached
/// it: either stored in some prior snapshot (the starting index `m0`) or
/// placed earlier in the same run.
pub open spec fn seen_before(m0: Map<Digest, Seq<u8>>, metas: Seq<FileMetaV>, i: int) -> bool {
    m0.contains_key(metas[i].checksum) || exists|j: int|
        0 <= j < i && (#[trigger] metas[j]).checksum == metas[i].checksum
}

/// Build one snapshot: hand every file to the dedup resolver in order.  On
/// success, exactly one record per file is appended — same path, size,
/// timestamp and checksum — and the returned actions say, file by file,
/// whether the edge must link or copy.  Nothing is changed if the files'
/// combined size cannot be accounted in the snapshot's 64-bit total.
pub fn build_snapshot(
    snap: &mut Snapshot,
    index: &mut ContentIndex,
    metas: &Vec<FileMeta>,
) -> (r: Result<Vec<PlaceAction>, BackupError>)
    requires
        old(snap).wf(),
    ensures
        final(snap).wf(),
        final(snap)@.name == old(snap)@.name,
        final(snap)@.created_at == old(snap)@.created_at,
        final(snap)@.sequence == old(snap)@.sequence,
        r is Err <==> old(snap)@.total_size_bytes + sum_meta_sizes(metas_view(metas@)) > u64::MAX,
        r is Err ==> *final(snap) == *old(snap) && final(index)@ == old(index)@ && (
        r matches Err(e) && e == BackupError::SnapshotOverflow),
        r matches Ok(actions) ==> {
            &&& actions@.len() == metas@.len()
            &&& final(snap)@.files == old(snap)@.files + metas_view(metas@).map_values(|m: FileMetaV| record_of(m))
            &&& final(snap)@.total_size_bytes == old(snap)@.total_size_bytes + sum_meta_sizes(
                metas_view(metas@),
            )
            &&& forall|i: int|
                0 <= i < metas@.len() ==> ((#[trigger] actions@[i]) is Copy <==> !seen_before(
                    old(index)@,
                    metas_view(metas@),
                    i,
                ))
            &&& forall|i: int|
                0 <= i < metas@.len() && old(index)@.contains_key(metas_view(metas@)[i].checksum)
                    ==> is_link_to(#[trigger] actions@[i], old(index)@[metas_view(metas@)[i].checksum])
            &&& forall|i: int|
                0 <= i < metas@.len() && !old(index)@.contains_key(metas_view(metas@)[i].checksum)
                    && seen_before(old(index)@, metas_view(metas@), i) ==> exists|j: int|
                    0 <= j < i && (#[trigger] metas_view(metas@)[j]).checksum == metas_view(
                        metas@,
                    )[i].checksum && is_link_to(
                        actions@[i],
                        spec_stored_path(old(snap)@.name, metas_view(metas@)[j].relative_path),
                    )
            &&& forall|c: Digest| #[trigger]
                final(index)@.contains_key(c) <==> old(index)@.contains_key(c) || exists|i: int|
                    0 <= i < metas@.len() && (#[trigger] metas_view(metas@)[i]).checksum == c
        },
{
    let ghost mv = metas_view(metas@);
    let ghost m0 = old(index)@;
    let ghost name0 = old(snap)@.name;
    let ghost total0 = old(snap)@.total_size_bytes;

    // First make sure everything will fit in the snapshot's running total, so
    // that a too-large tree is rejected whole, before any placement happens.
    let mut sum: u128 = 0;
    let mut k: usize = 0;
    while k < metas.len()
        invariant
            k <= metas.len(),
            mv == metas_view(metas@),
            mv.len() == metas@.len(),
            sum == sum_meta_sizes(mv.take(k as int)),
        decreases metas.len() - k,
    {
        proof {
            lemma_sum_meta_bound(mv.take(k as int));
            assert(mv.take(k as int).len() * (u64::MAX as int) + u64::MAX < u128::MAX as int)
                by (nonlinear_arith)
                requires mv.take(k as int).len() <= u64::MAX;
            assert(mv.take(k + 1 as int).drop_last() =~= mv.take(k as int));
        }
        sum = sum + metas[k].size_bytes as u128;
        k = k + 1;
    }
    proof {
        assert(mv.take(metas@.len() as int) =~= mv);
    }
    if sum > u64::MAX as u128 - snap.total_size_bytes as u128 {
        return Err(BackupError::SnapshotOverflow);
    }

    let mut actions: Vec<PlaceAction> = Vec::new();
    let mut k: usize = 0;
    while k < metas.len()
        invariant
            k <= metas.len(),
            mv == metas_view(metas@),
            mv.len() == metas@.len(),
            total0 + sum_meta_sizes(mv) <= u64::MAX,
            snap.wf(),
            snap@.name == name0,
            snap@.created_at == old(snap)@.created_at,
            snap@.sequence == old(snap)@.sequence,
            snap@.files == old(snap)@.files + mv.take(k as int).map_values(|m: FileMetaV| record_of(m)),
            snap@.total_size_bytes == total0 + sum_meta_sizes(mv.take(k as int)),
            actions@.len() == k,
            forall|i: int|
                0 <= i < k ==> ((#[trigger] actions@[i]) is Copy <==> !seen_before(m0, mv, i)),
            forall|i: int|
                0 <= i < k && m0.contains_key(mv[i].checksum) ==> is_link_to(
                    #[trigger] actions@[i],
                    m0[mv[i].checksum],
                ),
            forall|i: int|
                0 <= i < k && !m0.contains_key(mv[i].checksum) && seen_before(m0, mv, i)
                    ==> exists|j: int|
                    0 <= j < i && (#[trigger] mv[j]).checksum == mv[i].checksum && is_link_to(
                        actions@[i],
                        spec_stored_path(name0, mv[j].relative_path),
                    ),
            forall|c: Digest| #[trigger]
                index@.contains_key(c) <==> m0.contains_key(c) || exists|i: int|
                    0 <= i < k && (#[trigger] mv[i]).checksum == c,
            forall|c: Digest|
                #[trigger] m0.contains_key(c) ==> index@.contains_key(c) && index@[c] == m0[c],
            forall|c: Digest|
                #[trigger] index@.contains_key(c) && !m0.contains_key(c) ==> exists|j: int|
                    0 <= j < k && (#[trigger] mv[j]).checksum == c && index@[c] == spec_stored_path(
                        name0,
                        mv[j].relative_path,
                    ),
        decreases metas.len() - k,
    {
        proof {
            lemma_sum_meta_split(mv, k + 1 as int);
            lemma_sum_meta_bound(mv.skip(k + 1 as int));
            lemma_sum_meta_bound(mv.take(k as int));
            assert(mv.take(k + 1 as int).drop_last() =~= mv.take(k as int));
        }
        let m = &metas[k];
        let rel = clone_bytes(&m.relative_path);
        let ghost index_pre = index@;
        let res = resolve_and_place(index, snap, rel, m.size_bytes, m.modified_at, m.checksum);
        let action = match res {
            Ok(a) => a,
            Err(e) => {
                proof {
                    assert(false);
                }
                return Err(e);
            },
        };
        proof {
            assert(snap@.files =~= old(snap)@.files + mv.take(k + 1 as int).map_values(|m: FileMetaV| record_of(m)));
            // The content was seen before this file exactly when the index
            // already held its checksum.
            assert(index_pre.contains_key(mv[k as int].checksum) == seen_before(m0, mv, k as int));
        }
        actions.push(action);
        proof {
            let ki = k as int;
            assert forall|c: Digest| #[trigger] m0.contains_key(c) implies index@.contains_key(c)
                && index@[c] == m0[c] by {
                assert(index_pre.contains_key(c) && index_pre[c] == m0[c]);
                if !index_pre.contains_key(mv[ki].checksum) {
                    assert(c != mv[ki].checksum);
                }
            }
            assert forall|c: Digest| #[trigger]
                index@.contains_key(c) <==> m0.contains_key(c) || exists|i: int|
                    0 <= i < ki + 1 && (#[trigger] mv[i]).checksum == c by {
                if c == mv[ki].checksum {
                    assert(index@.contains_key(c));
                    assert((#[trigger] mv[ki]).checksum == c);
                } else {
                    if exists|i: int| 0 <= i < ki + 1 && (#[trigger] mv[i]).checksum == c {
                        let i = choose|i: int| 0 <= i < ki + 1 && (#[trigger] mv[i]).checksum == c;
                        assert(0 <= i < ki && mv[i].checksum == c);
                    }
                }
            }
            assert forall|c: Digest|
                #[trigger] index@.contains_key(c) && !m0.contains_key(c) implies exists|j: int|
                    0 <= j < ki + 1 && (#[trigger] mv[j]).checksum == c && index@[c]
                        == spec_stored_path(name0, mv[j].relative_path) by {
                if !index_pre.contains_key(mv[ki].checksum) && c == mv[ki].checksum {
                    assert(mv[ki].checksum == c && index@[c] == spec_stored_path(
                        name0,
                        mv[ki].relative_path,
                    ));
                } else {
                    let j = choose|j: int|
                        0 <= j < ki && (#[trigger] mv[j]).checksum == c && index_pre[c]
                            == spec_stored_path(name0, mv[j].relative_path);
                    assert(index@[c] == index_pre[c]);
                }
            }
        }
        k = k + 1;
    }
    proof {
        assert(mv.take(metas@.len() as int) =~= mv);
    }
    Ok(actions)
}

/// The dedup law: within one run over a starting index, once some content has
/// been placed, placing a file with the same checksum again is always a link,
/// never a second physical copy.
pub proof fn lemma_dedup_no_second_copy(
    m0: Map<Digest, Seq<u8>>,
    metas: Seq<FileMetaV>,
    actions: Seq<PlaceAction>,
    i: int,
    j: int,
)
    requires
        actions.len() == metas.len(),
        forall|k: int|
            0 <= k < metas.len() ==> ((#[trigger] actions[k]) is Copy <==> !seen_before(
                m0,
                metas,
                k,
            )),
        0 <= i < j < metas.len(),
        metas[i].checksum == metas[j].checksum,
    ensures
        !(actions[j] is Copy),
{
    assert((#[trigger] metas[i]).checksum == metas[j].checksum);
    assert(seen_before(m0, metas, j));
}

/// The round-trip law: after a run, every file the walk handed over stands in
/// the snapshot's manifest, at its own relative path, with its size, its
/// timestamp and the digest of its content, in traversal order.
pub proof fn lemma_round_trip(
    old_files: Seq<FileRecordV>,
    metas: Seq<FileMetaV>,
    new_files: Seq<FileRecordV>,
    i: int,
)
    requires
        new_files == old_files + metas.map_values(|m: FileMetaV| record_of(m)),
        0 <= i < metas.len(),
    ensures
        new_files.len() == old_files.len() + metas.len(),
        new_files[old_files.len() + i].relative_path == metas[i].relative_path,
        new_files[old_files.len() + i].size_bytes == metas[i].size_bytes,
        new_files[old_files.len() + i].modified_at == metas[i].modified_at,
        new_files[old_files.len() + i].checksum == metas[i].checksum,
{
    assert(new_files[old_files.len() + i] == record_of(metas[i]));
}

} // verus!
