//! The content store: the dedup resolver and its content index.  The index is
//! a derived, transient mapping from a content checksum to one concrete
//! on-disk path (relative to the backup root) known to hold that content; it
//! is rebuilt from the catalog at the start of each run and used to decide,
//! per file, whether to link to previously stored bytes or to copy fresh ones.

use vstd::prelude::*;

use crate::BackupError;
use crate::catalog::{clone_bytes, Catalog, FileRecord, FileRecordV, Snapshot, SnapshotV};
use crate::checksum::Digest;

verus! {

/// The separator between a snapshot's directory name and a path inside it.
pub const PATH_SEPARATOR: u8 = 47;

/// The backup-root-relative path of one stored file: the snapshot's directory
/// name, the separator, then the path relative to the snapshot root.
pub open spec fn spec_stored_path(name: Seq<u8>, relative_path: Seq<u8>) -> Seq<u8> {
    name + seq![PATH_SEPARATOR] + relative_path
}

/// See `spec_stored_path`.
pub fn stored_path(name: &Vec<u8>, relative_path: &Vec<u8>) -> (r: Vec<u8>)
    ensures
        r@ == spec_stored_path(name@, relative_path@),
{
    let mut r = clone_bytes(name);
    r.push(PATH_SEPARATOR);
    let mut i: usize = 0;
    while i < relative_path.len()
        invariant
            i <= relative_path.len(),
            r@ == name@ + seq![PATH_SEPARATOR] + relative_path@.take(i as int),
        decreases relative_path.len() - i,
    {
        r.push(relative_path[i]);
        assert(r@ =~= name@ + seq![PATH_SEPARATOR] + relative_path@.take(i + 1 as int));
        i = i + 1;
    }
    proof {
        assert(name@ + seq![PATH_SEPARATOR] + relative_path@.take(relative_path@.len() as int)
            =~= spec_stored_path(name@, relative_path@));
    }
    r
}

/// The content index: checksum of stored content to one backup-root-relative
/// path holding that content.  It has exactly one entry per distinct
/// checksum, which is what makes the second copy of any content a link.  The
/// store is a small association list scanned newest entry first, so its view
/// is exactly the fold of the inserts.
pub struct ContentIndex {
    entries: Vec<(Digest, Vec<u8>)>,
}

/// The mapping an entry list denotes: later entries shadow earlier ones.
pub open spec fn entries_map(s: Seq<(Digest, Vec<u8>)>) -> Map<Digest, Seq<u8>>
    decreases s.len(),
{
    if s.len() == 0 {
        Map::empty()
    } else {
        entries_map(s.drop_last()).insert(s.last().0, s.last().1@)
    }
}

/// A key is in the mapping exactly when some entry carries it.
pub proof fn lemma_entries_map_dom(s: Seq<(Digest, Vec<u8>)>, d: Digest)
    ensures
        entries_map(s).contains_key(d) <==> exists|i: int| 0 <= i < s.len() && (#[trigger] s[i]).0 == d,
    decreases s.len(),
{
    if s.len() > 0 {
        lemma_entries_map_dom(s.drop_last(), d);
        if s.last().0 == d {
            assert((s[s.len() - 1]).0 == d);
        } else {
            if entries_map(s).contains_key(d) {
                let i = choose|i: int| 0 <= i < s.drop_last().len() && (#[trigger] s.drop_last()[i]).0 == d;
                assert((s[i]).0 == d);
            }
            if exists|i: int| 0 <= i < s.len() && (#[trigger] s[i]).0 == d {
                let i = choose|i: int| 0 <= i < s.len() && (#[trigger] s[i]).0 == d;
                assert(i < s.len() - 1);
                assert((s.drop_last()[i]).0 == d);
            }
        }
    }
}

/// The value of a key is the value of its newest entry: the one behind which
/// no later entry carries the same key.
pub proof fn lemma_entries_map_at(s: Seq<(Digest, Vec<u8>)>, i: int)
    requires
        0 <= i < s.len(),
        forall|j: int| i < j < s.len() ==> (#[trigger] s[j]).0 != s[i].0,
    ensures
        entries_map(s).contains_key(s[i].0),
        entries_map(s)[s[i].0] == s[i].1@,
    decreases s.len(),
{
    if i == s.len() - 1 {
    } else {
        assert(s.drop_last()[i] == s[i]);
        lemma_entries_map_at(s.drop_last(), i);
        assert((s[s.len() - 1]).0 != s[i].0);
    }
}

/// Dropping every entry of a key from the list removes the key from the
/// mapping and nothing else.
pub proof fn lemma_entries_map_erase(s: Seq<(Digest, Vec<u8>)>, d: Digest)
    ensures
        entries_map(s.filter(|e: (Digest, Vec<u8>)| e.0 != d)) == entries_map(s).remove(d),
    decreases s.len(),
{
    reveal(Seq::filter);
    let pred = |e: (Digest, Vec<u8>)| e.0 != d;
    if s.len() == 0 {
        assert(entries_map(s.filter(pred)) =~= entries_map(s).remove(d));
    } else {
        lemma_entries_map_erase(s.drop_last(), d);
        if s.last().0 == d {
            assert(s.filter(pred) == s.drop_last().filter(pred));
            assert(entries_map(s).remove(d) =~= entries_map(s.drop_last()).remove(d));
        } else {
            assert(s.filter(pred) == s.drop_last().filter(pred).push(s.last()));
            assert(s.filter(pred).drop_last() =~= s.drop_last().filter(pred));
            assert(entries_map(s.filter(pred)) =~= entries_map(s).remove(d));
        }
    }
}

impl View for ContentIndex {
    type V = Map<Digest, Seq<u8>>;

    closed spec fn view(&self) -> Map<Digest, Seq<u8>> {
        entries_map(self.entries@)
    }
}

impl ContentIndex {
    /// An empty index.
    pub fn new() -> (r: Self)
        ensures
            r@ == Map::<Digest, Seq<u8>>::empty(),
    {
        ContentIndex { entries: Vec::new() }
    }

    /// Whether some stored file already holds content with this checksum.
    pub fn contains(&self, checksum: Digest) -> (r: bool)
        ensures
            r == self@.contains_key(checksum),
    {
        let mut i: usize = 0;
        while i < self.entries.len()
            invariant
                i <= self.entries@.len(),
                forall|j: int| 0 <= j < i ==> (#[trigger] self.entries@[j]).0 != checksum,
            decreases self.entries@.len() - i,
        {
            if self.entries[i].0 == checksum {
                proof {
                    lemma_entries_map_dom(self.entries@, checksum);
                    assert((self.entries@[i as int]).0 == checksum);
                }
                return true;
            }
            i = i + 1;
        }
        proof {
            lemma_entries_map_dom(self.entries@, checksum);
        }
        false
    }

    /// The recorded path for a checksum, if any: the newest entry wins, and
    /// with `insert_if_absent` as the only way in, there is only ever one.
    pub fn get(&self, checksum: Digest) -> (r: Option<&Vec<u8>>)
        ensures
            match r {
                Some(p) => self@.contains_key(checksum) && p@ == self@[checksum],
                None => !self@.contains_key(checksum),
            },
    {
        let mut i: usize = self.entries.len();
        while i > 0
            invariant
                i <= self.entries@.len(),
                forall|j: int| i <= j < self.entries@.len() ==> (#[trigger] self.entries@[j]).0 != checksum,
            decreases i,
        {
            i = i - 1;
            if self.entries[i].0 == checksum {
                proof {
                    lemma_entries_map_at(self.entries@, i as int);
                }
                return Some(&self.entries[i].1);
            }
        }
        proof {
            lemma_entries_map_dom(self.entries@, checksum);
        }
        None
    }

    /// Record a path for a checksum not yet present; report whether it was
    /// absent.  A present entry is never displaced, so the first stored copy
    /// of any content stays the one that later files link to.
    pub fn insert_if_absent(&mut self, checksum: Digest, path: Vec<u8>) -> (ok: bool)
        ensures
            ok == !old(self)@.contains_key(checksum),
            ok ==> final(self)@ == old(self)@.insert(checksum, path@),
            !ok ==> final(self)@ == old(self)@,
    {
        if self.contains(checksum) {
            false
        } else {
            self.entries.push((checksum, path));
            proof {
                assert(self.entries@.drop_last() =~= old(self).entries@);
            }
            true
        }
    }

    /// Drop the entry for a checksum, if any: used when the recorded path no
    /// longer exists on disk, so that dedup never links to a missing file.
    pub fn remove(&mut self, checksum: Digest)
        ensures
            final(self)@ == old(self)@.remove(checksum),
    {
        let ghost orig = old(self).entries@;
        let ghost pred = |e: (Digest, Vec<u8>)| e.0 != checksum;
        let total_count: usize = self.entries.len();
        proof {
            assert(orig.len() == total_count);
        }
        let mut kept: Vec<(Digest, Vec<u8>)> = Vec::new();
        let mut k: usize = 0;
        proof {
            reveal(Seq::filter);
            assert(kept@ =~= orig.take(0).filter(pred));
            assert(self.entries@ =~= orig.skip(0));
        }
        while self.entries.len() > 0
            invariant
                k <= orig.len(),
                orig.len() <= usize::MAX,
                k + self.entries@.len() == orig.len(),
                self.entries@ == orig.skip(k as int),
                pred == (|e: (Digest, Vec<u8>)| e.0 != checksum),
                kept@ == orig.take(k as int).filter(pred),
            decreases self.entries@.len(),
        {
            let e = self.entries.remove(0);
            proof {
                reveal(Seq::filter);
                assert(e == orig.skip(k as int)[0]);
                assert(e == orig[k as int]);
                assert(self.entries@ =~= orig.skip(k + 1 as int));
                assert(orig.take(k + 1 as int).drop_last() =~= orig.take(k as int));
                assert(orig.take(k + 1 as int).last() == orig[k as int]);
            }
            if e.0 != checksum {
                kept.push(e);
                proof {
                    reveal(Seq::filter);
                    assert(kept@ =~= orig.take(k as int).filter(pred).push(orig[k as int]));
                    assert(orig.take(k + 1 as int).filter(pred) == orig.take(k as int).filter(
                        pred,
                    ).push(orig[k as int]));
                }
            } else {
                proof {
                    reveal(Seq::filter);
                    assert(orig.take(k + 1 as int).filter(pred) == orig.take(k as int).filter(pred));
                }
            }
            k = k + 1;
        }
        proof {
            assert(orig.take(orig.len() as int) =~= orig);
            lemma_entries_map_erase(orig, checksum);
        }
        self.entries = kept;
    }
}

/// What the unverified edge must do with one file's bytes: either create
/// `dest` as a link to an already-stored path with identical content, or copy
/// the source bytes fresh into `dest`.  All paths are backup-root-relative.
pub enum PlaceAction {
    /// Link the destination to this already-stored path.
    Link(Vec<u8>),
    /// Copy the source file's bytes into the destination.
    Copy,
}

/// Whether an action links to exactly this target path.
pub open spec fn is_link_to(a: PlaceAction, target: Seq<u8>) -> bool {
    match a {
        PlaceAction::Link(t) => t@ == target,
        PlaceAction::Copy => false,
    }
}

/// The record a placement leaves in the snapshot's manifest.
pub open spec fn placed_record(
    relative_path: Seq<u8>,
    size_bytes: u64,
    modified_at: i64,
    checksum: Digest,
) -> FileRecordV {
    FileRecordV { relative_path, size_bytes, modified_at, checksum }
}

/// Decide, for one source file, whether identical content is already stored —
/// then the file becomes a link to it, costing no space — or must be copied
/// fresh; append the file's record to the snapshot under construction and, on
/// a fresh copy, remember the new stored path so that later files in the same
/// run dedup against it too.  The checksum must be the digest of the bytes
/// actually read from the source file.  Dedup goes by content, never by path
/// or size, so renamed and moved duplicates are caught across all history.
pub fn resolve_and_place(
    index: &mut ContentIndex,
    snap: &mut Snapshot,
    relative_path: Vec<u8>,
    size_bytes: u64,
    modified_at: i64,
    checksum: Digest,
) -> (r: Result<PlaceAction, BackupError>)
    requires
        old(snap).wf(),
    ensures
        final(snap).wf(),
        final(snap)@.name == old(snap)@.name,
        final(snap)@.created_at == old(snap)@.created_at,
        final(snap)@.sequence == old(snap)@.sequence,
        r is Err <==> old(snap)@.total_size_bytes + size_bytes > u64::MAX,
        r is Err ==> *final(snap) == *old(snap) && final(index)@ == old(index)@ && (
        r matches Err(e) && e == BackupError::SnapshotOverflow),
        r is Ok ==> final(snap)@.files == old(snap)@.files.push(
            placed_record(relative_path@, size_bytes, modified_at, checksum),
        ) && final(snap)@.total_size_bytes == old(snap)@.total_size_bytes + size_bytes,
        old(index)@.contains_key(checksum) ==> final(index)@ == old(index)@ && (
        r matches Ok(a) ==> is_link_to(a, old(index)@[checksum])),
        !old(index)@.contains_key(checksum) && r is Ok ==> final(index)@ == old(index)@.insert(
            checksum,
            spec_stored_path(old(snap)@.name, relative_path@),
        ) && (r matches Ok(a) ==> a is Copy),
{
    if snap.total_size_bytes.checked_add(size_bytes).is_none() {
        return Err(BackupError::SnapshotOverflow);
    }
    let target_opt: Option<Vec<u8>> = match index.get(checksum) {
        Some(t) => Some(clone_bytes(t)),
        None => None,
    };
    let action: PlaceAction = match target_opt {
        Some(t) => PlaceAction::Link(t),
        None => {
            let dest = stored_path(&snap.name, &relative_path);
            let _ = index.insert_if_absent(checksum, dest);
            PlaceAction::Copy
        },
    };
    let rec = FileRecord { relative_path, size_bytes, modified_at, checksum };
    snap.push_record(rec);
    Ok(action)
}

/// Whether some record of some snapshot carries this checksum.
pub open spec fn catalog_has_checksum(cat: Seq<SnapshotV>, c: Digest) -> bool {
    exists|i: int, j: int|
        0 <= i < cat.len() && 0 <= j < cat[i].files.len() && (#[trigger] cat[i].files[j]).checksum
            == c
}

/// Whether `p` is the stored path of some record with this checksum.
pub open spec fn is_stored_path_for(cat: Seq<SnapshotV>, c: Digest, p: Seq<u8>) -> bool {
    exists|i: int, j: int|
        0 <= i < cat.len() && 0 <= j < cat[i].files.len() && (#[trigger] cat[i].files[j]).checksum
            == c && p == spec_stored_path(cat[i].name, cat[i].files[j].relative_path)
}

/// Like `catalog_has_checksum`, over the records strictly before position
/// (`si`, `fi`) in the walk of the catalog: every file of every snapshot
/// before `si`, and the first `fi` files of snapshot `si`.
pub open spec fn has_checksum_upto(cat: Seq<SnapshotV>, si: int, fi: int, c: Digest) -> bool {
    exists|i: int, j: int|
        0 <= i < cat.len() && 0 <= j < cat[i].files.len() && (i < si || (i == si && j < fi)) && (
        #[trigger] cat[i].files[j]).checksum == c
}

/// Flatten the catalog into the content index used for one run: each distinct
/// checksum maps to the stored path of one record holding that content.
pub fn checksums_index(catalog: &Catalog) -> (r: ContentIndex)
    ensures
        forall|c: Digest| #[trigger]
            r@.contains_key(c) <==> catalog_has_checksum(catalog@, c),
        forall|c: Digest| #[trigger]
            r@.contains_key(c) ==> is_stored_path_for(catalog@, c, r@[c]),
{
    let ghost cat = catalog@;
    let mut r = ContentIndex::new();
    let mut si: usize = 0;
    while si < catalog.snapshots.len()
        invariant
            si <= catalog.snapshots.len(),
            cat == catalog@,
            cat.len() == catalog.snapshots@.len(),
            forall|c: Digest| #[trigger] r@.contains_key(c) <==> has_checksum_upto(cat, si as int, 0, c),
            forall|c: Digest| #[trigger] r@.contains_key(c) ==> is_stored_path_for(cat, c, r@[c]),
        decreases catalog.snapshots.len() - si,
    {
        let snap = &catalog.snapshots[si];
        let mut fi: usize = 0;
        while fi < snap.files.len()
            invariant
                si < catalog.snapshots.len(),
                fi <= snap.files.len(),
                cat == catalog@,
                cat.len() == catalog.snapshots@.len(),
                snap == catalog.snapshots@[si as int],
                snap@.files.len() == snap.files@.len(),
                forall|c: Digest| #[trigger]
                    r@.contains_key(c) <==> has_checksum_upto(cat, si as int, fi as int, c),
                forall|c: Digest| #[trigger] r@.contains_key(c) ==> is_stored_path_for(cat, c, r@[c]),
            decreases snap.files.len() - fi,
        {
            let f = &snap.files[fi];
            let p = stored_path(&snap.name, &f.relative_path);
            assert(cat[si as int].files[fi as int] == f@);
            let _ = r.insert_if_absent(f.checksum, p);
            proof {
                assert forall|c: Digest| #[trigger]
                    r@.contains_key(c) <==> has_checksum_upto(cat, si as int, fi + 1 as int, c) by {
                    if c == f@.checksum {
                        assert(has_checksum_upto(cat, si as int, fi + 1 as int, c));
                    } else {
                        if has_checksum_upto(cat, si as int, fi + 1 as int, c) {
                            let (a, b) = choose|a: int, b: int|
                                0 <= a < cat.len() && 0 <= b < cat[a].files.len() && (a < si as int
                                    || (a == si as int && b < fi + 1)) && (
                                #[trigger] cat[a].files[b]).checksum == c;
                            assert(!(a == si as int && b == fi as int));
                            assert(has_checksum_upto(cat, si as int, fi as int, c));
                        }
                    }
                }
                assert forall|c: Digest| #[trigger] r@.contains_key(c) implies is_stored_path_for(
                    cat,
                    c,
                    r@[c],
                ) by {
                    if c == f@.checksum && !has_checksum_upto(cat, si as int, fi as int, c) {
                        assert(r@[c] == spec_stored_path(
                            cat[si as int].name,
                            cat[si as int].files[fi as int].relative_path,
                        ));
                    }
                }
            }
            fi = fi + 1;
        }
        proof {
            assert forall|c: Digest| #[trigger]
                r@.contains_key(c) <==> has_checksum_upto(cat, si + 1 as int, 0, c) by {
                if has_checksum_upto(cat, si as int, snap.files@.len() as int, c) {
                    assert(has_checksum_upto(cat, si + 1 as int, 0, c));
                }
                if has_checksum_upto(cat, si + 1 as int, 0, c) {
                    let (a, b) = choose|a: int, b: int|
                        0 <= a < cat.len() && 0 <= b < cat[a].files.len() && (a < si + 1 as int || (
                        a == si + 1 as int && b < 0)) && (#[trigger] cat[a].files[b]).checksum == c;
                    assert(has_checksum_upto(cat, si as int, snap.files@.len() as int, c));
                }
            }
        }
        si = si + 1;
    }
    proof {
        assert forall|c: Digest| #[trigger]
            r@.contains_key(c) <==> catalog_has_checksum(cat, c) by {
            if has_checksum_upto(cat, cat.len() as int, 0, c) {
                assert(catalog_has_checksum(cat, c));
            }
            if catalog_has_checksum(cat, c) {
                let (a, b) = choose|a: int, b: int|
                    0 <= a < cat.len() && 0 <= b < cat[a].files.len() && (#[trigger] cat[a].files[b]).checksum
                        == c;
                assert(has_checksum_upto(cat, cat.len() as int, 0, c));
            }
        }
    }
    r
}

} // verus!
