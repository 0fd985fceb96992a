use disk_hog_backup::builder::{build_snapshot, FileMeta};
use disk_hog_backup::catalog::{load_catalog, Catalog, FileRecord, Snapshot};
use disk_hog_backup::checksum::{checksum_bytes, Digest};
use disk_hog_backup::content_store::{checksums_index, resolve_and_place, ContentIndex, PlaceAction};
use disk_hog_backup::set_namer::{fresh_snapshot, set_name, time_parts};
use disk_hog_backup::space::{manage_backup_space, manage_backup_space_from, shared_content};
use disk_hog_backup::{BackupError, BackupOptions};

fn dig(n: u64) -> Digest {
    Digest { w0: n, w1: 0, w2: 0, w3: 0 }
}

#[test]
fn backup_options_default_has_no_budget() {
    let options = BackupOptions::default();
    assert!(options.max_space.is_none());
    assert!(!options.validate_checksums);
}

#[test]
fn set_name_formats_known_instants() {
    // 2015-05-15 00:00:00 UTC
    assert_eq!(set_name(1431648000, 0), b"dhb-set-20150515-000000".to_vec());
    assert_eq!(
        set_name(1431648000, 2),
        b"dhb-set-20150515-000000-00000000000000000002".to_vec()
    );
    // the epoch itself
    assert_eq!(set_name(0, 0), b"dhb-set-19700101-000000".to_vec());
    // 2025-02-07 16:01:18 UTC
    assert_eq!(set_name(1738944078, 0), b"dhb-set-20250207-160118".to_vec());
}

#[test]
fn suffixed_names_sort_in_suffix_order() {
    // the disambiguating suffix is fixed width, so byte order is suffix order
    assert!(set_name(1431648000, 0) < set_name(1431648000, 1));
    assert!(set_name(1431648000, 9) < set_name(1431648000, 10));
    assert!(set_name(1431648000, 10) < set_name(1431648000, 11));
}

#[test]
fn time_parts_of_known_instant() {
    let p = time_parts(1431648000);
    assert_eq!(
        (p.year, p.month, p.day, p.hour, p.minute, p.second),
        (2015, 5, 15, 0, 0, 0)
    );
    let epoch = time_parts(0);
    assert_eq!(
        (epoch.year, epoch.month, epoch.day, epoch.hour, epoch.minute, epoch.second),
        (1970, 1, 1, 0, 0, 0)
    );
}

fn meta(path: &[u8], content: &[u8], mtime: i64) -> FileMeta {
    FileMeta {
        relative_path: path.to_vec(),
        size_bytes: content.len() as u64,
        modified_at: mtime,
        checksum: checksum_bytes(&content.to_vec()),
    }
}

// Source tree {a.txt: "x", sub/b.txt: "x"}: two records with equal checksums,
// and the second placement is a link to the first stored copy, never a second
// physical copy.
#[test]
fn snapshot_dedups_identical_content() {
    let name = set_name(1431648000, 0);
    let mut snap = Snapshot::new(name, 1431648000, 0);
    let mut index = ContentIndex::new();
    let metas = vec![meta(b"a.txt", b"x", 11), meta(b"sub/b.txt", b"x", 22)];

    let actions = build_snapshot(&mut snap, &mut index, &metas).unwrap();

    assert_eq!(snap.files.len(), 2);
    assert_eq!(snap.files[0].relative_path, b"a.txt".to_vec());
    assert_eq!(snap.files[1].relative_path, b"sub/b.txt".to_vec());
    assert_eq!(snap.files[0].checksum, snap.files[1].checksum);
    assert_eq!(snap.files[0].modified_at, 11);
    assert_eq!(snap.total_size_bytes, 2);

    assert!(matches!(actions[0], PlaceAction::Copy));
    match &actions[1] {
        PlaceAction::Link(target) => {
            assert_eq!(target, &b"dhb-set-20150515-000000/a.txt".to_vec());
        }
        PlaceAction::Copy => panic!("second identical file must be linked, not copied"),
    }
    // exactly one index entry per distinct checksum: both files resolve to it
    assert_eq!(index.get(checksum_bytes(&b"x".to_vec())).unwrap(), &b"dhb-set-20150515-000000/a.txt".to_vec());
}

#[test]
fn dedup_links_across_snapshots() {
    let mut first = Snapshot::new(set_name(100, 0), 100, 0);
    let mut index = ContentIndex::new();
    let metas = vec![meta(b"orig.txt", b"shared content", 1)];
    build_snapshot(&mut first, &mut index, &metas).unwrap();

    // A later run sees the same content under another path.
    let mut second = Snapshot::new(set_name(200, 0), 200, 0);
    let action = resolve_and_place(
        &mut index,
        &mut second,
        b"renamed.txt".to_vec(),
        14,
        99,
        checksum_bytes(&b"shared content".to_vec()),
    )
    .unwrap();
    match action {
        PlaceAction::Link(target) => {
            assert_eq!(target, b"dhb-set-19700101-000140/orig.txt".to_vec())
        }
        PlaceAction::Copy => panic!("content stored in an earlier snapshot must be linked"),
    }
}

fn snapshot_of_size(created_at: i64, sequence: u64, size: u64) -> Snapshot {
    let mut snap = Snapshot::new(set_name(created_at as u64, sequence), created_at, sequence);
    let rec = FileRecord {
        relative_path: b"large_file.txt".to_vec(),
        size_bytes: size,
        modified_at: created_at,
        checksum: dig(7),
    };
    assert!(snap.try_push_record(rec));
    snap
}

#[test]
fn test_manage_backup_space() {
    let max_space: u64 = 2 * 1024 * 1024;
    let mut catalog = Catalog::new();
    let mut total_size: u64 = 0;
    for i in 0..3 {
        let snap = snapshot_of_size(1000 + i, 0, 1024 * 1024);
        total_size += snap.total_size_bytes;
        assert!(catalog.record(snap).is_ok());
    }
    assert!(total_size > max_space, "Initial space should be over limit");

    let (evicted, outcome) = manage_backup_space(&mut catalog, max_space);

    let remaining = catalog.oldest_first();
    assert!(!remaining.is_empty(), "Should have some backups remaining");
    assert!(remaining.len() < 3, "Should have removed some backups");
    let remaining_size: u64 = remaining.iter().map(|s| s.total_size_bytes).sum();
    assert!(
        remaining_size <= max_space,
        "Remaining size {} exceeds the max space limit {}",
        remaining_size,
        max_space
    );
    assert_eq!(evicted.len(), 1);
    assert!(outcome.is_ok());
}

#[test]
fn budget_keeps_exactly_the_most_recent() {
    let mut catalog = Catalog::new();
    for i in 0..4 {
        assert!(catalog.record(snapshot_of_size(10 + i, 0, 10)).is_ok());
    }
    // total 40, budget 25: the two oldest go, the two newest stay
    let (evicted, outcome) = manage_backup_space(&mut catalog, 25);
    assert!(outcome.is_ok());
    assert_eq!(evicted.len(), 2);
    assert_eq!(evicted[0].snapshot.created_at, 10);
    assert_eq!(evicted[1].snapshot.created_at, 11);
    let remaining = catalog.oldest_first();
    assert_eq!(remaining.len(), 2);
    assert_eq!(remaining[0].created_at, 12);
    assert_eq!(remaining[1].created_at, 13);
}

#[test]
fn budget_never_deletes_the_last_snapshot() {
    let mut catalog = Catalog::new();
    assert!(catalog.record(snapshot_of_size(50, 0, 100)).is_ok());
    let (evicted, outcome) = manage_backup_space(&mut catalog, 10);
    assert_eq!(evicted.len(), 0);
    assert_eq!(catalog.oldest_first().len(), 1);
    assert!(matches!(outcome, Err(BackupError::BudgetUnsatisfiable)));
}

// Three sequential runs, each adding a snapshot of one unit, with a budget of
// two units: after the third run exactly the two most recent snapshots remain.
#[test]
fn three_runs_under_a_two_unit_budget() {
    let mut catalog = Catalog::new();
    let mut all_evicted = Vec::new();
    for run in 0..3 {
        assert!(catalog.record(snapshot_of_size(1000 + run, 0, 1)).is_ok());
        let (evicted, outcome) = manage_backup_space(&mut catalog, 2);
        assert!(outcome.is_ok());
        all_evicted.extend(evicted);
    }
    assert_eq!(all_evicted.len(), 1);
    assert_eq!(all_evicted[0].snapshot.created_at, 1000);
    let remaining = catalog.oldest_first();
    assert_eq!(remaining.len(), 2);
    assert_eq!(remaining[0].created_at, 1001);
    assert_eq!(remaining[1].created_at, 1002);
}

#[test]
fn oversized_tree_is_rejected_whole() {
    let mut snap = Snapshot::new(set_name(77, 0), 77, 0);
    let mut index = ContentIndex::new();
    let metas = vec![
        FileMeta {
            relative_path: b"a".to_vec(),
            size_bytes: u64::MAX,
            modified_at: 0,
            checksum: dig(1),
        },
        FileMeta { relative_path: b"b".to_vec(), size_bytes: 1, modified_at: 0, checksum: dig(2) },
    ];
    let r = build_snapshot(&mut snap, &mut index, &metas);
    assert!(matches!(r, Err(BackupError::SnapshotOverflow)));
    assert_eq!(snap.files.len(), 0);
    assert!(!index.contains(dig(1)));
    assert!(!index.contains(dig(2)));
}

#[test]
fn content_index_keeps_first_entry() {
    let mut index = ContentIndex::new();
    assert!(index.insert_if_absent(dig(5), b"first/path".to_vec()));
    assert!(!index.insert_if_absent(dig(5), b"second/path".to_vec()));
    assert_eq!(index.get(dig(5)).unwrap(), &b"first/path".to_vec());
    assert!(index.contains(dig(5)));
    index.remove(dig(5));
    assert!(!index.contains(dig(5)));
    assert!(index.get(dig(5)).is_none());
}

#[test]
fn checksums_index_has_one_entry_per_checksum() {
    let mut catalog = Catalog::new();
    let mut snap = Snapshot::new(set_name(500, 0), 500, 0);
    assert!(snap.try_push_record(FileRecord {
        relative_path: b"a.txt".to_vec(),
        size_bytes: 1,
        modified_at: 0,
        checksum: dig(42),
    }));
    assert!(snap.try_push_record(FileRecord {
        relative_path: b"twin.txt".to_vec(),
        size_bytes: 1,
        modified_at: 0,
        checksum: dig(42),
    }));
    assert!(snap.try_push_record(FileRecord {
        relative_path: b"other.txt".to_vec(),
        size_bytes: 2,
        modified_at: 0,
        checksum: dig(43),
    }));
    assert!(catalog.record(snap).is_ok());

    let index = checksums_index(&catalog);
    assert_eq!(index.get(dig(42)).unwrap(), &b"dhb-set-19700101-000820/a.txt".to_vec());
    assert_eq!(index.get(dig(43)).unwrap(), &b"dhb-set-19700101-000820/other.txt".to_vec());
    assert!(index.get(dig(44)).is_none());
}

#[test]
fn load_catalog_sorts_and_sets_aside_duplicates() {
    let snaps = vec![
        snapshot_of_size(300, 0, 1),
        snapshot_of_size(100, 0, 1),
        snapshot_of_size(100, 0, 9),
        snapshot_of_size(200, 1, 1),
    ];
    let (catalog, unknown) = load_catalog(snaps);
    let loaded = catalog.oldest_first();
    assert_eq!(loaded.len(), 3);
    assert_eq!(loaded[0].created_at, 100);
    assert_eq!(loaded[1].created_at, 200);
    assert_eq!(loaded[2].created_at, 300);
    // the second snapshot with the stamp (100, 0) is degraded, not dropped
    assert_eq!(unknown.len(), 1);
    assert_eq!(unknown[0].created_at, 100);
    assert_eq!(unknown[0].total_size_bytes, 9);
}

#[test]
fn fresh_snapshot_sorts_after_the_catalog() {
    let mut catalog = Catalog::new();
    let snap = fresh_snapshot(&catalog).unwrap();
    assert!(snap.created_at > 0);
    assert_eq!(snap.files.len(), 0);
    assert!(snap.name.starts_with(b"dhb-set-"));
    assert_eq!(snap.name, set_name(snap.created_at as u64, snap.sequence));
    assert!(catalog.record(snap).is_ok());

    // a second one in the same clock second gets a distinct, later stamp
    let again = fresh_snapshot(&catalog).unwrap();
    let last = &catalog.oldest_first()[0];
    assert!(
        again.created_at > last.created_at
            || (again.created_at == last.created_at && again.sequence > last.sequence)
    );
    assert_ne!(again.name, last.name);
}

#[test]
fn shared_content_names_still_referenced_records() {
    let mut old_snap = Snapshot::new(set_name(10, 0), 10, 0);
    assert!(old_snap.try_push_record(FileRecord {
        relative_path: b"kept.txt".to_vec(),
        size_bytes: 3,
        modified_at: 0,
        checksum: dig(42),
    }));
    assert!(old_snap.try_push_record(FileRecord {
        relative_path: b"gone.txt".to_vec(),
        size_bytes: 4,
        modified_at: 0,
        checksum: dig(43),
    }));

    let mut newer = Snapshot::new(set_name(20, 0), 20, 0);
    assert!(newer.try_push_record(FileRecord {
        relative_path: b"still/kept.txt".to_vec(),
        size_bytes: 3,
        modified_at: 5,
        checksum: dig(42),
    }));
    let retained = vec![newer];

    let rescue = shared_content(&old_snap, &retained);
    assert_eq!(rescue.len(), 1);
    assert_eq!(rescue[0].relative_path, b"kept.txt".to_vec());
    assert_eq!(rescue[0].checksum, dig(42));
}

// A partial delete leaves an unknown amount on disk: the follow-up eviction
// takes the measured total and continues with the next-oldest candidate.
#[test]
fn eviction_continues_from_measured_total() {
    let mut catalog = Catalog::new();
    for i in 0..3 {
        assert!(catalog.record(snapshot_of_size(10 + i, 0, 10)).is_ok());
    }
    // a first pass decided to evict the oldest, but its deletion only freed
    // part of the space: 27 bytes are measured on disk against a budget of 20
    let (first, _) = manage_backup_space(&mut catalog, 25);
    assert_eq!(first.len(), 1);
    let (more, outcome) = manage_backup_space_from(&mut catalog, 27, 20);
    assert!(outcome.is_ok());
    assert_eq!(more.len(), 1);
    assert_eq!(more[0].snapshot.created_at, 11);
    assert_eq!(catalog.oldest_first().len(), 1);
    assert_eq!(catalog.oldest_first()[0].created_at, 12);
}

// Evictions carry their rescue sets: content a retained snapshot still
// references is named with the eviction that would delete its home.
#[test]
fn evictions_carry_rescue_sets() {
    let mut catalog = Catalog::new();
    let mut oldest = Snapshot::new(set_name(10, 0), 10, 0);
    assert!(oldest.try_push_record(FileRecord {
        relative_path: b"shared.txt".to_vec(),
        size_bytes: 30,
        modified_at: 0,
        checksum: dig(42),
    }));
    assert!(catalog.record(oldest).is_ok());
    let mut newest = Snapshot::new(set_name(20, 0), 20, 0);
    assert!(newest.try_push_record(FileRecord {
        relative_path: b"same-content.txt".to_vec(),
        size_bytes: 30,
        modified_at: 9,
        checksum: dig(42),
    }));
    assert!(catalog.record(newest).is_ok());

    let (evictions, outcome) = manage_backup_space(&mut catalog, 30);
    assert!(outcome.is_ok());
    assert_eq!(evictions.len(), 1);
    assert_eq!(evictions[0].snapshot.created_at, 10);
    assert_eq!(evictions[0].rescue.len(), 1);
    assert_eq!(evictions[0].rescue[0].relative_path, b"shared.txt".to_vec());
    assert_eq!(evictions[0].rescue[0].checksum, dig(42));
}

#[test]
fn time_parts_handles_leap_day_and_year_end() {
    // 2024-02-29 00:00:00 UTC
    let leap = time_parts(1709164800);
    assert_eq!((leap.year, leap.month, leap.day), (2024, 2, 29));
    // 2015-12-31 23:59:59 UTC
    let eve = time_parts(1451606399);
    assert_eq!(
        (eve.year, eve.month, eve.day, eve.hour, eve.minute, eve.second),
        (2015, 12, 31, 23, 59, 59)
    );
    // 2016-01-01 00:00:00 UTC, one second later
    let new_year = time_parts(1451606400);
    assert_eq!(
        (new_year.year, new_year.month, new_year.day, new_year.hour, new_year.minute, new_year.second),
        (2016, 1, 1, 0, 0, 0)
    );
}

#[test]
fn budget_exactly_met_evicts_nothing() {
    let mut catalog = Catalog::new();
    assert!(catalog.record(snapshot_of_size(1, 0, 7)).is_ok());
    assert!(catalog.record(snapshot_of_size(2, 0, 3)).is_ok());
    let (evicted, outcome) = manage_backup_space(&mut catalog, 10);
    assert!(evicted.is_empty());
    assert!(outcome.is_ok());
    assert_eq!(catalog.oldest_first().len(), 2);
}

#[test]
fn catalog_rejects_out_of_order_snapshots() {
    let mut catalog = Catalog::new();
    assert!(catalog.record(snapshot_of_size(100, 0, 1)).is_ok());
    // an older stamp cannot be recorded after a newer one
    assert!(catalog.record(snapshot_of_size(50, 0, 1)).is_err());
    // an equal stamp cannot be recorded twice
    assert!(catalog.record(snapshot_of_size(100, 0, 1)).is_err());
    // the same second with a higher suffix is fine
    assert!(catalog.record(snapshot_of_size(100, 1, 1)).is_ok());
    assert_eq!(catalog.oldest_first().len(), 2);
}

#[test]
fn snapshot_totals_track_record_sizes() {
    let mut snap = Snapshot::new(set_name(5, 0), 5, 0);
    let rec = FileRecord {
        relative_path: b"big".to_vec(),
        size_bytes: u64::MAX,
        modified_at: 0,
        checksum: dig(1),
    };
    assert!(snap.try_push_record(rec));
    assert_eq!(snap.total_size_bytes, u64::MAX);
    let one_more = FileRecord {
        relative_path: b"straw".to_vec(),
        size_bytes: 1,
        modified_at: 0,
        checksum: dig(2),
    };
    // one more byte cannot be accounted, and the snapshot is unchanged
    assert!(!snap.try_push_record(one_more));
    assert_eq!(snap.files.len(), 1);
    assert_eq!(snap.total_size_bytes, u64::MAX);
}
