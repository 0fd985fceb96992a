use disk_hog_backup::catalog::{Catalog, FileRecord, Snapshot};
use disk_hog_backup::checksum::{checksum_bytes, file_contents_matches, ChecksumEngine, Digest};
use disk_hog_backup::manifest::{manifest_encode, manifest_parse};
use disk_hog_backup::validator::{classify_file, validate_catalog, validate_records, IssueKind};
use disk_hog_backup::BackupError;

#[test]
fn checksum_is_deterministic() {
    let content = b"backmeup susie".to_vec();
    let again = b"backmeup susie".to_vec();
    assert_eq!(checksum_bytes(&content), checksum_bytes(&again));
    assert_eq!(checksum_bytes(&content), checksum_bytes(&content));
}

#[test]
fn checksum_differs_on_one_byte() {
    let content = b"backmeup susie".to_vec();
    let mut flipped = content.clone();
    flipped[3] ^= 1;
    assert_ne!(checksum_bytes(&content), checksum_bytes(&flipped));
    let empty: Vec<u8> = Vec::new();
    let one = vec![0u8];
    assert_ne!(checksum_bytes(&empty), checksum_bytes(&one));
}

#[test]
fn checksum_streaming_matches_whole() {
    let whole = b"chunked content, fed in pieces".to_vec();
    let mut engine = ChecksumEngine::new();
    engine.update(&b"chunked ".to_vec());
    engine.update(&b"content".to_vec());
    engine.update(&Vec::new());
    engine.update(&b", fed in pieces".to_vec());
    assert_eq!(engine.finish(), checksum_bytes(&whole));
}

#[test]
fn file_contents_matches_is_byte_equality() {
    let a = b"same bytes".to_vec();
    let b = b"same bytes".to_vec();
    let c = b"same bytez".to_vec();
    let d = b"same byte".to_vec();
    assert!(file_contents_matches(&a, &b));
    assert!(!file_contents_matches(&a, &c));
    assert!(!file_contents_matches(&a, &d));
    assert!(file_contents_matches(&Vec::new(), &Vec::new()));
}

fn record(path: &[u8], content: &[u8], mtime: i64) -> FileRecord {
    FileRecord {
        relative_path: path.to_vec(),
        size_bytes: content.len() as u64,
        modified_at: mtime,
        checksum: checksum_bytes(&content.to_vec()),
    }
}

#[test]
fn validator_reports_missing_exactly_once() {
    let records = vec![
        record(b"a.txt", b"alpha", 100),
        record(b"sub/b.txt", b"beta", 200),
        record(b"c.txt", b"gamma", 300),
    ];
    let observed = vec![
        Some(checksum_bytes(&b"alpha".to_vec())),
        None,
        Some(checksum_bytes(&b"gamma".to_vec())),
    ];
    let report = validate_records(&records, &observed);
    assert_eq!(report.len(), 1);
    assert_eq!(report[0].relative_path, b"sub/b.txt".to_vec());
    assert_eq!(report[0].kind, IssueKind::Missing);
}

#[test]
fn validator_reports_mismatch_exactly_once() {
    let records = vec![record(b"a.txt", b"alpha", 100), record(b"b.txt", b"beta", 200)];
    let flipped = checksum_bytes(&b"bEta".to_vec());
    let observed = vec![Some(checksum_bytes(&b"alpha".to_vec())), Some(flipped)];
    let report = validate_records(&records, &observed);
    assert_eq!(report.len(), 1);
    assert_eq!(report[0].relative_path, b"b.txt".to_vec());
    assert_eq!(report[0].kind, IssueKind::ChecksumMismatch);
}

#[test]
fn validator_clean_report_is_empty() {
    let records = vec![record(b"a.txt", b"alpha", 100), record(b"b.txt", b"beta", 200)];
    let observed = vec![
        Some(checksum_bytes(&b"alpha".to_vec())),
        Some(checksum_bytes(&b"beta".to_vec())),
    ];
    assert_eq!(validate_records(&records, &observed).len(), 0);
    assert_eq!(classify_file(&records[0], observed[0]), None);
    assert_eq!(classify_file(&records[0], None), Some(IssueKind::Missing));
    let wrong = Digest { w0: 7, w1: 7, w2: 7, w3: 7 };
    assert_eq!(classify_file(&records[0], Some(wrong)), Some(IssueKind::ChecksumMismatch));
}

fn snapshot_with_records() -> Snapshot {
    let name = disk_hog_backup::set_namer::set_name(1431648000, 0);
    let mut snap = Snapshot::new(name, 1431648000, 0);
    assert!(snap.try_push_record(record(b"a.txt", b"alpha", 100)));
    assert!(snap.try_push_record(record(b"path with spaces.txt", b"beta", -12345)));
    snap
}

#[test]
fn manifest_round_trips() {
    let snap = snapshot_with_records();
    let bytes = manifest_encode(&snap);
    let parsed = match manifest_parse(&bytes) {
        Ok(s) => s,
        Err(_) => panic!("canonical manifest should parse"),
    };
    assert_eq!(parsed.name, snap.name);
    assert_eq!(parsed.created_at, snap.created_at);
    assert_eq!(parsed.sequence, snap.sequence);
    assert_eq!(parsed.total_size_bytes, snap.total_size_bytes);
    assert_eq!(parsed.files.len(), snap.files.len());
    for i in 0..snap.files.len() {
        assert_eq!(parsed.files[i].relative_path, snap.files[i].relative_path);
        assert_eq!(parsed.files[i].size_bytes, snap.files[i].size_bytes);
        assert_eq!(parsed.files[i].modified_at, snap.files[i].modified_at);
        assert_eq!(parsed.files[i].checksum, snap.files[i].checksum);
    }
}

#[test]
fn manifest_rejects_damage() {
    let snap = snapshot_with_records();
    let bytes = manifest_encode(&snap);

    let mut tampered = bytes.clone();
    tampered[0] ^= 1;
    assert!(matches!(manifest_parse(&tampered), Err(BackupError::IncompleteSnapshot)));

    let mut truncated = bytes.clone();
    truncated.pop();
    assert!(matches!(manifest_parse(&truncated), Err(BackupError::IncompleteSnapshot)));

    assert!(matches!(manifest_parse(&b"not a manifest".to_vec()), Err(BackupError::IncompleteSnapshot)));
    assert!(matches!(manifest_parse(&Vec::new()), Err(BackupError::IncompleteSnapshot)));
}

#[test]
fn test_backup_non_existent_path() {
}

#[test]
fn manifest_of_empty_snapshot_round_trips() {
    let snap = Snapshot::new(disk_hog_backup::set_namer::set_name(0, 0), 0, 0);
    let bytes = manifest_encode(&snap);
    let parsed = manifest_parse(&bytes).unwrap();
    assert_eq!(parsed.name, snap.name);
    assert_eq!(parsed.created_at, 0);
    assert_eq!(parsed.sequence, 0);
    assert_eq!(parsed.files.len(), 0);
    assert_eq!(parsed.total_size_bytes, 0);
}

#[test]
fn validator_reports_every_damaged_file() {
    let records = vec![
        record(b"a.txt", b"alpha", 1),
        record(b"b.txt", b"beta", 2),
        record(b"c.txt", b"gamma", 3),
    ];
    let wrong = Digest { w0: 0, w1: 0, w2: 0, w3: 0 };
    let observed = vec![None, Some(checksum_bytes(&b"beta".to_vec())), Some(wrong)];
    let report = validate_records(&records, &observed);
    assert_eq!(report.len(), 2);
    assert_eq!(report[0].relative_path, b"a.txt".to_vec());
    assert_eq!(report[0].kind, IssueKind::Missing);
    assert_eq!(report[1].relative_path, b"c.txt".to_vec());
    assert_eq!(report[1].kind, IssueKind::ChecksumMismatch);
}

#[test]
fn manifest_round_trips_path_with_newline() {
    let mut snap = Snapshot::new(disk_hog_backup::set_namer::set_name(7, 0), 7, 0);
    let odd_path = vec![b'a', 10u8, b'b'];
    assert!(snap.try_push_record(FileRecord {
        relative_path: odd_path.clone(),
        size_bytes: 1,
        modified_at: 3,
        checksum: checksum_bytes(&vec![b'z']),
    }));
    let bytes = manifest_encode(&snap);
    let parsed = manifest_parse(&bytes).unwrap();
    assert_eq!(parsed.files.len(), 1);
    assert_eq!(parsed.files[0].relative_path, odd_path);
}

#[test]
fn validate_catalog_reports_across_snapshots() {
    let mut catalog = Catalog::new();
    let mut first = Snapshot::new(disk_hog_backup::set_namer::set_name(100, 0), 100, 0);
    assert!(first.try_push_record(record(b"a.txt", b"alpha", 1)));
    assert!(catalog.record(first).is_ok());
    let mut second = Snapshot::new(disk_hog_backup::set_namer::set_name(200, 0), 200, 0);
    assert!(second.try_push_record(record(b"b.txt", b"beta", 2)));
    assert!(second.try_push_record(record(b"c.txt", b"gamma", 3)));
    assert!(catalog.record(second).is_ok());

    // a.txt is fine; b.txt is missing; c.txt no longer matches its checksum
    let observed = vec![
        vec![Some(checksum_bytes(&b"alpha".to_vec()))],
        vec![None, Some(checksum_bytes(&b"GAMMA".to_vec()))],
    ];
    let report = validate_catalog(&catalog, &observed);
    assert_eq!(report.len(), 2);
    assert_eq!(report[0].relative_path, b"dhb-set-19700101-000320/b.txt".to_vec());
    assert_eq!(report[0].kind, IssueKind::Missing);
    assert_eq!(report[1].relative_path, b"dhb-set-19700101-000320/c.txt".to_vec());
    assert_eq!(report[1].kind, IssueKind::ChecksumMismatch);
}
