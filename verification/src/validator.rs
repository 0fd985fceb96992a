//! The integrity validator: re-walks stored snapshots, compares recomputed
//! checksums against the recorded ones, and reports every missing or
//! mismatched file.  The unverified edge reads each stored file and digests
//! its bytes (`None` when the file no longer exists); the verdicts are decided
//! here.  The report is complete: it never stops at the first issue.

use vstd::prelude::*;

use crate::catalog::{clone_bytes, Catalog, FileRecord, FileRecordV, SnapshotV};
use crate::checksum::Digest;
use crate::content_store::{spec_stored_path, stored_path};

verus! {

/// What is wrong with one stored file.
#[derive(Clone, Copy, Debug, PartialEq, Eq, Structural)]
pub enum IssueKind {
    /// The stored path no longer exists.
    Missing,
    /// The stored bytes no longer digest to the recorded checksum.
    ChecksumMismatch,
}

/// One finding of the validator.
pub struct Issue {
    /// The relative path of the damaged file, as recorded in its snapshot.
    pub relative_path: Vec<u8>,
    pub kind: IssueKind,
}

/// The mathematical value of an `Issue`.
pub ghost struct IssueV {
    pub relative_path: Seq<u8>,
    pub kind: IssueKind,
}

impl View for Issue {
    type V = IssueV;

    open spec fn view(&self) -> IssueV {
        IssueV { relative_path: self.relative_path@, kind: self.kind }
    }
}

/// The verdict on one record, given what the disk now holds: the digest of
/// the stored bytes, or `None` when the stored path no longer exists.
pub open spec fn issue_of(rec: FileRecordV, observed: Option<Digest>) -> Option<IssueKind> {
    match observed {
        None => Some(IssueKind::Missing),
        Some(d) => if d == rec.checksum {
            None
        } else {
            Some(IssueKind::ChecksumMismatch)
        },
    }
}

/// The report entry a record contributes: one finding, or nothing.
pub open spec fn issue_entry(rec: FileRecordV, observed: Option<Digest>) -> Seq<IssueV> {
    match issue_of(rec, observed) {
        Some(k) => seq![IssueV { relative_path: rec.relative_path, kind: k }],
        None => Seq::empty(),
    }
}

/// The full report over a snapshot's records and the matching observations.
pub open spec fn validation_report(records: Seq<FileRecordV>, observed: Seq<Option<Digest>>) -> Seq<
    IssueV,
>
    decreases records.len(),
{
    if records.len() == 0 {
        Seq::empty()
    } else {
        validation_report(records.drop_last(), observed.drop_last()) + issue_entry(
            records.last(),
            observed.last(),
        )
    }
}

/// See `issue_of`.
pub fn classify_file(rec: &FileRecord, observed: Option<Digest>) -> (r: Option<IssueKind>)
    ensures
        r == issue_of(rec@, observed),
{
    match observed {
        None => Some(IssueKind::Missing),
        Some(d) => if d == rec.checksum {
            None
        } else {
            Some(IssueKind::ChecksumMismatch)
        },
    }
}

/// Validate one snapshot's records against what the disk now holds, handed
/// over record by record in the same order.  The report holds exactly one
/// finding per damaged record, in record order, and nothing else.
pub fn validate_records(records: &Vec<FileRecord>, observed: &Vec<Option<Digest>>) -> (r: Vec<Issue>)
    requires
        records@.len() == observed@.len(),
    ensures
        r@.map_values(|x: Issue| x@) == validation_report(
            records@.map_values(|f: FileRecord| f@),
            observed@,
        ),
{
    let ghost rv = records@.map_values(|f: FileRecord| f@);
    let mut r: Vec<Issue> = Vec::new();
    let mut i: usize = 0;
    proof {
        assert(r@.map_values(|x: Issue| x@) =~= validation_report(rv.take(0), observed@.take(0)));
    }
    while i < records.len()
        invariant
            i <= records.len(),
            rv == records@.map_values(|f: FileRecord| f@),
            rv.len() == records@.len(),
            records@.len() == observed@.len(),
            r@.map_values(|x: Issue| x@) == validation_report(
                rv.take(i as int),
                observed@.take(i as int),
            ),
        decreases records.len() - i,
    {
        let rec = &records[i];
        proof {
            assert(rv.take(i + 1 as int).drop_last() =~= rv.take(i as int));
            assert(observed@.take(i + 1 as int).drop_last() =~= observed@.take(i as int));
            assert(rv.take(i + 1 as int).last() == rec@);
            assert(observed@.take(i + 1 as int).last() == observed@[i as int]);
        }
        match classify_file(rec, observed[i]) {
            Some(kind) => {
                let issue = Issue { relative_path: clone_bytes(&rec.relative_path), kind };
                r.push(issue);
                proof {
                    assert(r@.map_values(|x: Issue| x@) =~= validation_report(
                        rv.take(i as int),
                        observed@.take(i as int),
                    ).push(IssueV { relative_path: rec@.relative_path, kind }));
                    assert(validation_report(rv.take(i + 1 as int), observed@.take(i + 1 as int))
                        =~= validation_report(rv.take(i as int), observed@.take(i as int)).push(
                        IssueV { relative_path: rec@.relative_path, kind },
                    ));
                }
            },
            None => {
                proof {
                    assert(validation_report(rv.take(i + 1 as int), observed@.take(i + 1 as int))
                        =~= validation_report(rv.take(i as int), observed@.take(i as int)));
                }
            },
        }
        i = i + 1;
    }
    proof {
        assert(rv.take(records@.len() as int) =~= rv);
        assert(observed@.take(records@.len() as int) =~= observed@);
    }
    r
}

/// A snapshot's findings with each path qualified by the snapshot's directory
/// name, as a whole-root report names them.
pub open spec fn prefixed_issues(name: Seq<u8>, issues: Seq<IssueV>) -> Seq<IssueV> {
    issues.map_values(
        |i: IssueV| IssueV { relative_path: spec_stored_path(name, i.relative_path), kind: i.kind },
    )
}

/// The report over a whole backup root: every snapshot's findings in
/// chronological order, each under its stored path.
pub open spec fn catalog_report(cat: Seq<SnapshotV>, obs: Seq<Seq<Option<Digest>>>) -> Seq<IssueV>
    decreases cat.len(),
{
    if cat.len() == 0 {
        Seq::empty()
    } else {
        catalog_report(cat.drop_last(), obs.drop_last()) + prefixed_issues(
            cat.last().name,
            validation_report(cat.last().files, obs.last()),
        )
    }
}

/// Validate every record of every snapshot in the catalog against what the
/// disk now holds — one observation per record, snapshot by snapshot in
/// catalog order.  The report is complete: one finding per damaged record
/// across the whole root, under its stored path, and nothing else.
pub fn validate_catalog(catalog: &Catalog, observed: &Vec<Vec<Option<Digest>>>) -> (r: Vec<Issue>)
    requires
        observed@.len() == catalog@.len(),
        forall|i: int|
            0 <= i < catalog@.len() ==> (#[trigger] observed@[i])@.len()
                == catalog@[i].files.len(),
    ensures
        r@.map_values(|x: Issue| x@) == catalog_report(
            catalog@,
            observed@.map_values(|v: Vec<Option<Digest>>| v@),
        ),
{
    let ghost cat = catalog@;
    let ghost obsv = observed@.map_values(|v: Vec<Option<Digest>>| v@);
    let mut r: Vec<Issue> = Vec::new();
    let mut i: usize = 0;
    proof {
        assert(r@.map_values(|x: Issue| x@) =~= catalog_report(cat.take(0), obsv.take(0)));
    }
    while i < catalog.snapshots.len()
        invariant
            i <= catalog.snapshots@.len(),
            cat == catalog@,
            obsv == observed@.map_values(|v: Vec<Option<Digest>>| v@),
            cat.len() == catalog.snapshots@.len(),
            observed@.len() == cat.len(),
            obsv.len() == cat.len(),
            forall|x: int| 0 <= x < cat.len() ==> (#[trigger] obsv[x]).len() == cat[x].files.len(),
            r@.map_values(|x: Issue| x@) == catalog_report(cat.take(i as int), obsv.take(i as int)),
        decreases catalog.snapshots@.len() - i,
    {
        let snap = &catalog.snapshots[i];
        proof {
            assert(snap@ == cat[i as int]);
            assert(obsv[i as int] == observed@[i as int]@);
        }
        let found = validate_records(&snap.files, &observed[i]);
        let ghost report = validation_report(cat[i as int].files, obsv[i as int]);
        let ghost base = r@.map_values(|x: Issue| x@);
        let mut j: usize = 0;
        proof {
            assert(found@.map_values(|x: Issue| x@) == report);
            assert(base + prefixed_issues(cat[i as int].name, report).take(0) =~= base);
        }
        while j < found.len()
            invariant
                j <= found@.len(),
                cat == catalog@,
                i < cat.len(),
                cat.len() == catalog.snapshots@.len(),
                snap == catalog.snapshots@[i as int],
                snap@ == cat[i as int],
                found@.map_values(|x: Issue| x@) == report,
                report.len() == found@.len(),
                prefixed_issues(cat[i as int].name, report).len() == report.len(),
                r@.map_values(|x: Issue| x@) == base + prefixed_issues(
                    cat[i as int].name,
                    report,
                ).take(j as int),
            decreases found@.len() - j,
        {
            let issue = &found[j];
            let qualified = Issue {
                relative_path: stored_path(&snap.name, &issue.relative_path),
                kind: issue.kind,
            };
            let ghost r_pre = r@;
            r.push(qualified);
            proof {
                assert(found@.map_values(|x: Issue| x@)[j as int] == found@[j as int]@);
                assert(found@[j as int]@ == report[j as int]);
                assert(prefixed_issues(cat[i as int].name, report)[j as int] == IssueV {
                    relative_path: spec_stored_path(
                        cat[i as int].name,
                        report[j as int].relative_path,
                    ),
                    kind: report[j as int].kind,
                });
                assert(qualified@.relative_path == spec_stored_path(
                    cat[i as int].name,
                    report[j as int].relative_path,
                ));
                assert(qualified@ == prefixed_issues(cat[i as int].name, report)[j as int]);
                let pfx = prefixed_issues(cat[i as int].name, report);
                assert(r_pre.map_values(|e: Issue| e@).len() == r_pre.len());
                assert(r_pre.len() == base.len() + j);
                assert(pfx.take(j as int).len() == j);
                assert(pfx.take(j + 1 as int).len() == j + 1);
                assert forall|x: int| 0 <= x < r@.len() implies (#[trigger] r@[x])@ == (base
                    + pfx.take(j + 1 as int))[x] by {
                    assert(r_pre.len() == base.len() + j);
                    if x < r_pre.len() {
                        assert(r@[x] == r_pre[x]);
                        assert(r_pre.map_values(|e: Issue| e@)[x] == r_pre[x]@);
                        assert((base + pfx.take(j as int))[x] == r_pre[x]@);
                        if x >= base.len() {
                            assert(pfx.take(j as int)[x - base.len()] == pfx[x - base.len()]);
                            assert(pfx.take(j + 1 as int)[x - base.len()] == pfx[x - base.len()]);
                        }
                    } else {
                        assert(r@[x] == qualified);
                        assert((base + pfx.take(j + 1 as int))[x] == pfx[j as int]);
                    }
                }
                assert(r@.map_values(|e: Issue| e@) =~= base + pfx.take(j + 1 as int));
            }
            j = j + 1;
        }
        proof {
            assert(prefixed_issues(cat[i as int].name, report).take(report.len() as int)
                =~= prefixed_issues(cat[i as int].name, report));
            assert(cat.take(i + 1 as int).drop_last() =~= cat.take(i as int));
            assert(obsv.take(i + 1 as int).drop_last() =~= obsv.take(i as int));
            assert(cat.take(i + 1 as int).last() == cat[i as int]);
            assert(obsv.take(i + 1 as int).last() == obsv[i as int]);
            assert(r@.map_values(|x: Issue| x@) =~= catalog_report(
                cat.take(i + 1 as int),
                obsv.take(i + 1 as int),
            ));
        }
        i = i + 1;
    }
    proof {
        assert(cat.take(cat.len() as int) =~= cat);
        assert(obsv.take(cat.len() as int) =~= obsv);
    }
    r
}

/// A report over sound records and observations is empty.
pub proof fn lemma_report_empty_when_sound(records: Seq<FileRecordV>, observed: Seq<Option<Digest>>)
    requires
        records.len() == observed.len(),
        forall|k: int| 0 <= k < records.len() ==> issue_of(#[trigger] records[k], observed[k]) is None,
    ensures
        validation_report(records, observed) == Seq::<IssueV>::empty(),
    decreases records.len(),
{
    if records.len() > 0 {
        lemma_report_empty_when_sound(records.drop_last(), observed.drop_last());
        assert(validation_report(records, observed) =~= Seq::<IssueV>::empty());
    }
}

/// The validator completeness law: when exactly one record is damaged — its
/// file missing, or its stored bytes digesting to a different checksum — the
/// report names exactly that record's path, once, with the correct kind.
pub proof fn lemma_validator_completeness(
    records: Seq<FileRecordV>,
    observed: Seq<Option<Digest>>,
    j: int,
)
    requires
        records.len() == observed.len(),
        0 <= j < records.len(),
        issue_of(records[j], observed[j]) is Some,
        forall|k: int|
            0 <= k < records.len() && k != j ==> issue_of(#[trigger] records[k], observed[k]) is None,
    ensures
        validation_report(records, observed) == issue_entry(records[j], observed[j]),
        validation_report(records, observed).len() == 1,
        validation_report(records, observed)[0].relative_path == records[j].relative_path,
        Some(validation_report(records, observed)[0].kind) == issue_of(records[j], observed[j]),
    decreases records.len(),
{
    if j == records.len() - 1 {
        lemma_report_empty_when_sound(records.drop_last(), observed.drop_last());
        assert(validation_report(records, observed) =~= issue_entry(records[j], observed[j]));
    } else {
        lemma_validator_completeness(records.drop_last(), observed.drop_last(), j);
        assert(records.drop_last()[j] == records[j]);
        assert(observed.drop_last()[j] == observed[j]);
        assert(validation_report(records, observed) =~= issue_entry(records[j], observed[j]));
    }
}

} // verus!
