//! A verified core for a directory backup engine.
//!
//! The engine captures point-in-time snapshots of a source tree into a backup
//! root, deduplicates file content across snapshots by content-addressing,
//! evicts the oldest snapshots under a storage budget, and validates stored
//! data on demand.  This crate holds the logic of that engine — checksums,
//! the dedup resolver, the snapshot catalog, the space manager and the
//! integrity validator — as verified functions over plain values; the thin
//! layer of filesystem calls around it stays outside.

use vstd::prelude::*;

pub mod builder;
pub mod catalog;
pub mod checksum;
pub mod content_store;
pub mod manifest;
pub mod set_namer;
pub mod space;
pub mod validator;

verus! {

/// Options for one backup run: an optional storage budget in bytes for the
/// backup root, and whether to re-read and compare checksums after copying.
pub struct BackupOptions {
    pub max_space: Option<u64>,
    pub validate_checksums: bool,
}

impl Default for BackupOptions {
    /// By default there is no storage budget and no post-copy validation.
    fn default() -> (r: Self)
        ensures
            r.max_space is None,
            r.validate_checksums == false,
    {
        BackupOptions { max_space: None, validate_checksums: false }
    }
}

/// Errors of the engine's core.  I/O failures are surfaced by the unverified
/// edge that performs the filesystem calls; these are the failures the logic
/// itself can decide.
#[derive(Clone, Copy, Debug, PartialEq, Eq, Structural)]
pub enum BackupError {
    /// Recording one more file would push a snapshot's total size past `u64::MAX`.
    SnapshotOverflow,
    /// The space manager could not get under budget because only one snapshot remains.
    BudgetUnsatisfiable,
    /// A snapshot directory's manifest is missing or malformed.
    IncompleteSnapshot,
}

} // verus!
