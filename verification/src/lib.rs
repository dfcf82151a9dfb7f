//! Verified core of a local backup-and-restore engine for per-application
//! save data: filename codec, archiver, catalog, and restore orchestration.

pub mod archive;
pub mod backup;
pub mod catalog;
pub mod clock;
pub mod config;
pub mod names;
pub mod paths;
pub mod restore;
pub mod stamp;
pub mod strutil;

use vstd::prelude::*;

verus! {

/// Classifies every failure the core can report.
#[derive(Clone, Copy, PartialEq, Eq, Structural, Debug)]
pub enum ErrorKind {
    NotFound,
    InvalidInput,
    IoFailure,
    PolicyViolation,
}

/// A failure surfaced to the caller: its classification and a
/// human-readable message.
#[derive(Debug)]
pub struct CoreError {
    pub kind: ErrorKind,
    pub message: String,
}

} // verus!
