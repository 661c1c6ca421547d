//! An indexing-and-consolidation pipeline for sequencing read files: each
//! source file is converted into a self-contained columnar fragment exactly
//! once, that fact is recorded durably in a lock-guarded append-only ledger
//! that is safe under concurrent writers, and all not-yet-merged fragments
//! are periodically folded into one monolithic reference dataset. The
//! library holds the pipeline's data model, grammar and decisions; reading
//! and writing of files, the worker pool and the floating-point quality
//! scorer stand outside it.

pub mod arrow;
pub mod columns;
pub mod fastq;
pub mod filehandlers;
pub mod fq_threaded;
pub mod fragment;
pub mod text;

use vstd::prelude::*;

verus! {

/// The error kinds of the indexing and consolidation pipeline.
///
/// `NotFound`: a source file is missing (no side effects; a batch goes on).
/// `EncodingError`: a read's header bytes are not valid UTF-8 (fatal to that
/// one file only).
/// `ParseError`: a numeric metadata field is present but malformed (fatal to
/// that one file only).
/// `IOError`: a fragment, the reference dataset, or a ledger could not be
/// created, read or written (fatal to the enclosing operation).
/// `SchemaMismatch`: a fragment's columns do not line up with the reference
/// dataset during consolidation (fatal to the whole consolidation run).
#[derive(Clone, Copy, PartialEq, Eq, Structural, Debug)]
pub enum FqError {
    NotFound,
    EncodingError,
    ParseError,
    IOError,
    SchemaMismatch,
}

impl FqError {
    /// A short stable name for the error kind, for reporting by callers.
    pub fn kind_name(&self) -> (r: &'static str)
        ensures
            *self == FqError::NotFound ==> r@ == "not found"@,
            *self == FqError::EncodingError ==> r@ == "encoding error"@,
            *self == FqError::ParseError ==> r@ == "parse error"@,
            *self == FqError::IOError ==> r@ == "io error"@,
            *self == FqError::SchemaMismatch ==> r@ == "schema mismatch"@,
    {
        match self {
            FqError::NotFound => "not found",
            FqError::EncodingError => "encoding error",
            FqError::ParseError => "parse error",
            FqError::IOError => "io error",
            FqError::SchemaMismatch => "schema mismatch",
        }
    }
}

} // verus!
