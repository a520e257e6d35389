//! Verified persistence core for a typing-practice application.
//!
//! The library models a versioned relational store over nine entity kinds,
//! with referential integrity (cascading deletes from the `User` aggregate
//! root), full-replace bulk writes, upsert semantics for single-row tables,
//! and an idempotent, fault-tolerant importer for a legacy key/value payload.

use vstd::prelude::*;

pub mod import;
pub mod json;
pub mod keyboard;
pub mod metrics;
pub mod models;
pub mod order;
pub mod repos;
pub mod storage;

verus! {

/// Errors surfaced by the store. Uniqueness and foreign-key violations are
/// the only failures the in-memory core itself can produce; absent rows are
/// reported as `None` results, not as errors.
#[derive(Debug, PartialEq, Eq, Structural, Clone, Copy)]
pub enum StorageError {
    ConstraintViolation,
}

} // verus!
