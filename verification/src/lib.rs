//! Audits dependency-version consistency across a set of package manifests.
//!
//! One authoritative reference manifest declares the expected version for
//! each dependency it knows about; every other manifest found beneath a base
//! directory is compared against it, and each disagreement is reported as a
//! `Mismatch`.

pub mod audit;
pub mod compare;
pub mod json;
pub mod manifest;
pub mod parse;
pub mod report;
pub mod strutil;
pub mod version;
pub mod walker;
