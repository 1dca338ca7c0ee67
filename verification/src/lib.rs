//! Version-tag normalization and release-artifact selection for a Python-like
//! runtime.
//!
//! The crate turns raw source-control tags into canonical versions, keeps them
//! in an ordered catalog with a `latest` alias, and selects a download
//! descriptor for a requested version and platform triple from a published
//! release manifest.

pub mod decimal;
pub mod strcmp;
pub mod version;
pub mod tag;
pub mod catalog;
pub mod selector;
