//! Multi-tenant media-catalog administration library.
//!
//! The heart of the crate is the multipart ingestion and file/record
//! co-commit protocol: form fields and uploaded files are staged under a
//! per-request temporary directory, bound into a typed request, and only
//! after the corresponding row write succeeds are the staged files moved
//! to their content-addressed destinations; every failure path cleans the
//! staging directory up.

pub mod album;
pub mod category;
pub mod coerce;
pub mod common;
pub mod content;
pub mod episode;
pub mod fields;
pub mod fsmodel;
pub mod ids;
pub mod ingest;
pub mod metadata;
pub mod paths;
pub mod store;
pub mod text;
pub mod timefmt;
pub mod value;
