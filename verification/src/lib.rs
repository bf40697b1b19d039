//! A minimal, content-addressed, version-controlled object store.
//!
//! Clients submit named content blobs; each submission is recorded as an
//! immutable, content-addressed object, staged into a per-repository
//! index, snapshotted into a tree, and chained into the repository's
//! linear commit history. The store guarantees that no tree references an
//! unwritten object, that no commit references an unwritten tree, and
//! that a repository's chain tip only ever advances to a commit whose
//! parent is the previous tip.

pub mod api;
pub mod db;
pub mod error;
pub mod hashing;
pub mod info;
pub mod models;
pub mod objects;
pub mod order;
pub mod repository;
