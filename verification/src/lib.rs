//! A small version-control engine: a staging index over three generations of
//! file fingerprints, a commit ledger, a three-way merge over token sets and
//! the search for the enclosing repository root.
//!
//! The library never touches the file system. Callers hand it what they read
//! (metadata, file bytes, directory listings, the text of the index file) as
//! plain values, and every function states what it returns over a
//! mathematical model of those values.

pub mod codec;
pub mod digest;
pub mod error;
pub mod interaction;
pub mod json;
pub mod ledger;
pub mod ledger_codec;
pub mod locator;
pub mod merge;
pub mod stager;
pub mod staging;
pub mod storage;
pub mod text;
pub mod textmap;
pub mod walk;
