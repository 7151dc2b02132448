//! Filesystem discovery and fingerprinting library.
//!
//! Expands glob patterns into candidate file sets, applies exclusion and
//! symlink policy, assembles normalized metadata records, and computes
//! streaming content digests.  Pure byte transforms (compression codecs,
//! authenticated encryption) round out the toolkit.

pub mod blob;
pub mod collect;
pub mod compress;
pub mod encrypt;
pub mod errors;
pub mod hashing;
pub mod fsapi;
pub mod params;
pub mod pathparse;
pub mod pattern;
pub mod records;
pub mod strutil;
