//! A content-addressable archive of web-capture snapshots, indexed by canonical
//! URL keys (SURTs) and verified by SHA-1 digests.
//!
//! The crate covers the SURT canonicalization of URLs, the streaming CDX
//! index-result codec, and the content-addressable snapshot store: its
//! digest-stable line codec, directory import and verification, and
//! multi-source merge-deduplication. Every codec is deliberately non-generic
//! and byte-exact, because a digest computed over exact bytes must remain
//! stable across every transform.

pub mod base32;
pub mod cas;
pub mod cdx;
pub mod digest;
pub mod item;
pub mod lines;
pub mod lines_io;
pub mod merge;
pub mod metadata;
pub mod mime_type;
pub mod status_code;
pub mod surt;
pub mod timestamp;
pub mod tweet;
pub mod text;
