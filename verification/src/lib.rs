//! A verified file-serving core: safe resolution of URL paths onto a
//! directory subtree, deterministic directory listings, and forced-download
//! file responses.
//!
//! The crate holds the request-processing logic only. Filesystem probing and
//! the HTTP server itself live outside; they hand this library plain values
//! (request bytes, probe outcomes, directory entries, file contents) and get
//! back fully determined responses.

pub mod content;
pub mod dispatch;
pub mod listing;
pub mod path;
pub mod render;
pub mod target;
pub mod text;
