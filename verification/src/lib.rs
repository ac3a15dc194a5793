//! Verified core of a media-hosting service: upload validation, content
//! fingerprinting, exact and fuzzy deduplication, chunked upload sessions,
//! and a catalog of committed media items with referential integrity.

use vstd::prelude::*;

pub mod admin;
pub mod catalog;
pub mod comments;
pub mod encoding;
pub mod fingerprint;
pub mod laws;
pub mod magic;
pub mod mime;
pub mod model;
pub mod pipeline;
pub mod ranges;
pub mod sessions;
pub mod strutil;
pub mod util;

verus! {

/// Number of bytes of a buffer that the magic-byte validator inspects.
pub const MAGIC_READ_BYTES: usize = 256;

/// Upper bound, in bytes, on a whole uploaded file.
pub const MAX_FILE_BYTES: u64 = 104857600;

/// Upper bound, in bytes, on a single chunk of a resumable upload.
pub const MAX_CHUNK_BYTES: u64 = 6291456;

} // verus!
