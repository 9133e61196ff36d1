//! Media library indexing: thumbnail generation and cache engine,
//! library scanning and cover selection.
//!
//! The crate is organised around plain values: callers gather directory
//! listings, file metadata and file bytes, hand them to the verified
//! functions here, and perform the file writes and deletions that the
//! returned plans call for.

use vstd::prelude::*;

pub mod book;
pub mod cache;
pub mod cover;
pub mod digest;
pub mod names;
pub mod natural;
pub mod percent;
pub mod scan;
pub mod tags;
pub mod transcode;

verus! {

/// Width, in pixels, of every generated thumbnail.
pub const THUMB_WIDTH: u32 = 256;

/// Height, in pixels, substituted when an image cannot be decoded.
pub const THUMB_HEIGHT: u32 = 384;

/// JPEG quality used when encoding thumbnails.
pub const THUMB_QUALITY: u8 = 70;

} // verus!
