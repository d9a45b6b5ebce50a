//! Batch extraction of embedded song-lyric text from ID3v2 tag models.
//!
//! The library is organised around plain data: a [`tag::Tag`] holds the
//! frames of one file's metadata container, [`selector`] picks the lyric
//! text out of a tag by a fixed precedence, [`discovery`] filters candidate
//! paths by extension, and [`aggregator`] folds per-file outcomes into one
//! output document. Filesystem traversal, tag parsing and file writing are
//! the callers' business; they hand the library plain values.

pub mod aggregator;
pub mod discovery;
pub mod selector;
pub mod tag;
