//! The in-memory model of an ID3v2 tag, as the lyrics selector consumes it.
//!
//! A tag is a read-only collection of records in container order: the
//! unsynchronized-lyric records, the comment records, the user-defined-text
//! records, and the full frame list with each frame's textual view when its
//! payload has one. Callers build a `Tag` from whatever parser they use; the
//! selector never sees the parser.

use vstd::prelude::*;

verus! {

/// An unsynchronized-lyric record: language code, description, lyric text.
pub struct Lyrics {
    pub lang: String,
    pub description: String,
    pub text: String,
}

/// A comment record: language code, description, comment text.
pub struct Comment {
    pub lang: String,
    pub description: String,
    pub text: String,
}

/// A user-defined-text record: description key and value.
pub struct ExtendedText {
    pub description: String,
    pub value: String,
}

/// One frame of the container: its 4-character identifier and the textual
/// view of its payload, when the payload exposes one.
pub struct Frame {
    pub id: String,
    pub text: Option<String>,
}

/// A read-only view over one file's ID3v2 container, with each record kind
/// enumerated in the container's order.
pub struct Tag {
    pub lyrics: Vec<Lyrics>,
    pub comments: Vec<Comment>,
    pub extended_texts: Vec<ExtendedText>,
    pub frames: Vec<Frame>,
}

} // verus!
