//! The lyrics-selection algorithm: given a tag model, choose the frame that
//! carries the displayable lyrics, by a fixed precedence.
//!
//! Precedence, first match wins:
//! 1. the first unsynchronized-lyric record, whatever its language or
//!    description;
//! 2. the first comment record whose description is exactly `LYRICS`;
//! 3. the first user-defined-text record whose description is exactly
//!    `LYRICS`;
//! 4. the identifiers `LYRICS`, `SYLT`, `LYRW`, `UNSYNCEDLYRICS` in that
//!    order: the first looked-up frame whose payload exposes a textual view.
//!
//! Empty text still counts as found; a frame at an earlier rank whose payload
//! has no textual view does not stop the search at later ranks.

use vstd::prelude::*;

use crate::tag::{Comment, ExtendedText, Frame, Lyrics, Tag};

verus! {

/// The outcome of selection: the chosen lyric text, or a signal that no
/// candidate frame was present.
pub enum LyricResult {
    Found(String),
    Absent,
}

/// The description key that marks a comment or user-defined-text record as
/// holding lyrics. The match is case-sensitive.
pub open spec fn lyrics_key() -> Seq<char> {
    "LYRICS"@
}

/// The text of the first comment record whose description is the lyrics key.
pub open spec fn comment_selection(comments: Seq<Comment>) -> Option<Seq<char>>
    decreases comments.len(),
{
    if comments.len() == 0 {
        None
    } else if comments[0].description@ == lyrics_key() {
        Some(comments[0].text@)
    } else {
        comment_selection(comments.drop_first())
    }
}

/// The value of the first user-defined-text record whose description is the
/// lyrics key.
pub open spec fn extended_selection(texts: Seq<ExtendedText>) -> Option<Seq<char>>
    decreases texts.len(),
{
    if texts.len() == 0 {
        None
    } else if texts[0].description@ == lyrics_key() {
        Some(texts[0].value@)
    } else {
        extended_selection(texts.drop_first())
    }
}

/// The first frame carrying the given identifier, if any: a lookup sees only
/// the first frame of its identifier, whether or not that frame has a
/// textual view.
pub open spec fn frame_lookup(frames: Seq<Frame>, id: Seq<char>) -> Option<Frame>
    decreases frames.len(),
{
    if frames.len() == 0 {
        None
    } else if frames[0].id@ == id {
        Some(frames[0])
    } else {
        frame_lookup(frames.drop_first(), id)
    }
}

/// The textual view of the first identifier in `ids` whose looked-up frame
/// has one.
pub open spec fn lookup_selection(frames: Seq<Frame>, ids: Seq<Seq<char>>) -> Option<Seq<char>>
    decreases ids.len(),
{
    if ids.len() == 0 {
        None
    } else {
        match frame_lookup(frames, ids[0]) {
            Some(f) => match f.text {
                Some(t) => Some(t@),
                None => lookup_selection(frames, ids.drop_first()),
            },
            None => lookup_selection(frames, ids.drop_first()),
        }
    }
}

/// The identifiers probed at the last rank, in probe order.
pub open spec fn lookup_ids() -> Seq<Seq<char>> {
    seq!["LYRICS"@, "SYLT"@, "LYRW"@, "UNSYNCEDLYRICS"@]
}

/// What selection returns on a tag: the chosen text, or `None` when no rank
/// produces a candidate.
pub open spec fn spec_select(tag: Tag) -> Option<Seq<char>> {
    if tag.lyrics@.len() > 0 {
        Some(tag.lyrics@[0].text@)
    } else if comment_selection(tag.comments@) is Some {
        comment_selection(tag.comments@)
    } else if extended_selection(tag.extended_texts@) is Some {
        extended_selection(tag.extended_texts@)
    } else {
        lookup_selection(tag.frames@, lookup_ids())
    }
}

/// The mathematical value of a [`LyricResult`].
pub open spec fn result_view(r: LyricResult) -> Option<Seq<char>> {
    match r {
        LyricResult::Found(s) => Some(s@),
        LyricResult::Absent => None,
    }
}

/// Selection is a pure function of the tag: equal tags give equal results.
pub proof fn lemma_select_pure(t1: Tag, t2: Tag)
    requires
        t1 == t2,
    ensures
        spec_select(t1) == spec_select(t2),
{
}

/// Choose the lyric text of a tag by the rank order in the module
/// description, or report that no candidate frame is present.
pub fn select(tag: &Tag) -> (r: LyricResult)
    ensures
        result_view(r) == spec_select(*tag),
{
    if tag.lyrics.len() > 0 {
        return LyricResult::Found(tag.lyrics[0].text.clone());
    }
    let key: String = "LYRICS".to_owned();
    if let Some(text) = first_lyrics_comment(&tag.comments, &key) {
        return LyricResult::Found(text);
    }
    if let Some(value) = first_lyrics_extended(&tag.extended_texts, &key) {
        return LyricResult::Found(value);
    }
    if let Some(text) = lookup_rank(&tag.frames, &key) {
        return LyricResult::Found(text);
    }
    LyricResult::Absent
}

/// The comment rank: scan the comment records in order for the first whose
/// description equals the key.
fn first_lyrics_comment(comments: &Vec<Comment>, key: &String) -> (r: Option<String>)
    requires
        key@ == lyrics_key(),
    ensures
        match r {
            Some(t) => comment_selection(comments@) == Some(t@),
            None => comment_selection(comments@) is None,
        },
{
    let n = comments.len();
    let mut i: usize = 0;
    assert(comments@.skip(0) =~= comments@);
    while i < n
        invariant
            n == comments@.len(),
            i <= n,
            key@ == lyrics_key(),
            comment_selection(comments@) == comment_selection(comments@.skip(i as int)),
        decreases n - i,
    {
        if comments[i].description == *key {
            assert(comments@.skip(i as int)[0] == comments@[i as int]);
            return Some(comments[i].text.clone());
        }
        assert(comments@.skip(i as int).drop_first() =~= comments@.skip(i + 1));
        assert(comments@.skip(i as int)[0] == comments@[i as int]);
        i = i + 1;
    }
    assert(comments@.skip(n as int) =~= Seq::<Comment>::empty());
    None
}

/// The user-defined-text rank: scan the records in order for the first whose
/// description equals the key.
fn first_lyrics_extended(texts: &Vec<ExtendedText>, key: &String) -> (r: Option<String>)
    requires
        key@ == lyrics_key(),
    ensures
        match r {
            Some(v) => extended_selection(texts@) == Some(v@),
            None => extended_selection(texts@) is None,
        },
{
    let n = texts.len();
    let mut i: usize = 0;
    assert(texts@.skip(0) =~= texts@);
    while i < n
        invariant
            n == texts@.len(),
            i <= n,
            key@ == lyrics_key(),
            extended_selection(texts@) == extended_selection(texts@.skip(i as int)),
        decreases n - i,
    {
        if texts[i].description == *key {
            assert(texts@.skip(i as int)[0] == texts@[i as int]);
            return Some(texts[i].value.clone());
        }
        assert(texts@.skip(i as int).drop_first() =~= texts@.skip(i + 1));
        assert(texts@.skip(i as int)[0] == texts@[i as int]);
        i = i + 1;
    }
    assert(texts@.skip(n as int) =~= Seq::<ExtendedText>::empty());
    None
}

/// Look up the first frame carrying the given identifier.
fn find_frame<'a>(frames: &'a Vec<Frame>, id: &String) -> (r: Option<&'a Frame>)
    ensures
        match r {
            Some(f) => frame_lookup(frames@, id@) == Some(*f),
            None => frame_lookup(frames@, id@) is None,
        },
{
    let n = frames.len();
    let mut i: usize = 0;
    assert(frames@.skip(0) =~= frames@);
    while i < n
        invariant
            n == frames@.len(),
            i <= n,
            frame_lookup(frames@, id@) == frame_lookup(frames@.skip(i as int), id@),
        decreases n - i,
    {
        if frames[i].id == *id {
            assert(frames@.skip(i as int)[0] == frames@[i as int]);
            return Some(&frames[i]);
        }
        assert(frames@.skip(i as int).drop_first() =~= frames@.skip(i + 1));
        assert(frames@.skip(i as int)[0] == frames@[i as int]);
        i = i + 1;
    }
    assert(frames@.skip(n as int) =~= Seq::<Frame>::empty());
    None
}

/// Probe one identifier of the last rank: the textual view of its looked-up
/// frame, when the frame is present and has one.
fn probe_id(frames: &Vec<Frame>, id: &String) -> (r: Option<String>)
    ensures
        match r {
            Some(t) => ({
                &&& frame_lookup(frames@, id@) is Some
                &&& frame_lookup(frames@, id@)->Some_0.text is Some
                &&& frame_lookup(frames@, id@)->Some_0.text->Some_0@ == t@
            }),
            None => ({
                ||| frame_lookup(frames@, id@) is None
                ||| frame_lookup(frames@, id@)->Some_0.text is None
            }),
        },
{
    match find_frame(frames, id) {
        Some(f) => match &f.text {
            Some(t) => Some(t.clone()),
            None => None,
        },
        None => None,
    }
}

/// The last rank: probe the identifiers `LYRICS`, `SYLT`, `LYRW`,
/// `UNSYNCEDLYRICS` in that order.
fn lookup_rank(frames: &Vec<Frame>, lyrics_id: &String) -> (r: Option<String>)
    requires
        lyrics_id@ == lyrics_key(),
    ensures
        match r {
            Some(t) => lookup_selection(frames@, lookup_ids()) == Some(t@),
            None => lookup_selection(frames@, lookup_ids()) is None,
        },
{
    let ghost ids = lookup_ids();
    assert(ids.drop_first() =~= seq!["SYLT"@, "LYRW"@, "UNSYNCEDLYRICS"@]);
    assert(ids.drop_first().drop_first() =~= seq!["LYRW"@, "UNSYNCEDLYRICS"@]);
    assert(ids.drop_first().drop_first().drop_first() =~= seq!["UNSYNCEDLYRICS"@]);
    assert(ids.drop_first().drop_first().drop_first().drop_first() =~= Seq::<Seq<char>>::empty());
    if let Some(t) = probe_id(frames, lyrics_id) {
        return Some(t);
    }
    assert(lookup_selection(frames@, ids) == lookup_selection(frames@, ids.drop_first()));
    let sylt: String = "SYLT".to_owned();
    if let Some(t) = probe_id(frames, &sylt) {
        return Some(t);
    }
    assert(lookup_selection(frames@, ids.drop_first()) == lookup_selection(
        frames@,
        ids.drop_first().drop_first(),
    ));
    let lyrw: String = "LYRW".to_owned();
    if let Some(t) = probe_id(frames, &lyrw) {
        return Some(t);
    }
    assert(lookup_selection(frames@, ids.drop_first().drop_first()) == lookup_selection(
        frames@,
        ids.drop_first().drop_first().drop_first(),
    ));
    let unsynced: String = "UNSYNCEDLYRICS".to_owned();
    if let Some(t) = probe_id(frames, &unsynced) {
        return Some(t);
    }
    assert(lookup_selection(frames@, ids.drop_first().drop_first().drop_first())
        == lookup_selection(frames@, ids.drop_first().drop_first().drop_first().drop_first()));
    None
}

} // verus!
