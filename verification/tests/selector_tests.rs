use mp3_lyrics::selector::{select, LyricResult};
use mp3_lyrics::tag::{Comment, ExtendedText, Frame, Lyrics, Tag};

fn empty_tag() -> Tag {
    Tag {
        lyrics: Vec::new(),
        comments: Vec::new(),
        extended_texts: Vec::new(),
        frames: Vec::new(),
    }
}

fn lyrics_frame(text: &str) -> Lyrics {
    Lyrics {
        lang: "eng".to_string(),
        description: String::new(),
        text: text.to_string(),
    }
}

fn comment_frame(description: &str, text: &str) -> Comment {
    Comment {
        lang: "eng".to_string(),
        description: description.to_string(),
        text: text.to_string(),
    }
}

fn found_text(r: &LyricResult) -> Option<&str> {
    match r {
        LyricResult::Found(s) => Some(s.as_str()),
        LyricResult::Absent => None,
    }
}

#[test]
fn test_extract_lyrics_from_file() {
    let test_lyrics = "This is a test lyric\nSecond line";
    let mut tag = empty_tag();
    tag.lyrics.push(lyrics_frame(test_lyrics));

    let lyrics = select(&tag);

    assert!(found_text(&lyrics).is_some());
    assert_eq!(found_text(&lyrics).unwrap(), test_lyrics);
}

#[test]
fn test_extract_lyrics_no_lyrics() {
    let tag = empty_tag();

    let lyrics = select(&tag);

    assert!(found_text(&lyrics).is_none());
}

#[test]
fn selector_precedence_lyrics_over_comment() {
    let mut tag = empty_tag();
    tag.lyrics.push(lyrics_frame("A"));
    tag.comments.push(comment_frame("LYRICS", "B"));

    let r = select(&tag);

    assert_eq!(found_text(&r), Some("A"));
}

#[test]
fn selector_comment_rank_needs_exact_description() {
    let mut tag = empty_tag();
    tag.comments.push(comment_frame("lyrics", "wrong case"));
    tag.comments.push(comment_frame("LYRICS", "only-comment"));
    tag.comments.push(comment_frame("LYRICS", "second match loses"));

    let r = select(&tag);

    assert_eq!(found_text(&r), Some("only-comment"));
}

#[test]
fn selector_fallback_to_extended_text() {
    let mut tag = empty_tag();
    tag.comments.push(comment_frame("COMMENT", "not lyrics"));
    tag.extended_texts.push(ExtendedText {
        description: "LYRICS".to_string(),
        value: "X".to_string(),
    });

    let r = select(&tag);

    assert_eq!(found_text(&r), Some("X"));
}

#[test]
fn selector_absent_when_no_candidate() {
    let mut tag = empty_tag();
    tag.comments.push(comment_frame("COMMENT", "chatter"));
    tag.frames.push(Frame {
        id: "TIT2".to_string(),
        text: Some("a title".to_string()),
    });

    let r = select(&tag);

    assert!(found_text(&r).is_none());
}

#[test]
fn selector_pure_same_tag_same_result() {
    let mut tag = empty_tag();
    tag.lyrics.push(lyrics_frame("repeatable"));

    let first = select(&tag);
    let second = select(&tag);

    assert_eq!(found_text(&first), found_text(&second));
}

#[test]
fn selector_sylt_text_view_via_lookup() {
    let mut tag = empty_tag();
    tag.frames.push(Frame {
        id: "SYLT".to_string(),
        text: Some("timed words, flattened".to_string()),
    });

    let r = select(&tag);

    assert_eq!(found_text(&r), Some("timed words, flattened"));
}

#[test]
fn selector_lookup_order_and_textless_frames() {
    // The LYRICS identifier is probed first, but its frame has no textual
    // view, so the probe moves on to the later identifiers.
    let mut tag = empty_tag();
    tag.frames.push(Frame {
        id: "LYRICS".to_string(),
        text: None,
    });
    tag.frames.push(Frame {
        id: "UNSYNCEDLYRICS".to_string(),
        text: Some("legacy home".to_string()),
    });
    tag.frames.push(Frame {
        id: "LYRW".to_string(),
        text: Some("later rank".to_string()),
    });

    let r = select(&tag);

    assert_eq!(found_text(&r), Some("later rank"));
}

#[test]
fn selector_empty_text_still_found() {
    let mut tag = empty_tag();
    tag.lyrics.push(lyrics_frame(""));

    let r = select(&tag);

    assert_eq!(found_text(&r), Some(""));
}
