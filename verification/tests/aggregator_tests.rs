use mp3_lyrics::aggregator::{extract_all_lyrics, FileRecord, TagOutcome};
use mp3_lyrics::tag::{Comment, Lyrics, Tag};

fn empty_tag() -> Tag {
    Tag {
        lyrics: Vec::new(),
        comments: Vec::new(),
        extended_texts: Vec::new(),
        frames: Vec::new(),
    }
}

fn tag_with_lyrics(text: &str) -> Tag {
    let mut tag = empty_tag();
    tag.lyrics.push(Lyrics {
        lang: "eng".to_string(),
        description: String::new(),
        text: text.to_string(),
    });
    tag
}

fn record(path: &str, tag: Tag) -> FileRecord {
    FileRecord {
        display: path.to_string(),
        outcome: TagOutcome::Read(tag),
    }
}

fn unreadable(path: &str) -> FileRecord {
    FileRecord {
        display: path.to_string(),
        outcome: TagOutcome::Unreadable,
    }
}

#[test]
fn test_extract_all_lyrics() {
    let files = vec![
        record("test1.mp3", tag_with_lyrics("Lyrics for song 1")),
        record("test2.mp3", tag_with_lyrics("Lyrics for song 2")),
    ];

    // Without names or separators.
    let lyrics1 = extract_all_lyrics(&files, false, false, "");
    assert!(lyrics1.contains("Lyrics for song 1"));
    assert!(lyrics1.contains("Lyrics for song 2"));
    assert!(!lyrics1.contains("File:"));

    // With names.
    let lyrics2 = extract_all_lyrics(&files, true, false, "");
    assert!(lyrics2.contains("File:"));
    assert!(lyrics2.contains("test1.mp3"));

    // With separator.
    let lyrics3 = extract_all_lyrics(&files, false, true, "---");
    assert!(lyrics3.contains("---"));
}

#[test]
fn names_and_separator_verbatim_document() {
    let files = vec![
        record("a.mp3", tag_with_lyrics("hello")),
        record("b.mp3", tag_with_lyrics("world")),
    ];

    let doc = extract_all_lyrics(&files, true, true, "---");

    assert_eq!(doc, "File: a.mp3\n\nhello\n\n---\nFile: b.mp3\n\nworld\n");
}

#[test]
fn plain_document_is_bare_lyrics() {
    let files = vec![
        record("a.mp3", tag_with_lyrics("hello")),
        record("b.mp3", tag_with_lyrics("world")),
    ];

    let doc = extract_all_lyrics(&files, false, false, "---");

    assert_eq!(doc, "hello\nworld\n");
}

#[test]
fn comment_only_tag_contributes_its_text() {
    let mut tag = empty_tag();
    tag.comments.push(Comment {
        lang: "eng".to_string(),
        description: "LYRICS".to_string(),
        text: "only-comment".to_string(),
    });
    let files = vec![record("c.mp3", tag)];

    let doc = extract_all_lyrics(&files, false, false, "---");

    assert_eq!(doc, "only-comment\n");
}

#[test]
fn unreadable_tag_without_names_is_silent() {
    let files = vec![unreadable("d.mp3")];

    let doc = extract_all_lyrics(&files, false, false, "---");

    assert_eq!(doc, "");
}

#[test]
fn unreadable_tag_with_names_gets_placeholder() {
    let files = vec![unreadable("d.mp3")];

    let doc = extract_all_lyrics(&files, true, false, "---");

    assert_eq!(doc, "File: d.mp3\n\n[Failed to extract lyrics]\n");
}

#[test]
fn lyricless_tag_with_names_gets_placeholder() {
    let files = vec![record("e.mp3", empty_tag())];

    let doc = extract_all_lyrics(&files, true, false, "---");

    assert_eq!(doc, "File: e.mp3\n\n[No lyrics found]\n");
}

#[test]
fn one_failure_keeps_the_other_sections() {
    let files = vec![
        record("a.mp3", tag_with_lyrics("first")),
        unreadable("broken.mp3"),
        record("c.mp3", tag_with_lyrics("third")),
    ];

    let doc = extract_all_lyrics(&files, false, false, "---");
    assert_eq!(doc, "first\nthird\n");

    let with_names = extract_all_lyrics(&files, true, false, "---");
    assert!(with_names.contains("first\n"));
    assert!(with_names.contains("[Failed to extract lyrics]\n"));
    assert!(with_names.contains("third\n"));
}

#[test]
fn separator_between_every_adjacent_pair_only() {
    let files = vec![
        record("a.mp3", tag_with_lyrics("one")),
        record("b.mp3", tag_with_lyrics("two")),
        record("c.mp3", tag_with_lyrics("three")),
    ];

    let doc = extract_all_lyrics(&files, false, true, "==");

    assert_eq!(doc, "one\n\n==\ntwo\n\n==\nthree\n");
}

#[test]
fn empty_batch_gives_empty_document() {
    let doc = extract_all_lyrics(&Vec::new(), true, true, "---");

    assert_eq!(doc, "");
}
