//! Folding per-file outcomes into one output document.
//!
//! Each file contributes one section, in discovery order. A section is an
//! optional separator prefix (never before the first section), an optional
//! `File: <path>` header, and a body: the selected lyric text with a trailing
//! newline, a placeholder marker when the header option is on and the file
//! had no lyrics or an unreadable tag, or nothing at all. A per-file failure
//! never aborts the batch: an unreadable tag only changes that file's own
//! section.

use vstd::prelude::*;

use crate::selector::{select, spec_select, LyricResult};
use crate::tag::Tag;

verus! {

/// What reading one file's tag produced: the tag model, or the signal that
/// the container was missing or malformed.
pub enum TagOutcome {
    Read(Tag),
    Unreadable,
}

/// One discovered file as the aggregator sees it: the path text used for
/// headers and the outcome of reading its tag.
pub struct FileRecord {
    pub display: String,
    pub outcome: TagOutcome,
}

/// The body of a record's section: the lyric text with a trailing newline,
/// a placeholder line when headers are on, or nothing.
pub open spec fn spec_body(rec: FileRecord, include_names: bool) -> Seq<char> {
    match rec.outcome {
        TagOutcome::Read(tag) => match spec_select(tag) {
            Some(text) => text + "\n"@,
            None => if include_names {
                "[No lyrics found]\n"@
            } else {
                Seq::empty()
            },
        },
        TagOutcome::Unreadable => if include_names {
            "[Failed to extract lyrics]\n"@
        } else {
            Seq::empty()
        },
    }
}

/// The header of a record's section: the `File:` line when headers are on.
pub open spec fn spec_header(rec: FileRecord, include_names: bool) -> Seq<char> {
    if include_names {
        "File: "@ + rec.display@ + "\n\n"@
    } else {
        Seq::empty()
    }
}

/// A record's section without any separator prefix.
pub open spec fn spec_section(rec: FileRecord, include_names: bool) -> Seq<char> {
    spec_header(rec, include_names) + spec_body(rec, include_names)
}

/// The separator prefix put before every section but the first.
pub open spec fn spec_sep(add_separator: bool, sep: Seq<char>) -> Seq<char> {
    if add_separator {
        "\n"@ + sep + "\n"@
    } else {
        Seq::empty()
    }
}

/// The sections of records that do not come first in the batch: each one is
/// preceded by the separator prefix.
pub open spec fn spec_tail_sections(
    files: Seq<FileRecord>,
    include_names: bool,
    add_separator: bool,
    sep: Seq<char>,
) -> Seq<char>
    decreases files.len(),
{
    if files.len() == 0 {
        Seq::empty()
    } else {
        spec_sep(add_separator, sep) + spec_section(files[0], include_names)
            + spec_tail_sections(files.drop_first(), include_names, add_separator, sep)
    }
}

/// The whole document for a batch: the first record's section bare, every
/// later record's section behind the separator prefix.
pub open spec fn spec_document(
    files: Seq<FileRecord>,
    include_names: bool,
    add_separator: bool,
    sep: Seq<char>,
) -> Seq<char> {
    if files.len() == 0 {
        Seq::empty()
    } else {
        spec_section(files[0], include_names) + spec_tail_sections(
            files.drop_first(),
            include_names,
            add_separator,
            sep,
        )
    }
}

/// Tail sections split over concatenation: each record's contribution
/// depends on that record alone, not on its neighbours.
pub proof fn lemma_tail_sections_add(
    a: Seq<FileRecord>,
    b: Seq<FileRecord>,
    include_names: bool,
    add_separator: bool,
    sep: Seq<char>,
)
    ensures
        spec_tail_sections(a + b, include_names, add_separator, sep) == spec_tail_sections(
            a,
            include_names,
            add_separator,
            sep,
        ) + spec_tail_sections(b, include_names, add_separator, sep),
    decreases a.len(),
{
    if a.len() == 0 {
        assert(a + b =~= b);
        assert(Seq::<char>::empty() + spec_tail_sections(b, include_names, add_separator, sep)
            =~= spec_tail_sections(b, include_names, add_separator, sep));
    } else {
        assert((a + b)[0] == a[0]);
        assert((a + b).drop_first() =~= a.drop_first() + b);
        lemma_tail_sections_add(a.drop_first(), b, include_names, add_separator, sep);
        assert(spec_tail_sections(a + b, include_names, add_separator, sep)
            =~= spec_tail_sections(a, include_names, add_separator, sep) + spec_tail_sections(
            b,
            include_names,
            add_separator,
            sep,
        ));
    }
}

/// What stands between the sections before a record and the record's own
/// section: nothing for the first record, the separator prefix for every
/// later one.
pub open spec fn spec_lead(i: int, add_separator: bool, sep: Seq<char>) -> Seq<char> {
    if i == 0 {
        Seq::empty()
    } else {
        spec_sep(add_separator, sep)
    }
}

/// Sections appear in batch order: the document of a batch splits, at any
/// record, into the document of the records before it, that record's own
/// lead-in and section, and the tail sections of the records after it. The
/// separator prefix stands before every section but the first and between
/// every adjacent pair, and what stands around a record's section does not
/// depend on that record.
pub proof fn lemma_document_order(
    files: Seq<FileRecord>,
    i: int,
    include_names: bool,
    add_separator: bool,
    sep: Seq<char>,
)
    requires
        0 <= i < files.len(),
    ensures
        spec_document(files, include_names, add_separator, sep) == spec_document(
            files.take(i),
            include_names,
            add_separator,
            sep,
        ) + spec_lead(i, add_separator, sep) + spec_section(files[i], include_names)
            + spec_tail_sections(files.skip(i + 1), include_names, add_separator, sep),
{
    if i == 0 {
        let sec = spec_section(files[0], include_names);
        let tails = spec_tail_sections(files.skip(1), include_names, add_separator, sep);
        assert(files.drop_first() =~= files.skip(1));
        assert(spec_document(files, include_names, add_separator, sep) == sec + tails);
        assert(files.take(0) =~= Seq::<FileRecord>::empty());
        assert(spec_document(files.take(0), include_names, add_separator, sep)
            == Seq::<char>::empty());
        assert(Seq::<char>::empty() + spec_lead(0, add_separator, sep) + sec + tails =~= sec
            + tails);
    } else {
        let pre = files.take(i);
        let post = files.skip(i);
        assert(files =~= pre + post);
        assert((pre + post)[0] == pre[0]);
        assert((pre + post).drop_first() =~= pre.drop_first() + post);
        lemma_tail_sections_add(pre.drop_first(), post, include_names, add_separator, sep);
        assert(post[0] == files[i]);
        assert(post.drop_first() =~= files.skip(i + 1));
        assert(spec_document(files, include_names, add_separator, sep) =~= spec_document(
            pre,
            include_names,
            add_separator,
            sep,
        ) + spec_lead(i, add_separator, sep) + spec_section(files[i], include_names)
            + spec_tail_sections(files.skip(i + 1), include_names, add_separator, sep));
    }
}

/// A per-file failure is local: turning any one record into an unreadable
/// one leaves every other record's contribution to the document unchanged —
/// the batch still carries the other files' lyrics.
pub proof fn lemma_failure_is_local(
    files: Seq<FileRecord>,
    i: int,
    bad: FileRecord,
    include_names: bool,
    add_separator: bool,
    sep: Seq<char>,
)
    requires
        0 <= i < files.len(),
        bad.outcome is Unreadable,
    ensures
        spec_document(files.update(i, bad), include_names, add_separator, sep) == spec_document(
            files.take(i),
            include_names,
            add_separator,
            sep,
        ) + spec_lead(i, add_separator, sep) + spec_section(bad, include_names)
            + spec_tail_sections(files.skip(i + 1), include_names, add_separator, sep),
{
    let swapped = files.update(i, bad);
    lemma_document_order(swapped, i, include_names, add_separator, sep);
    assert(swapped.take(i) =~= files.take(i));
    assert(swapped.skip(i + 1) =~= files.skip(i + 1));
    assert(swapped[i] == bad);
}

/// Extending a batch by one record appends that record's section, behind the
/// separator prefix unless the batch was empty.
proof fn lemma_document_push(
    files: Seq<FileRecord>,
    rec: FileRecord,
    include_names: bool,
    add_separator: bool,
    sep: Seq<char>,
)
    ensures
        spec_document(files.push(rec), include_names, add_separator, sep) == if files.len() == 0 {
            spec_section(rec, include_names)
        } else {
            spec_document(files, include_names, add_separator, sep) + spec_sep(
                add_separator,
                sep,
            ) + spec_section(rec, include_names)
        },
{
    let one = seq![rec];
    assert(files.push(rec) =~= files + one);
    assert(one.drop_first() =~= Seq::<FileRecord>::empty());
    if files.len() == 0 {
        assert(files + one =~= one);
        assert(spec_document(one, include_names, add_separator, sep) =~= spec_section(
            rec,
            include_names,
        ));
    } else {
        let head = spec_section(files[0], include_names);
        let mid = spec_tail_sections(files.drop_first(), include_names, add_separator, sep);
        let last = spec_sep(add_separator, sep) + spec_section(rec, include_names);
        assert((files + one)[0] == files[0]);
        assert((files + one).drop_first() =~= files.drop_first() + one);
        lemma_tail_sections_add(files.drop_first(), one, include_names, add_separator, sep);
        assert(spec_tail_sections(Seq::<FileRecord>::empty(), include_names, add_separator, sep)
            == Seq::<char>::empty());
        assert(spec_tail_sections(one, include_names, add_separator, sep) =~= last);
        assert(spec_document(files + one, include_names, add_separator, sep) == head + (mid
            + last));
        assert(head + (mid + last) =~= ((head + mid) + spec_sep(add_separator, sep))
            + spec_section(rec, include_names));
        assert(spec_document(files, include_names, add_separator, sep) == head + mid);
    }
}

/// Append one record's body to the document under construction.
fn push_body(out: &mut String, rec: &FileRecord, include_names: bool)
    ensures
        final(out)@ == old(out)@ + spec_body(*rec, include_names),
{
    match &rec.outcome {
        TagOutcome::Read(tag) => match select(tag) {
            LyricResult::Found(text) => {
                out.append(text.as_str());
                out.append("\n");
            },
            LyricResult::Absent => {
                if include_names {
                    out.append("[No lyrics found]\n");
                }
            },
        },
        TagOutcome::Unreadable => {
            if include_names {
                out.append("[Failed to extract lyrics]\n");
            }
        },
    }
}

/// Build the output document for a batch of per-file outcomes, in batch
/// order: an optional `File:` header and the lyric text or placeholder for
/// each record, with the separator line between adjacent sections when asked
/// for. A record with an unreadable tag never fails the batch.
pub fn extract_all_lyrics(
    files: &Vec<FileRecord>,
    include_names: bool,
    add_separator: bool,
    separator_text: &str,
) -> (r: String)
    ensures
        r@ == spec_document(files@, include_names, add_separator, separator_text@),
{
    let mut all_lyrics = String::new();
    let n = files.len();
    let mut i: usize = 0;
    assert(files@.take(0) =~= Seq::<FileRecord>::empty());
    while i < n
        invariant
            n == files@.len(),
            i <= n,
            all_lyrics@ == spec_document(
                files@.take(i as int),
                include_names,
                add_separator,
                separator_text@,
            ),
        decreases n - i,
    {
        if i > 0 && add_separator {
            all_lyrics.append("\n");
            all_lyrics.append(separator_text);
            all_lyrics.append("\n");
        }
        if include_names {
            all_lyrics.append("File: ");
            all_lyrics.append(files[i].display.as_str());
            all_lyrics.append("\n\n");
        }
        push_body(&mut all_lyrics, &files[i], include_names);
        proof {
            lemma_document_push(
                files@.take(i as int),
                files@[i as int],
                include_names,
                add_separator,
                separator_text@,
            );
            assert(files@.take(i as int).push(files@[i as int]) =~= files@.take(i + 1));
        }
        i = i + 1;
    }
    assert(files@.take(n as int) =~= files@);
    all_lyrics
}

} // verus!
