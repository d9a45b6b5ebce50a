//! Discovery of candidate files: filter a named file or the entries of a
//! directory walk down to the paths whose extension is exactly `mp3`.
//!
//! The caller probes the filesystem and hands over what it found: either a
//! regular file's path, the walked entries of a directory (each with its
//! path text, whether it is a regular file, and its depth below the walk
//! root), or the signal that the path names nothing. Discovery itself only
//! decides; it keeps a directory's entries in walk order, never yields an
//! entry twice, and descends past the immediate children only when asked to.

use vstd::prelude::*;

verus! {

/// One entry of a directory walk: its path text, whether it is a regular
/// file, and its depth below the walk root (the root itself is depth 0, its
/// immediate children are depth 1).
#[derive(Clone)]
pub struct DirEntry {
    pub path: String,
    pub is_file: bool,
    pub depth: usize,
}

/// What probing the input path found: a regular file, a directory with its
/// walked entries, or nothing.
pub enum PathStatus {
    File(String),
    Dir(Vec<DirEntry>),
    Missing,
}

/// Why discovery failed: the named file is not an `mp3`, or the input path
/// names neither a file nor a directory.
#[derive(Debug, PartialEq, Eq, Structural, Clone, Copy)]
pub enum DiscoveryError {
    NotAnMp3,
    PathNotFound,
}

/// The position of the last occurrence of `c` in `s`, if any.
pub open spec fn last_index_of(s: Seq<char>, c: char) -> Option<int>
    decreases s.len(),
{
    if s.len() == 0 {
        None
    } else if s.last() == c {
        Some(s.len() - 1)
    } else {
        last_index_of(s.drop_last(), c)
    }
}

/// Whether a path's final extension is exactly `mp3`, case-sensitively: the
/// file name (the text after the last `/`) has a `.` after its first
/// character, and what follows the last `.` is `mp3`.
pub open spec fn spec_is_mp3(p: Seq<char>) -> bool {
    match last_index_of(p, '.') {
        Some(j) => {
            let name_start = match last_index_of(p, '/') {
                Some(s) => s + 1,
                None => 0,
            };
            j > name_start && p.skip(j + 1) == "mp3"@
        },
        None => false,
    }
}

/// Whether a walked entry is kept: a regular file with the `mp3` extension,
/// and no deeper than an immediate child unless the walk is recursive.
pub open spec fn spec_entry_kept(e: DirEntry, recursive: bool) -> bool {
    e.is_file && (recursive || e.depth <= 1) && spec_is_mp3(e.path@)
}

/// The kept entries' paths, in walk order.
pub open spec fn spec_filter_entries(entries: Seq<DirEntry>, recursive: bool) -> Seq<Seq<char>>
    decreases entries.len(),
{
    if entries.len() == 0 {
        Seq::empty()
    } else {
        spec_filter_entries(entries.drop_last(), recursive) + if spec_entry_kept(
            entries.last(),
            recursive,
        ) {
            seq![entries.last().path@]
        } else {
            Seq::empty()
        }
    }
}

/// What discovery returns for a probed input: a single-element batch for a
/// named `mp3` file, the filtered walk for a directory, and the error that
/// names the failure otherwise.
pub open spec fn spec_discover(input: PathStatus, recursive: bool) -> Result<
    Seq<Seq<char>>,
    DiscoveryError,
> {
    match input {
        PathStatus::File(p) => if spec_is_mp3(p@) {
            Ok(seq![p@])
        } else {
            Err(DiscoveryError::NotAnMp3)
        },
        PathStatus::Dir(entries) => Ok(spec_filter_entries(entries@, recursive)),
        PathStatus::Missing => Err(DiscoveryError::PathNotFound),
    }
}

/// The discovery filter is exact: a path is in the filtered walk if and only
/// if some walked entry is a kept `mp3` file with that path. No path of a
/// non-`mp3` file and, without recursion, no path from a strict
/// subdirectory ever appears.
pub proof fn lemma_filter_exact(entries: Seq<DirEntry>, recursive: bool)
    ensures
        forall|p: Seq<char>|
            #[trigger] spec_filter_entries(entries, recursive).contains(p) <==> exists|i: int|
                0 <= i < entries.len() && #[trigger] spec_entry_kept(entries[i], recursive)
                    && entries[i].path@ == p,
    decreases entries.len(),
{
    if entries.len() > 0 {
        let pre = entries.drop_last();
        lemma_filter_exact(pre, recursive);
        let filtered = spec_filter_entries(entries, recursive);
        let last = entries.last();
        assert forall|p: Seq<char>| #[trigger] filtered.contains(p) implies exists|i: int|
            0 <= i < entries.len() && #[trigger] spec_entry_kept(entries[i], recursive)
                && entries[i].path@ == p by {
            let k = choose|k: int| 0 <= k < filtered.len() && filtered[k] == p;
            if k < spec_filter_entries(pre, recursive).len() {
                assert(spec_filter_entries(pre, recursive)[k] == p);
                assert(spec_filter_entries(pre, recursive).contains(p));
                let i = choose|i: int|
                    0 <= i < pre.len() && #[trigger] spec_entry_kept(pre[i], recursive)
                        && pre[i].path@ == p;
                assert(entries[i] == pre[i]);
            } else {
                assert(spec_entry_kept(last, recursive) && last.path@ == p);
                assert(entries[entries.len() - 1] == last);
            }
        }
        assert forall|p: Seq<char>|
            (exists|i: int|
                0 <= i < entries.len() && #[trigger] spec_entry_kept(entries[i], recursive)
                    && entries[i].path@ == p) implies #[trigger] filtered.contains(p) by {
            let i = choose|i: int|
                0 <= i < entries.len() && #[trigger] spec_entry_kept(entries[i], recursive)
                    && entries[i].path@ == p;
            if i < entries.len() - 1 {
                assert(pre[i] == entries[i]);
                assert(spec_filter_entries(pre, recursive).contains(p));
                let k = choose|k: int|
                    0 <= k < spec_filter_entries(pre, recursive).len() && spec_filter_entries(
                        pre,
                        recursive,
                    )[k] == p;
                assert(filtered[k] == p);
            } else {
                assert(spec_entry_kept(last, recursive));
                assert(filtered[filtered.len() - 1] == last.path@);
            }
        }
    }
}

/// Discovery never yields the same path twice in one invocation: when the
/// walked entries' paths are pairwise distinct, so are the discovered paths.
pub proof fn lemma_no_duplicate_paths(entries: Seq<DirEntry>, recursive: bool)
    requires
        forall|i: int, j: int|
            0 <= i < j < entries.len() ==> entries[i].path@ != entries[j].path@,
    ensures
        forall|i: int, j: int|
            0 <= i < j < spec_filter_entries(entries, recursive).len() ==> spec_filter_entries(
                entries,
                recursive,
            )[i] != spec_filter_entries(entries, recursive)[j],
    decreases entries.len(),
{
    let filtered = spec_filter_entries(entries, recursive);
    if entries.len() > 0 {
        let pre = entries.drop_last();
        let last = entries.last();
        assert forall|i: int, j: int| 0 <= i < j < pre.len() implies pre[i].path@
            != pre[j].path@ by {
            assert(pre[i] == entries[i] && pre[j] == entries[j]);
        }
        lemma_no_duplicate_paths(pre, recursive);
        let fpre = spec_filter_entries(pre, recursive);
        if spec_entry_kept(last, recursive) {
            lemma_filter_exact(pre, recursive);
            assert forall|k: int| 0 <= k < fpre.len() implies fpre[k] != last.path@ by {
                assert(fpre.contains(fpre[k]));
                let i = choose|i: int|
                    0 <= i < pre.len() && #[trigger] spec_entry_kept(pre[i], recursive)
                        && pre[i].path@ == fpre[k];
                assert(pre[i] == entries[i]);
                assert(entries[i].path@ != entries[entries.len() - 1].path@);
            }
            assert(filtered =~= fpre.push(last.path@));
            assert forall|i: int, j: int| 0 <= i < j < filtered.len() implies filtered[i]
                != filtered[j] by {
                if j < fpre.len() {
                    assert(filtered[i] == fpre[i] && filtered[j] == fpre[j]);
                } else {
                    assert(filtered[i] == fpre[i] && filtered[j] == last.path@);
                }
            }
        } else {
            assert(filtered =~= fpre);
        }
    }
}

/// The recursion boundary: without recursion every discovered path comes
/// from an entry at the walk root or an immediate child, and with recursion
/// every walked `mp3` file's path is discovered.
pub proof fn lemma_recursion_boundary(entries: Seq<DirEntry>)
    ensures
        forall|p: Seq<char>|
            #[trigger] spec_filter_entries(entries, false).contains(p) ==> exists|i: int|
                0 <= i < entries.len() && #[trigger] entries[i].depth <= 1 && entries[i].is_file
                    && spec_is_mp3(entries[i].path@) && entries[i].path@ == p,
        forall|i: int|
            0 <= i < entries.len() && entries[i].is_file && spec_is_mp3(#[trigger] entries[i].path@)
                ==> spec_filter_entries(entries, true).contains(entries[i].path@),
{
    lemma_filter_exact(entries, false);
    lemma_filter_exact(entries, true);
    assert forall|p: Seq<char>|
        #[trigger] spec_filter_entries(entries, false).contains(p) implies exists|i: int|
        0 <= i < entries.len() && #[trigger] entries[i].depth <= 1 && entries[i].is_file
            && spec_is_mp3(entries[i].path@) && entries[i].path@ == p by {
        let i = choose|i: int|
            0 <= i < entries.len() && #[trigger] spec_entry_kept(entries[i], false)
                && entries[i].path@ == p;
        assert(entries[i].depth <= 1 && entries[i].is_file && spec_is_mp3(entries[i].path@));
    }
    assert forall|i: int|
        0 <= i < entries.len() && entries[i].is_file && spec_is_mp3(
            #[trigger] entries[i].path@,
        ) implies spec_filter_entries(entries, true).contains(entries[i].path@) by {
        assert(spec_entry_kept(entries[i], true));
    }
}

/// Decide whether a path's final extension is exactly `mp3`.
pub fn is_mp3_path(path: &str) -> (r: bool)
    ensures
        r == spec_is_mp3(path@),
{
    let n = path.unicode_len();
    let mut last_slash: Option<usize> = None;
    let mut last_dot: Option<usize> = None;
    let mut i: usize = 0;
    assert(path@.take(0) =~= Seq::<char>::empty());
    while i < n
        invariant
            n == path@.len(),
            i <= n,
            match last_slash {
                Some(k) => k < i && last_index_of(path@.take(i as int), '/') == Some(k as int),
                None => last_index_of(path@.take(i as int), '/') is None,
            },
            match last_dot {
                Some(k) => k < i && last_index_of(path@.take(i as int), '.') == Some(k as int),
                None => last_index_of(path@.take(i as int), '.') is None,
            },
        decreases n - i,
    {
        let c = path.get_char(i);
        proof {
            assert(path@.take(i + 1).drop_last() =~= path@.take(i as int));
            assert(path@.take(i + 1).last() == path@[i as int]);
        }
        if c == '/' {
            last_slash = Some(i);
        } else if c == '.' {
            last_dot = Some(i);
        }
        i = i + 1;
    }
    assert(path@.take(n as int) =~= path@);
    let j = match last_dot {
        Some(j) => j,
        None => {
            return false;
        },
    };
    let name_start = match last_slash {
        Some(s) => s + 1,
        None => 0,
    };
    if j <= name_start {
        return false;
    }
    proof {
        reveal_strlit("mp3");
    }
    if n - j - 1 != 3 {
        assert(path@.skip(j + 1).len() != "mp3"@.len());
        return false;
    }
    let c1 = path.get_char(j + 1);
    let c2 = path.get_char(j + 2);
    let c3 = path.get_char(j + 3);
    proof {
        assert(path@.skip(j + 1).len() == 3);
        assert(path@.skip(j + 1)[0] == path@[j + 1]);
        assert(path@.skip(j + 1)[1] == path@[j + 2]);
        assert(path@.skip(j + 1)[2] == path@[j + 3]);
    }
    if c1 == 'm' && c2 == 'p' && c3 == '3' {
        assert(path@.skip(j + 1) =~= "mp3"@);
        true
    } else {
        assert(path@.skip(j + 1) != "mp3"@);
        false
    }
}

/// Discover the candidate files of a probed input: a named file is accepted
/// exactly when its extension is `mp3`; a directory contributes the kept
/// entries of its walk in walk order; a path that names nothing is an error.
pub fn find_mp3_files(input: &PathStatus, recursive: bool) -> (r: Result<
    Vec<String>,
    DiscoveryError,
>)
    ensures
        match r {
            Ok(files) => ({
                &&& spec_discover(*input, recursive) is Ok
                &&& files.deep_view() == spec_discover(*input, recursive)->Ok_0
            }),
            Err(e) => spec_discover(*input, recursive) == Err::<
                Seq<Seq<char>>,
                DiscoveryError,
            >(e),
        },
{
    match input {
        PathStatus::File(p) => {
            if is_mp3_path(p.as_str()) {
                let mut files: Vec<String> = Vec::new();
                files.push(p.clone());
                assert(files.deep_view() =~= seq![p@]);
                Ok(files)
            } else {
                Err(DiscoveryError::NotAnMp3)
            }
        },
        PathStatus::Dir(entries) => {
            let mut files: Vec<String> = Vec::new();
            let n = entries.len();
            let mut i: usize = 0;
            assert(entries@.take(0) =~= Seq::<DirEntry>::empty());
            assert(files.deep_view() =~= spec_filter_entries(entries@.take(0), recursive));
            while i < n
                invariant
                    n == entries@.len(),
                    i <= n,
                    files.deep_view() == spec_filter_entries(entries@.take(i as int), recursive),
                decreases n - i,
            {
                let entry = &entries[i];
                let kept = entry.is_file && (recursive || entry.depth <= 1) && is_mp3_path(
                    entry.path.as_str(),
                );
                proof {
                    assert(entries@.take(i + 1).drop_last() =~= entries@.take(i as int));
                    assert(entries@.take(i + 1).last() == entries@[i as int]);
                }
                if kept {
                    let ghost before = files.deep_view();
                    files.push(entry.path.clone());
                    assert(files.deep_view() =~= before + seq![entries@[i as int].path@]);
                } else {
                    assert(files.deep_view() =~= files.deep_view() + Seq::<Seq<char>>::empty());
                }
                i = i + 1;
            }
            assert(entries@.take(n as int) =~= entries@);
            Ok(files)
        },
        PathStatus::Missing => Err(DiscoveryError::PathNotFound),
    }
}

} // verus!
