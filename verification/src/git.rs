//! What lint reads from git, decided and parsed: which diff source the options
//! select, the changed paths that a `--files` list or a `git diff --name-only`
//! output names, and which `git show` failures mean a missing path.
use vstd::prelude::*;
use vstd::string::*;
use crate::config::paths::{normalize_path, normalized};
use crate::text::{
    chars_contains, chars_of, contains_seq, nonempty_values, split_chars, split_on, string_of, trim,
    trim_string, views,
};

verus! {

/// Where lint takes its changed paths from.
#[derive(Debug, Clone, Copy, PartialEq, Eq, Structural)]
pub enum DiffSource {
    Files,
    Range,
    Staged,
    Worktree,
    MergeBase,
}

/// A document before and after a change; `None` where it does not exist.
#[derive(Debug)]
pub struct FileComparison {
    pub previous: Option<String>,
    pub current: Option<String>,
}

/// The message when no diff source is selected.
pub open spec fn no_source_message() -> Seq<char> {
    "Pass either --files, --staged, --worktree, --merge-base <ref>, or both --base and --head."@
}

/// The diff source of the changed paths: `--files` first, then `--staged`,
/// `--worktree`, `--merge-base`, and a `--base`/`--head` range.
pub open spec fn changed_paths_source(
    files: bool,
    staged: bool,
    worktree: bool,
    merge_base: bool,
    range: bool,
) -> Option<DiffSource> {
    if files {
        Some(DiffSource::Files)
    } else if staged {
        Some(DiffSource::Staged)
    } else if worktree {
        Some(DiffSource::Worktree)
    } else if merge_base {
        Some(DiffSource::MergeBase)
    } else if range {
        Some(DiffSource::Range)
    } else {
        None
    }
}

/// The diff source of a file comparison: `--staged` first, then `--worktree` or
/// `--files` (both compare with the work tree), `--merge-base`, and a range.
pub open spec fn comparison_source(
    files: bool,
    staged: bool,
    worktree: bool,
    merge_base: bool,
    range: bool,
) -> Option<DiffSource> {
    if staged {
        Some(DiffSource::Staged)
    } else if worktree || files {
        Some(DiffSource::Worktree)
    } else if merge_base {
        Some(DiffSource::MergeBase)
    } else if range {
        Some(DiffSource::Range)
    } else {
        None
    }
}

/// The diff source of the changed paths, as `changed_paths_source` says, or the
/// message that asks for one. `range` holds when both `--base` and `--head` are given.
pub fn select_changed_paths_source(
    files: bool,
    staged: bool,
    worktree: bool,
    merge_base: bool,
    range: bool,
) -> (r: Result<DiffSource, String>)
    ensures
        match r {
            Ok(s) => changed_paths_source(files, staged, worktree, merge_base, range) == Some(s),
            Err(m) => changed_paths_source(files, staged, worktree, merge_base, range) is None
                && m@ == no_source_message(),
        },
{
    if files {
        Ok(DiffSource::Files)
    } else if staged {
        Ok(DiffSource::Staged)
    } else if worktree {
        Ok(DiffSource::Worktree)
    } else if merge_base {
        Ok(DiffSource::MergeBase)
    } else if range {
        Ok(DiffSource::Range)
    } else {
        Err(String::from_str("Pass either --files, --staged, --worktree, --merge-base <ref>, or both --base and --head."))
    }
}

/// The diff source of a file comparison, as `comparison_source` says, or the message
/// that asks for one.
pub fn select_comparison_source(
    files: bool,
    staged: bool,
    worktree: bool,
    merge_base: bool,
    range: bool,
) -> (r: Result<DiffSource, String>)
    ensures
        match r {
            Ok(s) => comparison_source(files, staged, worktree, merge_base, range) == Some(s),
            Err(m) => comparison_source(files, staged, worktree, merge_base, range) is None
                && m@ == no_source_message(),
        },
{
    if staged {
        Ok(DiffSource::Staged)
    } else if worktree || files {
        Ok(DiffSource::Worktree)
    } else if merge_base {
        Ok(DiffSource::MergeBase)
    } else if range {
        Ok(DiffSource::Range)
    } else {
        Err(String::from_str("Pass either --files, --staged, --worktree, --merge-base <ref>, or both --base and --head."))
    }
}

/// The values of `s` without repeats, each where it first occurs.
pub open spec fn first_occurrences(s: Seq<Seq<char>>) -> Seq<Seq<char>>
    decreases s.len(),
{
    if s.len() == 0 {
        Seq::empty()
    } else if s.drop_last().contains(s.last()) {
        first_occurrences(s.drop_last())
    } else {
        first_occurrences(s.drop_last()).push(s.last())
    }
}

proof fn lemma_push_contains(d: Seq<Seq<char>>, a: Seq<char>)
    ensures
        forall|x: Seq<char>| #[trigger] d.push(a).contains(x) <==> (d.contains(x) || x == a),
{
    assert forall|x: Seq<char>| #[trigger] d.push(a).contains(x) <==> (d.contains(x) || x == a) by {
        if d.push(a).contains(x) {
            let k = choose|k: int| 0 <= k < d.push(a).len() && d.push(a)[k] == x;
            if k < d.len() {
                assert(d[k] == x);
            }
        }
        if d.contains(x) {
            let k = choose|k: int| 0 <= k < d.len() && d[k] == x;
            assert(d.push(a)[k] == x);
        }
        if x == a {
            assert(d.push(a)[d.len() as int] == x);
        }
    }
}

/// `first_occurrences` keeps every value and no other.
pub proof fn lemma_first_occurrences_members(s: Seq<Seq<char>>)
    ensures
        forall|x: Seq<char>| #[trigger] first_occurrences(s).contains(x) <==> s.contains(x),
    decreases s.len(),
{
    if s.len() > 0 {
        let d = s.drop_last();
        lemma_first_occurrences_members(d);
        assert(s =~= d.push(s.last()));
        lemma_push_contains(d, s.last());
        lemma_push_contains(first_occurrences(d), s.last());
    }
}

fn contains_path(v: &Vec<String>, x: &String) -> (b: bool)
    ensures
        b == views(v@).contains(x@),
{
    let xv = chars_of(x.as_str());
    let mut i: usize = 0;
    while i < v.len()
        invariant
            i <= v.len(),
            xv@ == x@,
            forall|k: int| 0 <= k < i ==> v@[k]@ != x@,
        decreases v.len() - i,
    {
        if crate::text::chars_eq(&chars_of(v[i].as_str()), &xv) {
            proof {
                assert(views(v@)[i as int] == x@);
            }
            return true;
        }
        i += 1;
    }
    proof {
        if views(v@).contains(x@) {
            let k = choose|k: int| 0 <= k < views(v@).len() && views(v@)[k] == x@;
            assert(v@[k]@ == x@);
        }
    }
    false
}

/// The values without repeats, each where it first occurs.
pub fn dedup(values: Vec<String>) -> (r: Vec<String>)
    ensures
        views(r@) == first_occurrences(views(values@)),
{
    let ghost vv = views(values@);
    let mut r: Vec<String> = Vec::new();
    let mut i: usize = 0;
    while i < values.len()
        invariant
            i <= values.len(),
            vv == views(values@),
            views(r@) == first_occurrences(vv.take(i as int)),
        decreases values.len() - i,
    {
        let x = &values[i];
        proof {
            assert(vv.take(i + 1).drop_last() =~= vv.take(i as int));
            assert(vv.take(i + 1).last() == x@);
            lemma_first_occurrences_members(vv.take(i as int));
        }
        if !contains_path(&r, x) {
            let ghost prev = views(r@);
            r.push(x.clone());
            proof {
                assert(views(r@) =~= prev.push(x@));
            }
        }
        i += 1;
    }
    proof {
        assert(vv.take(i as int) =~= vv);
    }
    r
}

/// The paths a `--files` list names: each comma-separated piece trimmed and
/// normalized, empty ones dropped, repeats dropped.
pub open spec fn file_list_paths(files: Seq<char>) -> Seq<Seq<char>> {
    first_occurrences(nonempty_values(split_on(files, ',').map_values(|v: Seq<char>| normalized(trim(v)))))
}

/// The paths of a `--files` list, as `file_list_paths` says.
pub fn parse_file_list(files: &str) -> (r: Vec<String>)
    ensures
        views(r@) == file_list_paths(files@),
{
    let pieces = split_chars(&chars_of(files), ',');
    let ghost target = split_on(files@, ',').map_values(|v: Seq<char>| normalized(trim(v)));
    let mut values: Vec<String> = Vec::new();
    let mut i: usize = 0;
    while i < pieces.len()
        invariant
            i <= pieces.len(),
            pieces@.map_values(|x: Vec<char>| x@) == split_on(files@, ','),
            target == split_on(files@, ',').map_values(|v: Seq<char>| normalized(trim(v))),
            views(values@) == nonempty_values(target.take(i as int)),
        decreases pieces.len() - i,
    {
        let piece = string_of(&pieces[i]);
        let value = normalize_path(trim_string(piece.as_str()).as_str());
        proof {
            assert(target[i as int] == value@);
            assert(target.take(i + 1).drop_last() =~= target.take(i as int));
            assert(target.take(i + 1).last() == value@);
        }
        if value.as_str().unicode_len() > 0 {
            let ghost prev = views(values@);
            values.push(value);
            proof {
                assert(views(values@) =~= prev.push(target[i as int]));
            }
        }
        i += 1;
    }
    proof {
        assert(target.take(i as int) =~= target);
    }
    dedup(values)
}

/// The paths a `git ... --name-only` output names: each line trimmed, blank lines
/// dropped, the rest normalized, repeats dropped.
pub open spec fn name_only_paths(output: Seq<char>) -> Seq<Seq<char>> {
    first_occurrences(
        nonempty_values(split_on(output, '\n').map_values(|v: Seq<char>| trim(v))).map_values(
            |v: Seq<char>| normalized(v),
        ),
    )
}

/// The paths of a `--name-only` output, as `name_only_paths` says.
pub fn parse_name_only(output: &str) -> (r: Vec<String>)
    ensures
        views(r@) == name_only_paths(output@),
{
    let lines = split_chars(&chars_of(output), '\n');
    let ghost trimmed = split_on(output@, '\n').map_values(|v: Seq<char>| trim(v));
    let mut values: Vec<String> = Vec::new();
    let mut i: usize = 0;
    while i < lines.len()
        invariant
            i <= lines.len(),
            lines@.map_values(|x: Vec<char>| x@) == split_on(output@, '\n'),
            trimmed == split_on(output@, '\n').map_values(|v: Seq<char>| trim(v)),
            views(values@) == nonempty_values(trimmed.take(i as int)).map_values(|v: Seq<char>| normalized(v)),
        decreases lines.len() - i,
    {
        let line = string_of(&lines[i]);
        let t = trim_string(line.as_str());
        proof {
            assert(trimmed[i as int] == t@);
            assert(trimmed.take(i + 1).drop_last() =~= trimmed.take(i as int));
            assert(trimmed.take(i + 1).last() == t@);
        }
        if t.as_str().unicode_len() > 0 {
            let ghost prev = views(values@);
            values.push(normalize_path(t.as_str()));
            proof {
                assert(views(values@) =~= prev.push(normalized(t@)));
                assert(nonempty_values(trimmed.take(i + 1)) == nonempty_values(trimmed.take(i as int)).push(t@));
                assert(nonempty_values(trimmed.take(i + 1)).map_values(|v: Seq<char>| normalized(v)) =~= nonempty_values(
                    trimmed.take(i as int),
                ).map_values(|v: Seq<char>| normalized(v)).push(normalized(t@)));
            }
        }
        i += 1;
    }
    proof {
        assert(trimmed.take(i as int) =~= trimmed);
    }
    dedup(values)
}

/// A `git show` failure that only means the path does not exist at that revision or
/// in the index.
pub open spec fn missing_path_error(stderr: Seq<char>) -> bool {
    contains_seq(stderr, "does not exist in"@) || contains_seq(stderr, "exists on disk, but not in"@) || (contains_seq(
        stderr,
        "path '"@,
    ) && contains_seq(stderr, "not in the index"@)) || contains_seq(
        stderr,
        "unknown revision or path not in the working tree"@,
    ) || contains_seq(stderr, "bad revision"@)
}

/// Whether a `git show` failure means a missing path, as `missing_path_error` says.
pub fn is_missing_path_error(stderr: &str) -> (b: bool)
    ensures
        b == missing_path_error(stderr@),
{
    let s = chars_of(stderr);
    chars_contains(&s, &chars_of("does not exist in")) || chars_contains(&s, &chars_of("exists on disk, but not in"))
        || (chars_contains(&s, &chars_of("path '")) && chars_contains(&s, &chars_of("not in the index")))
        || chars_contains(&s, &chars_of("unknown revision or path not in the working tree"))
        || chars_contains(&s, &chars_of("bad revision"))
}

} // verus!
