//! Shape checks on repo-relative paths and patterns written in config files.
use vstd::prelude::*;
use crate::text::{
    chars_contain_char, chars_contains, chars_eq, chars_of, contains_seq, has_prefix, is_white_space,
    split_chars, split_on, str_to_string, string_of, trim, trim_bounds, string_of_range,
};

verus! {

/// `c` is an ASCII letter.
pub open spec fn is_ascii_alpha(c: char) -> bool {
    ('a' <= c && c <= 'z') || ('A' <= c && c <= 'Z')
}

/// A drive-letter path such as `C:/x` or `C:\x`.
pub open spec fn windows_absolute(s: Seq<char>) -> bool {
    s.len() >= 3 && is_ascii_alpha(s[0]) && s[1] == ':' && (s[2] == '/' || s[2] == '\\')
}

/// What is wrong with one path segment, if anything.
pub open spec fn segment_error(seg: Seq<char>, allow_glob: bool) -> Option<Seq<char>> {
    if seg == "."@ || seg == ".."@ {
        Some("must not contain `.` or `..` segments"@)
    } else if allow_glob {
        if contains_seq(seg, "**"@) && seg != "**"@ {
            Some(
                "contains malformed glob segment `"@ + seg + "`; `**` must occupy a full path segment"@,
            )
        } else {
            None
        }
    } else if seg.contains('*') || seg.contains('?') {
        Some("must be an exact document path, not a glob"@)
    } else {
        None
    }
}

/// The error of the first segment that has one.
pub open spec fn first_segment_error(segs: Seq<Seq<char>>, allow_glob: bool) -> Option<Seq<char>>
    decreases segs.len(),
{
    if segs.len() == 0 {
        None
    } else {
        match segment_error(segs[0], allow_glob) {
            Some(m) => Some(m),
            None => first_segment_error(segs.drop_first(), allow_glob),
        }
    }
}

/// What is wrong with a repo-relative path (a pattern when `allow_glob`), if anything.
pub open spec fn repo_path_error(path: Seq<char>, allow_glob: bool) -> Option<Seq<char>> {
    let t = trim(path);
    if t.len() == 0 {
        Some("must not be empty"@)
    } else if t[0] == '/' || windows_absolute(t) {
        Some("must be repo-relative, got `"@ + t + "`"@)
    } else if t.contains('\\') {
        Some("must use `/` separators"@)
    } else if split_on(t, '/').contains(Seq::<char>::empty()) {
        Some("must not contain empty path segments"@)
    } else {
        first_segment_error(split_on(t, '/'), allow_glob)
    }
}

/// The view of an optional string result.
pub open spec fn opt_string_view(o: Option<String>) -> Option<Seq<char>> {
    match o {
        Some(s) => Some(s@),
        None => None,
    }
}

/// Decides `windows_absolute(s)`.
pub fn looks_like_windows_absolute_path(s: &Vec<char>) -> (b: bool)
    ensures
        b == windows_absolute(s@),
{
    s.len() >= 3 && (('a' <= s[0] && s[0] <= 'z') || ('A' <= s[0] && s[0] <= 'Z')) && s[1] == ':'
        && (s[2] == '/' || s[2] == '\\')
}

fn segment_check(seg: &Vec<char>, allow_glob: bool) -> (r: Option<String>)
    ensures
        opt_string_view(r) == segment_error(seg@, allow_glob),
{
    let dot = chars_of(".");
    let dotdot = chars_of("..");
    proof {
        reveal_strlit(".");
        reveal_strlit("..");
    }
    if chars_eq(seg, &dot) || chars_eq(seg, &dotdot) {
        return Some(str_to_string("must not contain `.` or `..` segments"));
    }
    if allow_glob {
        let dstar = chars_of("**");
        if chars_contains(seg, &dstar) && !chars_eq(seg, &dstar) {
            let mut m = str_to_string("contains malformed glob segment `");
            let sv = string_of(seg);
            m.append(sv.as_str());
            m.append("`; `**` must occupy a full path segment");
            return Some(m);
        }
        None
    } else if chars_contain_char(seg, '*') || chars_contain_char(seg, '?') {
        Some(str_to_string("must be an exact document path, not a glob"))
    } else {
        None
    }
}

#[verifier::loop_isolation(false)]
/// Checks that `path` is repo-relative: non-empty once trimmed, not absolute, `/`
/// separated, without empty, `.` or `..` segments; a pattern (`allow_glob`) may use
/// `**` only as a whole segment, an exact path may use no `*` or `?`.
pub fn validate_repo_relative_path(path: &str, allow_glob: bool) -> (r: Option<String>)
    ensures
        opt_string_view(r) == repo_path_error(path@, allow_glob),
{
    let raw = chars_of(path);
    let (lo, hi) = trim_bounds(&raw);
    let trimmed = string_of_range(&raw, lo, hi);
    let t = chars_of(trimmed.as_str());
    if t.len() == 0 {
        return Some(str_to_string("must not be empty"));
    }
    if t[0] == '/' || looks_like_windows_absolute_path(&t) {
        let mut m = str_to_string("must be repo-relative, got `");
        m.append(trimmed.as_str());
        m.append("`");
        return Some(m);
    }
    if chars_contain_char(&t, '\\') {
        return Some(str_to_string("must use `/` separators"));
    }
    let segs = split_chars(&t, '/');
    let ghost sv = segs@.map_values(|x: Vec<char>| x@);
    let mut i: usize = 0;
    while i < segs.len()
        invariant
            i <= segs.len(),
            sv == segs@.map_values(|x: Vec<char>| x@),
            forall|k: int| 0 <= k < i ==> sv[k].len() > 0,
        decreases segs.len() - i,
    {
        if segs[i].len() == 0 {
            proof {
                assert(sv[i as int] =~= Seq::<char>::empty());
            }
            return Some(str_to_string("must not contain empty path segments"));
        }
        i += 1;
    }
    proof {
        if sv.contains(Seq::<char>::empty()) {
            let k = choose|k: int| 0 <= k < sv.len() && sv[k] == Seq::<char>::empty();
            assert(sv[k].len() > 0);
        }
    }
    let mut j: usize = 0;
    proof {
        assert(sv.skip(0) =~= sv);
        assert(sv == split_on(t@, '/'));
    }
    while j < segs.len()
        invariant
            j <= segs.len(),
            sv == segs@.map_values(|x: Vec<char>| x@),
            first_segment_error(sv, allow_glob) == first_segment_error(sv.skip(j as int), allow_glob),
        decreases segs.len() - j,
    {
        proof {
            assert(sv.skip(j as int).drop_first() =~= sv.skip(j + 1));
            assert(sv.skip(j as int)[0] == segs@[j as int]@);
        }
        let e = segment_check(&segs[j], allow_glob);
        if e.is_some() {
            return e;
        }
        j += 1;
    }
    proof {
        assert(sv.skip(j as int) =~= Seq::<Seq<char>>::empty());
    }
    None
}

/// Checks a trigger or scope pattern.
pub fn validate_trigger_path(path: &str) -> (r: Option<String>)
    ensures
        opt_string_view(r) == repo_path_error(path@, true),
{
    validate_repo_relative_path(path, true)
}

/// Checks an exact document path.
pub fn validate_required_doc_path(path: &str) -> (r: Option<String>)
    ensures
        opt_string_view(r) == repo_path_error(path@, false),
{
    validate_repo_relative_path(path, false)
}

/// What is wrong with a catalog repo path: `.` (the root) is fine, anything else must
/// be an exact repo-relative path.
pub open spec fn catalog_path_error(path: Seq<char>) -> Option<Seq<char>> {
    if trim(path) == "."@ {
        None
    } else {
        repo_path_error(trim(path), false)
    }
}

/// Checks a catalog repo path.
pub fn validate_catalog_repo_path(path: &str) -> (r: Option<String>)
    ensures
        opt_string_view(r) == catalog_path_error(path@),
{
    let raw = chars_of(path);
    let (lo, hi) = trim_bounds(&raw);
    let trimmed = string_of_range(&raw, lo, hi);
    let t = chars_of(trimmed.as_str());
    let dot = chars_of(".");
    proof {
        reveal_strlit(".");
    }
    if chars_eq(&t, &dot) {
        return None;
    }
    validate_repo_relative_path(trimmed.as_str(), false)
}

/// Two catalog repo paths overlap: one is `.`, they are equal, or one lies below the other.
pub open spec fn paths_overlap(left: Seq<char>, right: Seq<char>) -> bool {
    left == "."@ || right == "."@ || left == right || (has_prefix(left, right) && left.len()
        > right.len() && left[right.len() as int] == '/') || (has_prefix(right, left) && right.len()
        > left.len() && right[left.len() as int] == '/')
}

/// Decides `paths_overlap(left, right)`.
pub fn catalog_repo_paths_overlap(left: &str, right: &str) -> (b: bool)
    ensures
        b == paths_overlap(left@, right@),
{
    let l = chars_of(left);
    let r = chars_of(right);
    let dot = chars_of(".");
    proof {
        reveal_strlit(".");
    }
    if chars_eq(&l, &dot) || chars_eq(&r, &dot) {
        return true;
    }
    if chars_eq(&l, &r) {
        return true;
    }
    if crate::text::chars_starts_with(&l, &r) && l.len() > r.len() && l[r.len()] == '/' {
        return true;
    }
    if crate::text::chars_starts_with(&r, &l) && r.len() > l.len() && r[l.len()] == '/' {
        return true;
    }
    false
}

} // verus!
