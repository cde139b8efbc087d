//! Repo-relative path normalization.
use vstd::prelude::*;
use vstd::string::*;
use crate::config::model::opt_view;
use crate::text::{chars_of, push_char, str_to_string};

verus! {

/// `\` replaced by `/`.
pub open spec fn forward_slashes(s: Seq<char>) -> Seq<char> {
    s.map_values(|c: char| if c == '\\' { '/' } else { c })
}

/// Leading `./` pairs removed, as `trim_start_matches("./")` does.
pub open spec fn strip_dot_slash(s: Seq<char>) -> Seq<char>
    decreases s.len(),
{
    if s.len() >= 2 && s[0] == '.' && s[1] == '/' {
        strip_dot_slash(s.skip(2))
    } else {
        s
    }
}

/// Runs of `/` collapsed to one `/`.
pub open spec fn collapse_slashes(s: Seq<char>) -> Seq<char>
    decreases s.len(),
{
    if s.len() == 0 {
        s
    } else {
        let prefix = collapse_slashes(s.drop_last());
        if s.last() == '/' && s.len() >= 2 && s[s.len() - 2] == '/' {
            prefix
        } else {
            prefix.push(s.last())
        }
    }
}

/// The normalized form of a path: forward slashes, no leading `./`, no repeated `/`.
pub open spec fn normalized(s: Seq<char>) -> Seq<char> {
    collapse_slashes(strip_dot_slash(forward_slashes(s)))
}

/// A rule path as seen from the repository root: `rel` below `base_dir`.
pub open spec fn resolved_rule_path(base_dir: Seq<char>, rel: Seq<char>) -> Seq<char> {
    let r = normalized(rel);
    if base_dir.len() == 0 {
        r
    } else {
        normalized(base_dir + seq!['/'] + r)
    }
}

proof fn lemma_strip_skip(s: Seq<char>, i: int)
    requires
        0 <= i,
        i + 2 <= s.len(),
        s[i] == '.',
        s[i + 1] == '/',
    ensures
        strip_dot_slash(s.skip(i)) == strip_dot_slash(s.skip(i + 2)),
{
    assert(s.skip(i).skip(2) =~= s.skip(i + 2));
}

/// Normalizes a repo-relative path: `\` becomes `/`, leading `./` are dropped and
/// repeated `/` collapse into one.
pub fn normalize_path(value: &str) -> (r: String)
    ensures
        r@ == normalized(value@),
{
    let raw = chars_of(value);
    let mut v: Vec<char> = Vec::new();
    let mut k: usize = 0;
    while k < raw.len()
        invariant
            k <= raw.len(),
            v@ == forward_slashes(raw@).take(k as int),
        decreases raw.len() - k,
    {
        let c = raw[k];
        if c == '\\' {
            v.push('/');
        } else {
            v.push(c);
        }
        k += 1;
        proof {
            assert(v@ =~= forward_slashes(raw@).take(k as int));
        }
    }
    proof {
        assert(forward_slashes(raw@).take(raw.len() as int) =~= forward_slashes(raw@));
    }
    let ghost fw = v@;
    let mut i: usize = 0;
    proof {
        assert(fw.skip(0) =~= fw);
    }
    while i < v.len() && v.len() - i >= 2 && v[i] == '.' && v[i + 1] == '/'
        invariant
            i <= v.len(),
            v@ == fw,
            strip_dot_slash(fw) == strip_dot_slash(fw.skip(i as int)),
        decreases v.len() - i,
    {
        proof {
            lemma_strip_skip(fw, i as int);
        }
        i += 2;
    }
    let ghost t = fw.skip(i as int);
    proof {
        assert(strip_dot_slash(t) == t);
    }
    let mut out = String::new();
    let mut j: usize = i;
    while j < v.len()
        invariant
            i <= j <= v.len(),
            v@ == fw,
            t == fw.skip(i as int),
            out@ == collapse_slashes(t.take(j - i)),
        decreases v.len() - j,
    {
        let c = v[j];
        proof {
            let tk = t.take(j - i + 1);
            assert(tk.drop_last() =~= t.take(j - i));
            assert(tk.last() == c);
            if j > i {
                assert(tk[tk.len() - 2] == v@[j - 1]);
            }
        }
        if !(c == '/' && j > i && v[j - 1] == '/') {
            push_char(&mut out, c);
        }
        j += 1;
    }
    proof {
        assert(t.take(v.len() - i) =~= t);
    }
    out
}

/// `x` has `/` at `k` and at `k + 1`.
pub open spec fn double_slash_at(x: Seq<char>, k: int) -> bool {
    x[k] == '/' && x[k + 1] == '/'
}

/// No two `/` stand next to each other in `x`.
pub open spec fn no_double_slash(x: Seq<char>) -> bool {
    forall|k: int| 0 <= k < x.len() - 1 ==> !#[trigger] double_slash_at(x, k)
}

/// `x` holds no `\`.
pub open spec fn no_backslash(x: Seq<char>) -> bool {
    forall|k: int| 0 <= k < x.len() ==> #[trigger] x[k] != '\\'
}

proof fn lemma_collapse_shape(t: Seq<char>)
    ensures
        collapse_slashes(t).len() <= t.len(),
        t.len() > 0 ==> collapse_slashes(t).len() > 0 && collapse_slashes(t).last() == t.last()
            && collapse_slashes(t)[0] == t[0],
        t.len() >= 2 && t[0] != '/' ==> collapse_slashes(t).len() >= 2 && collapse_slashes(t)[1] == t[1],
        no_double_slash(collapse_slashes(t)),
        no_backslash(t) ==> no_backslash(collapse_slashes(t)),
    decreases t.len(),
{
    if t.len() > 0 {
        let d = t.drop_last();
        lemma_collapse_shape(d);
        let p = collapse_slashes(d);
        let c = collapse_slashes(t);
        if t.last() == '/' && t.len() >= 2 && t[t.len() - 2] == '/' {
            assert(c == p);
            assert(d.last() == t[t.len() - 2]);
            if t.len() == 2 {
                assert(t[0] == '/');
            }
        } else {
            assert(c == p.push(t.last()));
            if d.len() > 0 {
                assert(d.last() == t[t.len() - 2]);
            }
            assert forall|k: int| 0 <= k < c.len() - 1 implies !#[trigger] double_slash_at(c, k) by {
                if k < p.len() - 1 {
                    assert(!double_slash_at(p, k));
                    assert(c[k] == p[k] && c[k + 1] == p[k + 1]);
                } else {
                    assert(k == p.len() - 1);
                    assert(c[k] == p.last());
                }
            }
            if no_backslash(t) {
                assert forall|k: int| 0 <= k < c.len() implies #[trigger] c[k] != '\\' by {
                    if k < p.len() {
                        assert(c[k] == p[k]);
                        assert(no_backslash(d)) by {
                            assert forall|i: int| 0 <= i < d.len() implies #[trigger] d[i] != '\\' by {
                                assert(d[i] == t[i]);
                            }
                        }
                    } else {
                        assert(t[t.len() - 1] != '\\');
                    }
                }
            }
            if t.len() == 1 {
                assert(d.len() == 0);
                assert(p.len() == 0);
            }
        }
        if no_backslash(t) && t.last() == '/' && t.len() >= 2 && t[t.len() - 2] == '/' {
            assert(no_backslash(d)) by {
                assert forall|i: int| 0 <= i < d.len() implies #[trigger] d[i] != '\\' by {
                    assert(d[i] == t[i]);
                }
            }
        }
        if t.len() >= 2 && t[0] != '/' && d.len() >= 2 {
            assert(d[0] == t[0] && d[1] == t[1]);
        }
        if t.len() == 2 && t[0] != '/' {
            assert(d.len() == 1 && d[0] == t[0]);
            assert(p.len() == 1 && p[0] == t[0]);
        }
        if d.len() > 0 {
            assert(d[0] == t[0]);
        }
    }
}

proof fn lemma_collapse_identity(u: Seq<char>)
    requires
        no_double_slash(u),
    ensures
        collapse_slashes(u) == u,
    decreases u.len(),
{
    if u.len() > 0 {
        let d = u.drop_last();
        assert forall|k: int| 0 <= k < d.len() - 1 implies !#[trigger] double_slash_at(d, k) by {
            assert(!double_slash_at(u, k));
        }
        lemma_collapse_identity(d);
        if u.len() >= 2 {
            assert(!double_slash_at(u, u.len() - 2));
        }
        assert(d.push(u.last()) =~= u);
    }
}

proof fn lemma_strip_shape(x: Seq<char>)
    ensures
        !(strip_dot_slash(x).len() >= 2 && strip_dot_slash(x)[0] == '.' && strip_dot_slash(x)[1] == '/'),
        no_backslash(x) ==> no_backslash(strip_dot_slash(x)),
    decreases x.len(),
{
    if x.len() >= 2 && x[0] == '.' && x[1] == '/' {
        let y = x.skip(2);
        lemma_strip_shape(y);
        if no_backslash(x) {
            assert forall|k: int| 0 <= k < y.len() implies #[trigger] y[k] != '\\' by {
                assert(y[k] == x[k + 2]);
            }
        }
    }
}

/// Normalizing a path twice gives what normalizing it once gives.
pub proof fn law_normalize_idempotent(s: Seq<char>)
    ensures
        normalized(normalized(s)) == normalized(s),
{
    let f = forward_slashes(s);
    assert(no_backslash(f));
    let t = strip_dot_slash(f);
    lemma_strip_shape(f);
    let n = collapse_slashes(t);
    lemma_collapse_shape(t);
    assert(forward_slashes(n) =~= n) by {
        assert forall|k: int| 0 <= k < n.len() implies #[trigger] forward_slashes(n)[k] == n[k] by {
            assert(n[k] != '\\');
        }
    }
    assert(strip_dot_slash(n) == n);
    lemma_collapse_identity(n);
}

/// A normalized path holds no `\`, no two `/` next to each other, and does not start
/// with `./`.
pub proof fn law_normalized_shape(s: Seq<char>)
    ensures
        no_backslash(normalized(s)),
        no_double_slash(normalized(s)),
        !(normalized(s).len() >= 2 && normalized(s)[0] == '.' && normalized(s)[1] == '/'),
{
    let f = forward_slashes(s);
    assert(no_backslash(f));
    let t = strip_dot_slash(f);
    lemma_strip_shape(f);
    lemma_collapse_shape(t);
}

/// Resolves a rule path against the repo directory it was declared in.
pub fn resolve_rule_path(base_dir: &str, rel_pattern: &str) -> (r: String)
    ensures
        r@ == resolved_rule_path(base_dir@, rel_pattern@),
{
    let rel = normalize_path(rel_pattern);
    if base_dir.unicode_len() == 0 {
        return rel;
    }
    let mut joined = str_to_string(base_dir);
    joined.append("/");
    joined.append(rel.as_str());
    proof {
        reveal_strlit("/");
        assert(joined@ =~= base_dir@ + seq!['/'] + rel@);
    }
    normalize_path(joined.as_str())
}

/// What `std::path::Path::strip_prefix` gives for `path` and `base`, as text: the
/// rest of `path` after the components of `base`, or `None` when `base` is not a
/// prefix of it by components.
pub uninterp spec fn stripped_path(path: Seq<char>, base: Seq<char>) -> Option<Seq<char>>;

/// `std::path::Path::strip_prefix(path, base)`, its result as text through
/// `to_string_lossy`, which keeps the text of a `&str` as it is. The contract claims
/// only that the result is `stripped_path` of the two texts, so that equal texts give
/// equal results; how the components are compared is left unsaid.
#[verifier::external_body]
pub(crate) fn strip_path_prefix(path: &str, base: &str) -> (r: Option<String>)
    ensures
        opt_view(r) == stripped_path(path@, base@),
{
    match std::path::Path::new(path).strip_prefix(base) {
        Ok(rest) => Some(rest.to_string_lossy().into_owned()),
        Err(_) => None,
    }
}

/// How a path is shown relative to a root: the normalized rest after the root when
/// the root is a prefix (`rest`), else the normalized path itself.
pub open spec fn relative_display(path: Seq<char>, rest: Option<Seq<char>>) -> Seq<char> {
    match rest {
        Some(r) => normalized(r),
        None => normalized(path),
    }
}

/// The display of `path` given what stripping the root left of it, as
/// `relative_display` says.
pub fn relative_or_whole(path: &str, rest: Option<String>) -> (r: String)
    ensures
        r@ == relative_display(path@, opt_view(rest)),
{
    match rest {
        Some(rel) => normalize_path(rel.as_str()),
        None => normalize_path(path),
    }
}

/// `path` relative to `root_dir`, normalized; the whole path, normalized, when the root
/// is not a prefix of it.
pub fn path_relative_to(root_dir: &str, path: &str) -> (r: String)
    ensures
        r@ == relative_display(path@, stripped_path(path@, root_dir@)),
{
    let rest = strip_path_prefix(path, root_dir);
    relative_or_whole(path, rest)
}

/// An absolute path: one that starts at the root `/`.
pub open spec fn is_absolute_path(p: Seq<char>) -> bool {
    p.len() > 0 && p[0] == '/'
}

/// Whether `path` is absolute, as `is_absolute_path` says.
pub fn path_is_absolute(path: &str) -> (b: bool)
    ensures
        b == is_absolute_path(path@),
{
    let v = chars_of(path);
    v.len() > 0 && v[0] == '/'
}

/// The directory that holds a repository's docpact files.
pub const DOC_ROOT_DIR: &'static str = ".docpact";

/// The config file of a repository, relative to its root.
pub const CONFIG_FILE: &'static str = ".docpact/config.yaml";

/// The config file of the workspace child directory `name`, relative to the workspace
/// root; none for a hidden directory (one whose name starts with `.`).
pub open spec fn workspace_repo_config_path(name: Seq<char>) -> Option<Seq<char>> {
    if name.len() > 0 && name[0] == '.' {
        None
    } else {
        Some(normalized(name + "/"@ + CONFIG_FILE@))
    }
}

/// The config file of a workspace child directory, as `workspace_repo_config_path`
/// says.
pub fn workspace_repo_config(name: &str) -> (r: Option<String>)
    ensures
        opt_view(r) == workspace_repo_config_path(name@),
{
    let v = chars_of(name);
    if v.len() > 0 && v[0] == '.' {
        return None;
    }
    let joined = crate::text::cat3(name, "/", CONFIG_FILE);
    Some(normalize_path(joined.as_str()))
}

/// The layout a root config file declares.
pub fn layout_from_config(layout: crate::config::model::ConfigLayout) -> (r: crate::config::model::ImpactLayout)
    ensures
        r == match layout {
            crate::config::model::ConfigLayout::Workspace => crate::config::model::ImpactLayout::Workspace,
            crate::config::model::ConfigLayout::Repo => crate::config::model::ImpactLayout::Repo,
        },
{
    match layout {
        crate::config::model::ConfigLayout::Workspace => crate::config::model::ImpactLayout::Workspace,
        crate::config::model::ConfigLayout::Repo => crate::config::model::ImpactLayout::Repo,
    }
}

} // verus!
