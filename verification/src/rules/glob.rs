//! Glob matching of repo-relative paths: `*` and `?` stay within one path segment,
//! `**` spans segments.
use vstd::prelude::*;
use vstd::utf8::encode_utf8;
use crate::config::paths::{normalize_path, normalized};

verus! {

/// The byte `*`.
pub open spec fn star() -> u8 { 42u8 }

/// The byte `?`.
pub open spec fn question() -> u8 { 63u8 }

/// The byte `/`.
pub open spec fn slash() -> u8 { 47u8 }

/// The bytes `f[fi..]` match the pattern bytes `p[pi..]`: `**` matches any run of
/// bytes, `*` any run of bytes other than `/`, `?` one byte other than `/`, and any
/// other byte itself.
pub open spec fn glob_at(f: Seq<u8>, p: Seq<u8>, fi: int, pi: int) -> bool
    decreases p.len() - pi, f.len() - fi,
{
    if pi >= p.len() {
        fi == f.len()
    } else if p[pi] == star() && pi + 1 < p.len() && p[pi + 1] == star() {
        glob_at(f, p, fi, pi + 2) || (0 <= fi < f.len() && glob_at(f, p, fi + 1, pi))
    } else if p[pi] == star() {
        glob_at(f, p, fi, pi + 1) || (0 <= fi < f.len() && f[fi] != slash() && glob_at(
            f,
            p,
            fi + 1,
            pi,
        ))
    } else if p[pi] == question() {
        0 <= fi < f.len() && f[fi] != slash() && glob_at(f, p, fi + 1, pi + 1)
    } else {
        0 <= fi < f.len() && f[fi] == p[pi] && glob_at(f, p, fi + 1, pi + 1)
    }
}

/// A path matches a pattern: both normalized, then compared byte by byte.
pub open spec fn glob_matches(path: Seq<char>, pattern: Seq<char>) -> bool {
    glob_at(encode_utf8(normalized(path)), encode_utf8(normalized(pattern)), 0, 0)
}

/// Decides `glob_at(f, p, 0, 0)` by filling the table of `glob_at(f, p, fi, pi)`
/// one pattern position at a time, from the end of the pattern backwards.
pub fn glob_bytes(f: &[u8], p: &[u8]) -> (r: bool)
    ensures
        r == glob_at(f@, p@, 0, 0),
{
    let flen = f.len();
    let plen = p.len();
    let mut next1: Vec<bool> = Vec::new();
    let mut k: usize = 0;
    while k < flen
        invariant
            k <= flen,
            flen == f@.len(),
            plen == p@.len(),
            next1@.len() == k,
            forall|fi: int| 0 <= fi < k ==> next1@[fi] == glob_at(f@, p@, fi, plen as int),
        decreases flen - k,
    {
        next1.push(false);
        k += 1;
    }
    next1.push(true);
    let mut next2: Vec<bool> = next1.clone();
    let mut pi: usize = plen;
    while pi > 0
        invariant
            pi <= plen,
            flen == f@.len(),
            plen == p@.len(),
            next1@.len() == flen + 1,
            next2@.len() == flen + 1,
            forall|fi: int| 0 <= fi <= flen ==> next1@[fi] == glob_at(f@, p@, fi, pi as int),
            pi + 1 <= plen ==> forall|fi: int|
                0 <= fi <= flen ==> next2@[fi] == glob_at(f@, p@, fi, pi + 1),
        decreases pi,
    {
        let q = pi - 1;
        let mut cur: Vec<bool> = next1.clone();
        let mut fi: usize = next1.len();
        while fi > 0
            invariant
                fi <= flen + 1,
                q + 1 == pi,
                pi <= plen,
                flen == f@.len(),
                plen == p@.len(),
                cur@.len() == flen + 1,
                next1@.len() == flen + 1,
                next2@.len() == flen + 1,
                forall|x: int| 0 <= x <= flen ==> next1@[x] == glob_at(f@, p@, x, pi as int),
                pi + 1 <= plen ==> forall|x: int|
                    0 <= x <= flen ==> next2@[x] == glob_at(f@, p@, x, pi + 1),
                forall|x: int| fi <= x <= flen ==> cur@[x] == glob_at(f@, p@, x, q as int),
            decreases fi,
        {
            let x = fi - 1;
            let value: bool;
            if p[q] == 42u8 && q + 1 < plen && p[q + 1] == 42u8 {
                value = next2[x] || (x < flen && cur[x + 1]);
            } else if p[q] == 42u8 {
                value = next1[x] || (x < flen && f[x] != 47u8 && cur[x + 1]);
            } else if p[q] == 63u8 {
                value = x < flen && f[x] != 47u8 && next1[x + 1];
            } else {
                value = x < flen && f[x] == p[q] && next1[x + 1];
            }
            cur.set(x, value);
            fi = x;
        }
        next2 = next1;
        next1 = cur;
        pi = q;
    }
    next1[0]
}

/// Whether `file_path` matches the glob `pattern`, both normalized first.
pub fn matches_pattern(file_path: &str, pattern: &str) -> (r: bool)
    ensures
        r == glob_matches(file_path@, pattern@),
{
    let file = normalize_path(file_path);
    let pat = normalize_path(pattern);
    let fb = file.as_str().as_bytes();
    let pb = pat.as_str().as_bytes();
    glob_bytes(fb, pb)
}

/// No byte of `s` is `*` or `?`.
pub open spec fn no_wildcard(s: Seq<u8>) -> bool {
    forall|k: int| 0 <= k < s.len() ==> #[trigger] s[k] != star() && s[k] != question()
}

/// `f[fi..]` starts with the literal bytes `p[pi..pi + n]`, and what follows matches
/// `p[pi + n..]`.
proof fn lemma_literal_run(f: Seq<u8>, p: Seq<u8>, fi: int, pi: int, n: int)
    requires
        0 <= fi <= f.len(),
        0 <= pi,
        0 <= n,
        pi + n <= p.len(),
        forall|k: int| pi <= k < pi + n ==> #[trigger] p[k] != star() && p[k] != question(),
    ensures
        glob_at(f, p, fi, pi) == (fi + n <= f.len() && f.subrange(fi, fi + n) == p.subrange(pi, pi + n)
            && glob_at(f, p, fi + n, pi + n)),
    decreases n,
{
    if n > 0 {
        if fi < f.len() && f[fi] == p[pi] {
            lemma_literal_run(f, p, fi + 1, pi + 1, n - 1);
            if fi + n <= f.len() && f.subrange(fi + 1, fi + n) == p.subrange(pi + 1, pi + n) {
                assert(f.subrange(fi, fi + n) =~= seq![f[fi]] + f.subrange(fi + 1, fi + n));
                assert(p.subrange(pi, pi + n) =~= seq![p[pi]] + p.subrange(pi + 1, pi + n));
            }
            if fi + n <= f.len() && f.subrange(fi, fi + n) == p.subrange(pi, pi + n) {
                assert(f.subrange(fi + 1, fi + n) =~= f.subrange(fi, fi + n).drop_first());
                assert(p.subrange(pi + 1, pi + n) =~= p.subrange(pi, pi + n).drop_first());
            }
        } else {
            if fi + n <= f.len() && f.subrange(fi, fi + n) == p.subrange(pi, pi + n) {
                assert(f.subrange(fi, fi + n)[0] == p.subrange(pi, pi + n)[0]);
            }
        }
    } else {
        assert(f.subrange(fi, fi) =~= p.subrange(pi, pi));
    }
}

proof fn lemma_double_star_tail(f: Seq<u8>, p: Seq<u8>, fi: int)
    requires
        p.len() >= 2,
        p[p.len() - 2] == star(),
        p[p.len() - 1] == star(),
        0 <= fi <= f.len(),
    ensures
        glob_at(f, p, fi, p.len() - 2),
    decreases f.len() - fi,
{
    let pi = p.len() - 2;
    assert(glob_at(f, p, fi, pi) == (glob_at(f, p, fi, pi + 2) || (0 <= fi < f.len() && glob_at(f, p, fi + 1, pi))));
    assert(glob_at(f, p, fi, pi + 2) == (fi == f.len()));
    if fi < f.len() {
        lemma_double_star_tail(f, p, fi + 1);
    }
}

proof fn lemma_star_tail(f: Seq<u8>, p: Seq<u8>, fi: int)
    requires
        p.len() >= 1,
        p[p.len() - 1] == star(),
        0 <= fi <= f.len(),
    ensures
        glob_at(f, p, fi, p.len() - 1) == (forall|k: int| fi <= k < f.len() ==> #[trigger] f[k] != slash()),
    decreases f.len() - fi,
{
    let pi = p.len() - 1;
    assert(glob_at(f, p, fi, pi) == (glob_at(f, p, fi, pi + 1) || (0 <= fi < f.len() && f[fi] != slash() && glob_at(
        f,
        p,
        fi + 1,
        pi,
    ))));
    assert(glob_at(f, p, fi, pi + 1) == (fi == f.len()));
    if fi < f.len() {
        lemma_star_tail(f, p, fi + 1);
        if glob_at(f, p, fi, pi) {
            assert forall|k: int| fi <= k < f.len() implies #[trigger] f[k] != slash() by {
                if k > fi {
                    assert(fi + 1 <= k);
                }
            }
        }
    }
}

/// A pattern without wildcards matches exactly itself.
pub proof fn law_glob_literal(f: Seq<u8>, p: Seq<u8>)
    requires
        no_wildcard(p),
    ensures
        glob_at(f, p, 0, 0) == (f == p),
{
    lemma_literal_run(f, p, 0, 0, p.len() as int);
    if f == p {
        assert(f.subrange(0, p.len() as int) =~= p.subrange(0, p.len() as int));
    }
    if glob_at(f, p, 0, 0) {
        assert(f =~= f.subrange(0, p.len() as int));
        assert(p =~= p.subrange(0, p.len() as int));
    }
}

/// `**` matches every path.
pub proof fn law_glob_double_star_matches_all(f: Seq<u8>)
    ensures
        glob_at(f, seq![star(), star()], 0, 0),
{
    lemma_double_star_tail(f, seq![star(), star()], 0);
}

/// `d/**`, for a directory `d` without wildcards, matches exactly the paths under `d/`.
pub proof fn law_glob_under_dir(f: Seq<u8>, d: Seq<u8>)
    requires
        no_wildcard(d),
    ensures
        glob_at(f, d + seq![slash(), star(), star()], 0, 0) == (f.len() >= d.len() + 1 && f.subrange(0, d.len() + 1 as int) == d.push(slash())),
{
    let p = d + seq![slash(), star(), star()];
    let n: int = d.len() + 1int;
    assert forall|k: int| 0 <= k < n implies #[trigger] p[k] != star() && p[k] != question() by {
        if k < d.len() {
            assert(p[k] == d[k]);
        }
    }
    lemma_literal_run(f, p, 0, 0, n);
    assert(p.subrange(0, n) =~= d.push(slash()));
    if n <= f.len() {
        lemma_double_star_tail(f, p, n);
    }
}

/// `d/*`, for a directory `d` without wildcards, matches exactly the direct children of
/// `d`: paths under `d/` with no further `/`.
pub proof fn law_glob_direct_child(f: Seq<u8>, d: Seq<u8>)
    requires
        no_wildcard(d),
    ensures
        glob_at(f, d + seq![slash(), star()], 0, 0) == (f.len() >= d.len() + 1 && f.subrange(0, d.len() + 1 as int)
            == d.push(slash()) && forall|k: int| d.len() + 1 <= k < f.len() ==> #[trigger] f[k] != slash()),
{
    let p = d + seq![slash(), star()];
    let n: int = d.len() + 1int;
    assert forall|k: int| 0 <= k < n implies #[trigger] p[k] != star() && p[k] != question() by {
        if k < d.len() {
            assert(p[k] == d[k]);
        }
    }
    lemma_literal_run(f, p, 0, 0, n);
    assert(p.subrange(0, n) =~= d.push(slash()));
    if n <= f.len() {
        lemma_star_tail(f, p, n);
    }
}

/// The pattern `**` matches every path.
pub proof fn law_matches_double_star(path: Seq<char>)
    ensures
        glob_matches(path, seq!['*', '*']),
{
    let p = seq!['*', '*'];
    assert(crate::config::paths::forward_slashes(p) =~= p);
    assert(crate::config::paths::strip_dot_slash(p) == p);
    assert(p.drop_last() =~= seq!['*']);
    assert(seq!['*'].drop_last() =~= Seq::<char>::empty());
    assert(crate::config::paths::collapse_slashes(Seq::<char>::empty()) =~= Seq::<char>::empty());
    assert(seq!['*'].last() == '*');
    assert(crate::config::paths::collapse_slashes(seq!['*']) =~= seq!['*']);
    assert(crate::config::paths::collapse_slashes(p) =~= p);
    assert(normalized(p) == p);
    let b = encode_utf8(p);
    assert(p.drop_first() =~= seq!['*']);
    assert(seq!['*'].drop_first() =~= Seq::<char>::empty());
    assert(('*' as u32) == 42u32);
    assert((42u32 & 0x7Fu32) as u8 == 42u8) by (bit_vector);
    assert(vstd::utf8::has_width_1_encoding(42u32));
    assert(vstd::utf8::encode_scalar('*' as u32) =~= seq![star()]);
    assert(encode_utf8(Seq::<char>::empty()) =~= Seq::<u8>::empty());
    assert(seq!['*'][0] == '*');
    assert(encode_utf8(seq!['*']) == vstd::utf8::encode_scalar('*' as u32) + encode_utf8(Seq::<char>::empty()));
    assert(encode_utf8(seq!['*']) =~= seq![star()]);
    assert(p[0] == '*');
    assert(b =~= seq![star(), star()]);
    law_glob_double_star_matches_all(encode_utf8(normalized(path)));
}

} // verus!
