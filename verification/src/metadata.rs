//! Review metadata of governed documents: Markdown frontmatter keys and values, the
//! keys a document lacks, and the frontmatter body split.
use vstd::prelude::*;
use crate::config::pathcheck::is_ascii_alpha;
use crate::config::paths::{normalize_path, normalized};
use crate::text::{
    chars_eq, chars_of, lemma_sorted_set_is, sorted_set, sorted_unique_strings, split_chars,
    split_on, string_of, string_of_range, trim, trim_end, trim_string, views, has_prefix,
    has_suffix, contains_seq, chars_starts_with, chars_ends_with, chars_contains, str_to_string,
    char_is_white_space, is_white_space, trim_bounds, lemma_trim_shape, trim_start, lemma_split_without,
    lemma_split_concat, lemma_split_join, lemma_split_last_empty, lemma_join_split, join,
    lemma_trim_end_shape, lemma_trim_start_skip, occurs_at,
};

verus! {

/// `s` with each `\r\n` replaced by `\n`.
pub open spec fn lf(s: Seq<char>) -> Seq<char>
    decreases s.len(),
{
    if s.len() == 0 {
        s
    } else if s.len() >= 2 && s[s.len() - 2] == '\r' && s.last() == '\n' {
        lf(s.take(s.len() - 2)).push('\n')
    } else {
        lf(s.drop_last()).push(s.last())
    }
}

/// Replaces each `\r\n` of `v` by `\n`.
pub fn crlf_to_lf(v: &Vec<char>) -> (r: Vec<char>)
    ensures
        r@ == lf(v@),
{
    let mut out: Vec<char> = Vec::new();
    let mut i: usize = 0;
    proof {
        assert(v@.take(0) =~= Seq::<char>::empty());
    }
    while i < v.len()
        invariant
            i <= v.len(),
            out@ == lf(v@.take(i as int)),
            i > 0 && v@[i - 1] == '\r' ==> (i >= v.len() || v@[i as int] != '\n'),
        decreases v.len() - i,
    {
        if v[i] == '\r' && i + 1 < v.len() && v[i + 1] == '\n' {
            out.push('\n');
            proof {
                let t = v@.take(i + 2);
                assert(t.take(t.len() - 2) =~= v@.take(i as int));
            }
            i += 2;
        } else {
            out.push(v[i]);
            proof {
                let t = v@.take(i + 1);
                assert(t.drop_last() =~= v@.take(i as int));
            }
            i += 1;
        }
    }
    proof {
        assert(v@.take(i as int) =~= v@);
    }
    out
}

/// A line without the one `\r` it may end with.
pub open spec fn strip_cr(l: Seq<char>) -> Seq<char> {
    if l.len() > 0 && l.last() == '\r' { l.drop_last() } else { l }
}

/// The lines of `s`, as `str::lines` gives them: split at `\n`, without a last empty
/// piece after a final `\n`, each without a trailing `\r`.
pub open spec fn text_lines(s: Seq<char>) -> Seq<Seq<char>> {
    let parts = if s.len() == 0 {
        Seq::empty()
    } else if s.last() == '\n' {
        split_on(s, '\n').drop_last()
    } else {
        split_on(s, '\n')
    };
    parts.map_values(|l: Seq<char>| strip_cr(l))
}

/// The views of a list of character vectors.
pub open spec fn char_views(v: Seq<Vec<char>>) -> Seq<Seq<char>> {
    v.map_values(|x: Vec<char>| x@)
}

fn strip_cr_vec(l: Vec<char>) -> (r: Vec<char>)
    ensures
        r@ == strip_cr(l@),
{
    let mut l = l;
    if l.len() > 0 && l[l.len() - 1] == '\r' {
        l.pop();
    }
    l
}

/// The lines of `v`, as `text_lines` says.
pub fn lines_of(v: &Vec<char>) -> (r: Vec<Vec<char>>)
    ensures
        char_views(r@) == text_lines(v@),
{
    let parts = split_chars(v, '\n');
    let mut n = parts.len();
    if v.len() == 0 {
        n = 0;
    } else if v[v.len() - 1] == '\n' {
        proof {
            crate::text::lemma_split_on_nonempty(v@, '\n');
        }
        n = n - 1;
    }
    let ghost pv = char_views(parts@).take(n as int);
    proof {
        if v.len() > 0 && v@.last() == '\n' {
            assert(pv =~= split_on(v@, '\n').drop_last());
        } else if v.len() > 0 {
            assert(pv =~= split_on(v@, '\n'));
        }
    }
    let mut r: Vec<Vec<char>> = Vec::new();
    let mut i: usize = 0;
    while i < n
        invariant
            i <= n <= parts.len(),
            pv == char_views(parts@).take(n as int),
            char_views(r@) == pv.take(i as int).map_values(|l: Seq<char>| strip_cr(l)),
        decreases n - i,
    {
        let line = parts[i].clone();
        let ghost prev = char_views(r@);
        r.push(strip_cr_vec(line));
        proof {
            assert(pv[i as int] == parts@[i as int]@);
            assert(char_views(r@) =~= prev.push(strip_cr(pv[i as int])));
            assert(pv.take(i + 1).map_values(|l: Seq<char>| strip_cr(l)) =~= pv.take(i as int).map_values(
                |l: Seq<char>| strip_cr(l),
            ).push(strip_cr(pv[i as int])));
        }
        i += 1;
    }
    proof {
        assert(pv.take(n as int) =~= pv);
        if v.len() == 0 {
            assert(pv =~= Seq::<Seq<char>>::empty());
        }
    }
    r
}

/// The lines of `text` once its `\r\n` are `\n`.
pub open spec fn normalized_lines(text: Seq<char>) -> Seq<Seq<char>> {
    text_lines(lf(text))
}

/// The frontmatter marker line.
pub open spec fn marker() -> Seq<char> {
    seq!['-', '-', '-']
}

/// The index of the first line of `s` that is the marker, or the length of `s`.
pub open spec fn first_marker(s: Seq<Seq<char>>) -> int
    decreases s.len(),
{
    if s.len() == 0 {
        0
    } else {
        let m = first_marker(s.drop_last());
        if m < s.len() - 1 {
            m
        } else if s.last() == marker() {
            s.len() - 1
        } else {
            s.len() as int
        }
    }
}

/// The frontmatter lines of a document: those after an opening marker line, up to the
/// next marker line or the end; none when the first line is not the marker.
pub open spec fn header_lines(text: Seq<char>) -> Seq<Seq<char>> {
    let ls = normalized_lines(text);
    if ls.len() == 0 || ls[0] != marker() {
        Seq::empty()
    } else {
        let rest = ls.skip(1);
        rest.take(first_marker(rest))
    }
}

proof fn lemma_first_marker_bounds(s: Seq<Seq<char>>)
    ensures
        0 <= first_marker(s) <= s.len(),
        forall|k: int| 0 <= k < first_marker(s) ==> s[k] != marker(),
        first_marker(s) < s.len() ==> s[first_marker(s)] == marker(),
    decreases s.len(),
{
    if s.len() > 0 {
        lemma_first_marker_bounds(s.drop_last());
        let d = s.drop_last();
        assert forall|k: int| 0 <= k < first_marker(s) implies s[k] != marker() by {
            if k < d.len() {
                assert(s[k] == d[k]);
            }
        }
    }
}

/// Finds the index of the first marker line.
fn find_marker(s: &Vec<Vec<char>>, from: usize) -> (r: usize)
    requires
        from <= s.len(),
    ensures
        from <= r <= s.len(),
        r - from == first_marker(char_views(s@).skip(from as int)),
{
    let ghost t = char_views(s@).skip(from as int);
    let m = chars_of("---");
    proof {
        reveal_strlit("---");
        assert(m@ =~= marker());
        lemma_first_marker_bounds(t);
    }
    let mut i: usize = from;
    while i < s.len() && !chars_eq(&s[i], &m)
        invariant
            from <= i <= s.len(),
            t == char_views(s@).skip(from as int),
            m@ == marker(),
            forall|k: int| from <= k < i ==> s@[k]@ != marker(),
        decreases s.len() - i,
    {
        i += 1;
    }
    proof {
        lemma_first_marker_bounds(t);
        let fm = first_marker(t);
        if fm < i - from {
            assert(t[fm] == s@[from + fm]@);
        }
        if i - from < fm {
            assert(t[i - from] == s@[i as int]@);
        }
    }
    i
}

/// An ASCII letter or digit.
pub open spec fn is_ascii_alnum(c: char) -> bool {
    is_ascii_alpha(c) || ('0' <= c && c <= '9')
}

/// The number of leading ASCII letters and digits of `t`.
pub open spec fn alnum_run(t: Seq<char>) -> nat
    decreases t.len(),
{
    if t.len() == 0 {
        0
    } else {
        let a = alnum_run(t.drop_last());
        if a == t.len() - 1 && is_ascii_alnum(t.last()) { t.len() } else { a }
    }
}

/// The number of leading spaces of `t`.
pub open spec fn space_run(t: Seq<char>) -> nat
    decreases t.len(),
{
    if t.len() == 0 {
        0
    } else {
        let a = space_run(t.drop_last());
        if a == t.len() - 1 && t.last() == ' ' { t.len() } else { a }
    }
}

/// The key a frontmatter line declares: after trailing white space is dropped, it
/// starts with an ASCII letter, the key is the run of ASCII letters and digits, and
/// after optional spaces a `:` follows.
pub open spec fn line_key(line: Seq<char>) -> Option<Seq<char>> {
    let t = trim_end(line);
    if t.len() == 0 || !is_ascii_alpha(t[0]) {
        None
    } else {
        let k = alnum_run(t);
        let rest = t.skip(k as int);
        let sp = space_run(rest);
        if sp < rest.len() && rest[sp as int] == ':' {
            Some(t.take(k as int))
        } else {
            None
        }
    }
}

/// The value a frontmatter line gives its key: what follows the `:`, trimmed.
pub open spec fn line_value(line: Seq<char>) -> Seq<char> {
    let t = trim_end(line);
    let k = alnum_run(t);
    let rest = t.skip(k as int);
    let sp = space_run(rest);
    trim(rest.skip(sp + 1 as int))
}

proof fn lemma_run_bounds(t: Seq<char>)
    ensures
        alnum_run(t) <= t.len(),
        space_run(t) <= t.len(),
        forall|k: int| 0 <= k < alnum_run(t) ==> is_ascii_alnum(#[trigger] t[k]),
        alnum_run(t) < t.len() ==> !is_ascii_alnum(t[alnum_run(t) as int]),
        forall|k: int| 0 <= k < space_run(t) ==> #[trigger] t[k] == ' ',
        space_run(t) < t.len() ==> t[space_run(t) as int] != ' ',
    decreases t.len(),
{
    if t.len() > 0 {
        let d = t.drop_last();
        lemma_run_bounds(d);
        assert forall|k: int| 0 <= k < alnum_run(t) implies is_ascii_alnum(#[trigger] t[k]) by {
            if k < d.len() {
                assert(t[k] == d[k]);
            }
        }
        assert forall|k: int| 0 <= k < space_run(t) implies #[trigger] t[k] == ' ' by {
            if k < d.len() {
                assert(t[k] == d[k]);
            }
        }
        if alnum_run(t) < t.len() {
            if alnum_run(t) < d.len() {
                assert(t[alnum_run(t) as int] == d[alnum_run(t) as int]);
            }
        }
        if space_run(t) < t.len() {
            if space_run(t) < d.len() {
                assert(t[space_run(t) as int] == d[space_run(t) as int]);
            }
        }
    }
}

proof fn lemma_alnum_run_is(t: Seq<char>, j: int)
    requires
        0 <= j <= t.len(),
        forall|k: int| 0 <= k < j ==> is_ascii_alnum(#[trigger] t[k]),
        j < t.len() ==> !is_ascii_alnum(t[j]),
    ensures
        alnum_run(t) == j,
{
    lemma_run_bounds(t);
    if alnum_run(t) < j {
        assert(is_ascii_alnum(t[alnum_run(t) as int]));
    }
    if alnum_run(t) > j {
        assert(is_ascii_alnum(t[j]));
    }
}

proof fn lemma_space_run_is(t: Seq<char>, j: int)
    requires
        0 <= j <= t.len(),
        forall|k: int| 0 <= k < j ==> #[trigger] t[k] == ' ',
        j < t.len() ==> t[j] != ' ',
    ensures
        space_run(t) == j,
{
    lemma_run_bounds(t);
    if space_run(t) < j {
        assert(t[space_run(t) as int] == ' ');
    }
    if space_run(t) > j {
        assert(t[j] == ' ');
    }
}

fn ascii_alpha(c: char) -> (b: bool)
    ensures
        b == is_ascii_alpha(c),
{
    ('a' <= c && c <= 'z') || ('A' <= c && c <= 'Z')
}

fn ascii_alnum(c: char) -> (b: bool)
    ensures
        b == is_ascii_alnum(c),
{
    ascii_alpha(c) || ('0' <= c && c <= '9')
}

/// The key and value a frontmatter line declares, as `line_key` and `line_value` say.
pub fn parse_key_line(line: &Vec<char>) -> (r: Option<(String, String)>)
    ensures
        match r {
            Some(p) => line_key(line@) == Some(p.0@) && p.1@ == line_value(line@),
            None => line_key(line@) is None,
        },
{
    let mut hi: usize = line.len();
    proof {
        assert(line@.take(hi as int) =~= line@);
    }
    while hi > 0 && char_is_white_space(line[hi - 1])
        invariant
            hi <= line.len(),
            trim_end(line@) == trim_end(line@.take(hi as int)),
        decreases hi,
    {
        proof {
            assert(line@.take(hi as int).drop_last() =~= line@.take(hi - 1));
        }
        hi -= 1;
    }
    let ghost t = line@.take(hi as int);
    proof {
        assert(trim_end(t) == t);
        assert(trim_end(line@) == t);
    }
    if hi == 0 || !ascii_alpha(line[0]) {
        return None;
    }
    let mut k: usize = 0;
    while k < hi && ascii_alnum(line[k])
        invariant
            k <= hi <= line.len(),
            t == line@.take(hi as int),
            forall|j: int| 0 <= j < k ==> is_ascii_alnum(#[trigger] t[j]),
        decreases hi - k,
    {
        k += 1;
    }
    proof {
        lemma_alnum_run_is(t, k as int);
    }
    let ghost rest = t.skip(k as int);
    let mut s: usize = k;
    while s < hi && line[s] == ' '
        invariant
            k <= s <= hi <= line.len(),
            t == line@.take(hi as int),
            rest == t.skip(k as int),
            forall|j: int| 0 <= j < s - k ==> #[trigger] rest[j] == ' ',
        decreases hi - s,
    {
        s += 1;
    }
    proof {
        lemma_space_run_is(rest, s - k);
    }
    if s < hi && line[s] == ':' {
        let key = string_of_range(line, 0, k);
        let raw = string_of_range(line, s + 1, hi);
        let value = trim_string(raw.as_str());
        proof {
            assert(key@ =~= t.take(k as int));
            assert(raw@ =~= rest.skip(s - k + 1));
        }
        Some((key, value))
    } else {
        None
    }
}

/// The frontmatter lines of `text`, as `header_lines` says.
pub fn frontmatter_lines(text: &str) -> (r: Vec<Vec<char>>)
    ensures
        char_views(r@) == header_lines(text@),
{
    let raw = chars_of(text);
    let n = crlf_to_lf(&raw);
    let ls = lines_of(&n);
    let m = chars_of("---");
    proof {
        reveal_strlit("---");
        assert(m@ =~= marker());
    }
    let mut r: Vec<Vec<char>> = Vec::new();
    if ls.len() == 0 || !chars_eq(&ls[0], &m) {
        proof {
            assert(char_views(r@) =~= Seq::<Seq<char>>::empty());
            if ls.len() > 0 {
                assert(char_views(ls@)[0] == ls@[0]@);
            }
        }
        return r;
    }
    let end = find_marker(&ls, 1);
    let ghost rest = char_views(ls@).skip(1);
    let mut i: usize = 1;
    while i < end
        invariant
            1 <= i <= end <= ls.len(),
            rest == char_views(ls@).skip(1),
            end - 1 == first_marker(rest),
            char_views(r@) == rest.take(i - 1),
        decreases end - i,
    {
        let ghost prev = char_views(r@);
        r.push(ls[i].clone());
        proof {
            assert(rest[i - 1] == ls@[i as int]@);
            assert(char_views(r@) =~= prev.push(rest[i - 1]));
            assert(rest.take(i as int) =~= rest.take(i - 1).push(rest[i - 1]));
        }
        i += 1;
    }
    proof {
        assert(char_views(ls@)[0] == ls@[0]@);
    }
    r
}

/// The keys the lines declare, in order.
pub open spec fn keys_of(ls: Seq<Seq<char>>) -> Seq<Seq<char>>
    decreases ls.len(),
{
    if ls.len() == 0 {
        Seq::empty()
    } else {
        match line_key(ls.last()) {
            Some(k) => keys_of(ls.drop_last()).push(k),
            None => keys_of(ls.drop_last()),
        }
    }
}

/// The key and value pairs the lines declare, in order.
pub open spec fn pairs_of(ls: Seq<Seq<char>>) -> Seq<(Seq<char>, Seq<char>)>
    decreases ls.len(),
{
    if ls.len() == 0 {
        Seq::empty()
    } else {
        match line_key(ls.last()) {
            Some(k) => pairs_of(ls.drop_last()).push((k, line_value(ls.last()))),
            None => pairs_of(ls.drop_last()),
        }
    }
}

/// The keys a document's frontmatter declares, in order.
pub open spec fn header_keys(text: Seq<char>) -> Seq<Seq<char>> {
    keys_of(header_lines(text))
}

/// The key/value pairs of a document's frontmatter, in order.
pub open spec fn header_pairs(text: Seq<char>) -> Seq<(Seq<char>, Seq<char>)> {
    pairs_of(header_lines(text))
}

fn key_pairs(ls: &Vec<Vec<char>>) -> (r: (Vec<String>, Vec<(String, String)>))
    ensures
        views(r.0@) == keys_of(char_views(ls@)),
        r.1@.map_values(|p: (String, String)| (p.0@, p.1@)) == pairs_of(char_views(ls@)),
{
    let ghost lv = char_views(ls@);
    let mut keys: Vec<String> = Vec::new();
    let mut pairs: Vec<(String, String)> = Vec::new();
    let mut i: usize = 0;
    while i < ls.len()
        invariant
            i <= ls.len(),
            lv == char_views(ls@),
            views(keys@) == keys_of(lv.take(i as int)),
            pairs@.map_values(|p: (String, String)| (p.0@, p.1@)) == pairs_of(lv.take(i as int)),
        decreases ls.len() - i,
    {
        proof {
            assert(lv.take(i + 1).drop_last() =~= lv.take(i as int));
            assert(lv.take(i + 1).last() == ls@[i as int]@);
        }
        match parse_key_line(&ls[i]) {
            Some((k, v)) => {
                let ghost pk = views(keys@);
                let ghost pp = pairs@.map_values(|p: (String, String)| (p.0@, p.1@));
                keys.push(k.clone());
                pairs.push((k, v));
                proof {
                    assert(views(keys@) =~= pk.push(keys@.last()@));
                    assert(pairs@.map_values(|p: (String, String)| (p.0@, p.1@)) =~= pp.push(
                        (pairs@.last().0@, pairs@.last().1@),
                    ));
                }
            },
            None => {},
        }
        i += 1;
    }
    proof {
        assert(lv.take(ls.len() as int) =~= lv);
    }
    (keys, pairs)
}

/// The keys a document's frontmatter declares, sorted and without repeats (empty
/// without frontmatter).
pub fn parse_frontmatter_keys(text: &str) -> (r: Vec<String>)
    ensures
        views(r@) == sorted_set(header_keys(text@)),
        crate::text::is_sorted_set_of(views(r@), header_keys(text@)),
{
    let ls = frontmatter_lines(text);
    let (keys, _) = key_pairs(&ls);
    let ghost kv = views(keys@);
    let r = sorted_unique_strings(keys);
    proof {
        lemma_sorted_set_is(views(r@), kv);
    }
    r
}

/// The value the last pair with key `k` gives, or nothing.
pub open spec fn last_value(pairs: Seq<(Seq<char>, Seq<char>)>, k: Seq<char>) -> Seq<char>
    decreases pairs.len(),
{
    if pairs.len() == 0 {
        Seq::empty()
    } else if pairs.last().0 == k {
        pairs.last().1
    } else {
        last_value(pairs.drop_last(), k)
    }
}

/// The scalar values of a document's frontmatter: for each key, sorted, the value of
/// the last line that declares it.
pub open spec fn scalar_values(text: Seq<char>) -> Seq<(Seq<char>, Seq<char>)> {
    sorted_set(header_keys(text)).map_values(|k: Seq<char>| (k, last_value(header_pairs(text), k)))
}

fn find_last_value(pairs: &Vec<(String, String)>, key: &String) -> (r: String)
    ensures
        r@ == last_value(pairs@.map_values(|p: (String, String)| (p.0@, p.1@)), key@),
{
    let ghost pv = pairs@.map_values(|p: (String, String)| (p.0@, p.1@));
    let kv = chars_of(key.as_str());
    let mut i: usize = pairs.len();
    proof {
        assert(pv.take(i as int) =~= pv);
    }
    while i > 0
        invariant
            i <= pairs.len(),
            pv == pairs@.map_values(|p: (String, String)| (p.0@, p.1@)),
            kv@ == key@,
            last_value(pv, key@) == last_value(pv.take(i as int), key@),
        decreases i,
    {
        proof {
            assert(pv.take(i as int).drop_last() =~= pv.take(i - 1));
            assert(pv.take(i as int).last() == pv[i - 1]);
        }
        if chars_eq(&chars_of(pairs[i - 1].0.as_str()), &kv) {
            return pairs[i - 1].1.clone();
        }
        i -= 1;
    }
    proof {
        assert(pv.take(0) =~= Seq::<(Seq<char>, Seq<char>)>::empty());
    }
    String::new()
}

/// The scalar values of a document's frontmatter, as `scalar_values` says.
pub fn parse_frontmatter_scalar_values(text: &str) -> (r: Vec<(String, String)>)
    ensures
        r@.map_values(|p: (String, String)| (p.0@, p.1@)) == scalar_values(text@),
{
    let ls = frontmatter_lines(text);
    let (keys, pairs) = key_pairs(&ls);
    let ghost kv = views(keys@);
    let sorted = sorted_unique_strings(keys);
    proof {
        lemma_sorted_set_is(views(sorted@), kv);
    }
    let ghost target = scalar_values(text@);
    let mut r: Vec<(String, String)> = Vec::new();
    let mut i: usize = 0;
    while i < sorted.len()
        invariant
            i <= sorted.len(),
            views(sorted@) == sorted_set(header_keys(text@)),
            pairs@.map_values(|p: (String, String)| (p.0@, p.1@)) == header_pairs(text@),
            target == scalar_values(text@),
            r@.map_values(|p: (String, String)| (p.0@, p.1@)) == target.take(i as int),
        decreases sorted.len() - i,
    {
        let value = find_last_value(&pairs, &sorted[i]);
        let ghost prev = r@.map_values(|p: (String, String)| (p.0@, p.1@));
        r.push((sorted[i].clone(), value));
        proof {
            assert(views(sorted@)[i as int] == sorted@[i as int]@);
            assert(r@.map_values(|p: (String, String)| (p.0@, p.1@)) =~= prev.push(target[i as int]));
            assert(target.take(i + 1) =~= target.take(i as int).push(target[i as int]));
        }
        i += 1;
    }
    proof {
        assert(target.take(sorted.len() as int) =~= target);
    }
    r
}

/// The keys every governed Markdown document declares in its frontmatter.
pub open spec fn markdown_metadata_keys() -> Seq<Seq<char>> {
    seq![
        "docType"@,
        "scope"@,
        "status"@,
        "authoritative"@,
        "owner"@,
        "language"@,
        "whenToUse"@,
        "whenToUpdate"@,
        "checkPaths"@,
        "lastReviewedAt"@,
        "lastReviewedCommit"@,
    ]
}

/// The review keys.
pub open spec fn review_metadata_keys() -> Seq<Seq<char>> {
    seq!["lastReviewedAt"@, "lastReviewedCommit"@]
}

fn markdown_keys_list() -> (r: Vec<String>)
    ensures
        views(r@) == markdown_metadata_keys(),
{
    let mut r: Vec<String> = Vec::new();
    r.push(str_to_string("docType"));
    r.push(str_to_string("scope"));
    r.push(str_to_string("status"));
    r.push(str_to_string("authoritative"));
    r.push(str_to_string("owner"));
    r.push(str_to_string("language"));
    r.push(str_to_string("whenToUse"));
    r.push(str_to_string("whenToUpdate"));
    r.push(str_to_string("checkPaths"));
    r.push(str_to_string("lastReviewedAt"));
    r.push(str_to_string("lastReviewedCommit"));
    proof {
        assert(views(r@) =~= markdown_metadata_keys());
    }
    r
}

fn review_keys_list() -> (r: Vec<String>)
    ensures
        views(r@) == review_metadata_keys(),
{
    let mut r: Vec<String> = Vec::new();
    r.push(str_to_string("lastReviewedAt"));
    r.push(str_to_string("lastReviewedCommit"));
    proof {
        assert(views(r@) =~= review_metadata_keys());
    }
    r
}

/// The keys of `required` that `present` lacks, in the order of `required`.
pub open spec fn missing_keys(required: Seq<Seq<char>>, present: Seq<Seq<char>>) -> Seq<Seq<char>>
    decreases required.len(),
{
    if required.len() == 0 {
        Seq::empty()
    } else if present.contains(required.last()) {
        missing_keys(required.drop_last(), present)
    } else {
        missing_keys(required.drop_last(), present).push(required.last())
    }
}

fn missing_from(required: &Vec<String>, present: &Vec<String>) -> (r: Vec<String>)
    ensures
        views(r@) == missing_keys(views(required@), views(present@)),
{
    let ghost rv = views(required@);
    let mut r: Vec<String> = Vec::new();
    let mut i: usize = 0;
    while i < required.len()
        invariant
            i <= required.len(),
            rv == views(required@),
            views(r@) == missing_keys(rv.take(i as int), views(present@)),
        decreases required.len() - i,
    {
        proof {
            assert(rv.take(i + 1).drop_last() =~= rv.take(i as int));
            assert(rv.take(i + 1).last() == required@[i as int]@);
        }
        if !crate::check::contains_string(present.as_slice(), required[i].as_str()) {
            let ghost prev = views(r@);
            r.push(required[i].clone());
            proof {
                assert(views(r@) =~= prev.push(required@[i as int]@));
            }
        }
        i += 1;
    }
    proof {
        assert(rv.take(required.len() as int) =~= rv);
    }
    r
}

proof fn lemma_missing_same_members(required: Seq<Seq<char>>, a: Seq<Seq<char>>, b: Seq<Seq<char>>)
    requires
        forall|x: Seq<char>| a.contains(x) <==> b.contains(x),
    ensures
        missing_keys(required, a) == missing_keys(required, b),
    decreases required.len(),
{
    if required.len() > 0 {
        lemma_missing_same_members(required.drop_last(), a, b);
    }
}

/// The governed Markdown keys a document's frontmatter lacks, in their listed order.
pub fn missing_markdown_metadata(text: &str) -> (r: Vec<String>)
    ensures
        views(r@) == missing_keys(markdown_metadata_keys(), header_keys(text@)),
{
    let keys = parse_frontmatter_keys(text);
    let required = markdown_keys_list();
    let r = missing_from(&required, &keys);
    proof {
        lemma_missing_same_members(markdown_metadata_keys(), views(keys@), header_keys(text@));
    }
    r
}

/// The review keys a document's frontmatter lacks, in their listed order.
pub fn missing_markdown_review_metadata(text: &str) -> (r: Vec<String>)
    ensures
        views(r@) == missing_keys(review_metadata_keys(), header_keys(text@)),
{
    let keys = parse_frontmatter_keys(text);
    let required = review_keys_list();
    let r = missing_from(&required, &keys);
    proof {
        lemma_missing_same_members(review_metadata_keys(), views(keys@), header_keys(text@));
    }
    r
}

/// The number of bytes UTF-8 encodes `c` in.
pub open spec fn utf8_width(c: char) -> nat {
    let v = c as u32;
    if v < 0x80 {
        1
    } else if v < 0x800 {
        2
    } else if v < 0x10000 {
        3
    } else {
        4
    }
}

/// The number of bytes UTF-8 encodes `s` in.
pub open spec fn byte_len(s: Seq<char>) -> nat
    decreases s.len(),
{
    if s.len() == 0 {
        0
    } else {
        byte_len(s.drop_last()) + utf8_width(s.last())
    }
}

/// The bytes of the lines, each with the newline after it.
pub open spec fn lines_bytes(ls: Seq<Seq<char>>) -> nat
    decreases ls.len(),
{
    if ls.len() == 0 {
        0
    } else {
        lines_bytes(ls.drop_last()) + byte_len(ls.last()) + 1
    }
}

/// Where the body of a Markdown document starts, in bytes of its normalized text: just
/// after the closing frontmatter marker line, counting each line by the bytes `lines`
/// gives it and one newline; none when there is no frontmatter.
pub open spec fn body_offset(text: Seq<char>) -> Option<nat> {
    let ls = normalized_lines(text);
    if ls.len() == 0 || ls[0] != marker() {
        None
    } else {
        let rest = ls.skip(1);
        let m = first_marker(rest);
        if m >= rest.len() {
            None
        } else {
            Some(4 + lines_bytes(rest.take(m + 1)))
        }
    }
}

/// The body offset falls on a character boundary of the normalized text, so that the
/// body can be cut there.
pub open spec fn body_start_ok(text: Seq<char>) -> bool {
    match body_offset(text) {
        None => true,
        Some(off) => exists|i: int| 0 <= i <= lf(text).len() && #[trigger] byte_len(lf(text).take(i)) == off,
    }
}

/// The body of a Markdown document: its normalized text after the frontmatter, or all
/// of it when there is none.
pub open spec fn body_of(text: Seq<char>) -> Seq<char> {
    match body_offset(text) {
        None => lf(text),
        Some(off) => lf(text).skip(
            choose|i: int| 0 <= i <= lf(text).len() && #[trigger] byte_len(lf(text).take(i)) == off,
        ),
    }
}

proof fn lemma_byte_len_step(s: Seq<char>, i: int)
    requires
        0 <= i < s.len(),
    ensures
        byte_len(s.take(i + 1)) == byte_len(s.take(i)) + utf8_width(s[i]),
{
    assert(s.take(i + 1).drop_last() =~= s.take(i));
}

proof fn lemma_byte_len_mono(s: Seq<char>, i: int, j: int)
    requires
        0 <= i < j <= s.len(),
    ensures
        byte_len(s.take(i)) < byte_len(s.take(j)),
    decreases j - i,
{
    lemma_byte_len_step(s, j - 1);
    if i < j - 1 {
        lemma_byte_len_mono(s, i, j - 1);
    }
}

proof fn lemma_byte_len_bound(s: Seq<char>)
    ensures
        byte_len(s) <= 4 * s.len(),
    decreases s.len(),
{
    if s.len() > 0 {
        lemma_byte_len_bound(s.drop_last());
    }
}

proof fn lemma_lines_bytes_mono(ls: Seq<Seq<char>>, i: int, j: int)
    requires
        0 <= i <= j <= ls.len(),
    ensures
        lines_bytes(ls.take(i)) <= lines_bytes(ls.take(j)),
    decreases j - i,
{
    if i < j {
        assert(ls.take(j).drop_last() =~= ls.take(j - 1));
        lemma_lines_bytes_mono(ls, i, j - 1);
    }
}

fn char_width(c: char) -> (w: u128)
    ensures
        w == utf8_width(c),
{
    let v = c as u32;
    if v < 0x80 {
        1
    } else if v < 0x800 {
        2
    } else if v < 0x10000 {
        3
    } else {
        4
    }
}

fn chars_byte_len(v: &Vec<char>) -> (r: u128)
    ensures
        r == byte_len(v@),
{
    let mut r: u128 = 0;
    let mut i: usize = 0;
    while i < v.len()
        invariant
            i <= v.len(),
            r == byte_len(v@.take(i as int)),
            r <= 4 * i,
        decreases v.len() - i,
    {
        proof {
            lemma_byte_len_step(v@, i as int);
        }
        r = r + char_width(v[i]);
        i += 1;
    }
    proof {
        assert(v@.take(v.len() as int) =~= v@);
    }
    r
}

/// The body of a Markdown document after its frontmatter, as `body_of` says.
pub fn markdown_body(text: &str) -> (r: String)
    requires
        body_start_ok(text@),
    ensures
        r@ == body_of(text@),
{
    let raw = chars_of(text);
    let n = crlf_to_lf(&raw);
    let ls = lines_of(&n);
    let m = chars_of("---");
    proof {
        reveal_strlit("---");
        assert(m@ =~= marker());
    }
    if ls.len() == 0 || !chars_eq(&ls[0], &m) {
        proof {
            if ls.len() > 0 {
                assert(char_views(ls@)[0] == ls@[0]@);
            }
        }
        return string_of(&n);
    }
    proof {
        assert(char_views(ls@)[0] == ls@[0]@);
    }
    let end = find_marker(&ls, 1);
    if end >= ls.len() {
        return string_of(&n);
    }
    let ghost rest = char_views(ls@).skip(1);
    let ghost off = 4 + lines_bytes(rest.take(end as int));
    proof {
        assert(body_offset(text@) == Some(off));
        let w = choose|i: int| 0 <= i <= lf(text@).len() && #[trigger] byte_len(lf(text@).take(i)) == off;
        assert(byte_len(n@.take(w)) == off);
        lemma_byte_len_bound(n@.take(w));
        assert(n@.len() <= usize::MAX);
    }
    let mut offset: u128 = 4;
    let mut k: usize = 1;
    while k <= end
        invariant
            1 <= k <= end + 1,
            end < ls.len(),
            rest == char_views(ls@).skip(1),
            off == 4 + lines_bytes(rest.take(end as int)),
            off <= 4 * usize::MAX,
            offset == 4 + lines_bytes(rest.take(k - 1)),
        decreases end + 1 - k,
    {
        proof {
            assert(rest.take(k as int).drop_last() =~= rest.take(k - 1));
            assert(rest[k - 1] == ls@[k as int]@);
            lemma_lines_bytes_mono(rest, k as int, end as int);
        }
        let lb = chars_byte_len(&ls[k]);
        offset = offset + lb + 1;
        k += 1;
    }
    let ghost nv = n@;
    let nl = n.len();
    let mut i: usize = 0;
    let mut b: u128 = 0;
    proof {
        assert(nv.take(0) =~= Seq::<char>::empty());
    }
    while b < offset
        invariant
            i <= nv.len(),
            nv == n@,
            nv.len() == nl,
            offset == off,
            b == byte_len(nv.take(i as int)),
            exists|w: int| i <= w <= nv.len() && #[trigger] byte_len(nv.take(w)) == off,
        decreases nv.len() - i,
    {
        let ghost w = choose|w: int| i <= w <= nv.len() && #[trigger] byte_len(nv.take(w)) == off;
        proof {
            if w == i {
                assert(false);
            }
            lemma_byte_len_step(nv, i as int);
            if i + 1 < w {
                lemma_byte_len_mono(nv, i + 1, w);
            }
        }
        b = b + char_width(n[i]);
        i += 1;
    }
    proof {
        let w = choose|w: int| i <= w <= nv.len() && #[trigger] byte_len(nv.take(w)) == off;
        if w > i {
            lemma_byte_len_mono(nv, i as int, w);
        }
        assert(w == i);
        let c = choose|j: int| 0 <= j <= lf(text@).len() && #[trigger] byte_len(lf(text@).take(j)) == off;
        if c < i {
            lemma_byte_len_mono(nv, c, i as int);
        }
        if c > i {
            lemma_byte_len_mono(nv, i as int, c);
        }
    }
    let r = string_of_range(&n, i, n.len());
    proof {
        assert(r@ =~= nv.skip(i as int));
    }
    r
}

/// Under a docs root: starting with `.docpact/` or containing `/.docpact/`.
pub open spec fn under_doc_root(n: Seq<char>) -> bool {
    has_prefix(n, ".docpact/"@) || contains_seq(n, "/.docpact/"@)
}

/// The last `/`-separated segment of a path.
pub open spec fn last_segment(n: Seq<char>) -> Seq<char> {
    split_on(n, '/').last()
}

/// A key Markdown document: named `AGENTS.md`, or a `.md` file under a docs root.
pub open spec fn key_markdown_doc(rel: Seq<char>) -> bool {
    let n = normalized(rel);
    last_segment(n) == "AGENTS.md"@ || (under_doc_root(n) && has_suffix(n, ".md"@))
}

/// A key YAML contract: a `.yaml` file under a docs root.
pub open spec fn key_yaml_contract(rel: Seq<char>) -> bool {
    let n = normalized(rel);
    has_suffix(n, ".yaml"@) && under_doc_root(n)
}

fn is_under_doc_root(n: &Vec<char>) -> (b: bool)
    ensures
        b == under_doc_root(n@),
{
    chars_starts_with(n, &chars_of(".docpact/")) || chars_contains(n, &chars_of("/.docpact/"))
}

/// Whether a path is a key Markdown document, as `key_markdown_doc` says.
pub fn is_key_markdown_doc(rel_path: &str) -> (b: bool)
    ensures
        b == key_markdown_doc(rel_path@),
{
    let n = chars_of(normalize_path(rel_path).as_str());
    let parts = split_chars(&n, '/');
    proof {
        crate::text::lemma_split_on_nonempty(n@, '/');
        assert(parts@.map_values(|x: Vec<char>| x@).last() == parts@[parts@.len() - 1]@);
    }
    let last = &parts[parts.len() - 1];
    chars_eq(last, &chars_of("AGENTS.md")) || (is_under_doc_root(&n) && chars_ends_with(&n, &chars_of(".md")))
}

/// Whether a path is a key YAML contract, as `key_yaml_contract` says.
pub fn is_key_yaml_contract(rel_path: &str) -> (b: bool)
    ensures
        b == key_yaml_contract(rel_path@),
{
    let n = chars_of(normalize_path(rel_path).as_str());
    chars_ends_with(&n, &chars_of(".yaml")) && is_under_doc_root(&n)
}

/// `line` sets the top-level `key`: once trailing white space is dropped it starts with
/// the key, and after optional white space a `:` follows.
pub open spec fn matches_key(line: Seq<char>, key: Seq<char>) -> bool {
    let t = trim_end(line);
    has_prefix(t, key) && {
        let rest = crate::text::trim_start(t.skip(key.len() as int));
        rest.len() > 0 && rest[0] == ':'
    }
}

/// The review date key.
pub open spec fn at_key() -> Seq<char> {
    "lastReviewedAt"@
}

/// The review commit key.
pub open spec fn commit_key() -> Seq<char> {
    "lastReviewedCommit"@
}

/// A review line: `key: value`, with the value in double quotes when `quoted`.
pub open spec fn review_line(key: Seq<char>, value: Seq<char>, quoted: bool) -> Seq<char> {
    if quoted {
        key + ": \""@ + value + "\""@
    } else {
        key + ": "@ + value
    }
}

/// A line with its review value, if it sets one, rewritten.
pub open spec fn replaced_line(line: Seq<char>, at: Seq<char>, commit: Seq<char>, quoted: bool) -> Seq<char> {
    if matches_key(line, at_key()) {
        review_line(at_key(), at, quoted)
    } else if matches_key(line, commit_key()) {
        review_line(commit_key(), commit, quoted)
    } else {
        line
    }
}

/// The line sets a review key.
pub open spec fn is_review_line(line: Seq<char>) -> bool {
    matches_key(line, at_key()) || matches_key(line, commit_key())
}

/// The index of the last line that sets a review key.
pub open spec fn last_review_index(lines: Seq<Seq<char>>) -> Option<int>
    decreases lines.len(),
{
    if lines.len() == 0 {
        None
    } else if is_review_line(lines.last()) {
        Some(lines.len() - 1)
    } else {
        last_review_index(lines.drop_last())
    }
}

/// A blank line or a comment.
pub open spec fn is_header_line(line: Seq<char>) -> bool {
    trim(line).len() == 0 || trim(line)[0] == '#'
}

/// The number of leading blank or comment lines.
pub open spec fn header_block_len(lines: Seq<Seq<char>>) -> nat
    decreases lines.len(),
{
    if lines.len() == 0 {
        0
    } else {
        let a = header_block_len(lines.drop_last());
        if a == lines.len() - 1 && is_header_line(lines.last()) { lines.len() } else { a }
    }
}

/// Some line sets `key`.
pub open spec fn any_sets(lines: Seq<Seq<char>>, key: Seq<char>) -> bool {
    exists|i: int| 0 <= i < lines.len() && matches_key(#[trigger] lines[i], key)
}

/// The lines with the review values set: lines that set a review key are rewritten,
/// and the keys that no line sets are inserted after the last review line, or else
/// after the leading blank and comment lines.
pub open spec fn upsert(lines: Seq<Seq<char>>, at: Seq<char>, commit: Seq<char>, quoted: bool) -> Seq<Seq<char>> {
    let replaced = lines.map_values(|l: Seq<char>| replaced_line(l, at, commit, quoted));
    let m1: Seq<Seq<char>> = if any_sets(replaced, at_key()) { Seq::empty() } else { seq![review_line(at_key(), at, quoted)] };
    let m2: Seq<Seq<char>> = if any_sets(replaced, commit_key()) { Seq::empty() } else { seq![review_line(commit_key(), commit, quoted)] };
    let missing = m1 + m2;
    if missing.len() == 0 {
        replaced
    } else {
        let k = match last_review_index(lines) {
            Some(i) => i + 1,
            None => header_block_len(replaced) as int,
        };
        replaced.take(k) + missing + replaced.skip(k)
    }
}

fn push_str_chars(out: &mut Vec<char>, s: &str)
    ensures
        final(out)@ == old(out)@ + s@,
{
    let v = chars_of(s);
    extend_chars(out, &v);
}

fn extend_chars(out: &mut Vec<char>, v: &Vec<char>)
    ensures
        final(out)@ == old(out)@ + v@,
{
    let ghost base = out@;
    let mut i: usize = 0;
    while i < v.len()
        invariant
            i <= v.len(),
            out@ == base + v@.take(i as int),
        decreases v.len() - i,
    {
        out.push(v[i]);
        proof {
            assert(v@.take(i + 1) =~= v@.take(i as int).push(v@[i as int]));
        }
        i += 1;
    }
    proof {
        assert(v@.take(v.len() as int) =~= v@);
    }
}

fn line_matches_key(line: &Vec<char>, key: &str) -> (b: bool)
    ensures
        b == matches_key(line@, key@),
{
    let mut hi: usize = line.len();
    proof {
        assert(line@.take(hi as int) =~= line@);
    }
    while hi > 0 && char_is_white_space(line[hi - 1])
        invariant
            hi <= line.len(),
            trim_end(line@) == trim_end(line@.take(hi as int)),
        decreases hi,
    {
        proof {
            assert(line@.take(hi as int).drop_last() =~= line@.take(hi - 1));
        }
        hi -= 1;
    }
    let ghost t = line@.take(hi as int);
    proof {
        assert(trim_end(t) == t);
    }
    let k = chars_of(key);
    if k.len() > hi {
        return false;
    }
    let mut j: usize = 0;
    while j < k.len()
        invariant
            j <= k.len() <= hi <= line.len(),
            t == line@.take(hi as int),
            trim_end(line@) == t,
            k@ == key@,
            forall|x: int| 0 <= x < j ==> line@[x] == k@[x],
        decreases k.len() - j,
    {
        if line[j] != k[j] {
            proof {
                assert(t.subrange(0, k@.len() as int)[j as int] != k@[j as int]);
            }
            return false;
        }
        j += 1;
    }
    proof {
        assert(t.subrange(0, k@.len() as int) =~= k@);
    }
    let mut p: usize = k.len();
    while p < hi && char_is_white_space(line[p])
        invariant
            k.len() <= p <= hi <= line.len(),
            t == line@.take(hi as int),
            crate::text::trim_start(t.skip(k.len() as int)) == crate::text::trim_start(t.skip(p as int)),
        decreases hi - p,
    {
        proof {
            assert(t.skip(p as int).drop_first() =~= t.skip(p + 1));
        }
        p += 1;
    }
    proof {
        let u = t.skip(p as int);
        assert(u.len() == 0 || !is_white_space(u[0]));
        assert(crate::text::trim_start(u) == u);
    }
    p < hi && line[p] == ':'
}

fn review_line_chars(key: &str, value: &str, quoted: bool) -> (r: Vec<char>)
    ensures
        r@ == review_line(key@, value@, quoted),
{
    let mut out: Vec<char> = Vec::new();
    push_str_chars(&mut out, key);
    if quoted {
        push_str_chars(&mut out, ": \"");
        push_str_chars(&mut out, value);
        push_str_chars(&mut out, "\"");
    } else {
        push_str_chars(&mut out, ": ");
        push_str_chars(&mut out, value);
    }
    proof {
        assert(out@ =~= review_line(key@, value@, quoted));
    }
    out
}

fn is_header_vec(line: &Vec<char>) -> (b: bool)
    ensures
        b == is_header_line(line@),
{
    let (lo, hi) = trim_bounds(line);
    lo == hi || line[lo] == '#'
}

/// The lines with the review values set, as `upsert` says.
pub fn upsert_review_lines(lines: &Vec<Vec<char>>, at: &str, commit: &str, quoted: bool) -> (r: Vec<Vec<char>>)
    ensures
        char_views(r@) == upsert(char_views(lines@), at@, commit@, quoted),
{
    let ghost lv = char_views(lines@);
    let ghost rep = lv.map_values(|l: Seq<char>| replaced_line(l, at@, commit@, quoted));
    let mut replaced: Vec<Vec<char>> = Vec::new();
    let mut last: Option<usize> = None;
    let mut has_at = false;
    let mut has_commit = false;
    let mut i: usize = 0;
    while i < lines.len()
        invariant
            i <= lines.len(),
            lv == char_views(lines@),
            rep == lv.map_values(|l: Seq<char>| replaced_line(l, at@, commit@, quoted)),
            char_views(replaced@) == rep.take(i as int),
            match last {
                Some(x) => last_review_index(lv.take(i as int)) == Some(x as int) && x < i,
                None => last_review_index(lv.take(i as int)) is None,
            },
            has_at == any_sets(rep.take(i as int), at_key()),
            has_commit == any_sets(rep.take(i as int), commit_key()),
        decreases lines.len() - i,
    {
        let line = &lines[i];
        proof {
            assert(lv.take(i + 1).drop_last() =~= lv.take(i as int));
            assert(lv.take(i + 1).last() == line@);
        }
        let new_line: Vec<char>;
        if line_matches_key(line, "lastReviewedAt") {
            new_line = review_line_chars("lastReviewedAt", at, quoted);
            last = Some(i);
        } else if line_matches_key(line, "lastReviewedCommit") {
            new_line = review_line_chars("lastReviewedCommit", commit, quoted);
            last = Some(i);
        } else {
            new_line = line.clone();
        }
        let sets_at = line_matches_key(&new_line, "lastReviewedAt");
        let sets_commit = line_matches_key(&new_line, "lastReviewedCommit");
        let ghost prev = char_views(replaced@);
        replaced.push(new_line);
        proof {
            assert(rep[i as int] == replaced_line(line@, at@, commit@, quoted));
            assert(char_views(replaced@) =~= prev.push(rep[i as int]));
            let rt = rep.take(i + 1);
            assert(rt =~= rep.take(i as int).push(rep[i as int]));
            if sets_at {
                assert(matches_key(rt[i as int], at_key()));
            }
            if has_at {
                let w = choose|w: int| 0 <= w < rep.take(i as int).len() && matches_key(#[trigger] rep.take(i as int)[w], at_key());
                assert(rt[w] == rep.take(i as int)[w]);
            }
            if any_sets(rt, at_key()) {
                let w = choose|w: int| 0 <= w < rt.len() && matches_key(#[trigger] rt[w], at_key());
                if w < i {
                    assert(rep.take(i as int)[w] == rt[w]);
                }
            }
            if sets_commit {
                assert(matches_key(rt[i as int], commit_key()));
            }
            if has_commit {
                let w = choose|w: int| 0 <= w < rep.take(i as int).len() && matches_key(#[trigger] rep.take(i as int)[w], commit_key());
                assert(rt[w] == rep.take(i as int)[w]);
            }
            if any_sets(rt, commit_key()) {
                let w = choose|w: int| 0 <= w < rt.len() && matches_key(#[trigger] rt[w], commit_key());
                if w < i {
                    assert(rep.take(i as int)[w] == rt[w]);
                }
            }
        }
        has_at = has_at || sets_at;
        has_commit = has_commit || sets_commit;
        i += 1;
    }
    proof {
        assert(lv.take(lines.len() as int) =~= lv);
        assert(rep.take(lines.len() as int) =~= rep);
    }
    let mut missing: Vec<Vec<char>> = Vec::new();
    if !has_at {
        missing.push(review_line_chars("lastReviewedAt", at, quoted));
    }
    if !has_commit {
        missing.push(review_line_chars("lastReviewedCommit", commit, quoted));
    }
    let ghost mv = char_views(missing@);
    proof {
        let m1: Seq<Seq<char>> = if any_sets(rep, at_key()) { Seq::empty() } else { seq![review_line(at_key(), at@, quoted)] };
        let m2: Seq<Seq<char>> = if any_sets(rep, commit_key()) { Seq::empty() } else { seq![review_line(commit_key(), commit@, quoted)] };
        assert(mv =~= m1 + m2);
    }
    if missing.len() == 0 {
        return replaced;
    }
    let k: usize = match last {
        Some(x) => x + 1,
        None => {
            let mut h: usize = 0;
            while h < replaced.len() && is_header_vec(&replaced[h])
                invariant
                    h <= replaced.len(),
                    char_views(replaced@) == rep,
                    header_block_len(rep.take(h as int)) == h,
                decreases replaced.len() - h,
            {
                proof {
                    assert(rep.take(h + 1).drop_last() =~= rep.take(h as int));
                    assert(rep.take(h + 1).last() == replaced@[h as int]@);
                }
                h += 1;
            }
            proof {
                lemma_header_block_len_stop(rep, h as int);
            }
            h
        },
    };
    let mut out: Vec<Vec<char>> = Vec::new();
    let mut j: usize = 0;
    while j < k
        invariant
            j <= k <= replaced.len(),
            char_views(replaced@) == rep,
            char_views(out@) == rep.take(j as int),
        decreases k - j,
    {
        let ghost prev = char_views(out@);
        out.push(replaced[j].clone());
        proof {
            assert(char_views(out@) =~= prev.push(rep[j as int]));
            assert(rep.take(j + 1) =~= rep.take(j as int).push(rep[j as int]));
        }
        j += 1;
    }
    let mut q: usize = 0;
    while q < missing.len()
        invariant
            q <= missing.len(),
            mv == char_views(missing@),
            char_views(out@) == rep.take(k as int) + mv.take(q as int),
        decreases missing.len() - q,
    {
        let ghost prev = char_views(out@);
        out.push(missing[q].clone());
        proof {
            assert(char_views(out@) =~= prev.push(mv[q as int]));
            assert(mv.take(q + 1) =~= mv.take(q as int).push(mv[q as int]));
        }
        q += 1;
    }
    let mut t: usize = k;
    proof {
        assert(mv.take(missing.len() as int) =~= mv);
        assert(rep.skip(k as int).take(0) =~= Seq::<Seq<char>>::empty());
    }
    while t < replaced.len()
        invariant
            k <= t <= replaced.len(),
            char_views(replaced@) == rep,
            char_views(out@) == rep.take(k as int) + mv + rep.skip(k as int).take(t - k),
        decreases replaced.len() - t,
    {
        let ghost prev = char_views(out@);
        out.push(replaced[t].clone());
        proof {
            assert(char_views(out@) =~= prev.push(rep[t as int]));
            assert(rep.skip(k as int).take(t + 1 - k) =~= rep.skip(k as int).take(t - k).push(rep[t as int]));
        }
        t += 1;
    }
    proof {
        assert(rep.skip(k as int).take(t - k) =~= rep.skip(k as int));
    }
    out
}

proof fn lemma_header_block_len_stop(s: Seq<Seq<char>>, h: int)
    requires
        0 <= h <= s.len(),
        header_block_len(s.take(h)) == h,
        h < s.len() ==> !is_header_line(s[h]),
    ensures
        header_block_len(s) == h,
    decreases s.len() - h,
{
    if h < s.len() {
        lemma_header_block_len_frozen(s, h, s.len() as int);
        assert(s.take(s.len() as int) =~= s);
    } else {
        assert(s.take(h) =~= s);
    }
}

proof fn lemma_header_block_len_frozen(s: Seq<Seq<char>>, h: int, j: int)
    requires
        0 <= h < j <= s.len(),
        header_block_len(s.take(h)) == h,
        !is_header_line(s[h]),
    ensures
        header_block_len(s.take(j)) == h,
    decreases j - h,
{
    assert(s.take(j).drop_last() =~= s.take(j - 1));
    if j - 1 > h {
        lemma_header_block_len_frozen(s, h, j - 1);
    } else {
        assert(s.take(j).last() == s[h]);
    }
    if j == s.len() {
        assert(s.take(j) =~= s);
    }
}

/// `s` with each `\n` written as `\r\n`.
pub open spec fn crlf(s: Seq<char>) -> Seq<char>
    decreases s.len(),
{
    if s.len() == 0 {
        s
    } else if s.last() == '\n' {
        crlf(s.drop_last()) + seq!['\r', '\n']
    } else {
        crlf(s.drop_last()).push(s.last())
    }
}

/// `s` with the newlines `text` prefers: `\r\n` when `text` has any, else `\n`.
pub open spec fn restore(s: Seq<char>, text: Seq<char>) -> Seq<char> {
    if contains_seq(text, seq!['\r', '\n']) { crlf(s) } else { s }
}

/// The frontmatter lines and the body of normalized Markdown text that opens with a
/// `---` line and has a closing `---` line; the body keeps a final newline.
pub open spec fn split_front(n: Seq<char>) -> Option<(Seq<Seq<char>>, Seq<char>)> {
    if !has_prefix(n, "---\n"@) || text_lines(n).len() == 0 {
        None
    } else {
        let rest = text_lines(n).skip(1);
        let m = first_marker(rest);
        if m >= rest.len() {
            None
        } else {
            let body0 = crate::text::join(rest.skip(m + 1), seq!['\n']);
            let body = if n.last() == '\n' && body0.len() > 0 { body0.push('\n') } else { body0 };
            Some((rest.take(m), body))
        }
    }
}

/// A Markdown document with its review date and commit set in its frontmatter, or a
/// frontmatter holding just them put in front of it; newlines as the document has them.
pub open spec fn apply_markdown(text: Seq<char>, at: Seq<char>, commit: Seq<char>) -> Seq<char> {
    let n = lf(text);
    let out = match split_front(n) {
        Some((front, body)) => "---\n"@ + crate::text::join(upsert(front, at, commit, false), seq!['\n'])
            + "\n---"@ + seq!['\n'] + body,
        None => "---\nlastReviewedAt: "@ + at + "\nlastReviewedCommit: "@ + commit + "\n---"@ + if n.len() == 0 {
            seq!['\n']
        } else {
            seq!['\n', '\n'] + n
        },
    };
    restore(out, text)
}

/// A YAML document with its review date and commit set, quoted, as top-level keys; a
/// final newline kept, newlines as the document has them.
pub open spec fn apply_yaml(text: Seq<char>, at: Seq<char>, commit: Seq<char>) -> Seq<char> {
    let out = crate::text::join(upsert(text_lines(lf(text)), at, commit, true), seq!['\n']);
    let out2 = if has_suffix(text, seq!['\n']) || out.len() == 0 { out.push('\n') } else { out };
    restore(out2, text)
}

fn join_lines(v: &Vec<Vec<char>>) -> (r: Vec<char>)
    ensures
        r@ == crate::text::join(char_views(v@), seq!['\n']),
{
    let ghost lv = char_views(v@);
    let mut r: Vec<char> = Vec::new();
    let mut i: usize = 0;
    while i < v.len()
        invariant
            i <= v.len(),
            lv == char_views(v@),
            r@ == crate::text::join(lv.take(i as int), seq!['\n']),
        decreases v.len() - i,
    {
        proof {
            assert(lv.take(i + 1).drop_last() =~= lv.take(i as int));
            assert(lv.take(i + 1).last() == v@[i as int]@);
        }
        if i > 0 {
            r.push('\n');
        }
        let ghost before = r@;
        extend_chars(&mut r, &v[i]);
        proof {
            if i == 0 {
                assert(lv.take(1) =~= seq![v@[0]@]);
                assert(r@ =~= v@[0]@);
            } else {
                assert(r@ =~= crate::text::join(lv.take(i as int), seq!['\n']) + seq!['\n'] + v@[i as int]@);
            }
        }
        i += 1;
    }
    proof {
        assert(lv.take(v.len() as int) =~= lv);
    }
    r
}

fn to_crlf(v: &Vec<char>) -> (r: Vec<char>)
    ensures
        r@ == crlf(v@),
{
    let mut r: Vec<char> = Vec::new();
    let mut i: usize = 0;
    while i < v.len()
        invariant
            i <= v.len(),
            r@ == crlf(v@.take(i as int)),
        decreases v.len() - i,
    {
        proof {
            assert(v@.take(i + 1).drop_last() =~= v@.take(i as int));
            assert(v@.take(i + 1).last() == v@[i as int]);
        }
        if v[i] == '\n' {
            r.push('\r');
            r.push('\n');
            proof {
                assert(r@ =~= crlf(v@.take(i as int)) + seq!['\r', '\n']);
            }
        } else {
            r.push(v[i]);
        }
        i += 1;
    }
    proof {
        assert(v@.take(v.len() as int) =~= v@);
    }
    r
}

fn restore_newlines(out: Vec<char>, text: &Vec<char>) -> (r: String)
    ensures
        r@ == restore(out@, text@),
{
    let mut crlf_seq: Vec<char> = Vec::new();
    crlf_seq.push('\r');
    crlf_seq.push('\n');
    proof {
        assert(crlf_seq@ =~= seq!['\r', '\n']);
    }
    if chars_contains(text, &crlf_seq) {
        string_of(&to_crlf(&out))
    } else {
        string_of(&out)
    }
}

fn split_markdown_frontmatter(n: &Vec<char>) -> (r: Option<(Vec<Vec<char>>, Vec<char>)>)
    ensures
        match r {
            Some(p) => split_front(n@) == Some((char_views(p.0@), p.1@)),
            None => split_front(n@) is None,
        },
{
    if !chars_starts_with(n, &chars_of("---\n")) {
        return None;
    }
    let ls = lines_of(n);
    if ls.len() == 0 {
        return None;
    }
    let end = find_marker(&ls, 1);
    if end >= ls.len() {
        return None;
    }
    let ghost rest = char_views(ls@).skip(1);
    let mut front: Vec<Vec<char>> = Vec::new();
    let mut i: usize = 1;
    while i < end
        invariant
            1 <= i <= end < ls.len(),
            rest == char_views(ls@).skip(1),
            char_views(front@) == rest.take(i - 1),
        decreases end - i,
    {
        let ghost prev = char_views(front@);
        front.push(ls[i].clone());
        proof {
            assert(rest[i - 1] == ls@[i as int]@);
            assert(char_views(front@) =~= prev.push(rest[i - 1]));
            assert(rest.take(i as int) =~= rest.take(i - 1).push(rest[i - 1]));
        }
        i += 1;
    }
    let mut after: Vec<Vec<char>> = Vec::new();
    let mut j: usize = end + 1;
    while j < ls.len()
        invariant
            end + 1 <= j <= ls.len(),
            rest == char_views(ls@).skip(1),
            char_views(after@) == rest.skip(end as int).take(j - end - 1),
        decreases ls.len() - j,
    {
        let ghost prev = char_views(after@);
        after.push(ls[j].clone());
        proof {
            assert(rest.skip(end as int)[j - end - 1] == ls@[j as int]@);
            assert(char_views(after@) =~= prev.push(ls@[j as int]@));
            assert(rest.skip(end as int).take(j - end) =~= rest.skip(end as int).take(j - end - 1).push(ls@[j as int]@));
        }
        j += 1;
    }
    proof {
        assert(rest.skip(end as int).take(ls.len() - end - 1) =~= rest.skip(end as int));
    }
    let mut body = join_lines(&after);
    if n[n.len() - 1] == '\n' && body.len() > 0 {
        body.push('\n');
    }
    Some((front, body))
}

/// A Markdown document with its review date and commit set, as `apply_markdown` says.
pub fn apply_review_metadata_to_markdown(text: &str, reviewed_at: &str, reviewed_commit: &str) -> (r: String)
    ensures
        r@ == apply_markdown(text@, reviewed_at@, reviewed_commit@),
{
    let raw = chars_of(text);
    let n = crlf_to_lf(&raw);
    let mut out: Vec<char> = Vec::new();
    match split_markdown_frontmatter(&n) {
        Some((front, body)) => {
            let updated = upsert_review_lines(&front, reviewed_at, reviewed_commit, false);
            push_str_chars(&mut out, "---\n");
            let joined = join_lines(&updated);
            extend_chars(&mut out, &joined);
            push_str_chars(&mut out, "\n---");
            out.push('\n');
            extend_chars(&mut out, &body);
        },
        None => {
            push_str_chars(&mut out, "---\nlastReviewedAt: ");
            push_str_chars(&mut out, reviewed_at);
            push_str_chars(&mut out, "\nlastReviewedCommit: ");
            push_str_chars(&mut out, reviewed_commit);
            push_str_chars(&mut out, "\n---");
            if n.len() == 0 {
                out.push('\n');
            } else {
                out.push('\n');
                out.push('\n');
                extend_chars(&mut out, &n);
            }
        },
    }
    proof {
        let n2 = lf(text@);
        match split_front(n2) {
            Some((front, body)) => {
                assert(out@ =~= "---\n"@ + crate::text::join(upsert(front, reviewed_at@, reviewed_commit@, false), seq!['\n'])
                    + "\n---"@ + seq!['\n'] + body);
            },
            None => {
                assert(out@ =~= "---\nlastReviewedAt: "@ + reviewed_at@ + "\nlastReviewedCommit: "@ + reviewed_commit@ + "\n---"@ + if n2.len() == 0 {
                    seq!['\n']
                } else {
                    seq!['\n', '\n'] + n2
                });
            },
        }
    }
    restore_newlines(out, &raw)
}

/// A YAML document with its review date and commit set, as `apply_yaml` says.
pub fn apply_review_metadata_to_yaml(text: &str, reviewed_at: &str, reviewed_commit: &str) -> (r: String)
    ensures
        r@ == apply_yaml(text@, reviewed_at@, reviewed_commit@),
{
    let raw = chars_of(text);
    let n = crlf_to_lf(&raw);
    let lines = lines_of(&n);
    let updated = upsert_review_lines(&lines, reviewed_at, reviewed_commit, true);
    let mut out = join_lines(&updated);
    if (raw.len() > 0 && raw[raw.len() - 1] == '\n') || out.len() == 0 {
        out.push('\n');
    }
    proof {
        let mut nl: Seq<char> = seq!['\n'];
        if raw@.len() > 0 && raw@.last() == '\n' {
            assert(raw@.subrange(raw@.len() - 1, raw@.len() as int) =~= nl);
        }
        if has_suffix(raw@, nl) {
            assert(raw@.subrange(raw@.len() - 1, raw@.len() as int)[0] == raw@.last());
        }
    }
    restore_newlines(out, &raw)
}

proof fn lemma_split_lacks(s: Seq<char>, c: char)
    ensures
        forall|i: int| 0 <= i < split_on(s, c).len() ==> !(#[trigger] split_on(s, c)[i]).contains(c),
    decreases s.len(),
{
    if s.len() > 0 {
        let d = s.drop_last();
        lemma_split_lacks(d, c);
        crate::text::lemma_split_on_nonempty(d, c);
        let parts = split_on(d, c);
        let r = split_on(s, c);
        assert forall|i: int| 0 <= i < r.len() implies !(#[trigger] r[i]).contains(c) by {
            if s.last() == c {
                if i < parts.len() {
                    assert(r[i] == parts[i]);
                } else {
                    assert(r[i] =~= Seq::<char>::empty());
                }
            } else if i < parts.len() - 1 {
                assert(r[i] == parts[i]);
            } else {
                let l = parts.last();
                assert(r[i] == l.push(s.last()));
                assert(!l.contains(c)) by {
                    assert(l == parts[parts.len() - 1]);
                }
                if r[i].contains(c) {
                    let k = choose|k: int| 0 <= k < r[i].len() && r[i][k] == c;
                    if k < l.len() {
                        assert(l[k] == c);
                    }
                }
            }
        }
    }
}

proof fn lemma_header_lines_lack_newline(text: Seq<char>)
    ensures
        forall|i: int| 0 <= i < header_lines(text).len() ==> !(#[trigger] header_lines(text)[i]).contains('\n'),
{
    let s = lf(text);
    lemma_split_lacks(s, '\n');
    let parts = if s.len() == 0 {
        Seq::empty()
    } else if s.last() == '\n' {
        split_on(s, '\n').drop_last()
    } else {
        split_on(s, '\n')
    };
    let ls = normalized_lines(text);
    assert(ls == parts.map_values(|l: Seq<char>| strip_cr(l)));
    assert forall|i: int| 0 <= i < ls.len() implies !(#[trigger] ls[i]).contains('\n') by {
        let l = parts[i];
        assert(l == split_on(s, '\n')[i]);
        assert(!l.contains('\n'));
        if ls[i].contains('\n') {
            let k = choose|k: int| 0 <= k < ls[i].len() && ls[i][k] == '\n';
            assert(l[k] == '\n');
        }
    }
    let h = header_lines(text);
    if ls.len() > 0 && ls[0] == marker() {
        let rest = ls.skip(1);
        assert forall|i: int| 0 <= i < h.len() implies !(#[trigger] h[i]).contains('\n') by {
            assert(h[i] == rest.take(first_marker(rest))[i]);
            lemma_first_marker_bounds(rest);
            assert(h[i] == ls[i + 1]);
        }
    }
}

proof fn lemma_value_lacks(l: Seq<char>, c: char)
    requires
        !l.contains(c),
        line_key(l) is Some,
    ensures
        !line_value(l).contains(c),
        line_value(l) == trim(line_value(l)),
{
    let t = trim_end(l);
    lemma_trim_shape(l);
    assert(!t.contains(c));
    let k = alnum_run(t);
    lemma_run_bounds(t);
    let rest = t.skip(k as int);
    let sp = space_run(rest);
    lemma_run_bounds(rest);
    let x = rest.skip(sp + 1 as int);
    assert(!x.contains(c)) by {
        if x.contains(c) {
            let j = choose|j: int| 0 <= j < x.len() && x[j] == c;
            assert(t[k + sp + 1 + j] == c);
        }
    }
    lemma_trim_shape(x);
}

/// `v` is the value of some key line of `ls`.
spec fn value_of_some_line(ls: Seq<Seq<char>>, v: Seq<char>) -> bool {
    exists|i: int| 0 <= i < ls.len() && line_key(ls[i]) is Some && v == #[trigger] line_value(ls[i])
}

proof fn lemma_pair_values(ls: Seq<Seq<char>>)
    ensures
        forall|j: int| 0 <= j < pairs_of(ls).len() ==> value_of_some_line(ls, (#[trigger] pairs_of(ls)[j]).1),
    decreases ls.len(),
{
    if ls.len() > 0 {
        let d = ls.drop_last();
        lemma_pair_values(d);
        let pd = pairs_of(d);
        assert forall|j: int| 0 <= j < pairs_of(ls).len() implies value_of_some_line(ls, (#[trigger] pairs_of(ls)[j]).1) by {
            if j < pd.len() {
                assert(pairs_of(ls)[j] == pd[j]);
                assert(value_of_some_line(d, pd[j].1));
                let i = choose|i: int| 0 <= i < d.len() && line_key(d[i]) is Some && pd[j].1 == #[trigger] line_value(d[i]);
                assert(d[i] == ls[i]);
                assert(line_value(ls[i]) == pd[j].1);
            } else {
                let i = ls.len() - 1;
                assert(line_key(ls.last()) is Some);
                assert(ls.last() == ls[i]);
                assert(pairs_of(ls)[j].1 == line_value(ls[i]));
            }
        }
    }
}

proof fn lemma_last_value_from(pairs: Seq<(Seq<char>, Seq<char>)>, k: Seq<char>)
    ensures
        last_value(pairs, k).len() == 0 || exists|j: int| 0 <= j < pairs.len() && last_value(pairs, k) == (#[trigger] pairs[j]).1,
    decreases pairs.len(),
{
    if pairs.len() > 0 && pairs.last().0 != k {
        lemma_last_value_from(pairs.drop_last(), k);
        if last_value(pairs, k).len() != 0 {
            let j = choose|j: int| 0 <= j < pairs.drop_last().len() && last_value(pairs.drop_last(), k) == (#[trigger] pairs.drop_last()[j]).1;
            assert(pairs.drop_last()[j] == pairs[j]);
        }
    } else if pairs.len() > 0 {
        assert(last_value(pairs, k) == pairs[pairs.len() - 1].1);
    }
}

/// The scalar frontmatter values have exactly the keys that the key parser reports, in
/// the same order, and each value is trimmed and holds no line break.
pub proof fn law_scalar_values_match_keys(text: Seq<char>)
    ensures
        scalar_values(text).map_values(|p: (Seq<char>, Seq<char>)| p.0) == sorted_set(header_keys(text)),
        forall|i: int|
            0 <= i < scalar_values(text).len() ==> {
                let v = (#[trigger] scalar_values(text)[i]).1;
                &&& trim(v) == v
                &&& !v.contains('\n')
            },
{
    let sv = scalar_values(text);
    assert(sv.map_values(|p: (Seq<char>, Seq<char>)| p.0) =~= sorted_set(header_keys(text)));
    let hl = header_lines(text);
    let pairs = header_pairs(text);
    lemma_header_lines_lack_newline(text);
    lemma_pair_values(hl);
    assert forall|i: int| 0 <= i < sv.len() implies {
        let v = (#[trigger] sv[i]).1;
        &&& trim(v) == v
        &&& !v.contains('\n')
    } by {
        let k = sorted_set(header_keys(text))[i];
        let v = sv[i].1;
        assert(v == last_value(pairs, k));
        lemma_last_value_from(pairs, k);
        if v.len() == 0 {
            assert(trim_start(v) == v);
            assert(trim_end(v) == v);
        } else {
            let j = choose|j: int| 0 <= j < pairs.len() && v == (#[trigger] pairs[j]).1;
            assert(value_of_some_line(hl, pairs_of(hl)[j].1));
            let li = choose|li: int| 0 <= li < hl.len() && line_key(hl[li]) is Some && pairs_of(hl)[j].1 == #[trigger] line_value(hl[li]);
            assert(!hl[li].contains('\n'));
            lemma_value_lacks(hl[li], '\n');
        }
    }
}

/// `s` holds neither `\n` nor `\r`.
pub open spec fn plain_line(s: Seq<char>) -> bool {
    !s.contains('\n') && !s.contains('\r')
}

proof fn lemma_lf_plain(s: Seq<char>)
    requires
        !s.contains('\r'),
    ensures
        lf(s) == s,
    decreases s.len(),
{
    if s.len() > 0 {
        let d = s.drop_last();
        assert(!d.contains('\r')) by {
            if d.contains('\r') {
                let k = choose|k: int| 0 <= k < d.len() && d[k] == '\r';
                assert(s[k] == '\r');
            }
        }
        lemma_lf_plain(d);
        if s.len() >= 2 {
            assert(s[s.len() - 2] != '\r');
        }
        assert(d.push(s.last()) =~= s);
    }
}

proof fn lemma_split_chars(s: Seq<char>, c: char)
    ensures
        forall|i: int, k: int|
            0 <= i < split_on(s, c).len() && 0 <= k < split_on(s, c)[i].len() ==> s.contains(
                #[trigger] split_on(s, c)[i][k],
            ),
    decreases s.len(),
{
    if s.len() > 0 {
        let d = s.drop_last();
        lemma_split_chars(d, c);
        crate::text::lemma_split_on_nonempty(d, c);
        let parts = split_on(d, c);
        let r = split_on(s, c);
        assert forall|i: int, k: int| 0 <= i < r.len() && 0 <= k < r[i].len() implies s.contains(#[trigger] r[i][k]) by {
            if s.last() == c {
                if i < parts.len() {
                    assert(r[i] == parts[i]);
                    let j = choose|j: int| 0 <= j < d.len() && d[j] == parts[i][k];
                    assert(s[j] == d[j]);
                }
            } else if i < parts.len() - 1 || k < parts.last().len() {
                assert(r[i][k] == parts[i][k]);
                let j = choose|j: int| 0 <= j < d.len() && d[j] == parts[i][k];
                assert(s[j] == d[j]);
            } else {
                assert(r[i][k] == s.last());
                assert(s[s.len() - 1] == s.last());
            }
        }
    }
}

/// The lines of a text without `\r`: its pieces at `\n`, without a last empty piece
/// after a final `\n`.
proof fn lemma_text_lines_plain(s: Seq<char>)
    requires
        !s.contains('\r'),
    ensures
        text_lines(s) == if s.len() == 0 {
            Seq::<Seq<char>>::empty()
        } else if s.last() == '\n' {
            split_on(s, '\n').drop_last()
        } else {
            split_on(s, '\n')
        },
{
    lemma_split_chars(s, '\n');
    let parts = if s.len() == 0 {
        Seq::<Seq<char>>::empty()
    } else if s.last() == '\n' {
        split_on(s, '\n').drop_last()
    } else {
        split_on(s, '\n')
    };
    assert forall|i: int| 0 <= i < parts.len() implies strip_cr(#[trigger] parts[i]) == parts[i] by {
        let l = parts[i];
        assert(l == split_on(s, '\n')[i]);
        if l.len() > 0 && l.last() == '\r' {
            assert(s.contains(split_on(s, '\n')[i][l.len() - 1]));
        }
    }
    assert(parts.map_values(|l: Seq<char>| strip_cr(l)) =~= parts);
}

/// The lines of a document made of a `---` line, the lines `w`, a `---` line and then
/// `b`.
proof fn lemma_front_lines(w: Seq<Seq<char>>, b: Seq<char>)
    requires
        w.len() > 0,
        forall|i: int| 0 <= i < w.len() ==> plain_line(#[trigger] w[i]),
        !b.contains('\r'),
    ensures
        ({
            let out = marker() + seq!['\n'] + join(w, seq!['\n']) + seq!['\n'] + marker() + seq!['\n'] + b;
            &&& !out.contains('\r')
            &&& text_lines(out) == seq![marker()] + w + seq![marker()] + text_lines(b)
        }),
{
    let jw = join(w, seq!['\n']);
    lemma_join_split(jw, '\n');
    lemma_split_join(w, '\n');
    lemma_join_chars(w);
    let x1 = marker() + seq!['\n'] + jw;
    let x2 = x1 + seq!['\n'] + marker();
    let out = x2 + seq!['\n'] + b;
    lemma_split_without(marker(), '\n');
    lemma_split_concat(marker(), jw, '\n');
    lemma_split_concat(x1, marker(), '\n');
    lemma_split_concat(x2, b, '\n');
    assert(split_on(out, '\n') == seq![marker()] + w + seq![marker()] + split_on(b, '\n'));
    assert(!out.contains('\r')) by {
        if out.contains('\r') {
            let k = choose|k: int| 0 <= k < out.len() && out[k] == '\r';
            if k < 4 {
            } else if k < 4 + jw.len() {
                assert(jw[k - 4] == '\r');
                assert(jw.contains('\r'));
            } else if k < x2.len() + 1 {
            } else {
                assert(b[k - x2.len() - 1] == '\r');
            }
        }
    }
    lemma_text_lines_plain(out);
    lemma_text_lines_plain(b);
    crate::text::lemma_split_on_nonempty(b, '\n');
    if b.len() == 0 {
        assert(out.last() == '\n');
        assert(split_on(b, '\n') =~= seq![Seq::<char>::empty()]);
        assert((seq![marker()] + w + seq![marker()] + split_on(b, '\n')).drop_last() =~= seq![marker()] + w + seq![marker()]);
        assert(seq![marker()] + w + seq![marker()] + Seq::<Seq<char>>::empty() =~= seq![marker()] + w + seq![marker()]);
    } else {
        assert(out.last() == b.last());
        if b.last() == '\n' {
            assert((seq![marker()] + w + seq![marker()] + split_on(b, '\n')).drop_last() =~= seq![marker()] + w + seq![
                marker(),
            ] + split_on(b, '\n').drop_last());
        }
    }
    assert(marker() + seq!['\n'] + jw + seq!['\n'] + marker() + seq!['\n'] + b =~= out);
}

proof fn lemma_join_chars(w: Seq<Seq<char>>)
    requires
        forall|i: int| 0 <= i < w.len() ==> plain_line(#[trigger] w[i]),
    ensures
        !join(w, seq!['\n']).contains('\r'),
    decreases w.len(),
{
    if w.len() > 1 {
        let d = w.drop_last();
        assert forall|i: int| 0 <= i < d.len() implies plain_line(#[trigger] d[i]) by {
            assert(d[i] == w[i]);
        }
        lemma_join_chars(d);
        let jd = join(d, seq!['\n']);
        let j = join(w, seq!['\n']);
        assert(plain_line(w[w.len() - 1]));
        if j.contains('\r') {
            let k = choose|k: int| 0 <= k < j.len() && j[k] == '\r';
            if k < jd.len() {
                assert(jd[k] == '\r');
            } else if k > jd.len() {
                assert(w.last()[k - jd.len() - 1] == '\r');
                assert(w[w.len() - 1].contains('\r'));
            }
        }
    } else if w.len() == 1 {
        assert(plain_line(w[0]));
    }
}

/// `k` can be a frontmatter key: an ASCII letter followed by ASCII letters and digits.
pub open spec fn key_word(k: Seq<char>) -> bool {
    &&& k.len() > 0
    &&& is_ascii_alpha(k[0])
    &&& forall|i: int| 0 <= i < k.len() ==> is_ascii_alnum(#[trigger] k[i])
}

proof fn lemma_review_keys_words()
    ensures
        key_word(at_key()),
        key_word(commit_key()),
        at_key().len() == 14,
        commit_key().len() == 18,
        at_key()[12] == 'A',
        commit_key()[12] == 'C',
        forall|i: int| 0 <= i < 12 ==> at_key()[i] == commit_key()[i],
{
    reveal_strlit("lastReviewedAt");
    reveal_strlit("lastReviewedCommit");
}

/// A plain review line `k: v` of a key word `k` and a trimmed one-line value `v`: it
/// sets `k`, declares the key `k` with the value `v`, and is a plain line other than
/// the marker.
proof fn lemma_review_line(k: Seq<char>, v: Seq<char>)
    requires
        key_word(k),
        plain_line(v),
        trim(v) == v,
    ensures
        matches_key(review_line(k, v, false), k),
        line_key(review_line(k, v, false)) == Some(k),
        line_value(review_line(k, v, false)) == v,
        plain_line(review_line(k, v, false)),
        review_line(k, v, false) != marker(),
        has_prefix(trim_end(review_line(k, v, false)), k + seq![':']),
{
    reveal_strlit(": ");
    let rl = review_line(k, v, false);
    assert(rl =~= k + seq![':', ' '] + v);
    let n = k.len();
    assert(rl[n as int] == ':');
    assert(!is_white_space(':'));
    lemma_trim_end_shape(rl);
    let t = trim_end(rl);
    let j = choose|j: int| 0 <= j <= rl.len() && t == rl.take(j) && forall|m: int| j <= m < rl.len() ==> is_white_space(#[trigger] rl[m]);
    assert(j > n) by {
        if j <= n {
            assert(is_white_space(rl[n as int]));
        }
    }
    assert(t.take(n as int) =~= k);
    assert(t[n as int] == ':');
    assert(t.subrange(0, n + 1int) =~= k + seq![':']);
    // the key
    assert forall|i: int| 0 <= i < n implies is_ascii_alnum(#[trigger] t[i]) by {
        assert(t[i] == k[i]);
    }
    lemma_alnum_run_is(t, n as int);
    let rest = t.skip(n as int);
    assert(rest[0] == ':');
    lemma_space_run_is(rest, 0);
    assert(t[0] == k[0]);
    assert(line_key(rl) == Some(k));
    // matches the key
    assert(!is_white_space(rest[0]));
    assert(trim_start(rest) == rest);
    assert(matches_key(rl, k));
    // the value
    let x = rest.skip(1);
    if v.len() == 0 {
        assert(rl.len() == n + 2);
        assert(is_white_space(' '));
        assert(j == n + 1) by {
            if j == n + 2 {
                assert(rl.last() == ' ');
            }
        }
        assert(x.len() == 0);
        assert(trim_start(x) == x);
        assert(trim_end(x) == x);
        assert(x =~= v);
    } else {
        assert(v.last() == trim(v).last());
        lemma_trim_end_shape(trim_start(v));
        assert(!is_white_space(v.last())) by {
            lemma_trim_end_shape(trim_start(v));
        }
        assert(j == rl.len()) by {
            if j < rl.len() {
                assert(is_white_space(rl[rl.len() - 1]));
                assert(rl[rl.len() - 1] == v.last());
            }
        }
        assert(x =~= seq![' '] + v);
        assert(is_white_space(' '));
        assert(x.drop_first() =~= v);
        assert(trim_start(x) == trim_start(v));
        assert(trim(x) == trim(v));
    }
    // plain
    assert(!rl.contains('\n') && !rl.contains('\r')) by {
        if rl.contains('\n') || rl.contains('\r') {
            let m = choose|m: int| 0 <= m < rl.len() && (rl[m] == '\n' || rl[m] == '\r');
            if m < n {
                assert(rl[m] == k[m]);
                assert(is_ascii_alnum(k[m]));
            } else if m >= n + 2 {
                assert(rl[m] == v[m - n - 2]);
                assert(v.contains(rl[m]));
            }
        }
    }
    assert(rl[0] == k[0]);
    assert(marker()[0] == '-');
}

/// A line whose key is `k` sets `k`.
proof fn lemma_key_line_sets(l: Seq<char>, k: Seq<char>)
    requires
        line_key(l) == Some(k),
    ensures
        matches_key(l, k),
{
    let t = trim_end(l);
    let n = alnum_run(t);
    lemma_run_bounds(t);
    let rest = t.skip(n as int);
    let sp = space_run(rest);
    lemma_run_bounds(rest);
    assert(k == t.take(n as int));
    assert(t.subrange(0, k.len() as int) =~= k);
    assert(t.skip(k.len() as int) == rest);
    assert forall|i: int| 0 <= i < sp implies is_white_space(#[trigger] rest[i]) by {
        assert(rest[i] == ' ');
    }
    lemma_trim_start_skip(rest, sp as int);
    let r2 = rest.skip(sp as int);
    assert(r2[0] == ':');
    assert(!is_white_space(':'));
    assert(trim_start(r2) == r2);
}

/// A review value: one line, trimmed.
pub open spec fn review_value(v: Seq<char>) -> bool {
    plain_line(v) && trim(v) == v
}

proof fn lemma_review_lines_distinct(at: Seq<char>, commit: Seq<char>)
    requires
        review_value(at),
        review_value(commit),
    ensures
        matches_key(review_line(at_key(), at, false), at_key()),
        !matches_key(review_line(at_key(), at, false), commit_key()),
        matches_key(review_line(commit_key(), commit, false), commit_key()),
        !matches_key(review_line(commit_key(), commit, false), at_key()),
        line_key(review_line(at_key(), at, false)) == Some(at_key()),
        line_key(review_line(commit_key(), commit, false)) == Some(commit_key()),
        at_key() != commit_key(),
{
    lemma_review_keys_words();
    lemma_review_line(at_key(), at);
    lemma_review_line(commit_key(), commit);
    let ta = trim_end(review_line(at_key(), at, false));
    let tc = trim_end(review_line(commit_key(), commit, false));
    assert(ta.subrange(0, 15)[12] == 'A');
    if has_prefix(ta, commit_key()) {
        assert(ta.subrange(0, 18)[12] == commit_key()[12]);
    }
    assert(tc.subrange(0, 19)[12] == 'C');
    if has_prefix(tc, at_key()) {
        assert(tc.subrange(0, 14)[12] == at_key()[12]);
    }
    assert(at_key()[12] != commit_key()[12]);
}

proof fn lemma_review_index_bounds(lines: Seq<Seq<char>>)
    ensures
        last_review_index(lines) matches Some(i) ==> 0 <= i < lines.len(),
        header_block_len(lines) <= lines.len(),
    decreases lines.len(),
{
    if lines.len() > 0 {
        lemma_review_index_bounds(lines.drop_last());
    }
}

/// `e` is a line that `upsert` can give for the lines `l`: a rewritten line of `l` or
/// one of the two review lines.
pub open spec fn upsert_line(e: Seq<char>, l: Seq<Seq<char>>, at: Seq<char>, commit: Seq<char>) -> bool {
    ||| exists|i: int| 0 <= i < l.len() && e == #[trigger] replaced_line(l[i], at, commit, false)
    ||| e == review_line(at_key(), at, false)
    ||| e == review_line(commit_key(), commit, false)
}

proof fn lemma_upsert_shape(l: Seq<Seq<char>>, at: Seq<char>, commit: Seq<char>)
    requires
        review_value(at),
        review_value(commit),
    ensures
        forall|k: int| 0 <= k < upsert(l, at, commit, false).len() ==> upsert_line(
            #[trigger] upsert(l, at, commit, false)[k],
            l,
            at,
            commit,
        ),
        upsert(l, at, commit, false).contains(review_line(at_key(), at, false)),
        upsert(l, at, commit, false).contains(review_line(commit_key(), commit, false)),
{
    lemma_review_lines_distinct(at, commit);
    let ra = review_line(at_key(), at, false);
    let rc = review_line(commit_key(), commit, false);
    let replaced = l.map_values(|x: Seq<char>| replaced_line(x, at, commit, false));
    let m1: Seq<Seq<char>> = if any_sets(replaced, at_key()) { Seq::empty() } else { seq![ra] };
    let m2: Seq<Seq<char>> = if any_sets(replaced, commit_key()) { Seq::empty() } else { seq![rc] };
    let missing = m1 + m2;
    let w = upsert(l, at, commit, false);
    lemma_review_index_bounds(l);
    lemma_review_index_bounds(replaced);
    let k0: int = match last_review_index(l) {
        Some(i) => i + 1,
        None => header_block_len(replaced) as int,
    };
    assert(0 <= k0 <= replaced.len());
    // where each replaced line and each missing line lands in `w`
    assert(forall|i: int| 0 <= i < replaced.len() ==> w.contains(#[trigger] replaced[i])) by {
        assert forall|i: int| 0 <= i < replaced.len() implies w.contains(#[trigger] replaced[i]) by {
            if missing.len() == 0 {
                assert(w[i] == replaced[i]);
            } else if i < k0 {
                assert(w[i] == replaced[i]);
            } else {
                assert(w[i + missing.len()] == replaced[i]);
            }
        }
    }
    assert(forall|i: int| 0 <= i < missing.len() ==> w.contains(#[trigger] missing[i])) by {
        assert forall|i: int| 0 <= i < missing.len() implies w.contains(#[trigger] missing[i]) by {
            assert(w[k0 + i] == missing[i]);
        }
    }
    assert forall|k: int| 0 <= k < w.len() implies upsert_line(#[trigger] w[k], l, at, commit) by {
        if missing.len() == 0 {
            assert(w[k] == replaced[k]);
            assert(w[k] == replaced_line(l[k], at, commit, false));
        } else if k < k0 {
            assert(w[k] == replaced[k]);
            assert(w[k] == replaced_line(l[k], at, commit, false));
        } else if k < k0 + missing.len() {
            assert(w[k] == missing[k - k0]);
        } else {
            assert(w[k] == replaced[k - missing.len()]);
            assert(w[k] == replaced_line(l[k - missing.len()], at, commit, false));
        }
    }
    if any_sets(replaced, at_key()) {
        let i = choose|i: int| 0 <= i < replaced.len() && matches_key(#[trigger] replaced[i], at_key());
        assert(replaced[i] == ra);
        assert(w.contains(replaced[i]));
    } else {
        assert(missing[0] == ra);
        assert(w.contains(missing[0]));
    }
    if any_sets(replaced, commit_key()) {
        let i = choose|i: int| 0 <= i < replaced.len() && matches_key(#[trigger] replaced[i], commit_key());
        assert(replaced[i] == rc);
        assert(w.contains(replaced[i]));
    } else {
        assert(missing[missing.len() - 1] == rc);
        assert(w.contains(missing[missing.len() - 1]));
    }
}

proof fn lemma_upsert_idempotent(l: Seq<Seq<char>>, at: Seq<char>, commit: Seq<char>)
    requires
        review_value(at),
        review_value(commit),
    ensures
        upsert(upsert(l, at, commit, false), at, commit, false) == upsert(l, at, commit, false),
{
    lemma_review_lines_distinct(at, commit);
    lemma_upsert_shape(l, at, commit);
    let ra = review_line(at_key(), at, false);
    let rc = review_line(commit_key(), commit, false);
    let w = upsert(l, at, commit, false);
    let replaced = w.map_values(|x: Seq<char>| replaced_line(x, at, commit, false));
    assert forall|k: int| 0 <= k < w.len() implies #[trigger] replaced[k] == w[k] by {
        assert(upsert_line(w[k], l, at, commit));
        if exists|i: int| 0 <= i < l.len() && w[k] == #[trigger] replaced_line(l[i], at, commit, false) {
            let i = choose|i: int| 0 <= i < l.len() && w[k] == #[trigger] replaced_line(l[i], at, commit, false);
            let x = l[i];
            if matches_key(x, at_key()) {
            } else if matches_key(x, commit_key()) {
            } else {
            }
        }
    }
    assert(replaced =~= w);
    let ia = choose|ia: int| 0 <= ia < w.len() && w[ia] == ra;
    let ic = choose|ic: int| 0 <= ic < w.len() && w[ic] == rc;
    assert(matches_key(replaced[ia], at_key()));
    assert(matches_key(replaced[ic], commit_key()));
    assert(any_sets(replaced, at_key()));
    assert(any_sets(replaced, commit_key()));
}

/// Every line that `upsert` gives with the key `lastReviewedAt` is the review line of
/// `at`, and likewise for the commit.
proof fn lemma_upsert_keys(l: Seq<Seq<char>>, at: Seq<char>, commit: Seq<char>)
    requires
        review_value(at),
        review_value(commit),
    ensures
        forall|k: int|
            0 <= k < upsert(l, at, commit, false).len() && line_key(#[trigger] upsert(l, at, commit, false)[k])
                == Some(at_key()) ==> upsert(l, at, commit, false)[k] == review_line(at_key(), at, false),
        forall|k: int|
            0 <= k < upsert(l, at, commit, false).len() && line_key(#[trigger] upsert(l, at, commit, false)[k])
                == Some(commit_key()) ==> upsert(l, at, commit, false)[k] == review_line(commit_key(), commit, false),
{
    lemma_review_lines_distinct(at, commit);
    lemma_upsert_shape(l, at, commit);
    let w = upsert(l, at, commit, false);
    assert forall|k: int| 0 <= k < w.len() && line_key(#[trigger] w[k]) == Some(at_key()) implies w[k] == review_line(
        at_key(),
        at,
        false,
    ) by {
        assert(upsert_line(w[k], l, at, commit));
        lemma_key_line_sets(w[k], at_key());
    }
    assert forall|k: int| 0 <= k < w.len() && line_key(#[trigger] w[k]) == Some(commit_key()) implies w[k]
        == review_line(commit_key(), commit, false) by {
        assert(upsert_line(w[k], l, at, commit));
        lemma_key_line_sets(w[k], commit_key());
    }
}

proof fn lemma_key_listed(w: Seq<Seq<char>>, k: int, key: Seq<char>)
    requires
        0 <= k < w.len(),
        line_key(w[k]) == Some(key),
    ensures
        keys_of(w).contains(key),
    decreases w.len(),
{
    if k < w.len() - 1 {
        assert(w.drop_last()[k] == w[k]);
        lemma_key_listed(w.drop_last(), k, key);
        let d = keys_of(w.drop_last());
        let j = choose|j: int| 0 <= j < d.len() && d[j] == key;
        match line_key(w.last()) {
            Some(x) => assert(keys_of(w)[j] == key),
            None => {},
        }
    } else {
        assert(w.last() == w[k]);
        let r = keys_of(w);
        assert(r[r.len() - 1] == key);
    }
}

proof fn lemma_last_value_of_lines(w: Seq<Seq<char>>, key: Seq<char>, v: Seq<char>)
    requires
        exists|k: int| 0 <= k < w.len() && line_key(#[trigger] w[k]) == Some(key),
        forall|k: int| 0 <= k < w.len() && line_key(#[trigger] w[k]) == Some(key) ==> line_value(w[k]) == v,
    ensures
        last_value(pairs_of(w), key) == v,
    decreases w.len(),
{
    let d = w.drop_last();
    if line_key(w.last()) == Some(key) {
        assert(w.last() == w[w.len() - 1]);
        assert(pairs_of(w).last() == (key, line_value(w.last())));
    } else {
        let k = choose|k: int| 0 <= k < w.len() && line_key(#[trigger] w[k]) == Some(key);
        assert(k != w.len() - 1);
        assert(d[k] == w[k]);
        assert forall|j: int| 0 <= j < d.len() && line_key(#[trigger] d[j]) == Some(key) implies line_value(d[j]) == v by {
            assert(d[j] == w[j]);
        }
        lemma_last_value_of_lines(d, key, v);
        match line_key(w.last()) {
            Some(x) => {
                assert(pairs_of(w).last().0 == x);
                assert(pairs_of(w).drop_last() == pairs_of(d));
            },
            None => {},
        }
    }
}

proof fn lemma_first_marker_at(s: Seq<Seq<char>>, m: int)
    requires
        0 <= m < s.len(),
        s[m] == marker(),
        forall|k: int| 0 <= k < m ==> s[k] != marker(),
    ensures
        first_marker(s) == m,
{
    lemma_first_marker_bounds(s);
}

/// A document framed as `---`, the lines `w` that `upsert` gave, `---`, then `b`: its
/// frontmatter lines are `w`, and setting the same review values again changes nothing.
proof fn lemma_framed(l: Seq<Seq<char>>, at: Seq<char>, commit: Seq<char>, b: Seq<char>)
    requires
        review_value(at),
        review_value(commit),
        plain_front(l),
        !b.contains('\r'),
        b != seq!['\n'],
    ensures
        ({
            let w = upsert(l, at, commit, false);
            let out = framed(w, b);
            &&& !out.contains('\r')
            &&& header_lines(out) == w
            &&& apply_markdown(out, at, commit) == out
        }),
{
    lemma_review_lines_distinct(at, commit);
    lemma_review_keys_words();
    lemma_review_line(at_key(), at);
    lemma_review_line(commit_key(), commit);
    lemma_upsert_shape(l, at, commit);
    lemma_upsert_idempotent(l, at, commit);
    let w = upsert(l, at, commit, false);
    assert forall|i: int| 0 <= i < w.len() implies plain_line(#[trigger] w[i]) && w[i] != marker() by {
        assert(upsert_line(w[i], l, at, commit));
        if exists|j: int| 0 <= j < l.len() && w[i] == #[trigger] replaced_line(l[j], at, commit, false) {
            let j = choose|j: int| 0 <= j < l.len() && w[i] == #[trigger] replaced_line(l[j], at, commit, false);
            assert(plain_line(l[j]) && l[j] != marker());
        }
    }
    let ra = review_line(at_key(), at, false);
    assert(w.len() > 0) by {
        assert(w.contains(ra));
    }
    lemma_front_lines(w, b);
    let out = marker() + seq!['\n'] + join(w, seq!['\n']) + seq!['\n'] + marker() + seq!['\n'] + b;
    let tb = text_lines(b);
    let ls = seq![marker()] + w + seq![marker()] + tb;
    lemma_lf_plain(out);
    assert(normalized_lines(out) == ls);
    let rest = ls.skip(1);
    assert(rest =~= w + seq![marker()] + tb);
    assert forall|k: int| 0 <= k < w.len() implies rest[k] != marker() by {
        assert(rest[k] == w[k]);
    }
    assert(rest[w.len() as int] == marker());
    lemma_first_marker_at(rest, w.len() as int);
    assert(rest.take(w.len() as int) =~= w);
    assert(ls[0] == marker());
    assert(header_lines(out) == w);
    // setting the values again
    reveal_strlit("---\n");
    reveal_strlit("\n---");
    assert(has_prefix(out, "---\n"@)) by {
        assert(out.subrange(0, 4) =~= "---\n"@);
    }
    assert(text_lines(out).len() > 0);
    let m = first_marker(rest);
    let body0 = join(rest.skip(m + 1), seq!['\n']);
    assert(rest.skip(m + 1) =~= tb);
    let body = if out.last() == '\n' && body0.len() > 0 { body0.push('\n') } else { body0 };
    assert(split_front(out) == Some((w, body)));
    lemma_body_round_trip(b);
    if b.len() == 0 {
        assert(tb =~= Seq::<Seq<char>>::empty());
        assert(body0 =~= b);
    } else {
        assert(out.last() == b.last());
    }
    assert(body == b);
    assert(!contains_seq(out, seq!['\r', '\n'])) by {
        if contains_seq(out, seq!['\r', '\n']) {
            let i = choose|i: int| occurs_at(out, seq!['\r', '\n'], i);
            assert(out.subrange(i, i + 2)[0] == '\r');
            assert(out[i] == '\r');
        }
    }
    assert("---\n"@ + join(w, seq!['\n']) + "\n---"@ + seq!['\n'] + b =~= out);
}

/// A text without `\r`, other than a lone `\n`, is its lines joined again, with its
/// final newline when it has lines.
proof fn lemma_body_round_trip(b: Seq<char>)
    requires
        !b.contains('\r'),
        b != seq!['\n'],
    ensures
        ({
            let j = join(text_lines(b), seq!['\n']);
            b == if b.len() > 0 && b.last() == '\n' && j.len() > 0 { j.push('\n') } else { j }
        }),
{
    lemma_text_lines_plain(b);
    lemma_join_split(b, '\n');
    if b.len() > 0 && b.last() == '\n' {
        let d = b.drop_last();
        crate::text::lemma_split_on_nonempty(d, '\n');
        lemma_join_split(d, '\n');
        assert(split_on(b, '\n').drop_last() =~= split_on(d, '\n'));
        assert(d.push('\n') =~= b);
        if d.len() == 0 {
            assert(b =~= seq!['\n']);
        }
    } else if b.len() == 0 {
        assert(join(Seq::<Seq<char>>::empty(), seq!['\n']) =~= b);
    }
}

proof fn lemma_text_pieces(n: Seq<char>)
    requires
        !n.contains('\r'),
    ensures
        forall|i: int| 0 <= i < text_lines(n).len() ==> plain_line(#[trigger] text_lines(n)[i]),
{
    lemma_text_lines_plain(n);
    lemma_split_lacks(n, '\n');
    lemma_split_chars(n, '\n');
    assert forall|i: int| 0 <= i < text_lines(n).len() implies plain_line(#[trigger] text_lines(n)[i]) by {
        let piece = split_on(n, '\n')[i];
        assert(text_lines(n)[i] == piece);
        if piece.contains('\r') {
            let k = choose|k: int| 0 <= k < piece.len() && piece[k] == '\r';
            assert(n.contains(split_on(n, '\n')[i][k]));
        }
    }
}

/// `l` holds plain lines, none of them the marker.
pub open spec fn plain_front(l: Seq<Seq<char>>) -> bool {
    forall|i: int| 0 <= i < l.len() ==> plain_line(#[trigger] l[i]) && l[i] != marker()
}

/// `---`, the lines `w`, `---`, then `b`.
pub open spec fn framed(w: Seq<Seq<char>>, b: Seq<char>) -> Seq<char> {
    marker() + seq!['\n'] + join(w, seq!['\n']) + seq!['\n'] + marker() + seq!['\n'] + b
}

proof fn lemma_no_crlf(text: Seq<char>)
    requires
        !text.contains('\r'),
    ensures
        !contains_seq(text, seq!['\r', '\n']),
{
    if contains_seq(text, seq!['\r', '\n']) {
        let i = choose|i: int| occurs_at(text, seq!['\r', '\n'], i);
        assert(text.subrange(i, i + 2)[0] == '\r');
        assert(text[i] == '\r');
    }
}

proof fn lemma_frame_front(n: Seq<char>, front: Seq<Seq<char>>, body: Seq<char>)
    requires
        !n.contains('\r'),
        split_front(n) == Some((front, body)),
    ensures
        plain_front(front),
        !body.contains('\r'),
        body != seq!['\n'],
{
    let ls = text_lines(n);
    lemma_text_pieces(n);
    let rest = ls.skip(1);
    let m = first_marker(rest);
    lemma_first_marker_bounds(rest);
    assert(front == rest.take(m));
    assert forall|i: int| 0 <= i < front.len() implies plain_line(#[trigger] front[i]) && front[i] != marker() by {
        assert(front[i] == rest[i]);
        assert(rest[i] == ls[i + 1]);
    }
    let r0 = rest.skip(m + 1);
    assert forall|i: int| 0 <= i < r0.len() implies plain_line(#[trigger] r0[i]) by {
        assert(r0[i] == ls[i + m + 2]);
    }
    let body0 = join(r0, seq!['\n']);
    lemma_join_chars(r0);
    assert(!body.contains('\r')) by {
        if body.contains('\r') {
            let k = choose|k: int| 0 <= k < body.len() && body[k] == '\r';
            if k < body0.len() {
                assert(body0[k] == '\r');
            }
        }
    }
    if body == seq!['\n'] {
        assert(!(n.last() == '\n' && body0.len() > 0));
        assert(body0 == seq!['\n']);
        if r0.len() == 1 {
            assert(body0 == r0[0]);
            assert(r0[0][0] == '\n');
            assert(r0[0].contains('\n'));
        }
        assert(r0.len() >= 2);
        let jd = join(r0.drop_last(), seq!['\n']);
        assert(body0 == jd + seq!['\n'] + r0.last());
        assert(r0.last().len() == 0);
        assert(r0.last() == ls.last());
        lemma_split_last_empty(n, '\n');
        lemma_text_lines_plain(n);
        assert(n.len() > 0);
        assert(n.last() != '\n');
        assert(ls == split_on(n, '\n'));
    }
}

proof fn lemma_frame_none(text: Seq<char>, at: Seq<char>, commit: Seq<char>)
    requires
        !text.contains('\r'),
        review_value(at),
        review_value(commit),
        split_front(text) is None,
    ensures
        ({
            let b = if text.len() == 0 { Seq::<char>::empty() } else { seq!['\n'] + text };
            &&& !b.contains('\r')
            &&& b != seq!['\n']
            &&& apply_markdown(text, at, commit) == framed(upsert(Seq::empty(), at, commit, false), b)
        }),
{
    lemma_review_lines_distinct(at, commit);
    reveal_strlit("---\nlastReviewedAt: ");
    reveal_strlit("\nlastReviewedCommit: ");
    reveal_strlit("\n---");
    reveal_strlit("lastReviewedAt");
    reveal_strlit("lastReviewedCommit");
    reveal_strlit(": ");
    lemma_lf_plain(text);
    lemma_no_crlf(text);
    let n = text;
    let ra = review_line(at_key(), at, false);
    let rc = review_line(commit_key(), commit, false);
    let l = Seq::<Seq<char>>::empty();
    let b = if n.len() == 0 { Seq::<char>::empty() } else { seq!['\n'] + n };
    assert(!b.contains('\r')) by {
        if b.contains('\r') {
            let k = choose|k: int| 0 <= k < b.len() && b[k] == '\r';
            assert(n[k - 1] == '\r');
        }
    }
    if n.len() > 0 {
        assert(b.len() >= 2);
    }
    let replaced = l.map_values(|x: Seq<char>| replaced_line(x, at, commit, false));
    assert(replaced =~= Seq::<Seq<char>>::empty());
    assert(!any_sets(replaced, at_key()));
    assert(!any_sets(replaced, commit_key()));
    assert(upsert(l, at, commit, false) =~= seq![ra, rc]);
    assert(join(seq![ra, rc], seq!['\n']) == ra + seq!['\n'] + rc) by {
        assert(seq![ra, rc].drop_last() =~= seq![ra]);
        assert(join(seq![ra], seq!['\n']) == ra);
        assert(seq![ra, rc].last() == rc);
    }
    assert(apply_markdown(text, at, commit) =~= framed(upsert(l, at, commit, false), b));
}

proof fn lemma_frame_some(text: Seq<char>, at: Seq<char>, commit: Seq<char>, front: Seq<Seq<char>>, body: Seq<char>)
    requires
        !text.contains('\r'),
        split_front(text) == Some((front, body)),
    ensures
        apply_markdown(text, at, commit) == framed(upsert(front, at, commit, false), body),
{
    reveal_strlit("---\n");
    reveal_strlit("\n---");
    lemma_lf_plain(text);
    lemma_no_crlf(text);
    assert(apply_markdown(text, at, commit) =~= framed(upsert(front, at, commit, false), body));
}

/// The frontmatter and the whole result of setting the review values of a Markdown
/// document: when neither the document nor the values hold `\r`, and the values are
/// single trimmed lines, the result's frontmatter declares both review keys with
/// exactly these values, and setting the same values again changes nothing.
pub proof fn law_markdown_review_metadata_applied(text: Seq<char>, at: Seq<char>, commit: Seq<char>)
    requires
        !text.contains('\r'),
        review_value(at),
        review_value(commit),
    ensures
        ({
            let out = apply_markdown(text, at, commit);
            &&& missing_keys(review_metadata_keys(), header_keys(out)) == Seq::<Seq<char>>::empty()
            &&& last_value(header_pairs(out), at_key()) == at
            &&& last_value(header_pairs(out), commit_key()) == commit
            &&& apply_markdown(out, at, commit) == out
        }),
{
    lemma_review_keys_words();
    lemma_review_lines_distinct(at, commit);
    lemma_review_line(at_key(), at);
    lemma_review_line(commit_key(), commit);
    lemma_lf_plain(text);
    let l: Seq<Seq<char>>;
    let b: Seq<char>;
    match split_front(text) {
        Some((front, body)) => {
            lemma_frame_front(text, front, body);
            lemma_frame_some(text, at, commit, front, body);
            l = front;
            b = body;
        },
        None => {
            lemma_frame_none(text, at, commit);
            l = Seq::empty();
            b = if text.len() == 0 { Seq::<char>::empty() } else { seq!['\n'] + text };
        },
    }
    let ra = review_line(at_key(), at, false);
    let rc = review_line(commit_key(), commit, false);
    lemma_framed(l, at, commit, b);
    lemma_upsert_shape(l, at, commit);
    lemma_upsert_keys(l, at, commit);
    let w = upsert(l, at, commit, false);
    let out = apply_markdown(text, at, commit);
    assert(out == framed(w, b));
    assert(header_lines(out) == w);
    let ia = choose|ia: int| 0 <= ia < w.len() && w[ia] == ra;
    let ic = choose|ic: int| 0 <= ic < w.len() && w[ic] == rc;
    lemma_key_listed(w, ia, at_key());
    lemma_key_listed(w, ic, commit_key());
    assert(header_keys(out) == keys_of(w));
    reveal_strlit("lastReviewedAt");
    reveal_strlit("lastReviewedCommit");
    assert(review_metadata_keys() =~= seq![at_key(), commit_key()]);
    assert(review_metadata_keys().drop_last() =~= seq![at_key()]);
    assert(seq![at_key()].drop_last() =~= Seq::<Seq<char>>::empty());
    let present = header_keys(out);
    assert(present.contains(at_key()) && present.contains(commit_key()));
    let rk = review_metadata_keys();
    assert(rk.last() == commit_key());
    assert(missing_keys(rk, present) == missing_keys(rk.drop_last(), present));
    assert(rk.drop_last().last() == at_key());
    assert(missing_keys(rk.drop_last(), present) == missing_keys(rk.drop_last().drop_last(), present));
    assert(rk.drop_last().drop_last().len() == 0);
    assert(missing_keys(rk, present) =~= Seq::<Seq<char>>::empty());
    assert(line_key(w[ia]) == Some(at_key()));
    assert(line_key(w[ic]) == Some(commit_key()));
    lemma_last_value_of_lines(w, at_key(), at);
    lemma_last_value_of_lines(w, commit_key(), commit);
}

} // verus!
