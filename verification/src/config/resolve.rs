//! Resolution of the blocks a child config inherits from a workspace profile: the
//! scoped pattern blocks, freshness thresholds and routing intents.
use vstd::prelude::*;
use crate::config::model::{
    BlockResolution, BlockResolutionView, ConfigBlockSourceKind, CoverageConfig, DocInventoryConfig,
    FreshnessConfig, FreshnessOverride, OverrideMode, RoutingConfig, RoutingIntent, RoutingOverride,
    ScopedPatternOverride, ScopedView,
};
use crate::config::blocks::intent_views;
use crate::config::paths::{normalize_path, normalized};
use crate::text::{
    chars_eq, chars_lt, chars_of, lemma_seq_lt_irreflexive, lemma_seq_lt_transitive,
    lemma_seq_lt_trichotomy, lemma_sorted_set_is, lemma_sorted_set_unique, seq_lt, sorted_set,
    sorted_unique_strings, str_to_string, strictly_sorted, trim, trim_string, views,
};

verus! {

/// The name of an override mode.
pub open spec fn override_mode_name(m: OverrideMode) -> Seq<char> {
    match m {
        OverrideMode::Merge => "merge"@,
        OverrideMode::Replace => "replace"@,
    }
}

impl OverrideMode {
    /// The name of the mode as written in config files.
    pub fn as_str(self) -> (s: &'static str)
        ensures
            s@ == override_mode_name(self),
    {
        proof {
            reveal_strlit("merge");
            reveal_strlit("replace");
        }
        match self {
            OverrideMode::Merge => "merge",
            OverrideMode::Replace => "replace",
        }
    }
}

/// Every pattern of `s` normalized.
pub open spec fn normalized_all(s: Seq<Seq<char>>) -> Seq<Seq<char>> {
    s.map_values(|p: Seq<char>| normalized(p))
}

fn normalize_all(patterns: &Vec<String>, out: &mut Vec<String>)
    ensures
        views(final(out)@) == views(old(out)@) + normalized_all(views(patterns@)),
{
    let ghost base = views(out@);
    let ghost pv = views(patterns@);
    let mut i: usize = 0;
    while i < patterns.len()
        invariant
            i <= patterns.len(),
            pv == views(patterns@),
            views(out@) == base + normalized_all(pv.take(i as int)),
        decreases patterns.len() - i,
    {
        let ghost prev = views(out@);
        out.push(normalize_path(patterns[i].as_str()));
        proof {
            assert(views(out@) =~= prev.push(normalized(pv[i as int])));
            assert(normalized_all(pv.take(i + 1)) =~= normalized_all(pv.take(i as int)).push(normalized(pv[i as int])));
        }
        i += 1;
    }
    proof {
        assert(pv.take(patterns.len() as int) =~= pv);
    }
}

/// The patterns normalized, sorted and without repeats.
pub fn sorted_unique_patterns(patterns: &Vec<String>) -> (r: Vec<String>)
    ensures
        views(r@) == sorted_set(normalized_all(views(patterns@))),
{
    let mut v: Vec<String> = Vec::new();
    normalize_all(patterns, &mut v);
    proof {
        assert(views(v@) =~= normalized_all(views(patterns@)));
    }
    let ghost vv = views(v@);
    let r = sorted_unique_strings(v);
    proof {
        lemma_sorted_set_is(views(r@), vv);
    }
    r
}

/// The patterns of both lists normalized, sorted and without repeats.
pub fn merge_patterns(left: &Vec<String>, right: &Vec<String>) -> (r: Vec<String>)
    ensures
        views(r@) == sorted_set(normalized_all(views(left@) + views(right@))),
{
    let mut v: Vec<String> = Vec::new();
    normalize_all(left, &mut v);
    normalize_all(right, &mut v);
    proof {
        assert(views(v@) =~= normalized_all(views(left@) + views(right@)));
    }
    let ghost vv = views(v@);
    let r = sorted_unique_strings(v);
    proof {
        lemma_sorted_set_is(views(r@), vv);
    }
    r
}

/// A block resolution.
pub open spec fn resolution(kind: ConfigBlockSourceKind, profile: Seq<char>, mode: Option<Seq<char>>) -> BlockResolutionView {
    BlockResolutionView { origin_kind: kind, workspace_profile: Some(profile), mode }
}

/// The view of a scoped override: its mode and patterns.
pub open spec fn scoped_override_view(o: ScopedPatternOverride) -> (OverrideMode, Seq<Seq<char>>, Seq<Seq<char>>) {
    (o.mode, views(o.includes@), views(o.exclude@))
}

/// How an inherited include/exclude block combines with an override: `replace` takes
/// the override's patterns, `merge` unites both; without an override the inherited
/// block stays as it is, and without either the block is empty.
pub open spec fn resolve_scoped(
    inherited: Option<ScopedView>,
    ov: Option<(OverrideMode, Seq<Seq<char>>, Seq<Seq<char>>)>,
    profile: Seq<char>,
) -> (ScopedView, BlockResolutionView) {
    match ov {
        Some((OverrideMode::Replace, inc, exc)) => (
            ScopedView { includes: sorted_set(normalized_all(inc)), exclude: sorted_set(normalized_all(exc)) },
            resolution(ConfigBlockSourceKind::OverrideReplace, profile, Some("replace"@)),
        ),
        Some((OverrideMode::Merge, inc, exc)) => {
            let base = match inherited {
                Some(b) => b,
                None => ScopedView { includes: Seq::empty(), exclude: Seq::empty() },
            };
            (
                ScopedView {
                    includes: sorted_set(normalized_all(base.includes + inc)),
                    exclude: sorted_set(normalized_all(base.exclude + exc)),
                },
                resolution(ConfigBlockSourceKind::OverrideMerge, profile, Some("merge"@)),
            )
        },
        None => match inherited {
            Some(b) => (b, resolution(ConfigBlockSourceKind::WorkspaceProfile, profile, None)),
            None => (
                ScopedView { includes: Seq::empty(), exclude: Seq::empty() },
                resolution(ConfigBlockSourceKind::Default, profile, None),
            ),
        },
    }
}

fn resolve_lists(
    inherited: Option<(&Vec<String>, &Vec<String>)>,
    override_block: Option<&ScopedPatternOverride>,
    profile_name: &str,
) -> (r: (Vec<String>, Vec<String>, BlockResolution))
    ensures
        ({
            let inh = match inherited {
                Some(p) => Some(ScopedView { includes: views(p.0@), exclude: views(p.1@) }),
                None => None,
            };
            let ov = match override_block {
                Some(o) => Some(scoped_override_view(*o)),
                None => None,
            };
            let expected = resolve_scoped(inh, ov, profile_name@);
            &&& views(r.0@) == expected.0.includes
            &&& views(r.1@) == expected.0.exclude
            &&& r.2@ == expected.1
        }),
{
    let profile = Some(str_to_string(profile_name));
    match override_block {
        Some(o) => {
            let mode = Some(str_to_string(o.mode.as_str()));
            match o.mode {
                OverrideMode::Replace => {
                    let inc = sorted_unique_patterns(&o.includes);
                    let exc = sorted_unique_patterns(&o.exclude);
                    (inc, exc, BlockResolution { origin_kind: ConfigBlockSourceKind::OverrideReplace, workspace_profile: profile, mode })
                },
                OverrideMode::Merge => {
                    let empty: Vec<String> = Vec::new();
                    let (bi, be) = match inherited {
                        Some(p) => p,
                        None => (&empty, &empty),
                    };
                    proof {
                        assert(views(empty@) =~= Seq::<Seq<char>>::empty());
                    }
                    let inc = merge_patterns(bi, &o.includes);
                    let exc = merge_patterns(be, &o.exclude);
                    (inc, exc, BlockResolution { origin_kind: ConfigBlockSourceKind::OverrideMerge, workspace_profile: profile, mode })
                },
            }
        },
        None => match inherited {
            Some(p) => {
                let inc = p.0.clone();
                let exc = p.1.clone();
                proof {
                    assert(views(inc@) =~= views(p.0@));
                    assert(views(exc@) =~= views(p.1@));
                }
                (inc, exc, BlockResolution { origin_kind: ConfigBlockSourceKind::WorkspaceProfile, workspace_profile: profile, mode: None })
            },
            None => {
                let inc: Vec<String> = Vec::new();
                let exc: Vec<String> = Vec::new();
                proof {
                    assert(views(inc@) =~= Seq::<Seq<char>>::empty());
                    assert(views(exc@) =~= Seq::<Seq<char>>::empty());
                }
                (inc, exc, BlockResolution { origin_kind: ConfigBlockSourceKind::Default, workspace_profile: profile, mode: None })
            },
        },
    }
}

/// The effective coverage block of a child config, as `resolve_scoped` says.
pub fn resolve_scoped_patterns(
    inherited: Option<&CoverageConfig>,
    override_block: Option<&ScopedPatternOverride>,
    profile_name: &str,
) -> (r: (CoverageConfig, BlockResolution))
    ensures
        ({
            let inh = match inherited {
                Some(c) => Some(c@),
                None => None,
            };
            let ov = match override_block {
                Some(o) => Some(scoped_override_view(*o)),
                None => None,
            };
            (r.0@, r.1@) == resolve_scoped(inh, ov, profile_name@)
        }),
{
    let lists = match inherited {
        Some(c) => Some((&c.includes, &c.exclude)),
        None => None,
    };
    let (includes, exclude, res) = resolve_lists(lists, override_block, profile_name);
    (CoverageConfig { includes, exclude }, res)
}

/// The effective doc inventory block of a child config, as `resolve_scoped` says.
pub fn resolve_doc_inventory(
    inherited: Option<&DocInventoryConfig>,
    override_block: Option<&ScopedPatternOverride>,
    profile_name: &str,
) -> (r: (DocInventoryConfig, BlockResolution))
    ensures
        ({
            let inh = match inherited {
                Some(c) => Some(c@),
                None => None,
            };
            let ov = match override_block {
                Some(o) => Some(scoped_override_view(*o)),
                None => None,
            };
            (r.0@, r.1@) == resolve_scoped(inh, ov, profile_name@)
        }),
{
    let lists = match inherited {
        Some(c) => Some((&c.includes, &c.exclude)),
        None => None,
    };
    let (includes, exclude, res) = resolve_lists(lists, override_block, profile_name);
    (DocInventoryConfig { includes, exclude }, res)
}

/// The thresholds used when no freshness block is given.
pub open spec fn default_freshness() -> FreshnessConfig {
    FreshnessConfig { warn_after_commits: 50, warn_after_days: 90, critical_after_days: 180 }
}

impl Default for FreshnessConfig {
    /// The default thresholds: 50 commits, 90 days to warn, 180 days to be critical.
    fn default() -> (r: FreshnessConfig)
        ensures
            r == default_freshness(),
    {
        FreshnessConfig { warn_after_commits: 50, warn_after_days: 90, critical_after_days: 180 }
    }
}

/// How inherited freshness thresholds combine with an override: only `replace` is
/// accepted, and it takes the override's thresholds.
pub open spec fn resolve_fresh(
    inherited: Option<FreshnessConfig>,
    ov: Option<FreshnessOverride>,
    profile: Seq<char>,
) -> Result<(FreshnessConfig, BlockResolutionView), Seq<char>> {
    match ov {
        Some(o) => if o.mode != OverrideMode::Replace {
            Err("freshness overrides only support `mode: replace` in the first inheritance release"@)
        } else {
            Ok(
                (
                    FreshnessConfig {
                        warn_after_commits: o.warn_after_commits,
                        warn_after_days: o.warn_after_days,
                        critical_after_days: o.critical_after_days,
                    },
                    resolution(ConfigBlockSourceKind::OverrideReplace, profile, Some("replace"@)),
                ),
            )
        },
        None => match inherited {
            Some(f) => Ok((f, resolution(ConfigBlockSourceKind::WorkspaceProfile, profile, None))),
            None => Ok((default_freshness(), resolution(ConfigBlockSourceKind::Default, profile, None))),
        },
    }
}

/// The effective freshness block of a child config, as `resolve_fresh` says.
pub fn resolve_freshness(
    inherited: Option<&FreshnessConfig>,
    override_block: Option<&FreshnessOverride>,
    profile_name: &str,
) -> (r: Result<(FreshnessConfig, BlockResolution), String>)
    ensures
        ({
            let inh = match inherited {
                Some(f) => Some(*f),
                None => None,
            };
            let ov = match override_block {
                Some(o) => Some(*o),
                None => None,
            };
            match r {
                Ok(p) => resolve_fresh(inh, ov, profile_name@) == Ok::<(FreshnessConfig, BlockResolutionView), Seq<char>>((p.0, p.1@)),
                Err(e) => resolve_fresh(inh, ov, profile_name@) == Err::<(FreshnessConfig, BlockResolutionView), Seq<char>>(e@),
            }
        }),
{
    let profile = Some(str_to_string(profile_name));
    match override_block {
        Some(o) => match o.mode {
            OverrideMode::Merge => Err(
                str_to_string("freshness overrides only support `mode: replace` in the first inheritance release"),
            ),
            OverrideMode::Replace => {
                let f = FreshnessConfig {
                    warn_after_commits: o.warn_after_commits,
                    warn_after_days: o.warn_after_days,
                    critical_after_days: o.critical_after_days,
                };
                let mode = Some(str_to_string(o.mode.as_str()));
                Ok((f, BlockResolution { origin_kind: ConfigBlockSourceKind::OverrideReplace, workspace_profile: profile, mode }))
            },
        },
        None => match inherited {
            Some(f) => Ok((*f, BlockResolution { origin_kind: ConfigBlockSourceKind::WorkspaceProfile, workspace_profile: profile, mode: None })),
            None => Ok((FreshnessConfig::default(), BlockResolution { origin_kind: ConfigBlockSourceKind::Default, workspace_profile: profile, mode: None })),
        },
    }
}

/// The map of alias to paths a list of intents describes; a later entry for an alias
/// replaces an earlier one.
pub open spec fn intents_map(s: Seq<(Seq<char>, Seq<Seq<char>>)>) -> Map<Seq<char>, Seq<Seq<char>>>
    decreases s.len(),
{
    if s.len() == 0 {
        Map::empty()
    } else {
        intents_map(s.drop_last()).insert(s.last().0, s.last().1)
    }
}

/// The aliases of a list of intents are strictly increasing.
pub open spec fn keys_sorted(s: Seq<(Seq<char>, Seq<Seq<char>>)>) -> bool {
    forall|i: int, j: int| 0 <= i < j < s.len() ==> seq_lt(#[trigger] s[i].0, #[trigger] s[j].0)
}

/// The aliases of a list of intents.
pub open spec fn alias_list(s: Seq<(Seq<char>, Seq<Seq<char>>)>) -> Seq<Seq<char>> {
    s.map_values(|e: (Seq<char>, Seq<Seq<char>>)| e.0)
}

/// `m` with the intents of `s` inserted in order, each alias trimmed and its paths
/// normalized, sorted and without repeats.
pub open spec fn normalized_onto(
    m: Map<Seq<char>, Seq<Seq<char>>>,
    s: Seq<(Seq<char>, Seq<Seq<char>>)>,
) -> Map<Seq<char>, Seq<Seq<char>>>
    decreases s.len(),
{
    if s.len() == 0 {
        m
    } else {
        normalized_onto(m, s.drop_last()).insert(trim(s.last().0), sorted_set(normalized_all(s.last().1)))
    }
}

/// The intents of `s` normalized: trimmed aliases, normalized sorted paths.
pub open spec fn normalized_intents(s: Seq<(Seq<char>, Seq<Seq<char>>)>) -> Map<Seq<char>, Seq<Seq<char>>> {
    normalized_onto(Map::empty(), s)
}

/// In a list with strictly increasing aliases, each entry is what the map holds for
/// its alias, and the map holds nothing else.
pub proof fn lemma_intents_map_sorted(s: Seq<(Seq<char>, Seq<Seq<char>>)>)
    requires
        keys_sorted(s),
    ensures
        forall|i: int| 0 <= i < s.len() ==> #[trigger] intents_map(s).contains_key(s[i].0) && intents_map(s)[s[i].0] == s[i].1,
        forall|k: Seq<char>| #[trigger] intents_map(s).contains_key(k) ==> alias_list(s).contains(k),
    decreases s.len(),
{
    if s.len() > 0 {
        let d = s.drop_last();
        assert(keys_sorted(d)) by {
            assert forall|i: int, j: int| 0 <= i < j < d.len() implies seq_lt(#[trigger] d[i].0, #[trigger] d[j].0) by {
                assert(d[i] == s[i] && d[j] == s[j]);
            }
        }
        lemma_intents_map_sorted(d);
        let x = s.last();
        assert forall|i: int| 0 <= i < s.len() implies #[trigger] intents_map(s).contains_key(s[i].0) && intents_map(s)[s[i].0] == s[i].1 by {
            if i < s.len() - 1 {
                assert(s[i] == d[i]);
                assert(intents_map(d).contains_key(d[i].0));
                assert(seq_lt(s[i].0, x.0));
                lemma_seq_lt_irreflexive(x.0);
            } else {
                assert(s[i] == x);
            }
        }
        assert forall|k: Seq<char>| #[trigger] intents_map(s).contains_key(k) implies alias_list(s).contains(k) by {
            if k == x.0 {
                assert(alias_list(s)[s.len() - 1] == k);
            } else {
                assert(intents_map(d).contains_key(k));
                let j = choose|j: int| 0 <= j < alias_list(d).len() && alias_list(d)[j] == k;
                assert(alias_list(s)[j] == k);
            }
        }
    }
}

/// Two lists with strictly increasing aliases that describe the same map are equal:
/// the sorted listing of a routing map is unique.
pub proof fn lemma_sorted_intents_unique(a: Seq<(Seq<char>, Seq<Seq<char>>)>, b: Seq<(Seq<char>, Seq<Seq<char>>)>)
    requires
        keys_sorted(a),
        keys_sorted(b),
        intents_map(a) == intents_map(b),
    ensures
        a == b,
{
    lemma_intents_map_sorted(a);
    lemma_intents_map_sorted(b);
    let ka = alias_list(a);
    let kb = alias_list(b);
    assert(strictly_sorted(ka)) by {
        assert forall|i: int, j: int| 0 <= i < j < ka.len() implies seq_lt(#[trigger] ka[i], #[trigger] ka[j]) by {
            assert(ka[i] == a[i].0 && ka[j] == a[j].0);
        }
    }
    assert(strictly_sorted(kb)) by {
        assert forall|i: int, j: int| 0 <= i < j < kb.len() implies seq_lt(#[trigger] kb[i], #[trigger] kb[j]) by {
            assert(kb[i] == b[i].0 && kb[j] == b[j].0);
        }
    }
    assert forall|x: Seq<char>| ka.contains(x) <==> kb.contains(x) by {
        if ka.contains(x) {
            let i = choose|i: int| 0 <= i < ka.len() && ka[i] == x;
            assert(intents_map(a).contains_key(a[i].0));
        }
        if kb.contains(x) {
            let i = choose|i: int| 0 <= i < kb.len() && kb[i] == x;
            assert(intents_map(b).contains_key(b[i].0));
        }
    }
    lemma_sorted_set_unique(ka, kb);
    assert forall|i: int| 0 <= i < a.len() implies a[i] == b[i] by {
        assert(ka[i] == kb[i]);
        assert(intents_map(a).contains_key(a[i].0));
        assert(intents_map(b).contains_key(b[i].0));
        assert(intents_map(a)[a[i].0] == a[i].1);
        assert(intents_map(b)[b[i].0] == b[i].1);
    }
    assert(a =~= b);
}

/// Sets the paths of `alias` in a list of intents sorted by alias, keeping it sorted.
fn insert_intent(v: &mut Vec<(String, RoutingIntent)>, alias: String, intent: RoutingIntent)
    requires
        keys_sorted(intent_views(old(v)@)),
    ensures
        keys_sorted(intent_views(final(v)@)),
        intents_map(intent_views(final(v)@)) == intents_map(intent_views(old(v)@)).insert(alias@, intent@),
{
    let ghost s = intent_views(v@);
    let ghost a = alias@;
    let ghost x = intent@;
    proof {
        lemma_intents_map_sorted(s);
    }
    let av = chars_of(alias.as_str());
    let mut i: usize = 0;
    while i < v.len() && chars_lt(&chars_of(v[i].0.as_str()), &av)
        invariant
            i <= v.len(),
            s == intent_views(v@),
            av@ == a,
            forall|k: int| 0 <= k < i ==> seq_lt(#[trigger] s[k].0, a),
        decreases v.len() - i,
    {
        i += 1;
    }
    let replace = i < v.len() && chars_eq(&chars_of(v[i].0.as_str()), &av);
    let ghost ii = i as int;
    if replace {
        v.remove(i);
    }
    v.insert(i, (alias, intent));
    proof {
        let t = intent_views(v@);
        if replace {
            assert(t =~= s.update(ii, (a, x)));
        } else {
            assert(t =~= s.insert(ii, (a, x)));
        }
        // everything from position i on is not below the alias
        assert forall|k: int| ii <= k < s.len() implies (s[k].0 == a && k == ii) || seq_lt(a, #[trigger] s[k].0) by {
            if k == ii {
                assert(!seq_lt(s[k].0, a));
                lemma_seq_lt_trichotomy(s[k].0, a);
            } else {
                assert(seq_lt(s[ii].0, s[k].0));
                assert(!seq_lt(s[ii].0, a));
                lemma_seq_lt_trichotomy(s[ii].0, a);
                if s[ii].0 != a {
                    lemma_seq_lt_transitive(a, s[ii].0, s[k].0);
                }
            }
        }
        assert(keys_sorted(t)) by {
            assert forall|p: int, q: int| 0 <= p < q < t.len() implies seq_lt(#[trigger] t[p].0, #[trigger] t[q].0) by {
                if replace {
                    if p == ii {
                        assert(seq_lt(s[ii].0, s[q].0));
                    } else if q == ii {
                        assert(seq_lt(s[p].0, s[ii].0));
                    } else {
                        assert(seq_lt(s[p].0, s[q].0));
                    }
                } else {
                    if p == ii {
                        assert(seq_lt(a, s[q - 1].0) || (s[q - 1].0 == a && q - 1 == ii));
                        if s[q - 1].0 == a && q - 1 == ii {
                            assert(false);
                        }
                    } else if q == ii {
                        assert(seq_lt(s[p].0, a));
                    } else if p < ii && q > ii {
                        assert(seq_lt(s[p].0, s[q - 1].0));
                    } else if p > ii {
                        assert(seq_lt(s[p - 1].0, s[q - 1].0));
                    } else {
                        assert(seq_lt(s[p].0, s[q].0));
                    }
                }
            }
        }
        lemma_intents_map_sorted(t);
        let m = intents_map(s).insert(a, x);
        assert forall|k: Seq<char>| #[trigger] intents_map(t).contains_key(k) <==> m.contains_key(k) by {
            if intents_map(t).contains_key(k) {
                let j = choose|j: int| 0 <= j < alias_list(t).len() && alias_list(t)[j] == k;
                if k != a {
                    if replace {
                        assert(t[j] == s[j]);
                    } else if j < ii {
                        assert(t[j] == s[j]);
                    } else {
                        assert(t[j] == s[j - 1]);
                    }
                }
            }
            if m.contains_key(k) && k != a {
                let j = choose|j: int| 0 <= j < alias_list(s).len() && alias_list(s)[j] == k;
                if replace || j < ii {
                    assert(t[j] == s[j]);
                } else {
                    assert(t[j + 1] == s[j]);
                }
            }
            if k == a {
                assert(t[ii].0 == a);
            }
        }
        assert forall|k: Seq<char>| #[trigger] intents_map(t).contains_key(k) implies intents_map(t)[k] == m[k] by {
            let j = choose|j: int| 0 <= j < alias_list(t).len() && alias_list(t)[j] == k;
            if k != a {
                if replace || j < ii {
                    assert(t[j] == s[j]);
                } else {
                    assert(t[j] == s[j - 1]);
                }
            } else {
                assert(t[ii].0 == a);
            }
        }
        assert(intents_map(t) =~= m);
    }
}

fn insert_all(v: &mut Vec<(String, RoutingIntent)>, intents: &Vec<(String, RoutingIntent)>, normalize: bool)
    requires
        keys_sorted(intent_views(old(v)@)),
    ensures
        keys_sorted(intent_views(final(v)@)),
        intents_map(intent_views(final(v)@)) == if normalize {
            normalized_onto(intents_map(intent_views(old(v)@)), intent_views(intents@))
        } else {
            intents_map(intent_views(old(v)@)) .union_prefer_right(intents_map(intent_views(intents@)))
        },
{
    let ghost m0 = intents_map(intent_views(v@));
    let ghost iv = intent_views(intents@);
    let mut i: usize = 0;
    while i < intents.len()
        invariant
            i <= intents.len(),
            iv == intent_views(intents@),
            keys_sorted(intent_views(v@)),
            intents_map(intent_views(v@)) == if normalize {
                normalized_onto(m0, iv.take(i as int))
            } else {
                m0.union_prefer_right(intents_map(iv.take(i as int)))
            },
        decreases intents.len() - i,
    {
        proof {
            assert(iv.take(i + 1).drop_last() =~= iv.take(i as int));
            assert(iv.take(i + 1).last() == iv[i as int]);
        }
        let (alias, intent) = (&intents[i].0, &intents[i].1);
        if normalize {
            let key = trim_string(alias.as_str());
            let paths = sorted_unique_patterns(&intent.paths);
            insert_intent(v, key, RoutingIntent { paths });
        } else {
            let paths = intent.paths.clone();
            proof {
                assert(views(paths@) =~= views(intent.paths@));
            }
            insert_intent(v, alias.clone(), RoutingIntent { paths });
            proof {
                let a = m0.union_prefer_right(intents_map(iv.take(i as int)));
                assert(a.insert(iv[i as int].0, iv[i as int].1) =~= m0.union_prefer_right(intents_map(iv.take(i + 1))));
            }
        }
        i += 1;
    }
    proof {
        assert(iv.take(intents.len() as int) =~= iv);
    }
}

/// The intents with trimmed aliases and normalized, sorted paths, listed by alias.
pub fn normalize_routing_intents(intents: &Vec<(String, RoutingIntent)>) -> (r: Vec<(String, RoutingIntent)>)
    ensures
        keys_sorted(intent_views(r@)),
        intents_map(intent_views(r@)) == normalized_intents(intent_views(intents@)),
{
    let mut r: Vec<(String, RoutingIntent)> = Vec::new();
    proof {
        assert(intent_views(r@) =~= Seq::<(Seq<char>, Seq<Seq<char>>)>::empty());
        assert(intents_map(intent_views(r@)) =~= Map::<Seq<char>, Seq<Seq<char>>>::empty());
    }
    insert_all(&mut r, intents, true);
    r
}

/// The view of a routing override: its mode and intents.
pub open spec fn routing_override_view(o: RoutingOverride) -> (OverrideMode, Seq<(Seq<char>, Seq<Seq<char>>)>) {
    (o.mode, intent_views(o.intents@))
}

/// How inherited routing combines with an override: `replace` takes the override's
/// intents, `merge` sets each override intent over the inherited ones; without an
/// override the inherited intents stay, normalized; without either there are none.
pub open spec fn resolve_route(
    inherited: Option<Seq<(Seq<char>, Seq<Seq<char>>)>>,
    ov: Option<(OverrideMode, Seq<(Seq<char>, Seq<Seq<char>>)>)>,
    profile: Seq<char>,
) -> (Map<Seq<char>, Seq<Seq<char>>>, BlockResolutionView) {
    match ov {
        Some((OverrideMode::Replace, s)) => (
            normalized_intents(s),
            resolution(ConfigBlockSourceKind::OverrideReplace, profile, Some("replace"@)),
        ),
        Some((OverrideMode::Merge, s)) => {
            let base = match inherited {
                Some(i) => intents_map(i),
                None => Map::empty(),
            };
            (normalized_onto(base, s), resolution(ConfigBlockSourceKind::OverrideMerge, profile, Some("merge"@)))
        },
        None => match inherited {
            Some(i) => (normalized_intents(i), resolution(ConfigBlockSourceKind::WorkspaceProfile, profile, None)),
            None => (Map::empty(), resolution(ConfigBlockSourceKind::Default, profile, None)),
        },
    }
}

/// The effective routing block of a child config: its intents listed by alias and
/// holding the map `resolve_route` gives.
pub fn resolve_routing(
    inherited: Option<&RoutingConfig>,
    override_block: Option<&RoutingOverride>,
    profile_name: &str,
) -> (r: (RoutingConfig, BlockResolution))
    ensures
        ({
            let inh = match inherited {
                Some(c) => Some(c@),
                None => None,
            };
            let ov = match override_block {
                Some(o) => Some(routing_override_view(*o)),
                None => None,
            };
            let expected = resolve_route(inh, ov, profile_name@);
            &&& keys_sorted(r.0@)
            &&& intents_map(r.0@) == expected.0
            &&& r.1@ == expected.1
        }),
{
    let profile = Some(str_to_string(profile_name));
    match override_block {
        Some(o) => {
            let mode = Some(str_to_string(o.mode.as_str()));
            match o.mode {
                OverrideMode::Replace => {
                    let intents = normalize_routing_intents(&o.intents);
                    let res = BlockResolution { origin_kind: ConfigBlockSourceKind::OverrideReplace, workspace_profile: profile, mode };
                    (RoutingConfig { intents }, res)
                },
                OverrideMode::Merge => {
                    let mut merged: Vec<(String, RoutingIntent)> = Vec::new();
                    proof {
                        assert(intent_views(merged@) =~= Seq::<(Seq<char>, Seq<Seq<char>>)>::empty());
                        assert(intents_map(intent_views(merged@)) =~= Map::<Seq<char>, Seq<Seq<char>>>::empty());
                    }
                    match inherited {
                        Some(c) => {
                            insert_all(&mut merged, &c.intents, false);
                            proof {
                                assert(Map::<Seq<char>, Seq<Seq<char>>>::empty().union_prefer_right(intents_map(c@)) =~= intents_map(c@));
                            }
                        },
                        None => {},
                    }
                    insert_all(&mut merged, &o.intents, true);
                    let res = BlockResolution { origin_kind: ConfigBlockSourceKind::OverrideMerge, workspace_profile: profile, mode };
                    (RoutingConfig { intents: merged }, res)
                },
            }
        },
        None => match inherited {
            Some(c) => {
                let intents = normalize_routing_intents(&c.intents);
                (RoutingConfig { intents }, BlockResolution { origin_kind: ConfigBlockSourceKind::WorkspaceProfile, workspace_profile: profile, mode: None })
            },
            None => {
                let intents: Vec<(String, RoutingIntent)> = Vec::new();
                proof {
                    assert(intent_views(intents@) =~= Seq::<(Seq<char>, Seq<Seq<char>>)>::empty());
                    assert(intents_map(intent_views(intents@)) =~= Map::<Seq<char>, Seq<Seq<char>>>::empty());
                }
                (RoutingConfig { intents }, BlockResolution { origin_kind: ConfigBlockSourceKind::Default, workspace_profile: profile, mode: None })
            },
        },
    }
}

} // verus!
