//! Cleanup profiles: which targets are enabled and with which thresholds.
use vstd::prelude::*;
use crate::text::{chars_of, clone_opt_string, owned, same_chars};
use crate::candidate::TargetKind;

verus! {

/// How a single target type behaves within a profile.
#[derive(Debug, Clone)]
pub struct TargetConfig {
    /// Whether this target type is enabled.
    pub enabled: bool,
    /// Override of the global `min_age_days` for this target.
    pub min_age_days: Option<u32>,
    /// Default action when the score exceeds the threshold: "delete" | "archive" | "skip".
    pub default_action: Option<String>,
}

impl Default for TargetConfig {
    fn default() -> (r: TargetConfig)
        ensures
            r == (TargetConfig { enabled: false, min_age_days: None, default_action: None }),
    {
        TargetConfig { enabled: false, min_age_days: None, default_action: None }
    }
}

impl TargetConfig {
    /// An identical copy.
    pub fn duplicate(&self) -> (r: TargetConfig)
        ensures
            r == *self,
    {
        TargetConfig {
            enabled: self.enabled,
            min_age_days: self.min_age_days,
            default_action: clone_opt_string(&self.default_action),
        }
    }
}

/// Value of `enabled` when a profile file leaves it out.
pub fn default_true() -> (r: bool)
    ensures
        r,
{
    true
}

/// Value of `min_age_days` when a profile file leaves it out.
pub fn default_min_age() -> (r: u32)
    ensures
        r == 30,
{
    30
}

/// A cleanup profile.
#[derive(Debug, Clone)]
pub struct Profile {
    pub name: String,
    pub description: String,
    /// Minimum artifact age (in days) used for score normalization.
    pub min_age_days: u32,
    /// Optional minimum size: smaller artifacts are skipped during scans.
    pub min_size_bytes: Option<u64>,
    /// Per-target configuration keyed by target label (each label at most once).
    pub targets: Vec<(String, TargetConfig)>,
    /// Glob patterns for paths that must never be touched.
    pub exclude_paths: Vec<String>,
}

/// The configuration of the first target entry with the given label.
pub open spec fn find_target(s: Seq<(String, TargetConfig)>, label: Seq<char>) -> Option<TargetConfig>
    decreases s.len(),
{
    if s.len() == 0 {
        None
    } else if s[0].0@ == label {
        Some(s[0].1)
    } else {
        find_target(s.skip(1), label)
    }
}

/// The kinds of artifact the built-in conservative profile enables.
pub open spec fn conservative_kinds() -> Seq<TargetKind> {
    seq![
        TargetKind::Venv,
        TargetKind::BuildDir,
        TargetKind::NpmModules,
        TargetKind::NpmCache,
        TargetKind::LogFiles,
        TargetKind::DockerImage,
        TargetKind::DockerVolume,
        TargetKind::DockerContainer,
        TargetKind::LargeArchive,
        TargetKind::LargeFile,
        TargetKind::VsCodeWorkspaceStorage,
        TargetKind::VsCodeExtensionData,
        TargetKind::CiscoLogs,
        TargetKind::BrowserCache,
        TargetKind::PipCache,
        TargetKind::BrewCache,
    ]
}

/// The labels the conservative profile is keyed by: those of its kinds.
pub open spec fn conservative_targets() -> Seq<Seq<char>> {
    conservative_kinds().map_values(|k: TargetKind| k.label_view())
}

/// Two entries carry the same label text and the same configuration.
pub open spec fn entry_is(e: (String, TargetConfig), f: (String, TargetConfig)) -> bool {
    e.0@ == f.0@ && e.1 == f.1
}

/// The entry is, label text and configuration, one of the listed ones.
pub open spec fn comes_from(e: (String, TargetConfig), s: Seq<(String, TargetConfig)>) -> bool {
    exists|j: int| 0 <= j < s.len() && entry_is(e, #[trigger] s[j])
}

/// No label occurs twice among the entries.
pub open spec fn keys_distinct(s: Seq<(String, TargetConfig)>) -> bool {
    forall|i: int, j: int| 0 <= i < j < s.len() ==> (#[trigger] s[i]).0@ != (#[trigger] s[j]).0@
}

/// The label is that of a kind of artifact (not a free-form one).
pub open spec fn is_kind_label(l: Seq<char>) -> bool {
    exists|k: TargetKind| !(k is Other) && #[trigger] k.label_view() == l
}

/// The configuration the conservative profile gives each of its targets.
pub open spec fn conservative_config(c: TargetConfig) -> bool {
    &&& c.enabled
    &&& c.min_age_days == Some(30u32)
    &&& c.default_action matches Some(a) && a@ == "delete"@
}

impl Profile {
    /// Well-formed: each target label is configured at most once.
    pub open spec fn wf(&self) -> bool {
        keys_distinct(self.targets@)
    }

    /// The configuration for a target label, if the profile has one.
    pub open spec fn config_for(&self, label: Seq<char>) -> Option<TargetConfig> {
        find_target(self.targets@, label)
    }

    /// Effective minimum age for a target label: the target's override, else the
    /// profile's.
    pub open spec fn min_age_view(&self, label: Seq<char>) -> u32 {
        match self.config_for(label) {
            Some(c) => match c.min_age_days {
                Some(d) => d,
                None => self.min_age_days,
            },
            None => self.min_age_days,
        }
    }

    /// The built-in conservative profile (used when no profile file exists): every
    /// common target enabled with a 30-day minimum age and deletion as default action,
    /// and a 10 MiB minimum size.
    pub fn default_conservative() -> (r: Profile)
        ensures
            r.wf(),
            r.name@ == "conservative"@,
            r.description@ == "Safe cleanup of reproducible artifacts (built-in default)"@,
            r.min_age_days == 30,
            r.min_size_bytes == Some(10485760u64),
            forall|i: int|
                0 <= i < conservative_targets().len() ==> (r.config_for(#[trigger] conservative_targets()[i]) matches Some(
                    c,
                ) && conservative_config(c)),
            forall|k: int|
                0 <= k < r.targets@.len() ==> exists|i: int|
                    0 <= i < conservative_targets().len() && (#[trigger] r.targets@[k]).0@ == conservative_targets()[i]
                        && conservative_config(r.targets@[k].1),
            r.exclude_paths@.len() == 0,
    {
        let kinds: [TargetKind; 16] = [
            TargetKind::Venv,
            TargetKind::BuildDir,
            TargetKind::NpmModules,
            TargetKind::NpmCache,
            TargetKind::LogFiles,
            TargetKind::DockerImage,
            TargetKind::DockerVolume,
            TargetKind::DockerContainer,
            TargetKind::LargeArchive,
            TargetKind::LargeFile,
            TargetKind::VsCodeWorkspaceStorage,
            TargetKind::VsCodeExtensionData,
            TargetKind::CiscoLogs,
            TargetKind::BrowserCache,
            TargetKind::PipCache,
            TargetKind::BrewCache,
        ];
        assert(kinds@ =~= conservative_kinds());
        let mut targets: Vec<(String, TargetConfig)> = Vec::new();
        let mut i: usize = 0;
        while i < 16
            invariant
                i <= 16,
                kinds@ == conservative_kinds(),
                targets@.len() == i,
                forall|k: int|
                    0 <= k < i ==> (#[trigger] targets@[k]).0@ == conservative_targets()[k]
                        && conservative_config(targets@[k].1),
            decreases 16 - i,
        {
            let cfg = TargetConfig {
                enabled: true,
                min_age_days: Some(30),
                default_action: Some(owned("delete")),
            };
            targets.push((owned(kinds[i].label()), cfg));
            i += 1;
        }
        let ghost t = targets@;
        let r = Profile::from_parts(
            owned("conservative"),
            owned("Safe cleanup of reproducible artifacts (built-in default)"),
            30,
            Some(10 * 1024 * 1024),
            targets,
            Vec::new(),
        );
        proof {
            assert forall|i: int| 0 <= i < conservative_targets().len() implies (r.config_for(
                #[trigger] conservative_targets()[i],
            ) matches Some(c) && conservative_config(c)) by {
                assert(t[i].0@ == conservative_targets()[i]);
                lemma_has_key_found(t, i);
                lemma_find_some_is_entry(t, conservative_targets()[i]);
            }
            assert forall|k: int| 0 <= k < r.targets@.len() implies exists|i: int|
                0 <= i < conservative_targets().len() && (#[trigger] r.targets@[k]).0@ == conservative_targets()[i]
                    && conservative_config(r.targets@[k].1) by {
                assert(comes_from(r.targets@[k], t));
                let j = choose|j: int| 0 <= j < t.len() && entry_is(r.targets@[k], #[trigger] t[j]);
                assert(t[j].0@ == conservative_targets()[j]);
            }
        }
        r
    }

    /// A profile from its parts; a target label given more than once keeps its first
    /// configuration.
    pub fn from_parts(
        name: String,
        description: String,
        min_age_days: u32,
        min_size_bytes: Option<u64>,
        targets: Vec<(String, TargetConfig)>,
        exclude_paths: Vec<String>,
    ) -> (r: Profile)
        ensures
            r.wf(),
            r.name == name,
            r.description == description,
            r.min_age_days == min_age_days,
            r.min_size_bytes == min_size_bytes,
            r.exclude_paths == exclude_paths,
            forall|l: Seq<char>| #[trigger] find_target(r.targets@, l) == find_target(targets@, l),
            forall|k: int| 0 <= k < r.targets@.len() ==> comes_from(#[trigger] r.targets@[k], targets@),
    {
        let kept = first_of_each(targets);
        Profile { name, description, min_age_days, min_size_bytes, targets: kept, exclude_paths }
    }

    /// The configuration for a kind label, or the default configuration (disabled,
    /// no overrides) when the profile has none.
    pub fn target_config(&self, kind_label: &str) -> (r: TargetConfig)
        ensures
            r == (match self.config_for(kind_label@) {
                Some(c) => c,
                None => TargetConfig { enabled: false, min_age_days: None, default_action: None },
            }),
    {
        match self.lookup(kind_label) {
            Some(i) => self.targets[i].1.duplicate(),
            None => TargetConfig::default(),
        }
    }

    /// Effective minimum age for a target kind: the target's override, else the
    /// profile's.
    pub fn min_age_for(&self, kind_label: &str) -> (r: u32)
        ensures
            r == self.min_age_view(kind_label@),
    {
        match self.lookup(kind_label) {
            Some(i) => match self.targets[i].1.min_age_days {
                Some(d) => d,
                None => self.min_age_days,
            },
            None => self.min_age_days,
        }
    }

    /// Whether an artifact of this size is skipped during scans (below the minimum).
    pub fn should_skip_size(&self, size_bytes: u64) -> (r: bool)
        ensures
            r == (match self.min_size_bytes {
                Some(min) => size_bytes < min,
                None => false,
            }),
    {
        match self.min_size_bytes {
            Some(min) => size_bytes < min,
            None => false,
        }
    }

    /// Position of the first target entry with this label.
    fn lookup(&self, label: &str) -> (r: Option<usize>)
        ensures
            match r {
                Some(i) => i < self.targets@.len() && self.config_for(label@) == Some(
                    self.targets@[i as int].1,
                ),
                None => self.config_for(label@) is None,
            },
    {
        let l = chars_of(label);
        let mut i: usize = 0;
        assert(self.targets@.skip(0) =~= self.targets@);
        while i < self.targets.len()
            invariant
                i <= self.targets@.len(),
                l@ == label@,
                find_target(self.targets@, label@) == find_target(self.targets@.skip(i as int), label@),
            decreases self.targets.len() - i,
        {
            let k = chars_of(self.targets[i].0.as_str());
            proof {
                let rest = self.targets@.skip(i as int);
                assert(rest.skip(1) =~= self.targets@.skip(i + 1));
                assert(rest[0] == self.targets@[i as int]);
            }
            if same_chars(&k, &l) {
                return Some(i);
            }
            i += 1;
        }
        None
    }
}


/// Every target the built-in conservative profile configures is keyed by the label
/// of a kind of artifact, as lookups by a candidate's kind expect, and no label is
/// configured twice.
pub proof fn law_conservative_keys_are_kind_labels(r: Profile)
    requires
        forall|k: int|
            0 <= k < r.targets@.len() ==> exists|i: int|
                0 <= i < conservative_targets().len() && (#[trigger] r.targets@[k]).0@ == conservative_targets()[i],
    ensures
        forall|k: int| 0 <= k < r.targets@.len() ==> is_kind_label(#[trigger] r.targets@[k].0@),
{
    let ks = conservative_kinds();
    assert forall|k: int| 0 <= k < r.targets@.len() implies is_kind_label(#[trigger] r.targets@[k].0@) by {
        let i = choose|i: int| 0 <= i < conservative_targets().len() && (#[trigger] r.targets@[k]).0@ == conservative_targets()[i];
        assert(conservative_targets()[i] == ks[i].label_view());
        assert(!(ks[i] is Other));
    }
}

/// In a well-formed profile a lookup finds the one entry with the label: the
/// configuration is some entry's exactly when that entry carries the label.
pub proof fn law_lookup_finds_the_entry(p: Profile, k: int)
    requires
        p.wf(),
        0 <= k < p.targets@.len(),
    ensures
        p.config_for(p.targets@[k].0@) == Some(p.targets@[k].1),
{
    lemma_find_unique(p.targets@, k);
}

proof fn lemma_find_unique(s: Seq<(String, TargetConfig)>, k: int)
    requires
        keys_distinct(s),
        0 <= k < s.len(),
    ensures
        find_target(s, s[k].0@) == Some(s[k].1),
    decreases k,
{
    if k > 0 {
        assert(s[0].0@ != s[k].0@);
        let t = s.skip(1);
        assert(t[k - 1] == s[k]);
        assert forall|i: int, j: int| 0 <= i < j < t.len() implies (#[trigger] t[i]).0@ != (#[trigger] t[j]).0@ by {
            assert(t[i] == s[i + 1]);
            assert(t[j] == s[j + 1]);
        }
        lemma_find_unique(t, k - 1);
    }
}

/// Whether a label occurs among the entries.
fn has_key(v: &Vec<(String, TargetConfig)>, label: &String) -> (r: bool)
    ensures
        r == exists|j: int| 0 <= j < v@.len() && (#[trigger] v@[j]).0@ == label@,
{
    let mut j: usize = 0;
    while j < v.len()
        invariant
            j <= v@.len(),
            forall|i: int| 0 <= i < j ==> (#[trigger] v@[i]).0@ != label@,
        decreases v.len() - j,
    {
        if crate::text::string_eq(&v[j].0, label) {
            return true;
        }
        j += 1;
    }
    false
}

/// The first entry of each label, in order; later repeats are dropped, which
/// changes no lookup.
fn first_of_each(targets: Vec<(String, TargetConfig)>) -> (r: Vec<(String, TargetConfig)>)
    ensures
        keys_distinct(r@),
        forall|l: Seq<char>| #[trigger] find_target(r@, l) == find_target(targets@, l),
        forall|k: int| 0 <= k < r@.len() ==> comes_from(#[trigger] r@[k], targets@),
{
    let ghost all = targets@;
    let mut r: Vec<(String, TargetConfig)> = Vec::new();
    let mut i: usize = 0;
    while i < targets.len()
        invariant
            all == targets@,
            i <= all.len(),
            keys_distinct(r@),
            forall|l: Seq<char>| #[trigger] find_target(all.take(i as int), l) == find_target(r@, l),
            forall|k: int| 0 <= k < r@.len() ==> comes_from(#[trigger] r@[k], all),
        decreases targets.len() - i,
    {
        let e = &targets[i];
        let seen = has_key(&r, &e.0);
        let ghost before = r@;
        proof {
            assert forall|l: Seq<char>| #[trigger] find_target(all.take(i + 1), l) == (if find_target(all.take(i as int), l) is Some {
                find_target(all.take(i as int), l)
            } else if all[i as int].0@ == l {
                Some(all[i as int].1)
            } else {
                None
            }) by {
                lemma_find_push(all.take(i as int), all[i as int], l);
                assert(all.take(i + 1) =~= all.take(i as int).push(all[i as int]));
            }
        }
        if !seen {
            let key = crate::text::owned(e.0.as_str());
            let cfg = e.1.duplicate();
            r.push((key, cfg));
            proof {
                let n = r@.len() - 1;
                assert(r@[n].0@ == all[i as int].0@ && r@[n].1 == all[i as int].1);
                assert forall|a: int, b: int| 0 <= a < b < r@.len() implies (#[trigger] r@[a]).0@ != (#[trigger] r@[b]).0@ by {
                    if b == n {
                        assert(r@[a] == before[a]);
                    } else {
                        assert(r@[a] == before[a]);
                        assert(r@[b] == before[b]);
                    }
                }
                assert forall|l: Seq<char>| #[trigger] find_target(all.take(i + 1), l) == find_target(r@, l) by {
                    lemma_find_push(before, r@[n], l);
                    assert(r@ =~= before.push(r@[n]));
                    if l == all[i as int].0@ && find_target(before, l) is Some {
                        lemma_find_some_has_key(before, l);
                    }
                }
                assert forall|k: int| 0 <= k < r@.len() implies comes_from(#[trigger] r@[k], all) by {
                    if k == n {
                        assert(entry_is(r@[k], all[i as int]));
                    } else {
                        assert(r@[k] == before[k]);
                    }
                }
            }
        } else {
            proof {
                let w = choose|j: int| 0 <= j < before.len() && (#[trigger] before[j]).0@ == all[i as int].0@;
                lemma_has_key_found(before, w);
                assert forall|l: Seq<char>| #[trigger] find_target(all.take(i + 1), l) == find_target(r@, l) by {
                    if l == all[i as int].0@ {
                        assert(find_target(before, l) is Some);
                    }
                }
            }
        }
        i += 1;
    }
    proof {
        assert(all.take(all.len() as int) =~= all);
        assert(all == targets@);
    }
    r
}

/// Looking up in a list with one more entry at the end.
proof fn lemma_find_push(s: Seq<(String, TargetConfig)>, e: (String, TargetConfig), l: Seq<char>)
    ensures
        find_target(s.push(e), l) == (if find_target(s, l) is Some {
            find_target(s, l)
        } else if e.0@ == l {
            Some(e.1)
        } else {
            None
        }),
    decreases s.len(),
{
    let t = s.push(e);
    if s.len() > 0 {
        assert(t[0] == s[0]);
        assert(t.skip(1) =~= s.skip(1).push(e));
        lemma_find_push(s.skip(1), e, l);
        if s[0].0@ == l {
            assert(find_target(t, l) == Some(s[0].1));
        } else {
            assert(find_target(t, l) == find_target(t.skip(1), l));
            assert(find_target(s, l) == find_target(s.skip(1), l));
        }
    } else {
        assert(t[0] == e);
        assert(t.skip(1) =~= Seq::<(String, TargetConfig)>::empty());
        assert(find_target(t.skip(1), l) is None);
        assert(find_target(s, l) is None);
    }
}

/// A label with an entry is found.
proof fn lemma_has_key_found(s: Seq<(String, TargetConfig)>, w: int)
    requires
        0 <= w < s.len(),
    ensures
        find_target(s, s[w].0@) is Some,
    decreases w,
{
    if w > 0 && s[0].0@ != s[w].0@ {
        assert(s.skip(1)[w - 1] == s[w]);
        lemma_has_key_found(s.skip(1), w - 1);
    }
}

/// What a lookup finds is the configuration of an entry with the label.
proof fn lemma_find_some_is_entry(s: Seq<(String, TargetConfig)>, l: Seq<char>)
    ensures
        find_target(s, l) matches Some(c) ==> exists|j: int| 0 <= j < s.len() && (#[trigger] s[j]).0@ == l && s[j].1 == c,
    decreases s.len(),
{
    if s.len() > 0 && s[0].0@ != l {
        lemma_find_some_is_entry(s.skip(1), l);
        if find_target(s, l) is Some {
            let j = choose|j: int| 0 <= j < s.skip(1).len() && (#[trigger] s.skip(1)[j]).0@ == l && s.skip(1)[j].1 == find_target(s, l)->0;
            assert(s[j + 1] == s.skip(1)[j]);
        }
    }
}

/// A label that is found has an entry.
proof fn lemma_find_some_has_key(s: Seq<(String, TargetConfig)>, l: Seq<char>)
    requires
        find_target(s, l) is Some,
    ensures
        exists|j: int| 0 <= j < s.len() && (#[trigger] s[j]).0@ == l,
    decreases s.len(),
{
    if s[0].0@ != l {
        lemma_find_some_has_key(s.skip(1), l);
        let j = choose|j: int| 0 <= j < s.skip(1).len() && (#[trigger] s.skip(1)[j]).0@ == l;
        assert(s[j + 1] == s.skip(1)[j]);
    }
}

} // verus!
