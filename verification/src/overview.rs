//! The desktop view's model: scan stages, view modes and the candidate filters.
use vstd::prelude::*;
use crate::candidate::{Action, Candidate, TargetKind};
use crate::cache::CachedEntry;
use crate::selection::{auto_state, CacheStatus, SelectionMode};
use crate::strategy::tag_views;
use crate::selection::{CandidateState, SelectionState};
use crate::time::Timestamp;
use crate::duplicates::{char_views, lex_lt, lemma_lex_total, lemma_lex_transitive, sort_texts, texts_sorted};
use crate::text::{chars_of, same_chars, string_from_chars};

verus! {

/// The stages of a progressive scan.
#[derive(Debug, Clone, Copy, PartialEq, Eq, Structural)]
pub enum ScanStage {
    /// Load what the cache holds.
    CacheLoad,
    /// Re-check cached items quickly.
    QuickVerify,
    /// Walk the file system for everything reclaimable.
    FullScan,
    /// Categorize the whole disk (optional).
    DiskAnalysis,
}

impl ScanStage {
    /// What the stage does.
    pub fn description(&self) -> (r: &'static str)
        ensures
            r@ == (match self {
                ScanStage::CacheLoad => "Loading cached data instantly"@,
                ScanStage::QuickVerify => "Verifying cached items still exist (priority: largest first)"@,
                ScanStage::FullScan => "Complete scan for all reclaimable items"@,
                ScanStage::DiskAnalysis => "Full disk categorization for overview (optional)"@,
            }),
    {
        match self {
            ScanStage::CacheLoad => "Loading cached data instantly",
            ScanStage::QuickVerify => "Verifying cached items still exist (priority: largest first)",
            ScanStage::FullScan => "Complete scan for all reclaimable items",
            ScanStage::DiskAnalysis => "Full disk categorization for overview (optional)",
        }
    }

    /// How long the stage usually takes.
    pub fn estimated_duration(&self) -> (r: &'static str)
        ensures
            r@ == (match self {
                ScanStage::CacheLoad => "< 1s"@,
                ScanStage::QuickVerify => "1-5s"@,
                ScanStage::FullScan => "10-60s"@,
                ScanStage::DiskAnalysis => "30-120s"@,
            }),
    {
        match self {
            ScanStage::CacheLoad => "< 1s",
            ScanStage::QuickVerify => "1-5s",
            ScanStage::FullScan => "10-60s",
            ScanStage::DiskAnalysis => "30-120s",
        }
    }

    /// The stage's icon.
    pub fn icon(&self) -> (r: &'static str)
        ensures
            r@ == (match self {
                ScanStage::CacheLoad => "\u{1f4be}"@,
                ScanStage::QuickVerify => "\u{26a1}"@,
                ScanStage::FullScan => "\u{1f50d}"@,
                ScanStage::DiskAnalysis => "\u{1f4bd}"@,
            }),
    {
        match self {
            ScanStage::CacheLoad => "\u{1f4be}",
            ScanStage::QuickVerify => "\u{26a1}",
            ScanStage::FullScan => "\u{1f50d}",
            ScanStage::DiskAnalysis => "\u{1f4bd}",
        }
    }
}

/// How candidates are shown.
#[derive(Debug, Clone, Copy, PartialEq, Eq, Structural)]
pub enum ViewMode {
    Table,
    Treemap,
    DiskOverview,
}

impl ViewMode {
    /// The mode's name.
    pub fn label(&self) -> (r: &'static str)
        ensures
            r@ == (match self {
                ViewMode::Table => "Table"@,
                ViewMode::Treemap => "Treemap"@,
                ViewMode::DiskOverview => "Disk Overview"@,
            }),
    {
        match self {
            ViewMode::Table => "Table",
            ViewMode::Treemap => "Treemap",
            ViewMode::DiskOverview => "Disk Overview",
        }
    }
}

/// The filters a candidate list is shown through. Sizes are in bytes; zero
/// minimum or maximum ages mean no limit.
pub struct Filters {
    pub enabled_kinds: Vec<String>,
    pub enabled_actions: Vec<String>,
    pub enabled_groups: Vec<String>,
    pub min_score: u32,
    pub only_selected: bool,
    pub min_bytes: Option<u64>,
    pub max_bytes: Option<u64>,
    pub min_age_days: u32,
    pub max_age_days: u32,
}

/// The text is one of the listed strings.
pub open spec fn listed_text(v: Seq<String>, t: Seq<char>) -> bool {
    exists|k: int| 0 <= k < v.len() && (#[trigger] v[k])@ == t
}

/// Whether a text is one of the strings.
fn contains_text(v: &Vec<String>, t: &String) -> (r: bool)
    ensures
        r == listed_text(v@, t@),
{
    let mut k: usize = 0;
    while k < v.len()
        invariant
            k <= v@.len(),
            forall|j: int| 0 <= j < k ==> (#[trigger] v@[j])@ != t@,
        decreases v.len() - k,
    {
        if crate::text::string_eq(&v[k], t) {
            return true;
        }
        k += 1;
    }
    false
}

/// The age used by the age filters: whole days, cut to 32 bits as a cast does.
pub open spec fn filter_age(d: int) -> u32 {
    (d % 0x1_0000_0000) as u32
}

/// The candidate passes the filters at instant `now`.
pub open spec fn passes(s: CandidateState, f: Filters, now: Timestamp) -> bool {
    let c = s.candidate;
    &&& listed_text(f.enabled_kinds@, c.kind.label_view())
    &&& listed_text(f.enabled_actions@, c.action.display_view())
    &&& (c.group matches Some(g) ==> listed_text(f.enabled_groups@, g@))
    &&& c.score >= f.min_score
    &&& (f.only_selected ==> s.selection_state == SelectionState::Checked)
    &&& (f.min_bytes matches Some(m) ==> c.size_bytes >= m)
    &&& (f.max_bytes matches Some(m) ==> c.size_bytes <= m)
    &&& (c.age_at(now) matches Some(d) ==> {
        &&& (f.min_age_days > 0 ==> filter_age(d) >= f.min_age_days)
        &&& (f.max_age_days > 0 ==> filter_age(d) <= f.max_age_days)
    })
}

/// Whether a candidate passes the view's filters at instant `now`: its kind, action
/// and group enabled, score high enough, selected if only selected ones are shown,
/// size and age within the limits.
pub fn passes_filters(s: &CandidateState, f: &Filters, now: &Timestamp) -> (r: bool)
    requires
        now.wf(),
        s.candidate.wf(),
    ensures
        r == passes(*s, *f, *now),
{
    let c = &s.candidate;
    let kind = crate::text::owned(c.kind.label());
    if !contains_text(&f.enabled_kinds, &kind) {
        return false;
    }
    let action = c.action.display();
    if !contains_text(&f.enabled_actions, &action) {
        return false;
    }
    if let Some(g) = &c.group {
        if !contains_text(&f.enabled_groups, g) {
            return false;
        }
    }
    if c.score < f.min_score {
        return false;
    }
    if f.only_selected && !s.is_selected() {
        return false;
    }
    if let Some(m) = f.min_bytes {
        if c.size_bytes < m {
            return false;
        }
    }
    if let Some(m) = f.max_bytes {
        if c.size_bytes > m {
            return false;
        }
    }
    if let Some(age) = c.age_days_at(now) {
        let a: u32 = cut_to_u32(age);
        if f.min_age_days > 0 && a < f.min_age_days {
            return false;
        }
        if f.max_age_days > 0 && a > f.max_age_days {
            return false;
        }
    }
    true
}

/// The candidate passes the table view's filters at instant `now`: a kind and an
/// action filter with nothing enabled let everything through, groups are not
/// filtered; the other limits are those of `passes`.
pub open spec fn passes_view(s: CandidateState, f: Filters, now: Timestamp) -> bool {
    let c = s.candidate;
    &&& (f.enabled_kinds@.len() == 0 || listed_text(f.enabled_kinds@, c.kind.label_view()))
    &&& (f.enabled_actions@.len() == 0 || listed_text(f.enabled_actions@, c.action.display_view()))
    &&& c.score >= f.min_score
    &&& (f.only_selected ==> s.selection_state == SelectionState::Checked)
    &&& (f.min_bytes matches Some(m) ==> c.size_bytes >= m)
    &&& (f.max_bytes matches Some(m) ==> c.size_bytes <= m)
    &&& (c.age_at(now) matches Some(d) ==> {
        &&& (f.min_age_days > 0 ==> filter_age(d) >= f.min_age_days)
        &&& (f.max_age_days > 0 ==> filter_age(d) <= f.max_age_days)
    })
}

/// Whether a candidate passes the table view's filters at instant `now`.
pub fn passes_view_filters(s: &CandidateState, f: &Filters, now: &Timestamp) -> (r: bool)
    requires
        now.wf(),
        s.candidate.wf(),
    ensures
        r == passes_view(*s, *f, *now),
{
    let c = &s.candidate;
    if f.enabled_kinds.len() > 0 {
        let kind = crate::text::owned(c.kind.label());
        if !contains_text(&f.enabled_kinds, &kind) {
            return false;
        }
    }
    if f.enabled_actions.len() > 0 {
        let action = c.action.display();
        if !contains_text(&f.enabled_actions, &action) {
            return false;
        }
    }
    if c.score < f.min_score {
        return false;
    }
    if f.only_selected && !s.is_selected() {
        return false;
    }
    if let Some(m) = f.min_bytes {
        if c.size_bytes < m {
            return false;
        }
    }
    if let Some(m) = f.max_bytes {
        if c.size_bytes > m {
            return false;
        }
    }
    if let Some(age) = c.age_days_at(now) {
        let a: u32 = cut_to_u32(age);
        if f.min_age_days > 0 && a < f.min_age_days {
            return false;
        }
        if f.max_age_days > 0 && a > f.max_age_days {
            return false;
        }
    }
    true
}

/// The positions of the states that pass the table view's filters, in order.
pub open spec fn view_positions(v: Seq<CandidateState>, f: Filters, now: Timestamp) -> Seq<usize>
    decreases v.len(),
{
    if v.len() == 0 {
        Seq::empty()
    } else if passes_view(v.last(), f, now) {
        view_positions(v.drop_last(), f, now).push((v.len() - 1) as usize)
    } else {
        view_positions(v.drop_last(), f, now)
    }
}

/// The candidates the table view shows: the positions of those that pass its
/// filters at instant `now`, in list order.
pub fn filtered_candidates(states: &[CandidateState], f: &Filters, now: &Timestamp) -> (r: Vec<usize>)
    requires
        now.wf(),
        forall|i: int| 0 <= i < states@.len() ==> (#[trigger] states@[i]).candidate.wf(),
    ensures
        r@ == view_positions(states@, *f, *now),
{
    let mut r: Vec<usize> = Vec::new();
    let mut i: usize = 0;
    while i < states.len()
        invariant
            i <= states@.len(),
            now.wf(),
            forall|j: int| 0 <= j < states@.len() ==> (#[trigger] states@[j]).candidate.wf(),
            r@ == view_positions(states@.take(i as int), *f, *now),
        decreases states.len() - i,
    {
        proof {
            assert(states@.take(i + 1).drop_last() =~= states@.take(i as int));
            assert(states@.take(i + 1).last() == states@[i as int]);
        }
        if passes_view_filters(&states[i], f, now) {
            r.push(i);
        }
        i += 1;
    }
    proof {
        assert(states@.take(states@.len() as int) =~= states@);
    }
    r
}

/// A signed day count cut to 32 bits (two's complement, as `as u32` does).
fn cut_to_u32(d: i64) -> (r: u32)
    ensures
        r == filter_age(d as int),
{
    let m: i128 = d as i128 % 0x1_0000_0000i128;
    let e: i128 = if m < 0 { m + 0x1_0000_0000i128 } else { m };
    proof {
        lemma_euclid_mod(d as int, m as int, e as int);
    }
    e as u32
}

proof fn lemma_euclid_mod(d: int, m: int, e: int)
    requires
        m == (if d >= 0 { d % 0x1_0000_0000 } else { -((-d) % 0x1_0000_0000) }),
        e == (if m < 0 { m + 0x1_0000_0000 } else { m }),
    ensures
        e == d % 0x1_0000_0000,
{
    let b: int = 0x1_0000_0000;
    if d < 0 {
        let q = (-d) / b;
        let r = (-d) % b;
        vstd::arithmetic::div_mod::lemma_fundamental_div_mod(-d, b);
        if r == 0 {
            assert(d == (-q) * b) by (nonlinear_arith)
                requires -d == b * q + r, r == 0;
            vstd::arithmetic::div_mod::lemma_fundamental_div_mod_converse(d, b, -q, 0);
        } else {
            assert(d == (-q - 1) * b + (b - r)) by (nonlinear_arith)
                requires -d == b * q + r;
            vstd::arithmetic::div_mod::lemma_fundamental_div_mod_converse(d, b, -q - 1, b - r);
        }
    }
}


/// The characters of each string.
pub open spec fn string_views(v: Seq<String>) -> Seq<Seq<char>> {
    v.map_values(|x: String| x@)
}

/// `s` lists each text of `t` once, in increasing text order.
pub open spec fn is_sorted_distinct(t: Seq<Seq<char>>, s: Seq<Seq<char>>) -> bool {
    &&& forall|i: int, j: int| 0 <= i < j < s.len() ==> lex_lt(#[trigger] s[i], #[trigger] s[j])
    &&& forall|x: Seq<char>| t.contains(x) <==> s.contains(x)
}

/// A sequence with one more element contains what it contained, and that element.
pub proof fn lemma_push_contains(a: Seq<Seq<char>>, e: Seq<char>, x: Seq<char>)
    ensures
        a.push(e).contains(x) <==> (a.contains(x) || x == e),
{
    if a.push(e).contains(x) {
        let i = choose|i: int| 0 <= i < a.push(e).len() && #[trigger] a.push(e)[i] == x;
        if i < a.len() {
            assert(a[i] == x);
        }
    }
    if a.contains(x) {
        let i = choose|i: int| 0 <= i < a.len() && #[trigger] a[i] == x;
        assert(a.push(e)[i] == x);
    }
    if x == e {
        assert(a.push(e)[a.len() as int] == x);
    }
}

/// Each text once, in increasing order (the sorted strings of a set).
pub fn sorted_distinct(texts: Vec<Vec<char>>) -> (r: Vec<String>)
    ensures
        is_sorted_distinct(char_views(texts@), string_views(r@)),
{
    let ghost t = char_views(texts@);
    let sorted = sort_texts(texts);
    let ghost s = char_views(sorted@);
    proof {
        assert forall|x: Seq<char>| t.contains(x) <==> s.contains(x) by {
            t.to_multiset_ensures();
            s.to_multiset_ensures();
            assert(s.to_multiset().count(x) == t.to_multiset().count(x));
        }
        assert(s.take(0) =~= Seq::<Seq<char>>::empty());
    }
    let mut out: Vec<String> = Vec::new();
    let mut k: usize = 0;
    while k < sorted.len()
        invariant
            s == char_views(sorted@),
            texts_sorted(s),
            k <= s.len(),
            forall|i: int, j: int|
                0 <= i < j < out@.len() ==> lex_lt(#[trigger] string_views(out@)[i], #[trigger] string_views(out@)[j]),
            forall|x: Seq<char>| s.take(k as int).contains(x) <==> string_views(out@).contains(x),
            k > 0 ==> out@.len() > 0 && string_views(out@).last() == s[k - 1],
            k == 0 ==> out@.len() == 0,
        decreases sorted.len() - k,
    {
        let ghost ov = string_views(out@);
        proof {
            assert(s[k as int] == sorted@[k as int]@);
            if k > 0 {
                assert(s[k - 1] == sorted@[k - 1]@);
            }
        }
        let fresh = k == 0 || !same_chars(&sorted[k], &sorted[k - 1]);
        if fresh {
            proof {
                if k > 0 {
                    lemma_lex_total(s[k - 1], s[k as int]);
                    assert(!lex_lt(s[k as int], s[k - 1]));
                    assert(lex_lt(s[k - 1], s[k as int]));
                    assert forall|i: int| 0 <= i < ov.len() implies lex_lt(#[trigger] ov[i], s[k as int]) by {
                        if i < ov.len() - 1 {
                            assert(lex_lt(ov[i], ov[ov.len() - 1]));
                            lemma_lex_transitive(ov[i], ov.last(), s[k as int]);
                        }
                    }
                }
            }
            out.push(string_from_chars(&sorted[k]));
            proof {
                let nv = string_views(out@);
                assert(nv =~= ov.push(s[k as int]));
                assert forall|i: int, j: int| 0 <= i < j < nv.len() implies lex_lt(#[trigger] nv[i], #[trigger] nv[j]) by {
                    if j < ov.len() {
                        assert(lex_lt(ov[i], ov[j]));
                    } else {
                        assert(nv[j] == s[k as int]);
                        assert(lex_lt(ov[i], s[k as int]));
                    }
                }
            }
        }
        proof {
            assert(s.take(k + 1) =~= s.take(k as int).push(s[k as int]));
            assert forall|x: Seq<char>| s.take(k + 1).contains(x) <==> string_views(out@).contains(x) by {
                lemma_push_contains(s.take(k as int), s[k as int], x);
                if fresh {
                    lemma_push_contains(ov, s[k as int], x);
                } else {
                    assert(ov[ov.len() - 1] == s[k as int]);
                }
            }
        }
        k += 1;
    }
    proof {
        assert(s.take(s.len() as int) =~= s);
    }
    out
}

/// The kind labels of the states.
pub open spec fn kind_texts(v: Seq<CandidateState>) -> Seq<Seq<char>> {
    v.map_values(|x: CandidateState| x.candidate.kind.label_view())
}

/// The action texts of the states.
pub open spec fn action_texts(v: Seq<CandidateState>) -> Seq<Seq<char>> {
    v.map_values(|x: CandidateState| x.candidate.action.display_view())
}

/// The group keys of the states that have one.
pub open spec fn group_texts(v: Seq<CandidateState>) -> Seq<Seq<char>>
    decreases v.len(),
{
    if v.len() == 0 {
        Seq::empty()
    } else {
        group_texts(v.drop_last()) + match v.last().candidate.group {
            Some(g) => seq![g@],
            None => Seq::empty(),
        }
    }
}

/// The kind labels present among the states, each once, sorted.
pub fn available_kinds(states: &[CandidateState]) -> (r: Vec<String>)
    ensures
        is_sorted_distinct(kind_texts(states@), string_views(r@)),
{
    let mut v: Vec<Vec<char>> = Vec::new();
    let mut i: usize = 0;
    while i < states.len()
        invariant
            i <= states@.len(),
            char_views(v@) == kind_texts(states@.take(i as int)),
        decreases states.len() - i,
    {
        let ghost before = char_views(v@);
        let l = chars_of(states[i].candidate.kind.label());
        v.push(l);
        proof {
            assert(states@.take(i + 1) =~= states@.take(i as int).push(states@[i as int]));
            assert(kind_texts(states@.take(i + 1)) =~= kind_texts(states@.take(i as int)).push(
                states@[i as int].candidate.kind.label_view(),
            ));
            assert(char_views(v@) =~= before.push(l@));
        }
        i += 1;
    }
    proof {
        assert(states@.take(states@.len() as int) =~= states@);
    }
    sorted_distinct(v)
}

/// The action texts present among the states, each once, sorted.
pub fn available_actions(states: &[CandidateState]) -> (r: Vec<String>)
    ensures
        is_sorted_distinct(action_texts(states@), string_views(r@)),
{
    let mut v: Vec<Vec<char>> = Vec::new();
    let mut i: usize = 0;
    while i < states.len()
        invariant
            i <= states@.len(),
            char_views(v@) == action_texts(states@.take(i as int)),
        decreases states.len() - i,
    {
        let ghost before = char_views(v@);
        let d = states[i].candidate.action.display();
        let l = chars_of(d.as_str());
        v.push(l);
        proof {
            assert(states@.take(i + 1) =~= states@.take(i as int).push(states@[i as int]));
            assert(action_texts(states@.take(i + 1)) =~= action_texts(states@.take(i as int)).push(
                states@[i as int].candidate.action.display_view(),
            ));
            assert(char_views(v@) =~= before.push(l@));
        }
        i += 1;
    }
    proof {
        assert(states@.take(states@.len() as int) =~= states@);
    }
    sorted_distinct(v)
}

/// The group keys present among the states, each once, sorted.
pub fn available_groups(states: &[CandidateState]) -> (r: Vec<String>)
    ensures
        is_sorted_distinct(group_texts(states@), string_views(r@)),
{
    let mut v: Vec<Vec<char>> = Vec::new();
    let mut i: usize = 0;
    while i < states.len()
        invariant
            i <= states@.len(),
            char_views(v@) == group_texts(states@.take(i as int)),
        decreases states.len() - i,
    {
        let ghost before = char_views(v@);
        proof {
            assert(states@.take(i + 1).drop_last() =~= states@.take(i as int));
        }
        match &states[i].candidate.group {
            Some(g) => {
                v.push(chars_of(g.as_str()));
                proof {
                    assert(char_views(v@) =~= before.push(g@));
                }
            },
            None => {},
        }
        proof {
            assert(char_views(v@) =~= group_texts(states@.take(i + 1)));
        }
        i += 1;
    }
    proof {
        assert(states@.take(states@.len() as int) =~= states@);
    }
    sorted_distinct(v)
}

/// The values the filters can take among the states: kinds, actions and groups.
pub struct FilterValues {
    pub kinds: Vec<String>,
    pub actions: Vec<String>,
    pub groups: Vec<String>,
}

/// Copies of the strings.
fn copy_strings(v: &Vec<String>) -> (r: Vec<String>)
    ensures
        string_views(r@) == string_views(v@),
{
    let r = crate::text::clone_strings(v);
    r
}

/// The filter values present among the states; a filter with nothing enabled yet
/// (as before the first scan) enables all of its values.
pub fn extract_filter_values(states: &[CandidateState], f: &mut Filters) -> (r: FilterValues)
    ensures
        is_sorted_distinct(kind_texts(states@), string_views(r.kinds@)),
        is_sorted_distinct(action_texts(states@), string_views(r.actions@)),
        is_sorted_distinct(group_texts(states@), string_views(r.groups@)),
        string_views(final(f).enabled_kinds@) == if old(f).enabled_kinds@.len() == 0 {
            string_views(r.kinds@)
        } else {
            string_views(old(f).enabled_kinds@)
        },
        string_views(final(f).enabled_actions@) == if old(f).enabled_actions@.len() == 0 {
            string_views(r.actions@)
        } else {
            string_views(old(f).enabled_actions@)
        },
        string_views(final(f).enabled_groups@) == if old(f).enabled_groups@.len() == 0 {
            string_views(r.groups@)
        } else {
            string_views(old(f).enabled_groups@)
        },
        final(f).min_score == old(f).min_score,
        final(f).only_selected == old(f).only_selected,
        final(f).min_bytes == old(f).min_bytes,
        final(f).max_bytes == old(f).max_bytes,
        final(f).min_age_days == old(f).min_age_days,
        final(f).max_age_days == old(f).max_age_days,
{
    let kinds = available_kinds(states);
    let actions = available_actions(states);
    let groups = available_groups(states);
    if f.enabled_kinds.len() == 0 {
        f.enabled_kinds = copy_strings(&kinds);
    }
    if f.enabled_actions.len() == 0 {
        f.enabled_actions = copy_strings(&actions);
    }
    if f.enabled_groups.len() == 0 {
        f.enabled_groups = copy_strings(&groups);
    }
    FilterValues { kinds, actions, groups }
}


/// The stages a scan goes through: the cache first, a quick check of what it held
/// (when it held anything), the full scan, and the disk analysis when the overview
/// needs it.
pub open spec fn stages_of(has_cache: bool, need_disk: bool) -> Seq<ScanStage> {
    seq![ScanStage::CacheLoad] + (if has_cache { seq![ScanStage::QuickVerify] } else { Seq::empty() })
        + seq![ScanStage::FullScan] + (if need_disk { seq![ScanStage::DiskAnalysis] } else { Seq::empty() })
}

/// The stages of a scan, in order.
pub fn scan_stages(has_cache: bool, need_disk: bool) -> (r: Vec<ScanStage>)
    ensures
        r@ == stages_of(has_cache, need_disk),
{
    let mut r: Vec<ScanStage> = Vec::new();
    r.push(ScanStage::CacheLoad);
    if has_cache {
        r.push(ScanStage::QuickVerify);
    }
    r.push(ScanStage::FullScan);
    if need_disk {
        r.push(ScanStage::DiskAnalysis);
    }
    assert(r@ =~= stages_of(has_cache, need_disk));
    r
}

/// The state shown for a cached entry before it is re-checked: a candidate of kind
/// "cached" with the entry's path and size, last modified when last seen, kept
/// (score 0.5, reproducibility 0.8), tagged "cached", not yet verified.
pub fn cached_state(entry: &CachedEntry) -> (r: CandidateState)
    ensures
        r.candidate.path@ == entry.path@,
        r.candidate.kind matches TargetKind::Other(k) && k@ == "cached"@,
        r.candidate.size_bytes == entry.size_bytes,
        r.candidate.last_modified == Some(entry.last_seen),
        r.candidate.last_accessed is None,
        r.candidate.reproducibility == 800,
        r.candidate.score == 500,
        tag_views(r.candidate.tags@) == seq!["cached"@],
        r.candidate.action is Skip,
        r.candidate.group is None,
        r.selection_mode == SelectionMode::Auto,
        r.selection_state == auto_state(500),
        r.cache_status == CacheStatus::CachedUnverified,
        r.is_new,
        !r.is_changed,
        r.size_cached == Some(entry.size_bytes),
        r.size_current == Some(entry.size_bytes),
        r.first_seen == entry.first_seen,
        r.last_seen == entry.last_seen,
        r.last_verified.wf(),
{
    let mut tags: Vec<String> = Vec::new();
    tags.push(crate::text::owned("cached"));
    let candidate = Candidate {
        path: crate::text::owned(entry.path.as_str()),
        kind: TargetKind::Other(crate::text::owned("cached")),
        size_bytes: entry.size_bytes,
        last_modified: Some(entry.last_seen),
        last_accessed: None,
        reproducibility: 800,
        score: 500,
        tags,
        action: Action::Skip,
        group: None,
    };
    let mut state = CandidateState::new(candidate);
    state.cache_status = CacheStatus::CachedUnverified;
    state.first_seen = entry.first_seen;
    state.last_seen = entry.last_seen;
    proof {
        assert(tag_views(state.candidate.tags@) =~= seq!["cached"@]);
    }
    state
}


/// Total size of the candidates whose checkbox is checked.
pub open spec fn checked_sizes(v: Seq<CandidateState>) -> nat
    decreases v.len(),
{
    if v.len() == 0 {
        0
    } else {
        checked_sizes(v.drop_last()) + (if v.last().selection_state == SelectionState::Checked {
            v.last().candidate.size_bytes as nat
        } else {
            0
        })
    }
}

/// A prefix's checked size is at most the whole one.
proof fn lemma_checked_prefix(v: Seq<CandidateState>, k: int)
    requires
        0 <= k <= v.len(),
    ensures
        checked_sizes(v.take(k)) <= checked_sizes(v),
    decreases v.len() - k,
{
    if k < v.len() {
        lemma_checked_prefix(v, k + 1);
        assert(v.take(k + 1).drop_last() =~= v.take(k));
    } else {
        assert(v.take(k) =~= v);
    }
}

/// Total size of the checked candidates, as the view shows it.
pub fn checked_size(states: &[CandidateState]) -> (r: u64)
    requires
        checked_sizes(states@) <= u64::MAX,
    ensures
        r == checked_sizes(states@),
{
    let mut t: u64 = 0;
    let mut i: usize = 0;
    while i < states.len()
        invariant
            i <= states@.len(),
            checked_sizes(states@) <= u64::MAX,
            t == checked_sizes(states@.take(i as int)),
        decreases states.len() - i,
    {
        proof {
            assert(states@.take(i + 1).drop_last() =~= states@.take(i as int));
            lemma_checked_prefix(states@, i + 1);
        }
        if states[i].is_selected() {
            t = t + states[i].candidate.size_bytes;
        }
        i += 1;
    }
    proof {
        assert(states@.take(states@.len() as int) =~= states@);
    }
    t
}

} // verus!
