//! Selection tracking: which candidates are checked for cleanup, and whether that
//! choice came from the score (auto) or from the user (manual).
use vstd::prelude::*;
use crate::candidate::Candidate;
use crate::time::{stamp_now, Timestamp};

verus! {

/// Cache verification status for progressive scanning.
#[derive(Debug, Clone, Copy, PartialEq, Eq, Structural)]
pub enum CacheStatus {
    /// Never seen before or outside cached roots.
    Unknown,
    /// In cache, not verified this session yet.
    CachedUnverified,
    /// Verified this session: size matches the cached value.
    CachedVerified,
    /// Verified this session: size changed from the cache.
    Changed,
    /// Discovered this session, not in the previous cache.
    New,
}

impl Default for CacheStatus {
    fn default() -> (r: CacheStatus)
        ensures
            r == CacheStatus::Unknown,
    {
        CacheStatus::Unknown
    }
}

impl CacheStatus {
    /// The badge shown next to an entry.
    pub open spec fn badge_view(&self) -> Seq<char> {
        match self {
            CacheStatus::Unknown => "⚪ ?"@,
            CacheStatus::CachedUnverified => "🟡 ~"@,
            CacheStatus::CachedVerified => "🟢 ✓"@,
            CacheStatus::Changed => "🟠 Δ"@,
            CacheStatus::New => "🔵 N"@,
        }
    }

    /// The badge shown next to an entry.
    pub fn badge(&self) -> (r: &'static str)
        ensures
            r@ == self.badge_view(),
    {
        match self {
            CacheStatus::Unknown => "⚪ ?",
            CacheStatus::CachedUnverified => "🟡 ~",
            CacheStatus::CachedVerified => "🟢 ✓",
            CacheStatus::Changed => "🟠 Δ",
            CacheStatus::New => "🔵 N",
        }
    }

    /// The size shown was checked on disk this session.
    pub fn is_verified(&self) -> (r: bool)
        ensures
            r == (*self == CacheStatus::CachedVerified || *self == CacheStatus::Changed || *self
                == CacheStatus::New),
    {
        match self {
            CacheStatus::CachedVerified | CacheStatus::Changed | CacheStatus::New => true,
            _ => false,
        }
    }

    /// The size shown is an estimate (not checked this session).
    pub fn is_estimation(&self) -> (r: bool)
        ensures
            r == (*self == CacheStatus::CachedUnverified || *self == CacheStatus::Unknown),
    {
        match self {
            CacheStatus::CachedUnverified | CacheStatus::Unknown => true,
            _ => false,
        }
    }
}

/// How a selection state was determined.
#[derive(Debug, Clone, Copy, PartialEq, Eq, Structural)]
pub enum SelectionMode {
    /// Controlled by the score.
    Auto,
    /// Set by the user; persists across rescans.
    Manual,
    /// Mixed (only for groups whose children disagree).
    Mixed,
}

impl Default for SelectionMode {
    fn default() -> (r: SelectionMode)
        ensures
            r == SelectionMode::Auto,
    {
        SelectionMode::Auto
    }
}

impl SelectionMode {
    /// One-letter label.
    pub fn label(&self) -> (r: &'static str)
        ensures
            r@ == (match self {
                SelectionMode::Auto => "A"@,
                SelectionMode::Manual => "M"@,
                SelectionMode::Mixed => "-"@,
            }),
    {
        match self {
            SelectionMode::Auto => "A",
            SelectionMode::Manual => "M",
            SelectionMode::Mixed => "-",
        }
    }
}

/// Checkbox state.
#[derive(Debug, Clone, Copy, PartialEq, Eq, Structural)]
pub enum SelectionState {
    Unchecked,
    Checked,
    /// Indeterminate (groups with mixed children).
    Indeterminate,
}

impl Default for SelectionState {
    fn default() -> (r: SelectionState)
        ensures
            r == SelectionState::Unchecked,
    {
        SelectionState::Unchecked
    }
}

impl SelectionState {
    pub fn is_checked(&self) -> (r: bool)
        ensures
            r == (*self == SelectionState::Checked),
    {
        match self {
            SelectionState::Checked => true,
            _ => false,
        }
    }

    pub fn is_unchecked(&self) -> (r: bool)
        ensures
            r == (*self == SelectionState::Unchecked),
    {
        match self {
            SelectionState::Unchecked => true,
            _ => false,
        }
    }

    pub fn is_indeterminate(&self) -> (r: bool)
        ensures
            r == (*self == SelectionState::Indeterminate),
    {
        match self {
            SelectionState::Indeterminate => true,
            _ => false,
        }
    }
}

/// Score (in thousandths) from which a candidate is pre-selected.
pub const AUTO_SELECT_SCORE: u32 = 700;

/// The state the score alone gives: checked from 0.7 up.
pub open spec fn auto_state(score: u32) -> SelectionState {
    if score >= AUTO_SELECT_SCORE {
        SelectionState::Checked
    } else {
        SelectionState::Unchecked
    }
}

/// The state a user toggle leads to.
pub open spec fn toggled(s: SelectionState) -> SelectionState {
    match s {
        SelectionState::Checked => SelectionState::Unchecked,
        _ => SelectionState::Checked,
    }
}

/// A candidate with its selection and cache tracking.
#[derive(Debug, Clone)]
pub struct CandidateState {
    pub candidate: Candidate,
    pub selection_mode: SelectionMode,
    pub selection_state: SelectionState,
    /// Cache and verification status.
    pub cache_status: CacheStatus,
    /// Size at the last full scan.
    pub size_cached: Option<u64>,
    /// Size at the last verification (may be an estimate).
    pub size_current: Option<u64>,
    /// Last quick check.
    pub last_verified: Timestamp,
    /// Discovery tracking.
    pub is_new: bool,
    pub is_changed: bool,
    pub first_seen: Timestamp,
    pub last_seen: Timestamp,
}

impl CandidateState {
    /// The state `new` builds for a candidate at instant `t`.
    pub open spec fn fresh(candidate: Candidate, t: Timestamp) -> CandidateState {
        CandidateState {
            candidate,
            selection_mode: SelectionMode::Auto,
            selection_state: auto_state(candidate.score),
            cache_status: CacheStatus::New,
            size_cached: Some(candidate.size_bytes),
            size_current: Some(candidate.size_bytes),
            last_verified: t,
            is_new: true,
            is_changed: false,
            first_seen: t,
            last_seen: t,
        }
    }

    /// A new, auto-selected state for a candidate, stamped with the instant `t`.
    pub fn new_at(candidate: Candidate, t: Timestamp) -> (r: CandidateState)
        ensures
            r == CandidateState::fresh(candidate, t),
    {
        let size = candidate.size_bytes;
        let selection_state = if candidate.score >= AUTO_SELECT_SCORE {
            SelectionState::Checked
        } else {
            SelectionState::Unchecked
        };
        CandidateState {
            candidate,
            selection_mode: SelectionMode::Auto,
            selection_state,
            cache_status: CacheStatus::New,
            size_cached: Some(size),
            size_current: Some(size),
            last_verified: t,
            is_new: true,
            is_changed: false,
            first_seen: t,
            last_seen: t,
        }
    }

    /// A new state for a candidate: auto mode, checked from score 0.7 up, marked new,
    /// stamped with the current time.
    pub fn new(candidate: Candidate) -> (r: CandidateState)
        ensures
            exists|t: Timestamp| t.wf() && r == CandidateState::fresh(candidate, t),
    {
        let t = stamp_now();
        CandidateState::new_at(candidate, t)
    }

    /// A state restored from a cache entry; the current size comes from the candidate
    /// and `last_seen` is the current time.
    pub fn from_cached(
        candidate: Candidate,
        mode: SelectionMode,
        state: SelectionState,
        cache_status: CacheStatus,
        size_cached: Option<u64>,
        is_new: bool,
        is_changed: bool,
        first_seen: Timestamp,
        last_verified: Timestamp,
    ) -> (r: CandidateState)
        ensures
            r.candidate == candidate,
            r.selection_mode == mode,
            r.selection_state == state,
            r.cache_status == cache_status,
            r.size_cached == size_cached,
            r.size_current == Some(candidate.size_bytes),
            r.last_verified == last_verified,
            r.is_new == is_new,
            r.is_changed == is_changed,
            r.first_seen == first_seen,
            r.last_seen.wf(),
    {
        let t = stamp_now();
        let size_current = candidate.size_bytes;
        CandidateState {
            candidate,
            selection_mode: mode,
            selection_state: state,
            cache_status,
            size_cached,
            size_current: Some(size_current),
            last_verified,
            is_new,
            is_changed,
            first_seen,
            last_seen: t,
        }
    }

    /// Everything but the selection is the same: candidate, cache status, sizes,
    /// discovery flags and the three timestamps.
    pub open spec fn same_tracking(&self, other: CandidateState) -> bool {
        &&& self.candidate == other.candidate
        &&& self.cache_status == other.cache_status
        &&& self.size_cached == other.size_cached
        &&& self.size_current == other.size_current
        &&& self.last_verified == other.last_verified
        &&& self.is_new == other.is_new
        &&& self.is_changed == other.is_changed
        &&& self.first_seen == other.first_seen
        &&& self.last_seen == other.last_seen
    }

    /// Toggle the selection (a user action: the mode becomes manual).
    pub fn toggle(&mut self)
        ensures
            final(self).selection_state == toggled(old(self).selection_state),
            final(self).selection_mode == SelectionMode::Manual,
            final(self).same_tracking(*old(self)),
    {
        self.selection_state = match self.selection_state {
            SelectionState::Checked => SelectionState::Unchecked,
            SelectionState::Unchecked | SelectionState::Indeterminate => SelectionState::Checked,
        };
        self.selection_mode = SelectionMode::Manual;
    }

    /// Set the checked state (a user action: the mode becomes manual).
    pub fn set_checked(&mut self, checked: bool)
        ensures
            final(self).selection_state == (if checked {
                SelectionState::Checked
            } else {
                SelectionState::Unchecked
            }),
            final(self).selection_mode == SelectionMode::Manual,
            final(self).same_tracking(*old(self)),
    {
        self.selection_state = if checked {
            SelectionState::Checked
        } else {
            SelectionState::Unchecked
        };
        self.selection_mode = SelectionMode::Manual;
    }

    /// Back to auto mode: the selection follows the score again.
    pub fn reset_to_auto(&mut self)
        ensures
            final(self).selection_mode == SelectionMode::Auto,
            final(self).selection_state == auto_state(old(self).candidate.score),
            final(self).same_tracking(*old(self)),
    {
        self.selection_mode = SelectionMode::Auto;
        self.selection_state = if self.candidate.score >= AUTO_SELECT_SCORE {
            SelectionState::Checked
        } else {
            SelectionState::Unchecked
        };
    }

    /// Whether this entry is included in bulk operations.
    pub fn is_selected(&self) -> (r: bool)
        ensures
            r == (self.selection_state == SelectionState::Checked),
    {
        self.selection_state.is_checked()
    }
}

/// How many of the states are checked.
pub open spec fn checked_count(s: Seq<CandidateState>) -> nat
    decreases s.len(),
{
    if s.len() == 0 {
        0
    } else {
        checked_count(s.drop_last()) + (if s.last().selection_state == SelectionState::Checked {
            1nat
        } else {
            0nat
        })
    }
}

/// How many of the states were set by the user.
pub open spec fn manual_count(s: Seq<CandidateState>) -> nat
    decreases s.len(),
{
    if s.len() == 0 {
        0
    } else {
        manual_count(s.drop_last()) + (if s.last().selection_mode == SelectionMode::Manual {
            1nat
        } else {
            0nat
        })
    }
}

/// The aggregate checkbox of a group: unchecked when no child is checked, checked
/// when all are, indeterminate otherwise.
pub open spec fn group_state(s: Seq<CandidateState>) -> SelectionState {
    if s.len() == 0 || checked_count(s) == 0 {
        SelectionState::Unchecked
    } else if checked_count(s) == s.len() {
        SelectionState::Checked
    } else {
        SelectionState::Indeterminate
    }
}

/// The aggregate mode of a group: auto when no child is manual, manual when all
/// are, mixed otherwise.
pub open spec fn group_mode(s: Seq<CandidateState>) -> SelectionMode {
    if s.len() == 0 || manual_count(s) == 0 {
        SelectionMode::Auto
    } else if manual_count(s) == s.len() {
        SelectionMode::Manual
    } else {
        SelectionMode::Mixed
    }
}

proof fn lemma_counts_bounded(s: Seq<CandidateState>)
    ensures
        checked_count(s) <= s.len(),
        manual_count(s) <= s.len(),
    decreases s.len(),
{
    if s.len() > 0 {
        lemma_counts_bounded(s.drop_last());
    }
}

/// Compute the aggregate state of a group of candidates.
pub fn compute_group_state(children: &[CandidateState]) -> (r: (SelectionState, SelectionMode))
    ensures
        r.0 == group_state(children@),
        r.1 == group_mode(children@),
{
    if children.len() == 0 {
        return (SelectionState::Unchecked, SelectionMode::Auto);
    }
    let mut checked: usize = 0;
    let mut manual: usize = 0;
    let mut i: usize = 0;
    while i < children.len()
        invariant
            i <= children@.len(),
            checked == checked_count(children@.subrange(0, i as int)),
            manual == manual_count(children@.subrange(0, i as int)),
        decreases children.len() - i,
    {
        proof {
            let s = children@.subrange(0, i as int + 1);
            assert(s.drop_last() =~= children@.subrange(0, i as int));
            lemma_counts_bounded(children@.subrange(0, i as int));
        }
        if children[i].selection_state.is_checked() {
            checked += 1;
        }
        if children[i].selection_mode == SelectionMode::Manual {
            manual += 1;
        }
        i += 1;
    }
    assert(children@.subrange(0, children@.len() as int) =~= children@);
    let state = if checked == 0 {
        SelectionState::Unchecked
    } else if checked == children.len() {
        SelectionState::Checked
    } else {
        SelectionState::Indeterminate
    };
    let mode = if manual == 0 {
        SelectionMode::Auto
    } else if manual == children.len() {
        SelectionMode::Manual
    } else {
        SelectionMode::Mixed
    };
    (state, mode)
}

/// Toggling twice gives back a definite (checked or unchecked) selection, and a
/// toggle never leaves the checkbox indeterminate.
pub proof fn law_toggle_involutive(s: SelectionState)
    ensures
        toggled(s) != SelectionState::Indeterminate,
        s != SelectionState::Indeterminate ==> toggled(toggled(s)) == s,
{
}

/// A group's checkbox is checked exactly when every child is checked, and
/// unchecked exactly when none is (or the group is empty).
pub proof fn law_group_state_extremes(s: Seq<CandidateState>)
    ensures
        (group_state(s) == SelectionState::Checked) <==> (s.len() > 0 && forall|i: int|
            0 <= i < s.len() ==> #[trigger] s[i].selection_state == SelectionState::Checked),
        (group_state(s) == SelectionState::Unchecked) <==> (forall|i: int|
            0 <= i < s.len() ==> #[trigger] s[i].selection_state != SelectionState::Checked),
{
    lemma_checked_count_all(s);
}

proof fn lemma_checked_count_all(s: Seq<CandidateState>)
    ensures
        (checked_count(s) == s.len()) <==> (forall|i: int|
            0 <= i < s.len() ==> #[trigger] s[i].selection_state == SelectionState::Checked),
        (checked_count(s) == 0) <==> (forall|i: int|
            0 <= i < s.len() ==> #[trigger] s[i].selection_state != SelectionState::Checked),
    decreases s.len(),
{
    lemma_counts_bounded(s);
    if s.len() > 0 {
        let t = s.drop_last();
        lemma_checked_count_all(t);
        lemma_counts_bounded(t);
        assert forall|i: int| 0 <= i < t.len() implies #[trigger] t[i] == s[i] by {}
        if checked_count(s) == s.len() {
            assert forall|i: int| 0 <= i < s.len() implies #[trigger] s[i].selection_state
                == SelectionState::Checked by {
                if i < t.len() {
                    assert(t[i] == s[i]);
                }
            }
        }
        if forall|i: int| 0 <= i < s.len() ==> #[trigger] s[i].selection_state
            == SelectionState::Checked {
            assert forall|i: int| 0 <= i < t.len() implies #[trigger] t[i].selection_state
                == SelectionState::Checked by {
                assert(t[i] == s[i]);
            }
        }
        if checked_count(s) == 0 {
            assert forall|i: int| 0 <= i < s.len() implies #[trigger] s[i].selection_state
                != SelectionState::Checked by {
                if i < t.len() {
                    assert(t[i] == s[i]);
                }
            }
        }
        if forall|i: int| 0 <= i < s.len() ==> #[trigger] s[i].selection_state
            != SelectionState::Checked {
            assert forall|i: int| 0 <= i < t.len() implies #[trigger] t[i].selection_state
                != SelectionState::Checked by {
                assert(t[i] == s[i]);
            }
            assert(s[s.len() - 1].selection_state != SelectionState::Checked);
        }
    }
}

/// Resetting a state to auto mode selects it exactly as a fresh state for the same
/// candidate would be selected, whatever the user did before.
pub proof fn law_reset_matches_fresh(s: CandidateState, t: Timestamp)
    ensures
        auto_state(s.candidate.score) == CandidateState::fresh(s.candidate, t).selection_state,
{
}

proof fn lemma_manual_count_all(s: Seq<CandidateState>)
    ensures
        (manual_count(s) == s.len()) <==> (forall|i: int|
            0 <= i < s.len() ==> #[trigger] s[i].selection_mode == SelectionMode::Manual),
        (manual_count(s) == 0) <==> (forall|i: int|
            0 <= i < s.len() ==> #[trigger] s[i].selection_mode != SelectionMode::Manual),
    decreases s.len(),
{
    lemma_counts_bounded(s);
    if s.len() > 0 {
        let t = s.drop_last();
        lemma_manual_count_all(t);
        lemma_counts_bounded(t);
        assert forall|i: int| 0 <= i < t.len() implies #[trigger] t[i] == s[i] by {}
        if manual_count(s) == s.len() {
            assert forall|i: int| 0 <= i < s.len() implies #[trigger] s[i].selection_mode
                == SelectionMode::Manual by {
                if i < t.len() {
                    assert(t[i] == s[i]);
                }
            }
        }
        if forall|i: int| 0 <= i < s.len() ==> #[trigger] s[i].selection_mode == SelectionMode::Manual {
            assert forall|i: int| 0 <= i < t.len() implies #[trigger] t[i].selection_mode
                == SelectionMode::Manual by {
                assert(t[i] == s[i]);
            }
        }
        if manual_count(s) == 0 {
            assert forall|i: int| 0 <= i < s.len() implies #[trigger] s[i].selection_mode
                != SelectionMode::Manual by {
                if i < t.len() {
                    assert(t[i] == s[i]);
                }
            }
        }
        if forall|i: int| 0 <= i < s.len() ==> #[trigger] s[i].selection_mode != SelectionMode::Manual {
            assert forall|i: int| 0 <= i < t.len() implies #[trigger] t[i].selection_mode
                != SelectionMode::Manual by {
                assert(t[i] == s[i]);
            }
            assert(s[s.len() - 1].selection_mode != SelectionMode::Manual);
        }
    }
}

/// A group's mode is manual exactly when every child (of at least one) was set by
/// the user, auto exactly when none was, and mixed exactly when some child was
/// and some was not. Its checkbox is indeterminate exactly when some child is
/// checked and some is not.
pub proof fn law_group_mode_by_children(s: Seq<CandidateState>)
    ensures
        (group_mode(s) == SelectionMode::Manual) <==> (s.len() > 0 && forall|i: int|
            0 <= i < s.len() ==> #[trigger] s[i].selection_mode == SelectionMode::Manual),
        (group_mode(s) == SelectionMode::Auto) <==> (forall|i: int|
            0 <= i < s.len() ==> #[trigger] s[i].selection_mode != SelectionMode::Manual),
        (group_mode(s) == SelectionMode::Mixed) <==> ((exists|i: int|
            0 <= i < s.len() && #[trigger] s[i].selection_mode == SelectionMode::Manual) && (exists|j: int|
            0 <= j < s.len() && #[trigger] s[j].selection_mode != SelectionMode::Manual)),
        (group_state(s) == SelectionState::Indeterminate) <==> ((exists|i: int|
            0 <= i < s.len() && #[trigger] s[i].selection_state == SelectionState::Checked) && (exists|j: int|
            0 <= j < s.len() && #[trigger] s[j].selection_state != SelectionState::Checked)),
{
    lemma_manual_count_all(s);
    lemma_checked_count_all(s);
}

/// A score selects a candidate automatically exactly from 700 thousandths (0.7).
pub proof fn law_auto_select_threshold(score: u32)
    ensures
        auto_state(score) == SelectionState::Checked <==> score >= 700,
        auto_state(score) == SelectionState::Unchecked <==> score < 700,
{
}

} // verus!
