//! Scan priority heuristics for choosing the discovery order of paths, and the
//! phases of progressive scanning.
//!
//! Priority scores are kept in thirtieths of a point, so that the rescan time
//! factor (one thirtieth per day since the last scan, capped at two) stays exact.
use vstd::prelude::*;
use crate::paths::{component_count, path_component_count};
use crate::text::{chars_of, contains_any, contains_any_of, lowercase_of, to_lowercase};

verus! {

/// Why a path got its priority.
#[derive(Debug, Clone, Copy, PartialEq, Eq, Structural)]
pub enum PriorityReason {
    /// First scan: likely to contain large artifacts.
    LikelyLarge,
    /// Rescan: likely to have changed since the last scan.
    LikelyChanged,
    /// Hot path (user-configured or learned).
    HotPath,
    /// Fallback.
    Default,
}

/// A path with its scan priority.
#[derive(Debug, Clone)]
pub struct ScanPriority {
    pub path: String,
    /// Priority in thirtieths of a point; higher is scanned first.
    pub score: i64,
    pub reason: PriorityReason,
}

/// One of the patterns occurs in the path text.
pub fn path_contains_any(path: &Vec<char>, patterns: &[&str]) -> (r: bool)
    ensures
        r == contains_any(path@, patterns@),
{
    contains_any_of(path, patterns)
}

/// Points `b` when `cond` holds.
pub open spec fn bonus(cond: bool, b: int) -> int {
    if cond {
        b
    } else {
        0
    }
}

/// First-scan points of a lowercased path with `depth` components.
pub open spec fn first_scan_points(p: Seq<char>, depth: nat) -> int {
    10 + bonus(contains_any(p, seq!["node_modules", "target", ".venv", "venv", "build", "dist"]), 50)
        + bonus(contains_any(p, seq!["repos", "projects", "workspace", "code", "dev"]), 30)
        + bonus(contains_any(p, seq!["cache", "caches", "deriveddata", ".cache"]), 40) + bonus(
        contains_any(p, seq!["xcode", "developer/xcode"]),
        35,
    ) + bonus(contains_any(p, seq!["downloads", "download"]), 20) - bonus(
        contains_any(p, seq!["/system/", "/applications/", "/library/frameworks"]),
        20,
    ) - bonus(contains_any(p, seq!["photos", "pictures", "music", "movies", "videos", "media"]), 10)
        - bonus(depth > 5, (depth - 5) * 2)
}

/// Number of occurrences of `c` in `s`.
pub open spec fn count_char(s: Seq<char>, c: char) -> nat
    decreases s.len(),
{
    if s.len() == 0 {
        0
    } else {
        count_char(s.drop_last(), c) + (if s.last() == c {
            1nat
        } else {
            0nat
        })
    }
}

/// Rescan points of a lowercased path, before the time factor.
pub open spec fn rescan_points(p: Seq<char>) -> int {
    10 + bonus(contains_any(p, seq!["target/debug", "target/release", "build/", "__pycache__"]), 60)
        + bonus(contains_any(p, seq!["node_modules", ".venv", "venv", "vendor"]), 50) + bonus(
        contains_any(p, seq!["/tmp", "temp", "cache", ".cache", "caches"]),
        55,
    ) + bonus(contains_any(p, seq!["desktop", "downloads", "documents"]), 40) + bonus(
        contains_any(p, seq!["repos", "projects", "workspace"]) && count_char(p, '/') <= 4,
        30,
    ) - bonus(contains_any(p, seq!["/system/", "/applications/", "/usr/"]), 30) - bonus(
        contains_any(p, seq!["photos", "pictures", "music", "movies"]),
        40,
    )
}

/// First-scan priority of a path, in thirtieths: its points, never below zero.
pub open spec fn first_scan_priority(path: Seq<char>) -> int {
    let pts = first_scan_points(lowercase_of(path), path_component_count(path));
    if pts > 0 {
        pts * 30
    } else {
        0
    }
}

/// Rescan priority of a path, in thirtieths: its points grown by one thirtieth per
/// day since the last scan (at most two times more), never below zero.
pub open spec fn rescan_priority(path: Seq<char>, days: nat) -> int {
    let pts = rescan_points(lowercase_of(path));
    let m: int = if days < 60 {
        days as int
    } else {
        60
    };
    if pts > 0 {
        pts * (30 + m)
    } else {
        0
    }
}

fn points_if(cond: bool, b: i64) -> (r: i64)
    ensures
        r == bonus(cond, b as int),
{
    if cond {
        b
    } else {
        0
    }
}

/// First scan heuristic: prefer paths likely to contain large artifacts.
pub fn first_scan_score(path: &str) -> (r: i64)
    ensures
        r == first_scan_priority(path@),
{
    let lower = to_lowercase(path);
    let p = chars_of(lower.as_str());
    let depth = component_count(path);
    let mut score: i64 = 10;
    score = score + points_if(
        path_contains_any(&p, &["node_modules", "target", ".venv", "venv", "build", "dist"]),
        50,
    );
    score = score + points_if(
        path_contains_any(&p, &["repos", "projects", "workspace", "code", "dev"]),
        30,
    );
    score = score + points_if(
        path_contains_any(&p, &["cache", "caches", "deriveddata", ".cache"]),
        40,
    );
    score = score + points_if(path_contains_any(&p, &["xcode", "developer/xcode"]), 35);
    score = score + points_if(path_contains_any(&p, &["downloads", "download"]), 20);
    score = score - points_if(
        path_contains_any(&p, &["/system/", "/applications/", "/library/frameworks"]),
        20,
    );
    score = score - points_if(
        path_contains_any(&p, &["photos", "pictures", "music", "movies", "videos", "media"]),
        10,
    );
    if depth > 5 {
        let extra: u64 = (depth - 5) as u64;
        if extra > 1_000_000_000_000 {
            return 0;
        }
        score = score - (extra as i64) * 2;
    }
    if score > 0 {
        score * 30
    } else {
        0
    }
}

/// Occurrences of a character.
fn count_of(s: &Vec<char>, c: char) -> (r: usize)
    ensures
        r == count_char(s@, c),
{
    let mut n: usize = 0;
    let mut i: usize = 0;
    while i < s.len()
        invariant
            i <= s@.len(),
            n == count_char(s@.subrange(0, i as int), c),
            n <= i,
        decreases s.len() - i,
    {
        proof {
            assert(s@.subrange(0, i + 1).drop_last() =~= s@.subrange(0, i as int));
        }
        if s[i] == c {
            n += 1;
        }
        i += 1;
    }
    assert(s@.subrange(0, s@.len() as int) =~= s@);
    n
}

/// Rescan heuristic: prefer paths likely to have changed.
pub fn rescan_score(path: &str, last_scan_days_ago: u32) -> (r: i64)
    ensures
        r == rescan_priority(path@, last_scan_days_ago as nat),
{
    let lower = to_lowercase(path);
    let p = chars_of(lower.as_str());
    let mut score: i64 = 10;
    score = score + points_if(
        path_contains_any(&p, &["target/debug", "target/release", "build/", "__pycache__"]),
        60,
    );
    score = score + points_if(
        path_contains_any(&p, &["node_modules", ".venv", "venv", "vendor"]),
        50,
    );
    score = score + points_if(
        path_contains_any(&p, &["/tmp", "temp", "cache", ".cache", "caches"]),
        55,
    );
    score = score + points_if(
        path_contains_any(&p, &["desktop", "downloads", "documents"]),
        40,
    );
    let repos = path_contains_any(&p, &["repos", "projects", "workspace"]);
    let shallow = count_of(&p, '/') <= 4;
    score = score + points_if(repos && shallow, 30);
    score = score - points_if(path_contains_any(&p, &["/system/", "/applications/", "/usr/"]), 30);
    score = score - points_if(path_contains_any(&p, &["photos", "pictures", "music", "movies"]), 40);
    assert(score <= 245);
    let m: i64 = if last_scan_days_ago < 60 {
        last_scan_days_ago as i64
    } else {
        60
    };
    if score > 0 {
        assert(score * (30 + m) <= 245 * 90) by (nonlinear_arith)
            requires
                0 < score <= 245,
                0 <= m <= 60,
        ;
        score * (30 + m)
    } else {
        0
    }
}

impl ScanPriority {
    /// Priority for a first-time scan (maximize large file discovery).
    pub fn for_first_scan(path: &str) -> (r: ScanPriority)
        ensures
            r.path@ == path@,
            r.score == first_scan_priority(path@),
            r.reason == PriorityReason::LikelyLarge,
    {
        let score = first_scan_score(path);
        ScanPriority { path: crate::text::owned(path), score, reason: PriorityReason::LikelyLarge }
    }

    /// Priority for a rescan (maximize change detection).
    pub fn for_rescan(path: &str, last_scan_days_ago: u32) -> (r: ScanPriority)
        ensures
            r.path@ == path@,
            r.score == rescan_priority(path@, last_scan_days_ago as nat),
            r.reason == PriorityReason::LikelyChanged,
    {
        let score = rescan_score(path, last_scan_days_ago);
        ScanPriority { path: crate::text::owned(path), score, reason: PriorityReason::LikelyChanged }
    }

    /// A hot path: the highest priority, the most any first scan or rescan can give
    /// (245 points grown three times, 735 points).
    pub fn hot_path(path: &str) -> (r: ScanPriority)
        ensures
            r.path@ == path@,
            r.score == HOT_PATH_SCORE,
            r.reason == PriorityReason::HotPath,
    {
        ScanPriority { path: crate::text::owned(path), score: HOT_PATH_SCORE, reason: PriorityReason::HotPath }
    }

    /// Scan order: `Less` when `self` is scanned before `other` (higher score first).
    pub fn priority_order(&self, other: &ScanPriority) -> (r: std::cmp::Ordering)
        ensures
            (r == std::cmp::Ordering::Less) == (self.score > other.score),
            (r == std::cmp::Ordering::Equal) == (self.score == other.score),
            (r == std::cmp::Ordering::Greater) == (self.score < other.score),
    {
        if self.score > other.score {
            std::cmp::Ordering::Less
        } else if self.score == other.score {
            std::cmp::Ordering::Equal
        } else {
            std::cmp::Ordering::Greater
        }
    }
}

/// The score of a hot path, in thirtieths of a point.
pub const HOT_PATH_SCORE: i64 = 22050;

/// A hot path comes first: no first-scan or rescan priority of any path, after any
/// number of days, is above a hot path's.
pub proof fn law_hot_path_highest(path: Seq<char>, days: nat)
    ensures
        first_scan_priority(path) <= HOT_PATH_SCORE,
        rescan_priority(path, days) <= HOT_PATH_SCORE,
{
    let pts = rescan_points(lowercase_of(path));
    let m: int = if days < 60 { days as int } else { 60 };
    if pts > 0 {
        assert(pts <= 245);
        assert(pts * (30 + m) <= 245 * 90) by (nonlinear_arith)
            requires
                0 < pts <= 245,
                0 <= m <= 60,
        ;
    }
    let fp = first_scan_points(lowercase_of(path), path_component_count(path));
    assert(fp <= 185);
}

/// An older last scan never lowers a path's rescan priority.
pub proof fn law_rescan_grows_with_age(path: Seq<char>, d1: nat, d2: nat)
    requires
        d1 <= d2,
    ensures
        rescan_priority(path, d1) <= rescan_priority(path, d2),
{
    let pts = rescan_points(lowercase_of(path));
    if pts > 0 {
        let m1: int = if d1 < 60 { d1 as int } else { 60 };
        let m2: int = if d2 < 60 { d2 as int } else { 60 };
        assert(pts * (30 + m1) <= pts * (30 + m2)) by (nonlinear_arith)
            requires
                pts > 0,
                m1 <= m2,
        ;
    }
}

/// Scan phases for progressive reporting.
#[derive(Debug, Clone, Copy, PartialEq, Eq, Structural)]
pub enum ScanPhase {
    /// Initial quick scan (hot paths, high priority).
    Quick,
    /// Medium priority paths.
    Medium,
    /// Low priority paths (thorough).
    Thorough,
    /// Complete.
    Complete,
}

impl ScanPhase {
    /// The phase after this one.
    pub open spec fn following(&self) -> Option<ScanPhase> {
        match self {
            ScanPhase::Quick => Some(ScanPhase::Medium),
            ScanPhase::Medium => Some(ScanPhase::Thorough),
            ScanPhase::Thorough => Some(ScanPhase::Complete),
            ScanPhase::Complete => None,
        }
    }

    /// Item count after which this phase reports.
    pub open spec fn items_threshold(&self) -> usize {
        match self {
            ScanPhase::Quick => 50,
            ScanPhase::Medium => 200,
            ScanPhase::Thorough => 1000,
            ScanPhase::Complete => usize::MAX,
        }
    }

    /// Threshold of discovered items for transitioning to this phase.
    pub fn threshold_items(&self) -> (r: usize)
        ensures
            r == self.items_threshold(),
    {
        match self {
            ScanPhase::Quick => 50,
            ScanPhase::Medium => 200,
            ScanPhase::Thorough => 1000,
            ScanPhase::Complete => usize::MAX,
        }
    }

    /// The next phase, if any.
    pub fn next(&self) -> (r: Option<ScanPhase>)
        ensures
            r == self.following(),
    {
        match self {
            ScanPhase::Quick => Some(ScanPhase::Medium),
            ScanPhase::Medium => Some(ScanPhase::Thorough),
            ScanPhase::Thorough => Some(ScanPhase::Complete),
            ScanPhase::Complete => None,
        }
    }

    /// Display label.
    pub fn label(&self) -> (r: &'static str)
        ensures
            r@ == (match self {
                ScanPhase::Quick => "Quick Scan"@,
                ScanPhase::Medium => "Medium Scan"@,
                ScanPhase::Thorough => "Thorough Scan"@,
                ScanPhase::Complete => "Complete"@,
            }),
    {
        match self {
            ScanPhase::Quick => "Quick Scan",
            ScanPhase::Medium => "Medium Scan",
            ScanPhase::Thorough => "Thorough Scan",
            ScanPhase::Complete => "Complete",
        }
    }
}

/// Phases only move forward: each next phase reports later (a higher item
/// threshold), and every chain of `next` reaches `Complete` within three steps.
pub proof fn law_phases_advance(p: ScanPhase)
    ensures
        p.following() matches Some(q) ==> p.items_threshold() < q.items_threshold(),
        p != ScanPhase::Complete ==> p.following() is Some,
        p.following() is None <==> p == ScanPhase::Complete,
{
}

} // verus!
