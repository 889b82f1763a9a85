//! Quick re-verification of cached candidates: compare the size found now with
//! the cached one.
use vstd::prelude::*;
use crate::selection::{CacheStatus, CandidateState};
use crate::time::{stamp_now, Timestamp};

verus! {

/// Counts from a verification pass.
#[derive(Debug, Clone)]
pub struct VerificationStats {
    pub total: usize,
    pub verified_unchanged: usize,
    pub changed: usize,
    pub unavailable: usize,
}

impl Default for VerificationStats {
    fn default() -> (r: VerificationStats)
        ensures
            r.total == 0 && r.verified_unchanged == 0 && r.changed == 0 && r.unavailable == 0,
    {
        VerificationStats { total: 0, verified_unchanged: 0, changed: 0, unavailable: 0 }
    }
}

/// Whether a progress message goes out before item `idx` (every tenth item).
pub fn progress_due(idx: usize) -> (r: bool)
    ensures
        r == (idx % 10 == 0),
{
    idx % 10 == 0
}

/// Record the outcome of checking one candidate: its current size, or `None` when
/// the path could not be read. A size equal to the cached one verifies the entry;
/// another size (or no cached size) marks it changed; an unreadable path makes its
/// status unknown.
pub fn apply_check(state: &mut CandidateState, current: Option<u64>, stats: &mut VerificationStats)
    requires
        old(stats).verified_unchanged < usize::MAX,
        old(stats).changed < usize::MAX,
        old(stats).unavailable < usize::MAX,
    ensures
        final(state).candidate == old(state).candidate,
        final(state).selection_mode == old(state).selection_mode,
        final(state).selection_state == old(state).selection_state,
        final(state).size_cached == old(state).size_cached,
        final(state).is_new == old(state).is_new,
        final(state).first_seen == old(state).first_seen,
        final(state).last_seen == old(state).last_seen,
        final(stats).total == old(stats).total,
        match current {
            Some(size) => {
                &&& final(state).size_current == Some(size)
                &&& final(state).last_verified.wf()
                &&& if old(state).size_cached == Some(size) {
                    &&& final(state).cache_status == CacheStatus::CachedVerified
                    &&& final(state).is_changed == old(state).is_changed
                    &&& final(stats).verified_unchanged == old(stats).verified_unchanged + 1
                    &&& final(stats).changed == old(stats).changed
                } else {
                    &&& final(state).cache_status == CacheStatus::Changed
                    &&& final(state).is_changed
                    &&& final(stats).verified_unchanged == old(stats).verified_unchanged
                    &&& final(stats).changed == old(stats).changed + 1
                }
                &&& final(stats).unavailable == old(stats).unavailable
            },
            None => {
                &&& final(state).size_current == old(state).size_current
                &&& final(state).last_verified == old(state).last_verified
                &&& final(state).cache_status == CacheStatus::Unknown
                &&& final(state).is_changed == old(state).is_changed
                &&& final(stats).unavailable == old(stats).unavailable + 1
                &&& final(stats).verified_unchanged == old(stats).verified_unchanged
                &&& final(stats).changed == old(stats).changed
            },
        },
{
    match current {
        Some(size) => {
            state.size_current = Some(size);
            let unchanged = match state.size_cached {
                Some(cached) => cached == size,
                None => false,
            };
            if unchanged {
                state.cache_status = CacheStatus::CachedVerified;
                state.last_verified = stamp_now();
                stats.verified_unchanged = stats.verified_unchanged + 1;
            } else {
                state.cache_status = CacheStatus::Changed;
                state.last_verified = stamp_now();
                state.is_changed = true;
                stats.changed = stats.changed + 1;
            }
        },
        None => {
            state.cache_status = CacheStatus::Unknown;
            stats.unavailable = stats.unavailable + 1;
        },
    }
}

/// What a directory entry is, for the quick size of a directory.
#[derive(Debug, Clone, Copy)]
pub enum ChildKind {
    /// A file of the given length.
    File(u64),
    /// A subdirectory (counted as one block, not walked).
    Dir,
    /// Anything else.
    Other,
}

/// The quick size a child contributes.
pub open spec fn child_size(k: ChildKind) -> nat {
    match k {
        ChildKind::File(n) => n as nat,
        ChildKind::Dir => 4096,
        ChildKind::Other => 0,
    }
}

/// The quick size of a directory's children.
pub open spec fn quick_size_of(cs: Seq<ChildKind>) -> nat
    decreases cs.len(),
{
    if cs.len() == 0 {
        0
    } else {
        quick_size_of(cs.drop_last()) + child_size(cs.last())
    }
}

/// Quick size of a directory: its files' lengths plus one 4096-byte block per
/// subdirectory, without walking deeper; `None` when the sum does not fit in 64 bits.
pub fn quick_size(children: &Vec<ChildKind>) -> (r: Option<u64>)
    ensures
        match r {
            Some(n) => n == quick_size_of(children@),
            None => quick_size_of(children@) > u64::MAX,
        },
{
    let mut total: u64 = 0;
    let mut i: usize = 0;
    while i < children.len()
        invariant
            i <= children@.len(),
            total == quick_size_of(children@.take(i as int)),
        decreases children.len() - i,
    {
        proof {
            assert(children@.take(i + 1).drop_last() =~= children@.take(i as int));
        }
        let add: u64 = match children[i] {
            ChildKind::File(n) => n,
            ChildKind::Dir => 4096,
            ChildKind::Other => 0,
        };
        if total > u64::MAX - add {
            proof {
                lemma_quick_size_prefix(children@, i + 1);
            }
            return None;
        }
        total = total + add;
        i += 1;
    }
    proof {
        assert(children@.take(children@.len() as int) =~= children@);
    }
    Some(total)
}

/// A prefix's quick size is at most the whole one.
proof fn lemma_quick_size_prefix(cs: Seq<ChildKind>, k: int)
    requires
        0 <= k <= cs.len(),
    ensures
        quick_size_of(cs.take(k)) <= quick_size_of(cs),
    decreases cs.len() - k,
{
    if k < cs.len() {
        lemma_quick_size_prefix(cs, k + 1);
        assert(cs.take(k + 1).drop_last() =~= cs.take(k));
    } else {
        assert(cs.take(k) =~= cs);
    }
}

} // verus!
