//! Discovery of new candidates between full scans: which places to look at, and
//! which of the candidates found there are new.
use vstd::prelude::*;
use crate::candidate::Candidate;
use crate::selection::{CacheStatus, CandidateState, auto_state, SelectionMode};
use crate::paths::{path_normal, normal_form};
use crate::time::Timestamp;

verus! {

/// Counts from a discovery pass.
#[derive(Debug, Clone)]
pub struct DiscoveryStats {
    pub paths_scanned: usize,
    pub new_items: usize,
    pub changed_items: usize,
}

impl Default for DiscoveryStats {
    fn default() -> (r: DiscoveryStats)
        ensures
            r.paths_scanned == 0 && r.new_items == 0 && r.changed_items == 0,
    {
        DiscoveryStats { paths_scanned: 0, new_items: 0, changed_items: 0 }
    }
}

/// Places under the home directory where new artifacts tend to appear: common
/// folders, development folders, then caches.
pub open spec fn hot_path_names() -> Seq<&'static str> {
    seq![
        "Downloads", "Desktop", "Documents", "repos", "Projects", "Code", "Development", "git", ".cache",
        "Library/Caches", "Library/Developer",
    ]
}

/// The places under the home directory worth a quick look, in order.
pub fn hot_paths() -> (r: Vec<&'static str>)
    ensures
        r@ == hot_path_names(),
{
    let names: [&'static str; 11] = [
        "Downloads", "Desktop", "Documents", "repos", "Projects", "Code", "Development", "git", ".cache",
        "Library/Caches", "Library/Developer",
    ];
    let mut r: Vec<&'static str> = Vec::new();
    let mut i: usize = 0;
    while i < 11
        invariant
            names@ == hot_path_names(),
            i <= 11,
            r@ == names@.take(i as int),
        decreases 11 - i,
    {
        r.push(names[i]);
        i += 1;
        assert(r@ =~= names@.take(i as int));
    }
    assert(names@.take(11) =~= names@);
    r
}

/// The path is one of the known ones (compared as std compares paths).
pub open spec fn is_known(known: Seq<String>, p: Seq<char>) -> bool {
    exists|k: int| 0 <= k < known.len() && path_normal(#[trigger] known[k]@) == path_normal(p)
}

/// The candidates whose paths are not known yet.
pub open spec fn unknown_candidates(cs: Seq<Candidate>, known: Seq<String>) -> Seq<Candidate>
    decreases cs.len(),
{
    if cs.len() == 0 {
        Seq::empty()
    } else if is_known(known, cs.last().path@) {
        unknown_candidates(cs.drop_last(), known)
    } else {
        unknown_candidates(cs.drop_last(), known).push(cs.last())
    }
}

/// Whether a path is known.
fn known_path(known_norm: &Vec<String>, known: &Vec<String>, p: &str) -> (r: bool)
    requires
        known_norm@.len() == known@.len(),
        forall|k: int| 0 <= k < known@.len() ==> #[trigger] known_norm@[k]@ == path_normal(known@[k]@),
    ensures
        r == is_known(known@, p@),
{
    let pn = normal_form(p);
    let mut k: usize = 0;
    while k < known_norm.len()
        invariant
            known_norm@.len() == known@.len(),
            forall|j: int| 0 <= j < known@.len() ==> #[trigger] known_norm@[j]@ == path_normal(known@[j]@),
            pn@ == path_normal(p@),
            k <= known_norm@.len(),
            forall|j: int| 0 <= j < k ==> path_normal(#[trigger] known@[j]@) != path_normal(p@),
        decreases known_norm.len() - k,
    {
        if crate::text::string_eq(&known_norm[k], &pn) {
            proof {
                assert(path_normal(known@[k as int]@) == path_normal(p@));
            }
            return true;
        }
        k += 1;
    }
    false
}

/// The states of the candidates found in a discovery pass whose paths are not known
/// yet: each new and auto-selected, marked new and changed. Counts them in `stats`.
pub fn new_states(candidates: Vec<Candidate>, known: &Vec<String>, stats: &mut DiscoveryStats) -> (r: Vec<CandidateState>)
    requires
        old(stats).new_items + candidates@.len() <= usize::MAX,
    ensures
        r@.len() == unknown_candidates(candidates@, known@).len(),
        forall|k: int| 0 <= k < r@.len() ==> {
            let s = #[trigger] r@[k];
            let c = unknown_candidates(candidates@, known@)[k];
            &&& s.candidate == c
            &&& s.selection_mode == SelectionMode::Auto
            &&& s.selection_state == auto_state(c.score)
            &&& s.cache_status == CacheStatus::New
            &&& s.is_new
            &&& s.is_changed
            &&& s.size_cached == Some(c.size_bytes)
            &&& s.size_current == Some(c.size_bytes)
            &&& s.first_seen == s.last_seen && s.last_verified == s.last_seen && s.last_seen.wf()
        },
        final(stats).new_items == old(stats).new_items + r@.len(),
        final(stats).paths_scanned == old(stats).paths_scanned,
        final(stats).changed_items == old(stats).changed_items,
{
    let mut known_norm: Vec<String> = Vec::new();
    let mut j: usize = 0;
    while j < known.len()
        invariant
            j <= known@.len(),
            known_norm@.len() == j,
            forall|k: int| 0 <= k < j ==> #[trigger] known_norm@[k]@ == path_normal(known@[k]@),
        decreases known.len() - j,
    {
        known_norm.push(normal_form(known[j].as_str()));
        j += 1;
    }
    let ghost cs = candidates@;
    let mut out: Vec<CandidateState> = Vec::new();
    let mut rest = candidates;
    let mut i: usize = 0;
    let n = rest.len();
    proof {
        assert(cs.skip(0) =~= cs);
    }
    while i < n
        invariant
            n == cs.len(),
            i <= n,
            rest@ == cs.skip(i as int),
            known_norm@.len() == known@.len(),
            forall|k: int| 0 <= k < known@.len() ==> #[trigger] known_norm@[k]@ == path_normal(known@[k]@),
            out@.len() == unknown_candidates(cs.take(i as int), known@).len(),
            out@.len() <= i,
            forall|k: int| 0 <= k < out@.len() ==> {
                let s = #[trigger] out@[k];
                let c = unknown_candidates(cs.take(i as int), known@)[k];
                &&& s.candidate == c
                &&& s.selection_mode == SelectionMode::Auto
                &&& s.selection_state == auto_state(c.score)
                &&& s.cache_status == CacheStatus::New
                &&& s.is_new
                &&& s.is_changed
                &&& s.size_cached == Some(c.size_bytes)
                &&& s.size_current == Some(c.size_bytes)
                &&& s.first_seen == s.last_seen && s.last_verified == s.last_seen && s.last_seen.wf()
            },
            stats.new_items == old(stats).new_items + out@.len(),
            old(stats).new_items + n <= usize::MAX,
            stats.paths_scanned == old(stats).paths_scanned,
            stats.changed_items == old(stats).changed_items,
        decreases n - i,
    {
        let c = rest.remove(0);
        proof {
            assert(c == cs[i as int]);
            assert(rest@ =~= cs.skip(i + 1));
            assert(cs.take(i + 1).drop_last() =~= cs.take(i as int));
            assert(cs.take(i + 1).last() == cs[i as int]);
            lemma_unknown_len(cs.take(i as int), known@);
        }
        if !known_path(&known_norm, known, c.path.as_str()) {
            let mut s = CandidateState::new(c);
            s.cache_status = CacheStatus::New;
            s.is_changed = true;
            out.push(s);
            stats.new_items = stats.new_items + 1;
        }
        i += 1;
    }
    proof {
        assert(cs.take(n as int) =~= cs);
    }
    out
}

/// No more unknown candidates than candidates.
proof fn lemma_unknown_len(cs: Seq<Candidate>, known: Seq<String>)
    ensures
        unknown_candidates(cs, known).len() <= cs.len(),
    decreases cs.len(),
{
    if cs.len() > 0 {
        lemma_unknown_len(cs.drop_last(), known);
    }
}

} // verus!
