//! Putting scan results together: candidates for directories, removing repeated
//! paths, and the directories that changed since a given time.
use vstd::prelude::*;
use crate::candidate::{Action, Candidate, TargetKind};
use crate::time::Timestamp;
use crate::paths::{opt_view, path_parent, path_file_name, path_ancestors, path_starts_with, parent_of, file_name_of, ancestors_of, starts_with_path};
use crate::path_order::{path_components, components_of, comp_views, key_views, is_sorted_unique, sorted_unique, components_equal};
use crate::strategy::tag_views;
use crate::text::strings_of;

verus! {

/// The name of the directory a path lies in (its parent's file name).
pub open spec fn parent_name(p: Seq<char>) -> Option<Seq<char>> {
    match path_parent(p) {
        Some(q) => path_file_name(q),
        None => None,
    }
}

/// The name of the directory a path lies in.
pub fn parent_name_of(p: &str) -> (r: Option<String>)
    ensures
        opt_view(r) == parent_name(p@),
{
    match parent_of(p) {
        Some(q) => file_name_of(q.as_str()),
        None => None,
    }
}

/// A candidate for a directory found by a scan: kept (action skip, score 0 until
/// scored), grouped under the name of the directory it lies in.
pub fn directory_candidate(
    path: String,
    kind: TargetKind,
    size_bytes: u64,
    last_modified: Option<Timestamp>,
    last_accessed: Option<Timestamp>,
    reproducibility: u32,
    tags: &[&str],
) -> (c: Candidate)
    ensures
        c.path == path,
        c.kind == kind,
        c.size_bytes == size_bytes,
        c.last_modified == last_modified,
        c.last_accessed == last_accessed,
        c.reproducibility == reproducibility,
        c.score == 0,
        tag_views(c.tags@) == tags@.map_values(|l: &str| l@),
        c.action is Skip,
        opt_view(c.group) == parent_name(path@),
{
    let group = parent_name_of(path.as_str());
    let t = strings_of(tags);
    proof {
        assert(tag_views(t@) =~= t@.map_values(|s: String| s@));
    }
    Candidate {
        path,
        kind,
        size_bytes,
        last_modified,
        last_accessed,
        reproducibility,
        score: 0,
        tags: t,
        action: Action::Skip,
        group,
    }
}

/// The component lists of the candidates' paths.
pub open spec fn candidate_path_keys(cs: Seq<Candidate>) -> Seq<Seq<Seq<char>>> {
    Seq::new(cs.len(), |i: int| path_components(cs[i].path@))
}

/// Sort candidates by path and drop later ones with a path seen before (a stable
/// sort on paths, then removal of adjacent repeats).
pub fn dedup_by_path(candidates: &Vec<Candidate>) -> (r: Vec<Candidate>)
    ensures
        exists|order: Seq<usize>|
            is_sorted_unique(candidate_path_keys(candidates@), order) && r@.len() == order.len() && forall|k: int|
                0 <= k < order.len() ==> (#[trigger] r@[k]).same_as(candidates@[order[k] as int]),
{
    let mut keys: Vec<Vec<Vec<char>>> = Vec::new();
    let mut i: usize = 0;
    while i < candidates.len()
        invariant
            i <= candidates@.len(),
            keys@.len() == i,
            forall|j: int| 0 <= j < i ==> comp_views(#[trigger] keys@[j]@) == path_components(candidates@[j].path@),
        decreases candidates.len() - i,
    {
        keys.push(components_of(candidates[i].path.as_str()));
        i += 1;
    }
    proof {
        assert forall|j: int| 0 <= j < keys@.len() implies #[trigger] key_views(keys@)[j] == candidate_path_keys(candidates@)[j] by {
            assert(comp_views(keys@[j]@) == path_components(candidates@[j].path@));
        }
        assert(key_views(keys@) =~= candidate_path_keys(candidates@));
    }
    let order = sorted_unique(&keys);
    let mut r: Vec<Candidate> = Vec::new();
    let mut k: usize = 0;
    while k < order.len()
        invariant
            is_sorted_unique(candidate_path_keys(candidates@), order@),
            k <= order@.len(),
            r@.len() == k,
            forall|j: int| 0 <= j < k ==> (#[trigger] r@[j]).same_as(candidates@[order@[j] as int]),
        decreases order.len() - k,
    {
        r.push(candidates[order[k]].duplicate());
        k += 1;
    }
    r
}

/// The scan results of all roots, one list after another.
pub open spec fn flatten_candidates(lists: Seq<Vec<Candidate>>) -> Seq<Candidate>
    decreases lists.len(),
{
    if lists.len() == 0 {
        Seq::empty()
    } else {
        flatten_candidates(lists.drop_last()) + lists.last()@
    }
}

/// Combine the candidates found under each root: all of them, sorted by path, each
/// path once (the first found).
pub fn combine_results(lists: &Vec<Vec<Candidate>>) -> (r: Vec<Candidate>)
    ensures
        exists|order: Seq<usize>|
            is_sorted_unique(candidate_path_keys(flatten_candidates(lists@)), order) && r@.len() == order.len()
                && forall|k: int| 0 <= k < order.len() ==> (#[trigger] r@[k]).same_as(flatten_candidates(lists@)[order[k] as int]),
{
    let mut all: Vec<Candidate> = Vec::new();
    let mut i: usize = 0;
    while i < lists.len()
        invariant
            i <= lists@.len(),
            all@.len() == flatten_candidates(lists@.take(i as int)).len(),
            forall|k: int| 0 <= k < all@.len() ==> (#[trigger] all@[k]).same_as(flatten_candidates(lists@.take(i as int))[k]),
        decreases lists.len() - i,
    {
        let ghost before = all@;
        let ghost prev = flatten_candidates(lists@.take(i as int));
        proof {
            assert(lists@.take(i + 1).drop_last() =~= lists@.take(i as int));
            assert(lists@.take(i + 1).last() == lists@[i as int]);
        }
        let mut j: usize = 0;
        while j < lists[i].len()
            invariant
                i < lists@.len(),
                j <= lists@[i as int]@.len(),
                all@.len() == before.len() + j,
                before.len() == prev.len(),
                forall|k: int| 0 <= k < before.len() ==> (#[trigger] all@[k]).same_as(prev[k]),
                forall|k: int| 0 <= k < j ==> (#[trigger] all@[before.len() + k]).same_as(lists@[i as int]@[k]),
            decreases lists@[i as int]@.len() - j,
        {
            all.push(lists[i][j].duplicate());
            j += 1;
        }
        proof {
            let now = flatten_candidates(lists@.take(i + 1));
            assert(now == prev + lists@[i as int]@);
            assert forall|k: int| 0 <= k < all@.len() implies (#[trigger] all@[k]).same_as(now[k]) by {
                if k < before.len() {
                    assert(now[k] == prev[k]);
                } else {
                    let k2 = k - before.len();
                    assert(all@[before.len() + k2].same_as(lists@[i as int]@[k2]));
                    assert(now[k] == lists@[i as int]@[k2]);
                }
            }
        }
        i += 1;
    }
    proof {
        assert(lists@.take(lists@.len() as int) =~= lists@);
    }
    let r = dedup_by_path(&all);
    proof {
        let f = flatten_candidates(lists@);
        let order = choose|order: Seq<usize>|
            is_sorted_unique(candidate_path_keys(all@), order) && r@.len() == order.len() && forall|k: int|
                0 <= k < order.len() ==> (#[trigger] r@[k]).same_as(all@[order[k] as int]);
        assert(candidate_path_keys(all@) =~= candidate_path_keys(f)) by {
            assert forall|k: int| 0 <= k < all@.len() implies #[trigger] candidate_path_keys(all@)[k] == candidate_path_keys(f)[k] by {
                assert(all@[k].same_as(f[k]));
            }
        }
        assert forall|k: int| 0 <= k < order.len() implies (#[trigger] r@[k]).same_as(f[order[k] as int]) by {
            assert(order[k] < all@.len());
            assert(all@[order[k] as int].same_as(f[order[k] as int]));
        }
    }
    r
}

} // verus!
