//! Scan reports: totals, per-kind summaries and faceted groups.
use vstd::prelude::*;
use crate::candidate::{Candidate, TargetKind};
use crate::order::{desc_order, is_desc_order, listed, ranks_before};
use crate::size::size_one_decimal;
use crate::text::{chars_of, dec_chars, dec_seq, push_all, push_str, same_chars, string_from_chars};

verus! {

/// Per-kind aggregated statistics.
#[derive(Debug, Clone, Copy, PartialEq, Eq, Structural)]
pub struct KindSummary {
    pub count: usize,
    pub size_bytes: u64,
}

impl Default for KindSummary {
    fn default() -> (r: KindSummary)
        ensures
            r == (KindSummary { count: 0, size_bytes: 0 }),
    {
        KindSummary { count: 0, size_bytes: 0 }
    }
}

/// A group of related candidates (e.g. all venvs of one repository).
#[derive(Debug, Clone)]
pub struct Group {
    /// Display key (the candidates' group field).
    pub key: String,
    pub kind: Option<TargetKind>,
    /// Indices into the flat candidate list.
    pub indices: Vec<usize>,
    pub size_bytes: u64,
}

/// Full scan report built from a flat list of candidates.
#[derive(Debug, Clone)]
pub struct Report {
    pub total_candidates: usize,
    pub total_size_bytes: u64,
    pub selected_size_bytes: u64,
    /// Count and size per kind label (each label once).
    pub by_kind: Vec<(String, KindSummary)>,
    pub groups: Vec<Group>,
}

impl Default for Report {
    fn default() -> (r: Report)
        ensures
            r.total_candidates == 0,
            r.total_size_bytes == 0,
            r.selected_size_bytes == 0,
            r.by_kind@.len() == 0,
            r.groups@.len() == 0,
    {
        Report {
            total_candidates: 0,
            total_size_bytes: 0,
            selected_size_bytes: 0,
            by_kind: Vec::new(),
            groups: Vec::new(),
        }
    }
}

/// Total size of the candidates.
pub open spec fn sum_sizes(cs: Seq<Candidate>) -> nat
    decreases cs.len(),
{
    if cs.len() == 0 {
        0
    } else {
        sum_sizes(cs.drop_last()) + (cs.last().size_bytes as nat)
    }
}

/// Total size of the candidates whose action is selected.
pub open spec fn selected_sizes(cs: Seq<Candidate>) -> nat
    decreases cs.len(),
{
    if cs.len() == 0 {
        0
    } else {
        selected_sizes(cs.drop_last()) + (if cs.last().action.active() {
            cs.last().size_bytes as nat
        } else {
            0
        })
    }
}

/// Number of candidates with kind label `l`.
pub open spec fn label_count(cs: Seq<Candidate>, l: Seq<char>) -> nat
    decreases cs.len(),
{
    if cs.len() == 0 {
        0
    } else {
        label_count(cs.drop_last(), l) + (if cs.last().kind.label_view() == l {
            1nat
        } else {
            0nat
        })
    }
}

/// Total size of the candidates with kind label `l`.
pub open spec fn label_size(cs: Seq<Candidate>, l: Seq<char>) -> nat
    decreases cs.len(),
{
    if cs.len() == 0 {
        0
    } else {
        label_size(cs.drop_last(), l) + (if cs.last().kind.label_view() == l {
            cs.last().size_bytes as nat
        } else {
            0
        })
    }
}

/// The candidate carries group key `key`.
pub open spec fn in_group(c: Candidate, key: Seq<char>) -> bool {
    c.group matches Some(g) && g@ == key
}

/// Total size of the candidates with group key `key`.
pub open spec fn group_size(cs: Seq<Candidate>, key: Seq<char>) -> nat
    decreases cs.len(),
{
    if cs.len() == 0 {
        0
    } else {
        group_size(cs.drop_last(), key) + (if in_group(cs.last(), key) {
            cs.last().size_bytes as nat
        } else {
            0
        })
    }
}

/// Sum of the summary counts.
pub open spec fn summary_count(s: Seq<(String, KindSummary)>) -> nat
    decreases s.len(),
{
    if s.len() == 0 {
        0
    } else {
        summary_count(s.drop_last()) + (s.last().1.count as nat)
    }
}

/// Sum of the summary sizes.
pub open spec fn summary_size(s: Seq<(String, KindSummary)>) -> nat
    decreases s.len(),
{
    if s.len() == 0 {
        0
    } else {
        summary_size(s.drop_last()) + (s.last().1.size_bytes as nat)
    }
}

/// The group holds exactly the candidates with its key, in increasing order, and
/// their total size; its kind is that of its first candidate.
pub open spec fn group_matches(cs: Seq<Candidate>, g: Group) -> bool {
    &&& g.indices@.len() > 0
    &&& forall|a: int| 0 <= a < g.indices@.len() ==> #[trigger] g.indices@[a] < cs.len() && in_group(cs[g.indices@[a] as int], g.key@)
    &&& forall|a: int, b: int| 0 <= a < b < g.indices@.len() ==> #[trigger] g.indices@[a] < #[trigger] g.indices@[b]
    &&& forall|i: int| 0 <= i < cs.len() && in_group(cs[i], g.key@) ==> #[trigger] g.indices@.contains(i as usize)
    &&& g.kind == Some(cs[g.indices@[0] as int].kind)
    &&& g.size_bytes == group_size(cs, g.key@)
}

/// The one-line summary of a report.
pub open spec fn summary_text(r: Report) -> Seq<char> {
    dec_seq(r.total_candidates as nat) + " candidates  |  "@ + size_one_decimal(r.total_size_bytes as nat)
        + " total  |  "@ + size_one_decimal(r.selected_size_bytes as nat) + " selected"@
}

proof fn lemma_prefix<A>(s: Seq<A>, i: int)
    requires
        0 <= i < s.len(),
    ensures
        s.subrange(0, i + 1).drop_last() == s.subrange(0, i),
        s.subrange(0, i + 1).last() == s[i],
{
    assert(s.subrange(0, i + 1).drop_last() =~= s.subrange(0, i));
}

pub proof fn lemma_sizes_monotone(cs: Seq<Candidate>, i: int)
    requires
        0 <= i <= cs.len(),
    ensures
        sum_sizes(cs.subrange(0, i)) <= sum_sizes(cs),
    decreases cs.len() - i,
{
    if i < cs.len() {
        lemma_sizes_monotone(cs, i + 1);
        lemma_prefix(cs, i);
    } else {
        assert(cs.subrange(0, i) =~= cs);
    }
}

pub proof fn lemma_part_bounds(cs: Seq<Candidate>, l: Seq<char>, k: Seq<char>)
    ensures
        selected_sizes(cs) <= sum_sizes(cs),
        label_size(cs, l) <= sum_sizes(cs),
        group_size(cs, k) <= sum_sizes(cs),
    decreases cs.len(),
{
    if cs.len() > 0 {
        lemma_part_bounds(cs.drop_last(), l, k);
    }
}

/// Some summary entry has label `l`.
pub open spec fn has_label(s: Seq<(String, KindSummary)>, l: Seq<char>) -> bool {
    exists|k: int| 0 <= k < s.len() && s[k].0@ == l
}

/// Some group has key `key`.
pub open spec fn has_group(s: Seq<Group>, key: Seq<char>) -> bool {
    exists|g: int| 0 <= g < s.len() && s[g].key@ == key
}

impl Report {
    /// Build a report from scored candidates.
    pub fn build(candidates: &[Candidate]) -> (r: Report)
        requires
            sum_sizes(candidates@) <= u64::MAX,
        ensures
            r.total_candidates == candidates@.len(),
            r.total_size_bytes == sum_sizes(candidates@),
            r.selected_size_bytes == selected_sizes(candidates@),
            forall|k: int| 0 <= k < r.by_kind@.len() ==> (#[trigger] r.by_kind@[k]).1.count == label_count(candidates@, r.by_kind@[k].0@)
                && r.by_kind@[k].1.size_bytes == label_size(candidates@, r.by_kind@[k].0@),
            forall|k1: int, k2: int| 0 <= k1 < k2 < r.by_kind@.len() ==> (#[trigger] r.by_kind@[k1]).0@ != (#[trigger] r.by_kind@[k2]).0@,
            forall|i: int| 0 <= i < candidates@.len() ==> has_label(r.by_kind@, #[trigger] candidates@[i].kind.label_view()),
            summary_count(r.by_kind@) == candidates@.len(),
            summary_size(r.by_kind@) == sum_sizes(candidates@),
            forall|g: int| 0 <= g < r.groups@.len() ==> group_matches(candidates@, #[trigger] r.groups@[g]),
            forall|i: int| 0 <= i < candidates@.len() && (#[trigger] candidates@[i]).group is Some ==> has_group(r.groups@, candidates@[i].group->0@),
            forall|g1: int, g2: int| 0 <= g1 < g2 < r.groups@.len() ==> (#[trigger] r.groups@[g1]).size_bytes > (#[trigger] r.groups@[g2]).size_bytes
                || (r.groups@[g1].size_bytes == r.groups@[g2].size_bytes && r.groups@[g1].indices@[0] < r.groups@[g2].indices@[0]),
    {
        let ghost cs = candidates@;
        let mut total: u64 = 0;
        let mut selected: u64 = 0;
        let mut by_kind: Vec<(String, KindSummary)> = Vec::new();
        let mut groups: Vec<Group> = Vec::new();
        let mut i: usize = 0;
        while i < candidates.len()
            invariant
                i <= cs.len(),
                cs == candidates@,
                sum_sizes(cs) <= u64::MAX,
                total == sum_sizes(cs.subrange(0, i as int)),
                selected == selected_sizes(cs.subrange(0, i as int)),
                forall|k: int| 0 <= k < by_kind@.len() ==> (#[trigger] by_kind@[k]).1.count == label_count(cs.subrange(0, i as int), by_kind@[k].0@)
                    && by_kind@[k].1.size_bytes == label_size(cs.subrange(0, i as int), by_kind@[k].0@),
                forall|k1: int, k2: int| 0 <= k1 < k2 < by_kind@.len() ==> (#[trigger] by_kind@[k1]).0@ != (#[trigger] by_kind@[k2]).0@,
                forall|j: int| #![trigger cs[j]] 0 <= j < i ==> exists|k: int| 0 <= k < by_kind@.len() && #[trigger] by_kind@[k].0@ == cs[j].kind.label_view(),
                summary_count(by_kind@) == i,
                summary_size(by_kind@) == total,
            decreases candidates.len() - i,
        {
            proof {
                lemma_prefix(cs, i as int);
                lemma_sizes_monotone(cs, i as int + 1);
                lemma_part_bounds(cs.subrange(0, i as int), Seq::empty(), Seq::empty());
            }
            let c = &candidates[i];
            total = total + c.size_bytes;
            if c.action.is_active() {
                selected = selected + c.size_bytes;
            }
            let label = chars_of(c.kind.label());
            let mut k: usize = 0;
            let mut found = false;
            while !found && k < by_kind.len()
                invariant
                    k <= by_kind@.len(),
                    found ==> k < by_kind@.len() && by_kind@[k as int].0@ == label@,
                    !found ==> forall|m: int| 0 <= m < k ==> (#[trigger] by_kind@[m]).0@ != label@,
                decreases by_kind@.len() - k + (if found { 0int } else { 1int }),
            {
                let kk = chars_of(by_kind[k].0.as_str());
                if same_chars(&kk, &label) {
                    found = true;
                } else {
                    k += 1;
                }
            }
            let ghost old_by_kind = by_kind@;
            if found {
                let e = by_kind[k].1;
                let name = by_kind[k].0.clone();
                proof {
                    lemma_summary_bounds(old_by_kind, k as int);
                }
                by_kind.set(k, (name, KindSummary { count: e.count + 1, size_bytes: e.size_bytes + c.size_bytes }));
                proof {
                    lemma_summary_update(old_by_kind, k as int, by_kind@[k as int]);
                }
            } else {
                proof {
                    let pre = cs.subrange(0, i as int);
                    assert forall|j: int| 0 <= j < pre.len() implies (#[trigger] pre[j]).kind.label_view() != label@ by {
                        assert(pre[j] == cs[j]);
                        let m0 = choose|m: int| 0 <= m < old_by_kind.len() && #[trigger] old_by_kind[m].0@ == cs[j].kind.label_view();
                    }
                    lemma_label_absent(pre, label@);
                }
                by_kind.push((crate::text::string_from_chars(&label), KindSummary { count: 1, size_bytes: c.size_bytes }));
                proof {
                    assert(by_kind@.drop_last() =~= old_by_kind);
                }
            }
            proof {
                let next = cs.subrange(0, i as int + 1);
                assert forall|m: int| 0 <= m < by_kind@.len() implies (#[trigger] by_kind@[m]).1.count == label_count(next, by_kind@[m].0@)
                    && by_kind@[m].1.size_bytes == label_size(next, by_kind@[m].0@) by {
                    if m < old_by_kind.len() && m != k {
                        assert(by_kind@[m] == old_by_kind[m]);
                    }
                }
                assert forall|j: int| #![trigger cs[j]] 0 <= j < i + 1 implies exists|m: int| 0 <= m < by_kind@.len() && #[trigger] by_kind@[m].0@ == cs[j].kind.label_view() by {
                    if j == i {
                        if found {
                            assert(by_kind@[k as int].0@ == cs[j].kind.label_view());
                        } else {
                            assert(by_kind@[old_by_kind.len() as int].0@ == cs[j].kind.label_view());
                        }
                    } else {
                        let m0 = choose|m: int| 0 <= m < old_by_kind.len() && #[trigger] old_by_kind[m].0@ == cs[j].kind.label_view();
                        assert(by_kind@[m0].0@ == old_by_kind[m0].0@);
                    }
                }
            }
            i += 1;
        }
        proof {
            assert(cs.subrange(0, cs.len() as int) =~= cs);
            assert forall|j: int| 0 <= j < candidates@.len() implies has_label(by_kind@, #[trigger] candidates@[j].kind.label_view()) by {
                assert(cs[j] == candidates@[j]);
                let m0 = choose|m: int| 0 <= m < by_kind@.len() && #[trigger] by_kind@[m].0@ == cs[j].kind.label_view();
            }
        }
        let groups = Self::sorted_groups(candidates);
        Report {
            total_candidates: candidates.len(),
            total_size_bytes: total,
            selected_size_bytes: selected,
            by_kind,
            groups,
        }
    }

    /// The groups of the candidates' group keys, largest first (ties in order of
    /// first appearance).
    fn sorted_groups(candidates: &[Candidate]) -> (r: Vec<Group>)
        requires
            sum_sizes(candidates@) <= u64::MAX,
        ensures
            forall|g: int| 0 <= g < r@.len() ==> group_matches(candidates@, #[trigger] r@[g]),
            forall|i: int| 0 <= i < candidates@.len() && (#[trigger] candidates@[i]).group is Some ==> has_group(r@, candidates@[i].group->0@),
            forall|g1: int, g2: int| 0 <= g1 < g2 < r@.len() ==> (#[trigger] r@[g1]).size_bytes > (#[trigger] r@[g2]).size_bytes
                || (r@[g1].size_bytes == r@[g2].size_bytes && r@[g1].indices@[0] < r@[g2].indices@[0]),
    {
        let ghost cs = candidates@;
        // groups in order of first appearance
        let mut keys: Vec<Vec<char>> = Vec::new();
        let mut members: Vec<Vec<usize>> = Vec::new();
        let mut sizes: Vec<u64> = Vec::new();
        let mut i: usize = 0;
        while i < candidates.len()
            invariant
                i <= cs.len(),
                cs == candidates@,
                sum_sizes(cs) <= u64::MAX,
                keys@.len() == members@.len(),
                sizes@.len() == members@.len(),
                forall|g: int| 0 <= g < members@.len() ==> (#[trigger] members@[g])@.len() > 0,
                forall|g: int, a: int| 0 <= g < members@.len() && 0 <= a < members@[g]@.len() ==> #[trigger] members@[g]@[a] < i && in_group(cs[members@[g]@[a] as int], keys@[g]@),
                forall|g: int, a: int, b: int| 0 <= g < members@.len() && 0 <= a < b < members@[g]@.len() ==> #[trigger] members@[g]@[a] < #[trigger] members@[g]@[b],
                forall|g: int, j: int| 0 <= g < members@.len() && 0 <= j < i && in_group(cs[j], keys@[g]@) ==> #[trigger] members@[g]@.contains(j as usize),
                forall|g: int| 0 <= g < members@.len() ==> #[trigger] sizes@[g] == group_size(cs.subrange(0, i as int), keys@[g]@),
                forall|g1: int, g2: int| 0 <= g1 < g2 < members@.len() ==> (#[trigger] keys@[g1])@ != (#[trigger] keys@[g2])@,
                forall|g1: int, g2: int| 0 <= g1 < g2 < members@.len() ==> (#[trigger] members@[g1])@[0] < (#[trigger] members@[g2])@[0],
                forall|j: int| #![trigger cs[j]] 0 <= j < i && cs[j].group is Some ==> exists|g: int| 0 <= g < keys@.len() && #[trigger] keys@[g]@ == cs[j].group->0@,
            decreases candidates.len() - i,
        {
            proof {
                lemma_prefix(cs, i as int);
                lemma_sizes_monotone(cs, i as int + 1);
            }
            let ghost old_keys = keys@;
            let ghost old_members = members@;
            let ghost old_sizes = sizes@;
            match &candidates[i].group {
                None => {
                    proof {
                        assert forall|g: int| 0 <= g < members@.len() implies #[trigger] sizes@[g] == group_size(cs.subrange(0, i as int + 1), keys@[g]@) by {}
                    }
                },
                Some(key) => {
                    let kc = chars_of(key.as_str());
                    let mut g: usize = 0;
                    let mut found = false;
                    while !found && g < keys.len()
                        invariant
                            g <= keys@.len(),
                            found ==> g < keys@.len() && keys@[g as int]@ == kc@,
                            !found ==> forall|m: int| 0 <= m < g ==> (#[trigger] keys@[m])@ != kc@,
                        decreases keys@.len() - g + (if found { 0int } else { 1int }),
                    {
                        if same_chars(&keys[g], &kc) {
                            found = true;
                        } else {
                            g += 1;
                        }
                    }
                    let size = candidates[i].size_bytes;
                    if found {
                        let mut list = members.remove(g);
                        list.push(i);
                        members.insert(g, list);
                        let s = sizes[g];
                        proof {
                            assert(s == group_size(cs.subrange(0, i as int), kc@));
                            lemma_part_bounds(cs.subrange(0, i as int), Seq::empty(), kc@);
                            assert(sum_sizes(cs.subrange(0, i as int + 1)) == sum_sizes(cs.subrange(0, i as int)) + size);
                        }
                        sizes.set(g, s + size);
                        proof {
                            assert forall|m: int| 0 <= m < members@.len() implies (#[trigger] members@[m])@ == (if m == g {
                                old_members[m]@.push(i)
                            } else {
                                old_members[m]@
                            }) by {}
                        }
                    } else {
                        proof {
                            let pre = cs.subrange(0, i as int);
                            assert forall|j: int| 0 <= j < pre.len() implies !in_group(#[trigger] pre[j], kc@) by {
                                assert(pre[j] == cs[j]);
                                if in_group(cs[j], kc@) {
                                    let m0 = choose|m: int| 0 <= m < old_keys.len() && #[trigger] old_keys[m]@ == cs[j].group->0@;
                                }
                            }
                            lemma_group_absent(pre, kc@);
                        }
                        let mut list: Vec<usize> = Vec::new();
                        list.push(i);
                        members.push(list);
                        keys.push(kc);
                        sizes.push(size);
                    }
                    proof {
                        let next = cs.subrange(0, i as int + 1);
                        assert forall|m: int, j: int| 0 <= m < members@.len() && 0 <= j < i + 1 && in_group(cs[j], keys@[m]@) implies #[trigger] members@[m]@.contains(j as usize) by {
                            if j == i {
                                if m == g as int {
                                    assert(members@[m]@[members@[m]@.len() - 1] == j as usize);
                                } else if m < old_keys.len() {
                                    assert(keys@[m] == old_keys[m]);
                                    assert(keys@[m]@ == kc@);
                                }
                            } else if m < old_members.len() {
                                assert(old_members[m]@.contains(j as usize));
                                let w = choose|w: int| 0 <= w < old_members[m]@.len() && old_members[m]@[w] == j as usize;
                                assert(members@[m]@[w] == j as usize);
                            } else {
                                assert(keys@[m]@ == kc@);
                            }
                        }
                        assert forall|m: int| 0 <= m < members@.len() implies #[trigger] sizes@[m] == group_size(next, keys@[m]@) by {
                            if m < old_keys.len() && m != g {
                                assert(keys@[m] == old_keys[m]);
                            }
                        }
                        assert forall|m1: int, m2: int| 0 <= m1 < m2 < members@.len() implies (#[trigger] members@[m1])@[0] < (#[trigger] members@[m2])@[0] by {
                            if m2 == old_members.len() {
                                assert(old_members[m1]@[0] < i);
                            }
                        }
                        assert forall|j: int| #![trigger cs[j]] 0 <= j < i + 1 && cs[j].group is Some implies exists|m: int| 0 <= m < keys@.len() && #[trigger] keys@[m]@ == cs[j].group->0@ by {
                            if j == i {
                                if found {
                                    assert(keys@[g as int]@ == cs[j].group->0@);
                                } else {
                                    assert(keys@[old_keys.len() as int]@ == cs[j].group->0@);
                                }
                            } else {
                                let m0 = choose|m: int| 0 <= m < old_keys.len() && #[trigger] old_keys[m]@ == cs[j].group->0@;
                                assert(keys@[m0] == old_keys[m0]);
                            }
                        }
                    }
                },
            }
            i += 1;
        }
        proof {
            assert(cs.subrange(0, cs.len() as int) =~= cs);
        }
        let order = desc_order(&sizes);
        let mut out: Vec<Group> = Vec::new();
        let mut p: usize = 0;
        while p < order.len()
            invariant
                p <= order@.len(),
                is_desc_order(sizes@, order@),
                keys@.len() == members@.len(),
                sizes@.len() == members@.len(),
                forall|g: int| 0 <= g < members@.len() ==> (#[trigger] members@[g])@.len() > 0,
                forall|g: int| 0 <= g < members@.len() ==> (#[trigger] members@[g])@[0] < cs.len(),
                cs == candidates@,
                out@.len() == p,
                forall|q: int| 0 <= q < p ==> (#[trigger] out@[q]).key@ == keys@[order@[q] as int]@
                    && out@[q].indices@ == members@[order@[q] as int]@
                    && out@[q].size_bytes == sizes@[order@[q] as int]
                    && out@[q].kind == Some(cs[members@[order@[q] as int]@[0] as int].kind),
            decreases order.len() - p,
        {
            let g = order[p];
            let first = members[g][0];
            let mut idx: Vec<usize> = Vec::new();
            let mut a: usize = 0;
            while a < members[g].len()
                invariant
                    (g as int) < members@.len(),
                    a <= members@[g as int]@.len(),
                    idx@ == members@[g as int]@.subrange(0, a as int),
                decreases members@[g as int]@.len() - a,
            {
                idx.push(members[g][a]);
                a += 1;
                proof {
                    assert(idx@ =~= members@[g as int]@.subrange(0, a as int));
                }
            }
            proof {
                assert(idx@ =~= members@[g as int]@);
            }
            out.push(Group {
                key: string_from_chars(&keys[g]),
                kind: Some(candidates[first].kind.duplicate()),
                indices: idx,
                size_bytes: sizes[g],
            });
            p += 1;
        }
        proof {
            assert forall|q: int| 0 <= q < out@.len() implies group_matches(cs, #[trigger] out@[q]) by {
                let g = order@[q] as int;
                assert(out@[q].indices@ == members@[g]@);
            }
            assert forall|i: int| 0 <= i < cs.len() && (#[trigger] cs[i]).group is Some implies has_group(out@, cs[i].group->0@) by {
                let g = choose|g: int| 0 <= g < keys@.len() && #[trigger] keys@[g]@ == cs[i].group->0@;
                assert(listed(order@, g));
                let q = choose|q: int| 0 <= q < order@.len() && order@[q] == g;
                assert(out@[q].key@ == keys@[g]@);
                assert(out@[q].key@ == cs[i].group->0@);
            }
            assert forall|q1: int, q2: int| 0 <= q1 < q2 < out@.len() implies (#[trigger] out@[q1]).size_bytes > (#[trigger] out@[q2]).size_bytes
                || (out@[q1].size_bytes == out@[q2].size_bytes && out@[q1].indices@[0] < out@[q2].indices@[0]) by {
                let a = order@[q1] as int;
                let b = order@[q2] as int;
                assert(ranks_before(sizes@, a, b));
                if sizes@[a] == sizes@[b] {
                    assert(a < b);
                    assert(members@[a]@[0] < members@[b]@[0]);
                }
            }
        }
        out
    }

    /// Pretty-print a one-line summary.
    pub fn summary_line(&self) -> (r: String)
        ensures
            r@ == summary_text(*self),
    {
        let mut out = dec_chars(self.total_candidates as u64);
        push_str(&mut out, " candidates  |  ");
        let t = crate::candidate::human_bytes(self.total_size_bytes);
        let tc = chars_of(t.as_str());
        push_all(&mut out, &tc);
        push_str(&mut out, " total  |  ");
        let s = crate::candidate::human_bytes(self.selected_size_bytes);
        let sc = chars_of(s.as_str());
        push_all(&mut out, &sc);
        push_str(&mut out, " selected");
        string_from_chars(&out)
    }
}

proof fn lemma_summary_bounds(s: Seq<(String, KindSummary)>, k: int)
    requires
        0 <= k < s.len(),
    ensures
        s[k].1.count <= summary_count(s),
        s[k].1.size_bytes <= summary_size(s),
    decreases s.len(),
{
    if k < s.len() - 1 {
        lemma_summary_bounds(s.drop_last(), k);
    }
}

proof fn lemma_summary_update(s: Seq<(String, KindSummary)>, k: int, e: (String, KindSummary))
    requires
        0 <= k < s.len(),
    ensures
        summary_count(s.update(k, e)) == summary_count(s) - s[k].1.count + e.1.count,
        summary_size(s.update(k, e)) == summary_size(s) - s[k].1.size_bytes + e.1.size_bytes,
    decreases s.len(),
{
    let t = s.update(k, e);
    if k == s.len() - 1 {
        assert(t.drop_last() =~= s.drop_last());
    } else {
        lemma_summary_update(s.drop_last(), k, e);
        assert(t.drop_last() =~= s.drop_last().update(k, e));
    }
}

proof fn lemma_label_absent(cs: Seq<Candidate>, l: Seq<char>)
    requires
        forall|j: int| 0 <= j < cs.len() ==> (#[trigger] cs[j]).kind.label_view() != l,
    ensures
        label_count(cs, l) == 0,
        label_size(cs, l) == 0,
    decreases cs.len(),
{
    if cs.len() > 0 {
        let t = cs.drop_last();
        assert forall|j: int| 0 <= j < t.len() implies (#[trigger] t[j]).kind.label_view() != l by {
            assert(t[j] == cs[j]);
        }
        lemma_label_absent(t, l);
    }
}

proof fn lemma_group_absent(cs: Seq<Candidate>, k: Seq<char>)
    requires
        forall|j: int| 0 <= j < cs.len() ==> !in_group(#[trigger] cs[j], k),
    ensures
        group_size(cs, k) == 0,
    decreases cs.len(),
{
    if cs.len() > 0 {
        let t = cs.drop_last();
        assert forall|j: int| 0 <= j < t.len() implies !in_group(#[trigger] t[j], k) by {
            assert(t[j] == cs[j]);
        }
        lemma_group_absent(t, k);
    }
}

} // verus!
