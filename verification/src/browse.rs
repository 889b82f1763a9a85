//! Browsing candidates interactively: sort and grouping modes, the cursor, and
//! toggling what gets cleaned.
use vstd::prelude::*;
use crate::candidate::{Action, Candidate};
use crate::order::{desc_order, is_desc_order};
use crate::report::sum_sizes;
use crate::time::Timestamp;

verus! {

/// The column candidates are sorted by.
#[derive(Debug, Clone, Copy, PartialEq, Eq, Structural)]
pub enum SortBy {
    Score,
    Size,
    Age,
}

impl SortBy {
    /// The mode's name.
    pub fn label(self) -> (r: &'static str)
        ensures
            r@ == (match self {
                SortBy::Score => "score"@,
                SortBy::Size => "size"@,
                SortBy::Age => "age"@,
            }),
    {
        match self {
            SortBy::Score => "score",
            SortBy::Size => "size",
            SortBy::Age => "age",
        }
    }

    /// The next mode, cycling score, size, age.
    pub fn next(self) -> (r: SortBy)
        ensures
            r == (match self {
                SortBy::Score => SortBy::Size,
                SortBy::Size => SortBy::Age,
                SortBy::Age => SortBy::Score,
            }),
    {
        match self {
            SortBy::Score => SortBy::Size,
            SortBy::Size => SortBy::Age,
            SortBy::Age => SortBy::Score,
        }
    }
}

/// How candidates are grouped on screen.
#[derive(Debug, Clone, Copy, PartialEq, Eq, Structural)]
pub enum GroupBy {
    Ungrouped,
    Kind,
    Path,
}

impl GroupBy {
    /// The mode's name.
    pub fn label(self) -> (r: &'static str)
        ensures
            r@ == (match self {
                GroupBy::Ungrouped => "none"@,
                GroupBy::Kind => "kind"@,
                GroupBy::Path => "path"@,
            }),
    {
        match self {
            GroupBy::Ungrouped => "none",
            GroupBy::Kind => "kind",
            GroupBy::Path => "path",
        }
    }

    /// The next mode, cycling none, kind, path.
    pub fn next(self) -> (r: GroupBy)
        ensures
            r == (match self {
                GroupBy::Ungrouped => GroupBy::Kind,
                GroupBy::Kind => GroupBy::Path,
                GroupBy::Path => GroupBy::Ungrouped,
            }),
    {
        match self {
            GroupBy::Ungrouped => GroupBy::Kind,
            GroupBy::Kind => GroupBy::Path,
            GroupBy::Path => GroupBy::Ungrouped,
        }
    }
}

/// Cycling the sort mode three times comes back to the start.
pub proof fn law_sort_cycle(s: SortBy)
    ensures
        ({
            let n1 = match s { SortBy::Score => SortBy::Size, SortBy::Size => SortBy::Age, SortBy::Age => SortBy::Score };
            let n2 = match n1 { SortBy::Score => SortBy::Size, SortBy::Size => SortBy::Age, SortBy::Age => SortBy::Score };
            let n3 = match n2 { SortBy::Score => SortBy::Size, SortBy::Size => SortBy::Age, SortBy::Age => SortBy::Score };
            n3 == s
        }),
{
}

/// Cycling the grouping mode three times comes back to the start.
pub proof fn law_group_cycle(g: GroupBy)
    ensures
        ({
            let n1 = match g { GroupBy::Ungrouped => GroupBy::Kind, GroupBy::Kind => GroupBy::Path, GroupBy::Path => GroupBy::Ungrouped };
            let n2 = match n1 { GroupBy::Ungrouped => GroupBy::Kind, GroupBy::Kind => GroupBy::Path, GroupBy::Path => GroupBy::Ungrouped };
            let n3 = match n2 { GroupBy::Ungrouped => GroupBy::Kind, GroupBy::Kind => GroupBy::Path, GroupBy::Path => GroupBy::Ungrouped };
            n3 == g
        }),
{
}

/// The row the cursor moves to: `delta` rows on from `cur`, wrapping around the
/// list (Euclidean remainder); none for an empty list.
pub open spec fn moved_cursor(cur: int, delta: int, len: int) -> int {
    (cur + delta) % len
}

/// Move the cursor by `delta` rows, wrapping around; an empty list leaves it where
/// it is.
pub fn move_cursor(cur: usize, delta: i64, len: usize) -> (r: usize)
    requires
        len > 0 ==> cur <= i64::MAX && len <= i64::MAX && i64::MIN <= cur + delta <= i64::MAX,
    ensures
        r == (if len == 0 { cur as int } else { moved_cursor(cur as int, delta as int, len as int) }),
        len > 0 ==> r < len,
{
    if len == 0 {
        return cur;
    }
    let sum: i64 = cur as i64 + delta;
    let l: u64 = len as u64;
    if sum >= 0 {
        let m: u64 = (sum as u64) % l;
        m as usize
    } else {
        let n: u64 = (0 - (sum as i128)) as u64;
        let k: u64 = n % l;
        proof {
            lemma_neg_mod(n as int, l as int);
        }
        if k == 0 {
            0
        } else {
            (l - k) as usize
        }
    }
}

/// The Euclidean remainder of a negative number.
proof fn lemma_neg_mod(n: int, b: int)
    requires
        b > 0,
        n > 0,
    ensures
        (-n) % b == (if n % b == 0 { 0 } else { b - n % b }),
{
    let q = n / b;
    let r = n % b;
    vstd::arithmetic::div_mod::lemma_fundamental_div_mod(n, b);
    assert(n == b * q + r);
    assert(0 <= r < b);
    if r == 0 {
        assert(-n == (-q) * b) by (nonlinear_arith)
            requires n == b * q + r, r == 0;
        vstd::arithmetic::div_mod::lemma_fundamental_div_mod_converse(-n, b, -q, 0);
    } else {
        assert(-n == (-q - 1) * b + (b - r)) by (nonlinear_arith)
            requires n == b * q + r;
        vstd::arithmetic::div_mod::lemma_fundamental_div_mod_converse(-n, b, -q - 1, b - r);
    }
}

/// Flip whether a candidate is cleaned: an active action becomes skip, any other
/// becomes delete.
pub fn toggle_action(c: &mut Candidate)
    ensures
        if old(c).action.active() { final(c).action is Skip } else { final(c).action is Delete },
        final(c).path == old(c).path,
        final(c).size_bytes == old(c).size_bytes,
        final(c).score == old(c).score,
{
    if c.action.is_active() {
        c.action = Action::Skip;
    } else {
        c.action = Action::Delete;
    }
}

/// The candidates whose action is not active, in order.
pub open spec fn inactive_only(cs: Seq<Candidate>) -> Seq<Candidate>
    decreases cs.len(),
{
    if cs.len() == 0 {
        Seq::empty()
    } else if cs.last().action.active() {
        inactive_only(cs.drop_last())
    } else {
        inactive_only(cs.drop_last()).push(cs.last())
    }
}

/// The list after a cleanup: the candidates that were cleaned (active action) are
/// gone, the others stay in order.
pub fn after_cleanup(cs: Vec<Candidate>) -> (r: Vec<Candidate>)
    ensures
        r@ == inactive_only(cs@),
{
    let ghost all = cs@;
    let mut rest = cs;
    let mut rev: Vec<Candidate> = Vec::new();
    let total = rest.len();
    proof {
        assert(all.len() == total);
        assert(all.take(all.len() as int) =~= all);
        assert(all.skip(all.len() as int).reverse() =~= rev@);
    }
    while rest.len() > 0
        invariant
            rest@ == all.take(rest@.len() as int),
            rest@.len() <= all.len(),
            all.len() <= usize::MAX,
            rev@ == all.skip(rest@.len() as int).reverse(),
        decreases rest.len(),
    {
        let n = rest.len();
        let c = rest.pop().unwrap();
        rev.push(c);
        proof {
            assert(c == all[n - 1]);
            assert(rest@ =~= all.take(n - 1));
            assert(all.skip(n - 1).reverse() =~= all.skip(n as int).reverse().push(all[n - 1]));
        }
    }
    let mut r: Vec<Candidate> = Vec::new();
    let mut j: usize = 0;
    proof {
        assert(all.take(0) =~= Seq::<Candidate>::empty());
        assert(all.skip(0) =~= all);
    }
    while rev.len() > 0
        invariant
            j + rev@.len() == all.len(),
            all.len() <= usize::MAX,
            rev@ == all.skip(j as int).reverse(),
            r@ == inactive_only(all.take(j as int)),
        decreases rev.len(),
    {
        let c = rev.pop().unwrap();
        proof {
            assert(c == all[j as int]);
            assert(rev@ =~= all.skip(j + 1).reverse());
            assert(all.take(j + 1).drop_last() =~= all.take(j as int));
            assert(all.take(j + 1).last() == all[j as int]);
        }
        if !c.action.is_active() {
            r.push(c);
        }
        j += 1;
    }
    proof {
        assert(all.take(j as int) =~= all);
    }
    r
}

/// After a cleanup nothing is left selected, and what is left is exactly the
/// unselected part of the list's size: the selected size of the remaining
/// candidates is zero, and their total plus the cleaned size is the old total.
pub proof fn law_cleanup_leaves_nothing_selected(cs: Seq<Candidate>)
    ensures
        crate::report::selected_sizes(inactive_only(cs)) == 0,
        sum_sizes(inactive_only(cs)) + crate::report::selected_sizes(cs) == sum_sizes(cs),
    decreases cs.len(),
{
    if cs.len() > 0 {
        let rest = cs.drop_last();
        law_cleanup_leaves_nothing_selected(rest);
        if !cs.last().action.active() {
            let kept = inactive_only(rest);
            assert(kept.push(cs.last()).drop_last() =~= kept);
        }
    }
}

/// Total size of the candidates whose action is active.
pub fn selected_size(cs: &[Candidate]) -> (r: u64)
    requires
        sum_sizes(cs@) <= u64::MAX,
    ensures
        r == crate::report::selected_sizes(cs@),
{
    let mut t: u64 = 0;
    let mut i: usize = 0;
    while i < cs.len()
        invariant
            i <= cs@.len(),
            sum_sizes(cs@) <= u64::MAX,
            t == crate::report::selected_sizes(cs@.take(i as int)),
        decreases cs.len() - i,
    {
        proof {
            assert(cs@.take(i + 1).drop_last() =~= cs@.take(i as int));
            crate::report::lemma_part_bounds(cs@.take(i + 1), Seq::empty(), Seq::empty());
            crate::report::lemma_sizes_monotone(cs@, i + 1);
        }
        if cs[i].action.is_active() {
            t = t + cs[i].size_bytes;
        }
        i += 1;
    }
    proof {
        assert(cs@.take(cs@.len() as int) =~= cs@);
    }
    t
}

/// The key candidates are sorted by, largest first: the score, the size, or the
/// age in days at `now` (unknown ages count as zero), shifted to be non-negative.
pub open spec fn sort_key(c: Candidate, by: SortBy, now: Timestamp) -> u64 {
    match by {
        SortBy::Score => c.score as u64,
        SortBy::Size => c.size_bytes,
        SortBy::Age => ((match c.age_at(now) {
            Some(d) => d,
            None => 0,
        }) + 0x8000_0000_0000_0000) as u64,
    }
}

/// The sort keys of the candidates.
pub open spec fn sort_keys(cs: Seq<Candidate>, by: SortBy, now: Timestamp) -> Seq<u64> {
    Seq::new(cs.len(), |i: int| sort_key(cs[i], by, now))
}

/// The order in which candidates are listed for a sort mode: largest key first,
/// ties in their current order (a stable sort).
pub fn sort_order(cs: &[Candidate], by: SortBy, now: &Timestamp) -> (r: Vec<usize>)
    requires
        now.wf(),
        forall|i: int| 0 <= i < cs@.len() ==> (#[trigger] cs@[i]).wf(),
    ensures
        is_desc_order(sort_keys(cs@, by, *now), r@),
{
    let mut keys: Vec<u64> = Vec::new();
    let mut i: usize = 0;
    while i < cs.len()
        invariant
            now.wf(),
            forall|j: int| 0 <= j < cs@.len() ==> (#[trigger] cs@[j]).wf(),
            i <= cs@.len(),
            keys@.len() == i,
            forall|j: int| 0 <= j < i ==> #[trigger] keys@[j] == sort_key(cs@[j], by, *now),
        decreases cs.len() - i,
    {
        let k: u64 = match by {
            SortBy::Score => cs[i].score as u64,
            SortBy::Size => cs[i].size_bytes,
            SortBy::Age => {
                let d: i64 = match cs[i].age_days_at(now) {
                    Some(d) => d,
                    None => 0,
                };
                (d as i128 + 0x8000_0000_0000_0000i128) as u64
            },
        };
        keys.push(k);
        i += 1;
    }
    assert(keys@ =~= sort_keys(cs@, by, *now));
    desc_order(&keys)
}

} // verus!
