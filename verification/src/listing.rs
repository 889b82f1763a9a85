//! The listings of a scan report: candidates grouped by kind or by parent
//! directory, groups in text order, and the size of each group.
use vstd::prelude::*;
use crate::candidate::Candidate;
use crate::duplicates::char_views;
use crate::overview::{is_sorted_distinct, sorted_distinct, string_views};
use crate::paths::{parent_of, path_parent};
use crate::text::{chars_of, same_chars};

verus! {

/// The positions whose key is `k`, in increasing order.
pub open spec fn positions_with(keys: Seq<Seq<char>>, k: Seq<char>) -> Seq<usize>
    decreases keys.len(),
{
    if keys.len() == 0 {
        Seq::empty()
    } else {
        positions_with(keys.drop_last(), k) + if keys.last() == k {
            seq![(keys.len() - 1) as usize]
        } else {
            Seq::empty()
        }
    }
}

/// The groups of a keyed list: each key once, in text order, with the positions
/// that have it.
pub open spec fn grouped_by(keys: Seq<Seq<char>>, r: Seq<(String, Vec<usize>)>) -> bool {
    &&& is_sorted_distinct(keys, r.map_values(|g: (String, Vec<usize>)| g.0@))
    &&& forall|g: int| 0 <= g < r.len() ==> (#[trigger] r[g]).1@ == positions_with(keys, r[g].0@)
}

/// The positions of the keys equal to `k`.
fn positions_of(keys: &Vec<Vec<char>>, k: &Vec<char>) -> (r: Vec<usize>)
    ensures
        r@ == positions_with(char_views(keys@), k@),
{
    let mut r: Vec<usize> = Vec::new();
    let mut i: usize = 0;
    while i < keys.len()
        invariant
            i <= keys@.len(),
            r@ == positions_with(char_views(keys@).take(i as int), k@),
        decreases keys.len() - i,
    {
        proof {
            let ks = char_views(keys@);
            assert(ks.take(i + 1).drop_last() =~= ks.take(i as int));
            assert(ks.take(i + 1).last() == keys@[i as int]@);
        }
        if same_chars(&keys[i], k) {
            r.push(i);
        }
        i += 1;
    }
    proof {
        assert(char_views(keys@).take(keys@.len() as int) =~= char_views(keys@));
    }
    r
}

/// Group positions by key: the distinct keys in text order, each with the positions
/// that have it. `copy` holds the same keys as `keys`.
fn group_by_key(keys: &Vec<Vec<char>>, copy: Vec<Vec<char>>) -> (r: Vec<(String, Vec<usize>)>)
    requires
        char_views(copy@) == char_views(keys@),
    ensures
        grouped_by(char_views(keys@), r@),
{
    let distinct = sorted_distinct(copy);
    let mut r: Vec<(String, Vec<usize>)> = Vec::new();
    let mut g: usize = 0;
    while g < distinct.len()
        invariant
            g <= distinct@.len(),
            r@.len() == g,
            forall|j: int| 0 <= j < g ==> (#[trigger] r@[j]).0@ == distinct@[j]@,
            forall|j: int| 0 <= j < g ==> (#[trigger] r@[j]).1@ == positions_with(char_views(keys@), r@[j].0@),
        decreases distinct.len() - g,
    {
        let k = chars_of(distinct[g].as_str());
        let pos = positions_of(keys, &k);
        let name = crate::text::owned(distinct[g].as_str());
        r.push((name, pos));
        g += 1;
    }
    proof {
        assert(r@.map_values(|x: (String, Vec<usize>)| x.0@) =~= string_views(distinct@));
    }
    r
}

/// The kind labels of the candidates.
pub open spec fn kind_keys(cs: Seq<Candidate>) -> Seq<Seq<char>> {
    cs.map_values(|c: Candidate| c.kind.label_view())
}

fn kind_key_list(cs: &[Candidate]) -> (r: Vec<Vec<char>>)
    ensures
        char_views(r@) == kind_keys(cs@),
{
    let mut r: Vec<Vec<char>> = Vec::new();
    let mut i: usize = 0;
    while i < cs.len()
        invariant
            i <= cs@.len(),
            char_views(r@) == kind_keys(cs@.take(i as int)),
        decreases cs.len() - i,
    {
        let ghost before = char_views(r@);
        let l = chars_of(cs[i].kind.label());
        r.push(l);
        proof {
            assert(cs@.take(i + 1) =~= cs@.take(i as int).push(cs@[i as int]));
            assert(kind_keys(cs@.take(i + 1)) =~= kind_keys(cs@.take(i as int)).push(cs@[i as int].kind.label_view()));
            assert(char_views(r@) =~= before.push(l@));
        }
        i += 1;
    }
    proof {
        assert(cs@.take(cs@.len() as int) =~= cs@);
    }
    r
}

/// The candidates grouped by kind label: labels in text order, each with the
/// positions of its candidates in list order.
pub fn by_kind(cs: &[Candidate]) -> (r: Vec<(String, Vec<usize>)>)
    ensures
        grouped_by(kind_keys(cs@), r@),
{
    let keys = kind_key_list(cs);
    let copy = kind_key_list(cs);
    group_by_key(&keys, copy)
}

/// The parent directory of a path as text, empty when it has none.
pub open spec fn parent_key(p: Seq<char>) -> Seq<char> {
    match path_parent(p) {
        Some(q) => q,
        None => Seq::empty(),
    }
}

/// The parent directories of the candidates' paths.
pub open spec fn parent_keys(cs: Seq<Candidate>) -> Seq<Seq<char>> {
    cs.map_values(|c: Candidate| parent_key(c.path@))
}

fn parent_key_list(cs: &[Candidate]) -> (r: Vec<Vec<char>>)
    ensures
        char_views(r@) == parent_keys(cs@),
{
    let mut r: Vec<Vec<char>> = Vec::new();
    let mut i: usize = 0;
    while i < cs.len()
        invariant
            i <= cs@.len(),
            char_views(r@) == parent_keys(cs@.take(i as int)),
        decreases cs.len() - i,
    {
        let ghost before = char_views(r@);
        let l = match parent_of(cs[i].path.as_str()) {
            Some(q) => chars_of(q.as_str()),
            None => Vec::new(),
        };
        r.push(l);
        proof {
            assert(l@ =~= parent_key(cs@[i as int].path@));
            assert(cs@.take(i + 1) =~= cs@.take(i as int).push(cs@[i as int]));
            assert(parent_keys(cs@.take(i + 1)) =~= parent_keys(cs@.take(i as int)).push(parent_key(cs@[i as int].path@)));
            assert(char_views(r@) =~= before.push(l@));
        }
        i += 1;
    }
    proof {
        assert(cs@.take(cs@.len() as int) =~= cs@);
    }
    r
}

/// The candidates grouped by parent directory: directories in text order, each
/// with the positions of its candidates in list order.
pub fn by_parent(cs: &[Candidate]) -> (r: Vec<(String, Vec<usize>)>)
    ensures
        grouped_by(parent_keys(cs@), r@),
{
    let keys = parent_key_list(cs);
    let copy = parent_key_list(cs);
    group_by_key(&keys, copy)
}

/// The total size of the candidates at the given positions.
pub open spec fn size_at(cs: Seq<Candidate>, idx: Seq<usize>) -> nat
    decreases idx.len(),
{
    if idx.len() == 0 {
        0
    } else {
        size_at(cs, idx.drop_last()) + (cs[idx.last() as int].size_bytes as nat)
    }
}

/// The total size of a group of candidates, `None` when it does not fit in 64 bits.
pub fn group_size(cs: &[Candidate], idx: &Vec<usize>) -> (r: Option<u64>)
    requires
        forall|k: int| 0 <= k < idx@.len() ==> #[trigger] idx@[k] < cs@.len(),
    ensures
        match r {
            Some(n) => n == size_at(cs@, idx@),
            None => size_at(cs@, idx@) > u64::MAX,
        },
{
    let mut total: u64 = 0;
    let mut k: usize = 0;
    while k < idx.len()
        invariant
            k <= idx@.len(),
            forall|j: int| 0 <= j < idx@.len() ==> #[trigger] idx@[j] < cs@.len(),
            total == size_at(cs@, idx@.take(k as int)),
        decreases idx.len() - k,
    {
        proof {
            assert(idx@.take(k + 1).drop_last() =~= idx@.take(k as int));
        }
        let s = cs[idx[k]].size_bytes;
        if total > u64::MAX - s {
            proof {
                lemma_size_prefix(cs@, idx@, k + 1);
            }
            return None;
        }
        total = total + s;
        k += 1;
    }
    proof {
        assert(idx@.take(idx@.len() as int) =~= idx@);
    }
    Some(total)
}

/// A group's size is at least that of any of its first positions.
proof fn lemma_size_prefix(cs: Seq<Candidate>, idx: Seq<usize>, n: int)
    requires
        0 <= n <= idx.len(),
    ensures
        size_at(cs, idx) >= size_at(cs, idx.take(n)),
    decreases idx.len() - n,
{
    if n < idx.len() {
        lemma_size_prefix(cs, idx, n + 1);
        assert(idx.take(n + 1).drop_last() =~= idx.take(n));
    } else {
        assert(idx.take(n) =~= idx);
    }
}

} // verus!
