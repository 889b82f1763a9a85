//! Stable descending order of items by an amount, and the partition of items into
//! classes of equal keys (in order of first appearance).
use vstd::prelude::*;
use crate::text::same_chars;

verus! {

/// Item `a` comes before item `b`: a larger amount first, equal amounts in their
/// input order.
pub open spec fn ranks_before(keys: Seq<u64>, a: int, b: int) -> bool {
    keys[a] > keys[b] || (keys[a] == keys[b] && a < b)
}

/// Item `k` is listed in `order`.
pub open spec fn listed(order: Seq<usize>, k: int) -> bool {
    exists|i: int| 0 <= i < order.len() && order[i] == k
}

/// `order` lists every item of `keys` exactly once, largest amount first, ties in
/// their input order (what a stable descending sort gives).
pub open spec fn is_desc_order(keys: Seq<u64>, order: Seq<usize>) -> bool {
    &&& order.len() == keys.len()
    &&& forall|i: int| 0 <= i < order.len() ==> #[trigger] order[i] < keys.len()
    &&& forall|i: int, j: int|
        0 <= i < j < order.len() ==> ranks_before(keys, #[trigger] order[i] as int, #[trigger] order[j] as int)
    &&& forall|k: int| 0 <= k < keys.len() ==> #[trigger] listed(order, k)
}

/// The positions of `keys`, largest amount first, ties kept in input order.
pub fn desc_order(keys: &Vec<u64>) -> (order: Vec<usize>)
    ensures
        is_desc_order(keys@, order@),
{
    let mut wide: Vec<u128> = Vec::new();
    let mut i: usize = 0;
    while i < keys.len()
        invariant
            i <= keys@.len(),
            wide@.len() == i,
            forall|j: int| 0 <= j < i ==> #[trigger] wide@[j] == keys@[j],
        decreases keys.len() - i,
    {
        wide.push(keys[i] as u128);
        i += 1;
    }
    let order = desc_order_wide(&wide);
    proof {
        assert forall|i: int, j: int|
            0 <= i < j < order@.len() implies ranks_before(keys@, #[trigger] order@[i] as int, #[trigger] order@[j] as int) by {
            assert(ranks_before_wide(wide@, order@[i] as int, order@[j] as int));
        }
    }
    order
}

/// Item `a` comes before item `b`: a larger amount first, equal amounts in their
/// input order.
pub open spec fn ranks_before_wide(keys: Seq<u128>, a: int, b: int) -> bool {
    keys[a] > keys[b] || (keys[a] == keys[b] && a < b)
}

/// `order` lists every item of `keys` exactly once, largest amount first, ties in
/// their input order (what a stable descending sort gives).
pub open spec fn is_desc_order_wide(keys: Seq<u128>, order: Seq<usize>) -> bool {
    &&& order.len() == keys.len()
    &&& forall|i: int| 0 <= i < order.len() ==> #[trigger] order[i] < keys.len()
    &&& forall|i: int, j: int|
        0 <= i < j < order.len() ==> ranks_before_wide(keys, #[trigger] order[i] as int, #[trigger] order[j] as int)
    &&& forall|k: int| 0 <= k < keys.len() ==> #[trigger] listed(order, k)
}

/// The positions of `keys` (wide amounts), largest first, ties kept in input order.
pub fn desc_order_wide(keys: &Vec<u128>) -> (order: Vec<usize>)
    ensures
        is_desc_order_wide(keys@, order@),
{
    let mut order: Vec<usize> = Vec::new();
    let mut k: usize = 0;
    while k < keys.len()
        invariant
            k <= keys@.len(),
            order@.len() == k,
            forall|i: int| 0 <= i < order@.len() ==> #[trigger] order@[i] < k,
            forall|i: int, j: int|
                0 <= i < j < order@.len() ==> ranks_before_wide(keys@, #[trigger] order@[i] as int, #[trigger] order@[j] as int),
            forall|m: int| 0 <= m < k ==> #[trigger] listed(order@, m),
        decreases keys.len() - k,
    {
        let mut pos: usize = 0;
        while pos < order.len() && keys[order[pos]] >= keys[k]
            invariant
                pos <= order@.len(),
                k < keys@.len(),
                forall|i: int| 0 <= i < order@.len() ==> #[trigger] order@[i] < k,
                forall|i: int| 0 <= i < pos ==> keys@[#[trigger] order@[i] as int] >= keys@[k as int],
            decreases order.len() - pos,
        {
            pos += 1;
        }
        let ghost old_order = order@;
        proof {
            if pos < old_order.len() {
                assert(keys@[old_order[pos as int] as int] < keys@[k as int]);
                assert forall|q: int| pos <= q < old_order.len() implies keys@[#[trigger] old_order[q] as int]
                    < keys@[k as int] by {
                    if q > pos {
                        assert(ranks_before_wide(keys@, old_order[pos as int] as int, old_order[q] as int));
                    }
                }
            }
        }
        order.insert(pos, k);
        proof {
            assert(order@ == old_order.insert(pos as int, k));
            assert forall|i: int| 0 <= i < order@.len() implies #[trigger] order@[i] < k + 1 by {
                if i < pos {
                    assert(order@[i] == old_order[i]);
                } else if i > pos {
                    assert(order@[i] == old_order[i - 1]);
                }
            }
            assert forall|i: int, j: int|
                0 <= i < j < order@.len() implies ranks_before_wide(keys@, #[trigger] order@[i] as int, #[trigger] order@[j] as int) by {
                if j < pos {
                    assert(order@[i] == old_order[i] && order@[j] == old_order[j]);
                } else if j == pos {
                    assert(order@[i] == old_order[i]);
                } else if i < pos {
                    assert(order@[i] == old_order[i] && order@[j] == old_order[j - 1]);
                    assert(ranks_before_wide(keys@, old_order[i] as int, old_order[j - 1] as int));
                } else if i == pos {
                    assert(order@[j] == old_order[j - 1]);
                } else {
                    assert(order@[i] == old_order[i - 1] && order@[j] == old_order[j - 1]);
                    assert(ranks_before_wide(keys@, old_order[i - 1] as int, old_order[j - 1] as int));
                }
            }
            assert forall|m: int| 0 <= m < k + 1 implies #[trigger] listed(order@, m) by {
                if m == k {
                    assert(order@[pos as int] == k);
                } else {
                    assert(listed(old_order, m));
                    let i0 = choose|i: int| 0 <= i < old_order.len() && old_order[i] == m;
                    if i0 < pos {
                        assert(order@[i0] == m);
                    } else {
                        assert(order@[i0 + 1] == m);
                    }
                }
            }
        }
        k += 1;
    }
    order
}

/// A grouping key: an amount or a piece of text.
#[derive(Debug, Clone)]
pub enum ClassKey {
    Amount(u64),
    Text(Vec<char>),
    /// Two amounts and a piece of text.
    Composite(u64, u64, Vec<char>),
}

/// The value of a grouping key.
pub enum KeyValue {
    Amount(u64),
    Text(Seq<char>),
    Composite(u64, u64, Seq<char>),
}

/// The value of an optional key (`None`: the item belongs to no class).
pub open spec fn key_value(k: Option<ClassKey>) -> Option<KeyValue> {
    match k {
        Some(ClassKey::Amount(n)) => Some(KeyValue::Amount(n)),
        Some(ClassKey::Text(t)) => Some(KeyValue::Text(t@)),
        Some(ClassKey::Composite(a, b, t)) => Some(KeyValue::Composite(a, b, t@)),
        None => None,
    }
}

/// Items `i` and `j` have a key and the same one.
pub open spec fn same_class(keys: Seq<Option<ClassKey>>, i: int, j: int) -> bool {
    key_value(keys[i]) is Some && key_value(keys[i]) == key_value(keys[j])
}

/// `classes` is the partition of the keyed items into classes of equal keys: each
/// class lists its items in increasing order, holds every item with its key, and the
/// classes come in order of their first item.
pub open spec fn is_key_partition(keys: Seq<Option<ClassKey>>, classes: Seq<Seq<usize>>) -> bool {
    &&& forall|c: int| 0 <= c < classes.len() ==> #[trigger] classes[c].len() > 0
    &&& forall|c: int, a: int|
        0 <= c < classes.len() && 0 <= a < classes[c].len() ==> #[trigger] classes[c][a] < keys.len()
            && same_class(keys, classes[c][0] as int, classes[c][a] as int)
    &&& forall|c: int, a: int, b: int|
        0 <= c < classes.len() && 0 <= a < b < classes[c].len() ==> #[trigger] classes[c][a]
            < #[trigger] classes[c][b]
    &&& forall|c: int, j: int|
        0 <= c < classes.len() && 0 <= j < keys.len() && same_class(keys, classes[c][0] as int, j)
            ==> #[trigger] classes[c].contains(j as usize)
    &&& forall|j: int|
        0 <= j < keys.len() && key_value(#[trigger] keys[j]) is Some ==> exists|c: int|
            0 <= c < classes.len() && classes[c].contains(j as usize)
    &&& forall|c1: int, c2: int|
        0 <= c1 < c2 < classes.len() ==> #[trigger] classes[c1][0] < #[trigger] classes[c2][0]
}

/// Whether two keys are equal.
fn keys_equal(a: &ClassKey, b: &ClassKey) -> (r: bool)
    ensures
        r == (key_value(Some(*a)) == key_value(Some(*b))),
{
    match (a, b) {
        (ClassKey::Amount(x), ClassKey::Amount(y)) => *x == *y,
        (ClassKey::Text(x), ClassKey::Text(y)) => same_chars(x, y),
        (ClassKey::Composite(a1, b1, x), ClassKey::Composite(a2, b2, y)) => *a1 == *a2 && *b1 == *b2 && same_chars(x, y),
        _ => false,
    }
}

/// Partition the keyed items into classes of equal keys, in order of first appearance.
pub fn key_classes(keys: &Vec<Option<ClassKey>>) -> (classes: Vec<Vec<usize>>)
    ensures
        is_key_partition(keys@, classes@.map_values(|c: Vec<usize>| c@)),
{
    // class of each item so far, and the first item of each class
    let mut firsts: Vec<usize> = Vec::new();
    let mut class_of: Vec<Option<usize>> = Vec::new();
    let mut i: usize = 0;
    while i < keys.len()
        invariant
            i <= keys@.len(),
            class_of@.len() == i,
            forall|c: int| 0 <= c < firsts@.len() ==> #[trigger] firsts@[c] < i && key_value(keys@[firsts@[c] as int]) is Some,
            forall|c1: int, c2: int| 0 <= c1 < c2 < firsts@.len() ==> #[trigger] firsts@[c1] < #[trigger] firsts@[c2],
            forall|c1: int, c2: int|
                0 <= c1 < firsts@.len() && 0 <= c2 < firsts@.len() && c1 != c2 ==> !same_class(keys@, #[trigger] firsts@[c1] as int, #[trigger] firsts@[c2] as int),
            forall|j: int| 0 <= j < i ==> (key_value(keys@[j]) is Some <==> #[trigger] class_of@[j] is Some),
            forall|j: int| 0 <= j < i && #[trigger] class_of@[j] is Some ==> class_of@[j]->0 < firsts@.len(),
            forall|j: int| 0 <= j < i && #[trigger] class_of@[j] is Some ==> same_class(keys@, firsts@[class_of@[j]->0 as int] as int, j),
            forall|j: int| 0 <= j < i && #[trigger] class_of@[j] is Some ==> firsts@[class_of@[j]->0 as int] <= j,
            forall|c: int| 0 <= c < firsts@.len() ==> #[trigger] class_of@[firsts@[c] as int] == Some(c as usize),
        decreases keys.len() - i,
    {
        match &keys[i] {
            None => {
                class_of.push(None);
            },
            Some(k) => {
                let mut c: usize = 0;
                let mut found = false;
                while !found && c < firsts.len()
                    invariant
                        c <= firsts@.len(),
                        i < keys@.len(),
                        keys@[i as int] == Some(*k),
                        forall|c0: int| 0 <= c0 < firsts@.len() ==> #[trigger] firsts@[c0] < i,
                        found ==> c < firsts@.len() && same_class(keys@, firsts@[c as int] as int, i as int),
                        !found ==> forall|d: int| 0 <= d < c ==> !same_class(keys@, #[trigger] firsts@[d] as int, i as int),
                    decreases firsts@.len() - c + (if found { 0int } else { 1int }),
                {
                    match &keys[firsts[c]] {
                        Some(k2) => {
                            if keys_equal(k2, k) {
                                found = true;
                            } else {
                                c += 1;
                            }
                        },
                        None => {
                            c += 1;
                        },
                    }
                }
                if found {
                    class_of.push(Some(c));
                } else {
                    class_of.push(Some(firsts.len()));
                    firsts.push(i);
                }
            },
        }
        i += 1;
    }
    let mut classes: Vec<Vec<usize>> = Vec::new();
    let mut c: usize = 0;
    while c < firsts.len()
        invariant
            c <= firsts@.len(),
            classes@.len() == c,
            class_of@.len() == keys@.len(),
            forall|j: int| 0 <= j < keys@.len() ==> (key_value(keys@[j]) is Some <==> #[trigger] class_of@[j] is Some),
            forall|j: int| 0 <= j < keys@.len() && #[trigger] class_of@[j] is Some ==> class_of@[j]->0 < firsts@.len(),
            forall|d: int| 0 <= d < c ==> (#[trigger] classes@[d])@.len() > 0 && classes@[d]@[0] == firsts@[d],
            forall|d: int, a: int| 0 <= d < c && 0 <= a < classes@[d]@.len() ==> #[trigger] classes@[d]@[a] < keys@.len() && class_of@[classes@[d]@[a] as int] == Some(d as usize),
            forall|d: int, a: int, b: int| 0 <= d < c && 0 <= a < b < classes@[d]@.len() ==> #[trigger] classes@[d]@[a] < #[trigger] classes@[d]@[b],
            forall|d: int, j: int| 0 <= d < c && 0 <= j < keys@.len() && class_of@[j] == Some(d as usize) ==> #[trigger] classes@[d]@.contains(j as usize),
            forall|c0: int| 0 <= c0 < firsts@.len() ==> #[trigger] firsts@[c0] < keys@.len(),
            forall|c0: int| 0 <= c0 < firsts@.len() ==> #[trigger] class_of@[firsts@[c0] as int] == Some(c0 as usize),
            forall|j: int| 0 <= j < keys@.len() && #[trigger] class_of@[j] is Some ==> firsts@[class_of@[j]->0 as int] <= j,
        decreases firsts.len() - c,
    {
        let mut members: Vec<usize> = Vec::new();
        let mut j: usize = 0;
        while j < keys.len()
            invariant
                j <= keys@.len(),
                c < firsts@.len(),
                class_of@.len() == keys@.len(),
                forall|a: int| 0 <= a < members@.len() ==> #[trigger] members@[a] < j && class_of@[members@[a] as int] == Some(c),
                forall|a: int, b: int| 0 <= a < b < members@.len() ==> #[trigger] members@[a] < #[trigger] members@[b],
                forall|x: int| 0 <= x < j && class_of@[x] == Some(c) ==> #[trigger] members@.contains(x as usize),
                firsts@[c as int] < keys@.len(),
                class_of@[firsts@[c as int] as int] == Some(c),
                forall|x: int| 0 <= x < keys@.len() && #[trigger] class_of@[x] is Some ==> firsts@[class_of@[x]->0 as int] <= x,
                j <= firsts@[c as int] ==> members@.len() == 0,
                j > firsts@[c as int] ==> members@.len() > 0 && members@[0] == firsts@[c as int],
            decreases keys.len() - j,
        {
            let ghost old_members = members@;
            if class_of[j] == Some(c) {
                members.push(j);
                proof {
                    assert(members@[members@.len() - 1] == j);
                    assert forall|x: int| 0 <= x < j + 1 && class_of@[x] == Some(c) implies #[trigger] members@.contains(x as usize) by {
                        if x < j {
                            assert(old_members.contains(x as usize));
                            let w = choose|w: int| 0 <= w < old_members.len() && old_members[w] == x as usize;
                            assert(members@[w] == x as usize);
                        } else {
                            assert(members@[members@.len() - 1] == x as usize);
                        }
                    }
                }
            }
            j += 1;
        }
        classes.push(members);
        c += 1;
    }
    proof {
        let cs = classes@.map_values(|c: Vec<usize>| c@);
        assert forall|d: int| 0 <= d < cs.len() implies cs[d] == #[trigger] classes@[d]@ by {}
        assert forall|d: int, j: int|
            0 <= d < cs.len() && 0 <= j < keys@.len() && same_class(keys@, cs[d][0] as int, j) implies #[trigger] cs[d].contains(j as usize) by {
            assert(cs[d] == classes@[d]@);
            assert(cs[d][0] == firsts@[d]);
            assert(class_of@[j] is Some);
            let cj = class_of@[j]->0;
            if cj != d {
                assert(same_class(keys@, firsts@[cj as int] as int, j));
                assert(same_class(keys@, firsts@[d] as int, firsts@[cj as int] as int));
            }
        }
        assert forall|j: int| 0 <= j < keys@.len() && key_value(#[trigger] keys@[j]) is Some implies exists|d: int|
            0 <= d < cs.len() && cs[d].contains(j as usize) by {
            assert(class_of@[j] is Some);
            let cj = class_of@[j]->0 as int;
            assert(cs[cj] == classes@[cj]@);
            assert(cs[cj].contains(j as usize));
        }
        assert forall|d: int, a: int|
            0 <= d < cs.len() && 0 <= a < cs[d].len() implies #[trigger] cs[d][a] < keys@.len() && same_class(keys@, cs[d][0] as int, cs[d][a] as int) by {
            assert(cs[d] == classes@[d]@);
            assert(cs[d][0] == firsts@[d]);
            assert(class_of@[cs[d][a] as int] == Some(d as usize));
        }
        assert forall|d: int, a: int, b: int|
            0 <= d < cs.len() && 0 <= a < b < cs[d].len() implies #[trigger] cs[d][a] < #[trigger] cs[d][b] by {
            assert(cs[d] == classes@[d]@);
        }
        assert forall|c1: int, c2: int| 0 <= c1 < c2 < cs.len() implies #[trigger] cs[c1][0] < #[trigger] cs[c2][0] by {
            assert(cs[c1] == classes@[c1]@ && cs[c2] == classes@[c2]@);
            assert(cs[c1][0] == firsts@[c1] && cs[c2][0] == firsts@[c2]);
        }
        assert forall|d: int| 0 <= d < cs.len() implies #[trigger] cs[d].len() > 0 by {
            assert(cs[d] == classes@[d]@);
        }
    }
    classes
}

/// The key values of the items.
pub open spec fn key_values(keys: Seq<Option<ClassKey>>) -> Seq<Option<KeyValue>> {
    Seq::new(keys.len(), |i: int| key_value(keys[i]))
}

/// Item `i` has a key that some other item has too.
pub open spec fn shares(ks: Seq<Option<KeyValue>>, i: int) -> bool {
    &&& ks[i] is Some
    &&& exists|j: int| 0 <= j < ks.len() && j != i && #[trigger] ks[j] == ks[i]
}

/// `m` lists, in increasing order, all the items with one key, and there are at
/// least two of them.
pub open spec fn is_full_class(ks: Seq<Option<KeyValue>>, m: Seq<usize>) -> bool {
    &&& m.len() >= 2
    &&& ks[m[0] as int] is Some
    &&& forall|a: int| 0 <= a < m.len() ==> #[trigger] m[a] < ks.len() && ks[m[a] as int] == ks[m[0] as int]
    &&& forall|a: int, b: int| 0 <= a < b < m.len() ==> #[trigger] m[a] < #[trigger] m[b]
    &&& forall|j: int| 0 <= j < ks.len() && #[trigger] ks[j] == ks[m[0] as int] ==> m.contains(j as usize)
}

/// A class of two items or more of a key partition is full.
proof fn lemma_full_class(keys: Seq<Option<ClassKey>>, cls: Seq<Seq<usize>>, c: int)
    requires
        is_key_partition(keys, cls),
        0 <= c < cls.len(),
        cls[c].len() >= 2,
    ensures
        is_full_class(key_values(keys), cls[c]),
{
    let ks = key_values(keys);
    let m = cls[c];
    assert(forall|a: int| 0 <= a < m.len() ==> #[trigger] m[a] < keys.len() && same_class(keys, m[0] as int, m[a] as int));
    assert forall|a: int| 0 <= a < m.len() implies #[trigger] m[a] < ks.len() && ks[m[a] as int] == ks[m[0] as int] by {
        assert(same_class(keys, m[0] as int, m[a] as int));
    }
    assert forall|j: int| 0 <= j < ks.len() && #[trigger] ks[j] == ks[m[0] as int] implies m.contains(j as usize) by {
        assert(same_class(keys, m[0] as int, j));
    }
}

/// A copy of a list of positions.
pub fn copy_positions(v: &Vec<usize>) -> (r: Vec<usize>)
    ensures
        r@ == v@,
{
    let mut r: Vec<usize> = Vec::new();
    let mut i: usize = 0;
    while i < v.len()
        invariant
            i <= v@.len(),
            r@ == v@.subrange(0, i as int),
        decreases v.len() - i,
    {
        r.push(v[i]);
        i += 1;
        assert(r@ =~= v@.subrange(0, i as int));
    }
    assert(r@ =~= v@);
    r
}

/// Marks the listed items.
fn mark_items(flags: &mut Vec<bool>, m: &Vec<usize>)
    requires
        forall|a: int| 0 <= a < m@.len() ==> #[trigger] m@[a] < old(flags)@.len(),
    ensures
        final(flags)@.len() == old(flags)@.len(),
        forall|x: int| 0 <= x < old(flags)@.len() ==> (#[trigger] final(flags)@[x] <==> (old(flags)@[x] || m@.contains(x as usize))),
{
    let ghost before = flags@;
    let n = flags.len();
    let mut a: usize = 0;
    while a < m.len()
        invariant
            n == before.len(),
            forall|y: int| 0 <= y < m@.len() ==> #[trigger] m@[y] < before.len(),
            a <= m@.len(),
            flags@.len() == before.len(),
            forall|x: int| 0 <= x < before.len() ==> (#[trigger] flags@[x] <==> (before[x] || m@.subrange(0, a as int).contains(x as usize))),
        decreases m.len() - a,
    {
        let ghost f0 = flags@;
        let ghost p0 = m@.subrange(0, a as int);
        flags.set(m[a], true);
        proof {
            let p1 = m@.subrange(0, a + 1);
            assert(p1 =~= p0.push(m@[a as int]));
            assert forall|x: int| 0 <= x < before.len() implies (#[trigger] flags@[x] <==> (before[x] || p1.contains(x as usize))) by {
                if x == m@[a as int] as int {
                    assert(p1[a as int] == x as usize);
                } else {
                    assert(x as usize != m@[a as int]);
                    assert(flags@[x] == f0[x]);
                    if p1.contains(x as usize) {
                        let k = choose|k: int| 0 <= k < p1.len() && p1[k] == x as usize;
                        assert(p0[k] == x as usize);
                    }
                    if p0.contains(x as usize) {
                        let k = choose|k: int| 0 <= k < p0.len() && p0[k] == x as usize;
                        assert(p1[k] == x as usize);
                    }
                }
            }
        }
        a += 1;
    }
    assert(m@.subrange(0, m@.len() as int) =~= m@);
}

/// The classes of a key partition that hold two items or more.
fn large_classes(keys: &Vec<Option<ClassKey>>, all: &Vec<Vec<usize>>) -> (kept: Vec<Vec<usize>>)
    requires
        is_key_partition(keys@, all@.map_values(|c: Vec<usize>| c@)),
    ensures
        forall|k: int| 0 <= k < kept@.len() ==> is_full_class(key_values(keys@), #[trigger] kept@[k]@),
        forall|k1: int, k2: int| 0 <= k1 < k2 < kept@.len() ==> (#[trigger] kept@[k1])@[0] < (#[trigger] kept@[k2])@[0],
        forall|d: int| 0 <= d < all@.len() && (#[trigger] all@[d])@.len() >= 2 ==> exists|k: int| 0 <= k < kept@.len() && kept@[k]@ == all@[d]@,
{
    let ghost cls = all@.map_values(|c: Vec<usize>| c@);
    let ghost ks = key_values(keys@);
    proof {
        assert forall|d: int| 0 <= d < cls.len() implies cls[d] == #[trigger] all@[d]@ by {}
        assert forall|d: int| 0 <= d < cls.len() && (#[trigger] cls[d]).len() >= 2 implies is_full_class(ks, cls[d]) by {
            lemma_full_class(keys@, cls, d);
        }
    }
    let mut kept: Vec<Vec<usize>> = Vec::new();
    let ghost mut idx: Seq<int> = Seq::empty();
    let mut c: usize = 0;
    while c < all.len()
        invariant
            cls.len() == all@.len(),
            forall|d: int| 0 <= d < cls.len() ==> cls[d] == #[trigger] all@[d]@,
            c <= all@.len(),
            idx.len() == kept@.len(),
            forall|k: int| 0 <= k < kept@.len() ==> 0 <= #[trigger] idx[k] < c && kept@[k]@ == cls[idx[k]] && cls[idx[k]].len() >= 2,
            forall|k1: int, k2: int| 0 <= k1 < k2 < kept@.len() ==> #[trigger] idx[k1] < #[trigger] idx[k2],
            forall|d: int| 0 <= d < c && (#[trigger] cls[d]).len() >= 2 ==> exists|k: int| 0 <= k < kept@.len() && idx[k] == d,
        decreases all.len() - c,
    {
        if all[c].len() >= 2 {
            let copy = copy_positions(&all[c]);
            kept.push(copy);
            let ghost old_idx = idx;
            proof {
                idx = idx.push(c as int);
                assert forall|d: int| 0 <= d < c + 1 && (#[trigger] cls[d]).len() >= 2 implies exists|k: int| 0 <= k < kept@.len() && idx[k] == d by {
                    if d == c {
                        assert(idx[idx.len() - 1] == d);
                    } else {
                        let k = choose|k: int| 0 <= k < old_idx.len() && old_idx[k] == d;
                        assert(idx[k] == d);
                    }
                }
            }
        }
        c += 1;
    }
    proof {
        assert forall|k: int| 0 <= k < kept@.len() implies is_full_class(ks, #[trigger] kept@[k]@) by {
            assert(cls[idx[k]].len() >= 2);
        }
        assert forall|k1: int, k2: int| 0 <= k1 < k2 < kept@.len() implies (#[trigger] kept@[k1])@[0] < (#[trigger] kept@[k2])@[0] by {
            assert(idx[k1] < idx[k2]);
            assert(cls[idx[k1]][0] < cls[idx[k2]][0]);
        }
        assert forall|d: int| 0 <= d < all@.len() && (#[trigger] all@[d])@.len() >= 2 implies exists|k: int| 0 <= k < kept@.len() && kept@[k]@ == all@[d]@ by {
            assert(cls[d].len() >= 2);
            let k = choose|k: int| 0 <= k < kept@.len() && idx[k] == d;
            assert(kept@[k]@ == cls[d]);
        }
    }
    kept
}

/// The classes of equal keys that hold two items or more, in order of their first
/// item, and for each item whether it lies in one of them.
pub fn multi_classes(keys: &Vec<Option<ClassKey>>) -> (r: (Vec<Vec<usize>>, Vec<bool>))
    ensures
        forall|c: int| 0 <= c < r.0@.len() ==> is_full_class(key_values(keys@), #[trigger] r.0@[c]@),
        forall|c1: int, c2: int| 0 <= c1 < c2 < r.0@.len() ==> (#[trigger] r.0@[c1])@[0] < (#[trigger] r.0@[c2])@[0],
        r.1@.len() == keys@.len(),
        forall|i: int| 0 <= i < keys@.len() ==> #[trigger] r.1@[i] == shares(key_values(keys@), i),
        forall|i: int| 0 <= i < keys@.len() && #[trigger] shares(key_values(keys@), i) ==> exists|c: int| 0 <= c < r.0@.len() && (#[trigger] r.0@[c])@.contains(i as usize),
{
    let ghost ks = key_values(keys@);
    let all = key_classes(keys);
    let ghost cls = all@.map_values(|c: Vec<usize>| c@);
    let kept = large_classes(keys, &all);
    let n = keys.len();
    let mut grouped: Vec<bool> = Vec::new();
    let mut i: usize = 0;
    while i < n
        invariant
            n == keys@.len(),
            i <= n,
            grouped@.len() == i,
            forall|x: int| 0 <= x < i ==> !#[trigger] grouped@[x],
        decreases n - i,
    {
        grouped.push(false);
        i += 1;
    }
    let mut k: usize = 0;
    while k < kept.len()
        invariant
            n == keys@.len(),
            ks == key_values(keys@),
            k <= kept@.len(),
            grouped@.len() == n,
            forall|j: int| 0 <= j < kept@.len() ==> is_full_class(ks, #[trigger] kept@[j]@),
            forall|x: int| 0 <= x < n ==> (#[trigger] grouped@[x] <==> exists|j: int| 0 <= j < k && (#[trigger] kept@[j])@.contains(x as usize)),
        decreases kept.len() - k,
    {
        let ghost g0 = grouped@;
        proof {
            assert(is_full_class(ks, kept@[k as int]@));
        }
        mark_items(&mut grouped, &kept[k]);
        proof {
            assert forall|x: int| 0 <= x < n implies (#[trigger] grouped@[x] <==> exists|j: int| 0 <= j < k + 1 && (#[trigger] kept@[j])@.contains(x as usize)) by {
                if grouped@[x] && !g0[x] {
                    assert(kept@[k as int]@.contains(x as usize));
                }
                if exists|j: int| 0 <= j < k + 1 && (#[trigger] kept@[j])@.contains(x as usize) {
                    let j = choose|j: int| 0 <= j < k + 1 && (#[trigger] kept@[j])@.contains(x as usize);
                    if j < k {
                        assert(g0[x]);
                    }
                }
            }
        }
        k += 1;
    }
    proof {
        assert forall|x: int| 0 <= x < n implies #[trigger] grouped@[x] == shares(ks, x) by {
            if grouped@[x] {
                let j = choose|j: int| 0 <= j < kept@.len() && (#[trigger] kept@[j])@.contains(x as usize);
                let b = choose|b: int| 0 <= b < kept@[j]@.len() && kept@[j]@[b] == x as usize;
                lemma_full_class_shares(ks, kept@[j]@, b);
            }
            if shares(ks, x) {
                lemma_shared_in_large(keys@, cls, x);
                let d = choose|d: int| 0 <= d < cls.len() && cls[d].len() >= 2 && cls[d].contains(x as usize);
                assert(cls[d] == all@[d]@);
                let j = choose|j: int| 0 <= j < kept@.len() && kept@[j]@ == all@[d]@;
                assert(kept@[j]@.contains(x as usize));
            }
        }
        assert forall|x: int| 0 <= x < n && #[trigger] shares(ks, x) implies exists|c: int| 0 <= c < kept@.len() && (#[trigger] kept@[c])@.contains(x as usize) by {
            assert(grouped@[x]);
            let j = choose|j: int| 0 <= j < kept@.len() && (#[trigger] kept@[j])@.contains(x as usize);
            assert(kept@[j]@.contains(x as usize));
        }
    }
    let r = (kept, grouped);
    proof {
        assert forall|i: int| 0 <= i < keys@.len() && #[trigger] shares(key_values(keys@), i) implies exists|c: int| 0 <= c < r.0@.len() && (#[trigger] r.0@[c])@.contains(i as usize) by {
            let j = choose|j: int| 0 <= j < r.0@.len() && (#[trigger] r.0@[j])@.contains(i as usize);
            assert(r.0@[j]@.contains(i as usize));
        }
    }
    r
}

/// An item that shares its key lies in a class of two items or more.
proof fn lemma_shared_in_large(keys: Seq<Option<ClassKey>>, cls: Seq<Seq<usize>>, x: int)
    requires
        is_key_partition(keys, cls),
        0 <= x < keys.len(),
        keys.len() <= usize::MAX,
        shares(key_values(keys), x),
    ensures
        exists|d: int| 0 <= d < cls.len() && cls[d].len() >= 2 && cls[d].contains(x as usize),
{
    let ks = key_values(keys);
    let j = choose|j: int| 0 <= j < ks.len() && j != x && #[trigger] ks[j] == ks[x];
    assert(key_value(keys[x]) is Some);
    let d = choose|d: int| 0 <= d < cls.len() && cls[d].contains(x as usize);
    let b = choose|b: int| 0 <= b < cls[d].len() && cls[d][b] == x as usize;
    assert(cls[d][b] < keys.len() && same_class(keys, cls[d][0] as int, cls[d][b] as int));
    assert(cls[d][b] as int == x);
    assert(same_class(keys, cls[d][0] as int, j));
    assert(cls[d].contains(j as usize));
    let bj = choose|bj: int| 0 <= bj < cls[d].len() && cls[d][bj] == j as usize;
    assert(bj != b);
}

/// Every item of a full class shares its key.
pub proof fn lemma_full_class_shares(ks: Seq<Option<KeyValue>>, m: Seq<usize>, a: int)
    requires
        is_full_class(ks, m),
        0 <= a < m.len(),
    ensures
        shares(ks, m[a] as int),
        ks[m[a] as int] == ks[m[0] as int],
{
    let o: int = if a == 0 { 1 } else { 0 };
    if a == 0 {
        assert(m[0] < m[1]);
    } else {
        assert(m[0] < m[a]);
    }
    assert(ks[m[o] as int] == ks[m[a] as int]);
}

/// Full classes with increasing first items have no item in common.
pub proof fn lemma_full_classes_disjoint(ks: Seq<Option<KeyValue>>, ms: Seq<Seq<usize>>, c1: int, c2: int, a: int, b: int)
    requires
        forall|c: int| 0 <= c < ms.len() ==> is_full_class(ks, #[trigger] ms[c]),
        forall|x: int, y: int| 0 <= x < y < ms.len() ==> (#[trigger] ms[x])[0] < (#[trigger] ms[y])[0],
        0 <= c1 < ms.len(),
        0 <= c2 < ms.len(),
        c1 != c2,
        0 <= a < ms[c1].len(),
        0 <= b < ms[c2].len(),
    ensures
        ms[c1][a] != ms[c2][b],
{
    if ms[c1][a] == ms[c2][b] {
        let lo = if c1 < c2 { c1 } else { c2 };
        let hi = if c1 < c2 { c2 } else { c1 };
        assert(is_full_class(ks, ms[lo]));
        assert(is_full_class(ks, ms[hi]));
        assert(ms[lo][0] < ms[hi][0]);
        let x = ms[c1][a] as int;
        assert(ks[x] == ks[ms[c1][0] as int]);
        assert(ks[x] == ks[ms[c2][0] as int]);
        let f = ms[lo][0] as int;
        assert(ks[f] == ks[ms[hi][0] as int]);
        assert(ms[hi].contains(f as usize));
        let k = choose|k: int| 0 <= k < ms[hi].len() && ms[hi][k] == f as usize;
        if k > 0 {
            assert(ms[hi][0] < ms[hi][k]);
        }
    }
}

/// The class lists of a key sequence: the full classes of two items or more, in
/// order of their first item, covering every item that shares its key.
pub open spec fn is_class_list(ks: Seq<Option<KeyValue>>, ms: Seq<Seq<usize>>) -> bool {
    &&& forall|c: int| 0 <= c < ms.len() ==> is_full_class(ks, #[trigger] ms[c])
    &&& forall|c1: int, c2: int| 0 <= c1 < c2 < ms.len() ==> (#[trigger] ms[c1])[0] < (#[trigger] ms[c2])[0]
    &&& forall|i: int| 0 <= i < ks.len() && #[trigger] shares(ks, i) ==> exists|c: int| 0 <= c < ms.len() && (#[trigger] ms[c]).contains(i as usize)
}

/// Where the candidates of class `c` start among those of all copy classes.
pub open spec fn class_offset(ms: Seq<Seq<usize>>, c: int) -> int
    decreases c,
{
    if c <= 0 {
        0
    } else {
        class_offset(ms, c - 1) + ms[c - 1].len()
    }
}

/// Class offsets grow with the classes.
pub proof fn lemma_class_offset_step(ms: Seq<Seq<usize>>, c: int)
    requires
        0 <= c,
    ensures
        class_offset(ms, c + 1) == class_offset(ms, c) + ms[c].len(),
        class_offset(ms, c) >= 0,
    decreases c,
{
    if c > 0 {
        lemma_class_offset_step(ms, c - 1);
    }
}

/// The multi classes as a sequence of position sequences.
pub proof fn lemma_class_list(keys: Seq<Option<ClassKey>>, classes: Seq<Vec<usize>>)
    requires
        forall|c: int| 0 <= c < classes.len() ==> is_full_class(key_values(keys), #[trigger] classes[c]@),
        forall|c1: int, c2: int| 0 <= c1 < c2 < classes.len() ==> (#[trigger] classes[c1])@[0] < (#[trigger] classes[c2])@[0],
        forall|i: int| 0 <= i < keys.len() && #[trigger] shares(key_values(keys), i) ==> exists|c: int| 0 <= c < classes.len() && (#[trigger] classes[c])@.contains(i as usize),
    ensures
        is_class_list(key_values(keys), classes.map_values(|c: Vec<usize>| c@)),
{
    let ms = classes.map_values(|c: Vec<usize>| c@);
    assert forall|c: int| 0 <= c < ms.len() implies is_full_class(key_values(keys), #[trigger] ms[c]) by {
        assert(ms[c] == classes[c]@);
    }
    assert forall|c1: int, c2: int| 0 <= c1 < c2 < ms.len() implies (#[trigger] ms[c1])[0] < (#[trigger] ms[c2])[0] by {
        assert(ms[c1] == classes[c1]@ && ms[c2] == classes[c2]@);
    }
    assert forall|i: int| 0 <= i < key_values(keys).len() && #[trigger] shares(key_values(keys), i) implies exists|c: int| 0 <= c < ms.len() && (#[trigger] ms[c]).contains(i as usize) by {
        let c = choose|c: int| 0 <= c < classes.len() && (#[trigger] classes[c])@.contains(i as usize);
        assert(ms[c] == classes[c]@);
    }
}

/// Class offsets never shrink.
pub proof fn lemma_class_offset_monotone(ms: Seq<Seq<usize>>, a: int, b: int)
    requires
        0 <= a <= b,
    ensures
        class_offset(ms, a) <= class_offset(ms, b),
    decreases b - a,
{
    if a < b {
        lemma_class_offset_step(ms, b - 1);
        lemma_class_offset_monotone(ms, a, b - 1);
    }
}

} // verus!
