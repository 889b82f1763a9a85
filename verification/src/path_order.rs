//! Order and equality of paths by their components, as std compares `Path`s, and
//! the sorted list of distinct paths.
use vstd::prelude::*;
use crate::duplicates::{lex_lt, lemma_lex_irreflexive, lemma_lex_transitive, lemma_lex_total, text_less};
use crate::text::{chars_of, same_chars};

verus! {

/// What std's `Path::components` yields for a path, each component as text (`/`
/// for the root, `.` and `..` for the current and parent directory).
pub uninterp spec fn path_components(p: Seq<char>) -> Seq<Seq<char>>;

/// std `Path::components`, each component's text. The contract names the result.
#[verifier::external_body]
pub(crate) fn components_of(p: &str) -> (r: Vec<Vec<char>>)
    ensures
        r@.map_values(|c: Vec<char>| c@) == path_components(p@),
{
    std::path::Path::new(p).components().map(|c| c.as_os_str().to_string_lossy().chars().collect()).collect()
}

/// The kind of a component, in std's order of component kinds: the root, then `.`,
/// then `..`, then names (a name never reads `/`, `.` or `..`).
pub open spec fn comp_rank(c: Seq<char>) -> int {
    if c == seq!['/'] {
        1
    } else if c == seq!['.'] {
        2
    } else if c == seq!['.', '.'] {
        3
    } else {
        4
    }
}

/// Component order: by kind, then by text.
pub open spec fn comp_lt(a: Seq<char>, b: Seq<char>) -> bool {
    comp_rank(a) < comp_rank(b) || (comp_rank(a) == comp_rank(b) && lex_lt(a, b))
}

/// Path order: component lists compared element by element.
pub open spec fn comps_lt(x: Seq<Seq<char>>, y: Seq<Seq<char>>) -> bool
    decreases x.len(),
{
    if x.len() == 0 {
        y.len() > 0
    } else if y.len() == 0 {
        false
    } else if x[0] != y[0] {
        comp_lt(x[0], y[0])
    } else {
        comps_lt(x.drop_first(), y.drop_first())
    }
}

proof fn lemma_comp_order(a: Seq<char>, b: Seq<char>, c: Seq<char>)
    ensures
        !comp_lt(a, a),
        comp_lt(a, b) && comp_lt(b, c) ==> comp_lt(a, c),
        a == b || comp_lt(a, b) || comp_lt(b, a),
{
    lemma_lex_irreflexive(a);
    lemma_lex_total(a, b);
    if comp_lt(a, b) && comp_lt(b, c) && comp_rank(a) == comp_rank(b) && comp_rank(b) == comp_rank(c) {
        lemma_lex_transitive(a, b, c);
    }
}

/// No path comes before itself.
pub proof fn lemma_comps_irreflexive(x: Seq<Seq<char>>)
    ensures
        !comps_lt(x, x),
    decreases x.len(),
{
    if x.len() > 0 {
        lemma_comps_irreflexive(x.drop_first());
    }
}

/// Path order is transitive.
pub proof fn lemma_comps_transitive(x: Seq<Seq<char>>, y: Seq<Seq<char>>, z: Seq<Seq<char>>)
    requires
        comps_lt(x, y),
        comps_lt(y, z),
    ensures
        comps_lt(x, z),
    decreases x.len(),
{
    if x.len() > 0 && y.len() > 0 && z.len() > 0 {
        lemma_comp_order(x[0], y[0], z[0]);
        lemma_comp_order(y[0], z[0], x[0]);
        lemma_comp_order(x[0], z[0], y[0]);
        if x[0] == y[0] && y[0] == z[0] {
            lemma_comps_transitive(x.drop_first(), y.drop_first(), z.drop_first());
        }
    }
}

/// Two paths have equal components or one comes before the other.
pub proof fn lemma_comps_total(x: Seq<Seq<char>>, y: Seq<Seq<char>>)
    ensures
        x == y || comps_lt(x, y) || comps_lt(y, x),
    decreases x.len(),
{
    if x.len() > 0 && y.len() > 0 {
        lemma_comp_order(x[0], y[0], x[0]);
        if x[0] == y[0] {
            lemma_comps_total(x.drop_first(), y.drop_first());
            if x.drop_first() == y.drop_first() {
                assert(x =~= seq![x[0]] + x.drop_first());
                assert(y =~= seq![y[0]] + y.drop_first());
            }
        }
    } else if x.len() == 0 && y.len() == 0 {
        assert(x =~= y);
    }
}

fn rank_of(c: &Vec<char>) -> (r: u8)
    ensures
        r == comp_rank(c@),
{
    if c.len() == 1 && c[0] == '/' {
        assert(c@ =~= seq!['/']);
        1
    } else if c.len() == 1 && c[0] == '.' {
        assert(c@ =~= seq!['.']);
        2
    } else if c.len() == 2 && c[0] == '.' && c[1] == '.' {
        assert(c@ =~= seq!['.', '.']);
        3
    } else {
        proof {
            if c@ == seq!['/'] || c@ == seq!['.'] {
                assert(c@.len() == 1);
            }
            if c@ == seq!['.', '.'] {
                assert(c@.len() == 2);
            }
        }
        4
    }
}

/// The characters of each component.
pub open spec fn comp_views(v: Seq<Vec<char>>) -> Seq<Seq<char>> {
    v.map_values(|c: Vec<char>| c@)
}

/// Whether path `x` comes before path `y` (by components).
pub fn components_less(x: &Vec<Vec<char>>, y: &Vec<Vec<char>>) -> (r: bool)
    ensures
        r == comps_lt(comp_views(x@), comp_views(y@)),
{
    let ghost xs = comp_views(x@);
    let ghost ys = comp_views(y@);
    let mut i: usize = 0;
    proof {
        assert(xs.skip(0) =~= xs);
        assert(ys.skip(0) =~= ys);
    }
    while i < x.len() && i < y.len() && same_chars(&x[i], &y[i])
        invariant
            xs == comp_views(x@),
            ys == comp_views(y@),
            i <= x@.len(),
            i <= y@.len(),
            comps_lt(xs, ys) == comps_lt(xs.skip(i as int), ys.skip(i as int)),
        decreases x.len() - i,
    {
        proof {
            assert(xs.skip(i as int).drop_first() =~= xs.skip(i + 1));
            assert(ys.skip(i as int).drop_first() =~= ys.skip(i + 1));
            assert(xs.skip(i as int)[0] == x@[i as int]@);
            assert(ys.skip(i as int)[0] == y@[i as int]@);
        }
        i += 1;
    }
    if i == x.len() {
        i < y.len()
    } else if i == y.len() {
        false
    } else {
        proof {
            assert(xs.skip(i as int)[0] == x@[i as int]@);
            assert(ys.skip(i as int)[0] == y@[i as int]@);
        }
        let ra = rank_of(&x[i]);
        let rb = rank_of(&y[i]);
        ra < rb || (ra == rb && text_less(&x[i], &y[i]))
    }
}

/// Whether two paths have the same components.
pub fn components_equal(x: &Vec<Vec<char>>, y: &Vec<Vec<char>>) -> (r: bool)
    ensures
        r == (comp_views(x@) == comp_views(y@)),
{
    if x.len() != y.len() {
        proof {
            assert(comp_views(x@).len() != comp_views(y@).len());
        }
        return false;
    }
    let mut i: usize = 0;
    while i < x.len()
        invariant
            x@.len() == y@.len(),
            i <= x@.len(),
            forall|j: int| 0 <= j < i ==> #[trigger] x@[j]@ == y@[j]@,
        decreases x.len() - i,
    {
        if !same_chars(&x[i], &y[i]) {
            proof {
                assert(comp_views(x@)[i as int] != comp_views(y@)[i as int]);
            }
            return false;
        }
        i += 1;
    }
    assert(comp_views(x@) =~= comp_views(y@));
    true
}

/// Some listed position has key `k`.
pub open spec fn key_listed(keys: Seq<Seq<Seq<char>>>, r: Seq<usize>, k: Seq<Seq<char>>) -> bool {
    exists|a: int| 0 <= a < r.len() && keys[#[trigger] r[a] as int] == k
}

/// The first occurrence of each distinct key, ordered by key: `r` lists positions
/// whose keys increase strictly, each the first position with its key, and every
/// key occurs among them.
pub open spec fn is_sorted_unique(keys: Seq<Seq<Seq<char>>>, r: Seq<usize>) -> bool {
    &&& forall|a: int| 0 <= a < r.len() ==> #[trigger] r[a] < keys.len()
    &&& forall|a: int, b: int| 0 <= a < b < r.len() ==> comps_lt(keys[#[trigger] r[a] as int], keys[#[trigger] r[b] as int])
    &&& forall|a: int, j: int| #![trigger keys[j], r[a]] 0 <= a < r.len() && 0 <= j < r[a] ==> keys[j] != keys[r[a] as int]
    &&& forall|j: int| 0 <= j < keys.len() ==> #[trigger] key_listed(keys, r, keys[j])
}

/// The component lists of the keys.
pub open spec fn key_views(v: Seq<Vec<Vec<char>>>) -> Seq<Seq<Seq<char>>> {
    v.map_values(|k: Vec<Vec<char>>| comp_views(k@))
}

/// The first position of each distinct path, in path order.
pub fn sorted_unique(keys: &Vec<Vec<Vec<char>>>) -> (r: Vec<usize>)
    ensures
        is_sorted_unique(key_views(keys@), r@),
{
    let ghost ks = key_views(keys@);
    let mut r: Vec<usize> = Vec::new();
    let mut i: usize = 0;
    while i < keys.len()
        invariant
            ks == key_views(keys@),
            i <= keys@.len(),
            forall|a: int| 0 <= a < r@.len() ==> #[trigger] r@[a] < i,
            forall|a: int, b: int| 0 <= a < b < r@.len() ==> comps_lt(ks[#[trigger] r@[a] as int], ks[#[trigger] r@[b] as int]),
            forall|a: int, j: int| #![trigger ks[j], r@[a]] 0 <= a < r@.len() && 0 <= j < r@[a] ==> ks[j] != ks[r@[a] as int],
            forall|j: int| 0 <= j < i ==> #[trigger] key_listed(ks, r@, ks[j]),
        decreases keys.len() - i,
    {
        let mut pos: usize = 0;
        while pos < r.len() && components_less(&keys[r[pos]], &keys[i])
            invariant
                ks == key_views(keys@),
                i < keys@.len(),
                pos <= r@.len(),
                forall|a: int| 0 <= a < r@.len() ==> #[trigger] r@[a] < i,
                forall|a: int| 0 <= a < pos ==> comps_lt(ks[#[trigger] r@[a] as int], ks[i as int]),
            decreases r.len() - pos,
        {
            proof {
                assert(ks[r@[pos as int] as int] == comp_views(keys@[r@[pos as int] as int]@));
                assert(ks[i as int] == comp_views(keys@[i as int]@));
            }
            pos += 1;
        }
        proof {
            assert(ks[i as int] == comp_views(keys@[i as int]@));
            if pos < r@.len() {
                assert(ks[r@[pos as int] as int] == comp_views(keys@[r@[pos as int] as int]@));
            }
        }
        let dup = pos < r.len() && components_equal(&keys[r[pos]], &keys[i]);
        if dup {
            proof {
                assert forall|j: int| 0 <= j < i + 1 implies #[trigger] key_listed(ks, r@, ks[j]) by {
                    if j == i {
                        assert(ks[r@[pos as int] as int] == ks[j]);
                    } else {
                        assert(key_listed(ks, r@, ks[j]));
                    }
                }
            }
        } else {
            let ghost before = r@;
            proof {
                if pos < r@.len() {
                    lemma_comps_total(ks[i as int], ks[r@[pos as int] as int]);
                    assert(!comps_lt(ks[r@[pos as int] as int], ks[i as int]));
                    assert(comps_lt(ks[i as int], ks[r@[pos as int] as int]));
                }
            }
            r.insert(pos, i);
            proof {
                assert(r@ == before.insert(pos as int, i));
                assert forall|a: int, b: int| 0 <= a < b < r@.len() implies comps_lt(ks[#[trigger] r@[a] as int], ks[#[trigger] r@[b] as int]) by {
                    if b < pos {
                        assert(r@[a] == before[a] && r@[b] == before[b]);
                    } else if b == pos {
                        assert(r@[a] == before[a]);
                    } else if a < pos {
                        assert(r@[a] == before[a] && r@[b] == before[b - 1]);
                    } else if a == pos {
                        assert(r@[b] == before[b - 1]);
                        if b - 1 > pos {
                            assert(comps_lt(ks[before[pos as int] as int], ks[before[b - 1] as int]));
                            lemma_comps_transitive(ks[i as int], ks[before[pos as int] as int], ks[before[b - 1] as int]);
                        }
                    } else {
                        assert(r@[a] == before[a - 1] && r@[b] == before[b - 1]);
                    }
                }
                assert forall|a: int, j: int| #![trigger ks[j], r@[a]] 0 <= a < r@.len() && 0 <= j < r@[a] implies ks[j] != ks[r@[a] as int] by {
                    if a == pos {
                        if ks[j] == ks[i as int] {
                            assert(key_listed(ks, before, ks[j]));
                            let w = choose|w: int| 0 <= w < before.len() && ks[#[trigger] before[w] as int] == ks[j];
                            lemma_comps_irreflexive(ks[i as int]);
                            if w < pos {
                                assert(comps_lt(ks[before[w] as int], ks[i as int]));
                            } else if w == pos {
                                assert(false);
                            } else {
                                assert(comps_lt(ks[before[pos as int] as int], ks[before[w] as int]));
                                lemma_comps_transitive(ks[i as int], ks[before[pos as int] as int], ks[before[w] as int]);
                            }
                        }
                    } else if a < pos {
                        assert(r@[a] == before[a]);
                    } else {
                        assert(r@[a] == before[a - 1]);
                    }
                }
                assert forall|j: int| 0 <= j < i + 1 implies #[trigger] key_listed(ks, r@, ks[j]) by {
                    if j == i {
                        assert(r@[pos as int] == i);
                    } else {
                        assert(key_listed(ks, before, ks[j]));
                        let w = choose|w: int| 0 <= w < before.len() && ks[#[trigger] before[w] as int] == ks[j];
                        if w < pos {
                            assert(r@[w] == before[w]);
                        } else {
                            assert(r@[w + 1] == before[w]);
                        }
                    }
                }
            }
        }
        i += 1;
    }
    r
}

} // verus!
