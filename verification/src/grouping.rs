//! Grouping of candidates: duplicates, similar names, same directory.
use vstd::prelude::*;
use crate::text::{chars_of, string_from_chars};
use crate::candidate::Candidate;
use crate::paths::{
    opt_view, path_parent, path_ancestors, path_starts_with, path_normal, parent_of, ancestors_of,
    starts_with_path, normal_form, file_name_or_empty, file_name_text, path_file_name,
};
use crate::order::{
    ClassKey, KeyValue, key_value, key_values, shares, is_full_class, multi_classes, desc_order,
    is_desc_order, ranks_before, listed,
};
use crate::text::{dec_seq, dec_chars, push_str, push_all, owned};
use crate::report::sum_sizes;

verus! {

/// An ASCII decimal digit.
pub open spec fn is_digit(c: char) -> bool {
    '0' <= c && c <= '9'
}

/// A character that can start a sequence number (`.001`, `-1`, `_01`, `(1)`).
pub open spec fn is_separator(c: char) -> bool {
    c == '.' || c == '-' || c == '_' || c == '('
}

/// Looks like a date: four digits, then a dash or digit, then a digit
/// (`YYYY-MM-DD` or `YYYYMMDD`), at least eight characters.
pub open spec fn date_like(s: Seq<char>) -> bool {
    &&& s.len() >= 8
    &&& is_digit(s[0]) && is_digit(s[1]) && is_digit(s[2]) && is_digit(s[3])
    &&& (s[4] == '-' || is_digit(s[4]))
    &&& (is_digit(s[5]) || (s[4] == '-' && is_digit(s[5])))
}

/// A whole `YYYY-MM-DD` date: four digits, a dash, two digits, a dash, two digits.
pub open spec fn dashed_date(s: Seq<char>) -> bool {
    &&& s.len() >= 10
    &&& is_digit(s[0]) && is_digit(s[1]) && is_digit(s[2]) && is_digit(s[3])
    &&& s[4] == '-' && is_digit(s[5]) && is_digit(s[6])
    &&& s[7] == '-' && is_digit(s[8]) && is_digit(s[9])
}

/// Looks like a time: two digits, then a colon or digit, then a digit
/// (`HH:MM:SS` or `HHMMSS`), at least six characters.
pub open spec fn time_like(s: Seq<char>) -> bool {
    &&& s.len() >= 6
    &&& is_digit(s[0]) && is_digit(s[1])
    &&& (s[2] == ':' || is_digit(s[2]))
    &&& (is_digit(s[3]) || (s[2] == ':' && is_digit(s[3])))
}

/// The first position from `j` on that is not a digit.
pub open spec fn digits_end(s: Seq<char>, j: int) -> int
    decreases s.len() - j,
{
    if 0 <= j < s.len() && is_digit(s[j]) {
        digits_end(s, j + 1)
    } else {
        j
    }
}

pub proof fn lemma_digits_end(s: Seq<char>, j: int)
    requires
        0 <= j <= s.len(),
    ensures
        j <= digits_end(s, j) <= s.len(),
        forall|k: int| j <= k < digits_end(s, j) ==> is_digit(#[trigger] s[k]),
        digits_end(s, j) < s.len() ==> !is_digit(s[digits_end(s, j)]),
    decreases s.len() - j,
{
    if j < s.len() && is_digit(s[j]) {
        lemma_digits_end(s, j + 1);
    }
}

proof fn lemma_digits_end_skip(s: Seq<char>, i: int, j: int)
    requires
        0 <= i <= s.len(),
        0 <= j <= s.len() - i,
    ensures
        digits_end(s.skip(i), j) + i == digits_end(s, i + j),
    decreases s.len() - i - j,
{
    if j < s.len() - i && is_digit(s[i + j]) {
        assert(s.skip(i)[j] == s[i + j]);
        lemma_digits_end_skip(s, i, j + 1);
    } else if j < s.len() - i {
        assert(s.skip(i)[j] == s[i + j]);
    }
}

/// Where the sequence-number run starting at the separator `s[0]` ends: past the
/// digits, and past a closing `)` or `.` right after them.
pub open spec fn sequence_end(s: Seq<char>) -> int {
    let j = digits_end(s, 1);
    if j < s.len() && (s[j] == ')' || s[j] == '.') {
        j + 1
    } else {
        j
    }
}

/// The name with each date (a whole `YYYY-MM-DD`, else an eight-character
/// `YYYYMMDD`-like run), time or sequence number replaced by `*`, scanning from the
/// left (before runs of `*` are merged).
pub open spec fn raw_pattern(s: Seq<char>) -> Seq<char>
    decreases s.len(),
{
    if s.len() == 0 {
        Seq::empty()
    } else if is_digit(s[0]) && s.len() > 9 && dashed_date(s.subrange(0, 10)) {
        seq!['*'] + raw_pattern(s.skip(10))
    } else if is_digit(s[0]) && s.len() > 7 && date_like(s.subrange(0, 8)) {
        seq!['*'] + raw_pattern(s.skip(8))
    } else if is_digit(s[0]) && s.len() > 5 && time_like(s.subrange(0, 6)) {
        seq!['*'] + raw_pattern(s.skip(6))
    } else if is_separator(s[0]) && s.len() > 1 && is_digit(s[1]) {
        proof {
            lemma_digits_end(s, 1);
        }
        seq!['*'] + raw_pattern(s.skip(sequence_end(s)))
    } else {
        seq![s[0]] + raw_pattern(s.skip(1))
    }
}

/// The text with every run of `*` merged into one.
pub open spec fn merge_stars(s: Seq<char>) -> Seq<char>
    decreases s.len(),
{
    if s.len() == 0 {
        Seq::empty()
    } else if s.last() == '*' && s.len() >= 2 && s[s.len() - 2] == '*' {
        merge_stars(s.drop_last())
    } else {
        merge_stars(s.drop_last()).push(s.last())
    }
}

/// The common pattern of a file name: dates, times and sequence numbers become
/// `*`, and consecutive `*` are merged.
pub open spec fn name_pattern(s: Seq<char>) -> Seq<char> {
    merge_stars(raw_pattern(s))
}

fn digit_char_at(c: &Vec<char>, i: usize) -> (r: bool)
    requires
        i < c@.len(),
    ensures
        r == is_digit(c@[i as int]),
{
    c[i] >= '0' && c[i] <= '9'
}

/// Whether the eight characters at `i` look like a date.
fn date_at(c: &Vec<char>, i: usize) -> (r: bool)
    requires
        i + 8 <= c.len(),
    ensures
        r == date_like(c@.subrange(i as int, i + 8)),
{
    digit_char_at(c, i) && digit_char_at(c, i + 1) && digit_char_at(c, i + 2) && digit_char_at(c, i + 3)
        && (c[i + 4] == '-' || digit_char_at(c, i + 4)) && (digit_char_at(c, i + 5) || (c[i + 4] == '-'
        && digit_char_at(c, i + 5)))
}

/// Whether the ten characters at `i` are a whole `YYYY-MM-DD` date.
fn dashed_date_at(c: &Vec<char>, i: usize) -> (r: bool)
    requires
        i + 10 <= c.len(),
    ensures
        r == dashed_date(c@.subrange(i as int, i + 10)),
{
    digit_char_at(c, i) && digit_char_at(c, i + 1) && digit_char_at(c, i + 2) && digit_char_at(c, i + 3)
        && c[i + 4] == '-' && digit_char_at(c, i + 5) && digit_char_at(c, i + 6) && c[i + 7] == '-'
        && digit_char_at(c, i + 8) && digit_char_at(c, i + 9)
}

/// Whether the six characters at `i` look like a time.
fn time_at(c: &Vec<char>, i: usize) -> (r: bool)
    requires
        i + 6 <= c.len(),
    ensures
        r == time_like(c@.subrange(i as int, i + 6)),
{
    digit_char_at(c, i) && digit_char_at(c, i + 1) && (c[i + 2] == ':' || digit_char_at(c, i + 2))
        && (digit_char_at(c, i + 3) || (c[i + 2] == ':' && digit_char_at(c, i + 3)))
}

/// Whether a string looks like a date (`YYYY-MM-DD` or `YYYYMMDD`).
pub fn is_date_like(s: &str) -> (r: bool)
    ensures
        r == date_like(s@),
{
    let c = chars_of(s);
    if c.len() < 8 {
        return false;
    }
    let r = date_at(&c, 0);
    proof {
        assert(c@.subrange(0, 8) =~= s@.subrange(0, 8));
    }
    r
}

/// Whether a string looks like a time (`HH:MM:SS` or `HHMMSS`).
pub fn is_time_like(s: &str) -> (r: bool)
    ensures
        r == time_like(s@),
{
    let c = chars_of(s);
    if c.len() < 6 {
        return false;
    }
    let r = time_at(&c, 0);
    proof {
        assert(c@.subrange(0, 6) =~= s@.subrange(0, 6));
    }
    r
}

/// One step of the scan: the piece that the text at `i` contributes to the
/// pattern and where the scan goes on.
fn pattern_step(c: &Vec<char>, i: usize) -> (r: (char, usize))
    requires
        i < c.len(),
    ensures
        i < r.1 <= c.len(),
        raw_pattern(c@.skip(i as int)) == seq![r.0] + raw_pattern(c@.skip(r.1 as int)),
{
    let n = c.len();
    let ghost t = c@.skip(i as int);
    proof {
        assert(t[0] == c@[i as int]);
        if i + 10 <= n {
            assert(t.subrange(0, 10) =~= c@.subrange(i as int, i + 10));
            assert(t.skip(10) =~= c@.skip(i + 10));
        }
        if i + 8 <= n {
            assert(t.subrange(0, 8) =~= c@.subrange(i as int, i + 8));
            assert(t.skip(8) =~= c@.skip(i + 8));
        }
        if i + 6 <= n {
            assert(t.subrange(0, 6) =~= c@.subrange(i as int, i + 6));
            assert(t.skip(6) =~= c@.skip(i + 6));
        }
        if i + 1 < n {
            assert(t[1] == c@[i + 1]);
        }
        assert(t.skip(1) =~= c@.skip(i + 1));
    }
    let ch = c[i];
    let digit = ch >= '0' && ch <= '9';
    if digit && n - i >= 10 && dashed_date_at(c, i) {
        return ('*', i + 10);
    }
    if digit && n - i >= 8 && date_at(c, i) {
        return ('*', i + 8);
    }
    if digit && n - i >= 6 && time_at(c, i) {
        return ('*', i + 6);
    }
    if (ch == '.' || ch == '-' || ch == '_' || ch == '(') && i + 1 < n && digit_char_at(c, i + 1) {
        let mut j: usize = i + 1;
        while j < n && digit_char_at(c, j)
            invariant
                n == c@.len(),
                i + 1 <= j <= n,
                digits_end(c@, i + 1) == digits_end(c@, j as int),
            decreases n - j,
        {
            j += 1;
        }
        proof {
            lemma_digits_end_skip(c@, i as int, 1);
            lemma_digits_end(c@, i as int + 1);
            assert(j == digits_end(c@, i + 1));
            assert(digits_end(t, 1) == j - i);
            if j < n {
                assert(t[j - i] == c@[j as int]);
            }
        }
        if j < n && (c[j] == ')' || c[j] == '.') {
            j += 1;
        }
        proof {
            assert(sequence_end(t) == j - i);
            assert(t.skip(j - i) =~= c@.skip(j as int));
        }
        return ('*', j);
    }
    (ch, i + 1)
}

/// Extract the common pattern of a file name by replacing dates, timestamps and
/// sequence numbers with `*` (consecutive `*` merged).
pub fn extract_name_pattern(filename: &str) -> (r: String)
    ensures
        r@ == name_pattern(filename@),
{
    let c = chars_of(filename);
    let n = c.len();
    let mut pattern: Vec<char> = Vec::new();
    let mut i: usize = 0;
    proof {
        assert(c@.skip(0) =~= c@);
    }
    while i < n
        invariant
            n == c@.len(),
            i <= n,
            pattern@ + raw_pattern(c@.skip(i as int)) == raw_pattern(c@),
        decreases n - i,
    {
        let (piece, next) = pattern_step(&c, i);
        let ghost before = pattern@;
        pattern.push(piece);
        proof {
            assert(pattern@ + raw_pattern(c@.skip(next as int)) =~= before + (seq![piece] + raw_pattern(c@.skip(next as int))));
        }
        i = next;
    }
    proof {
        assert(c@.skip(n as int) =~= Seq::<char>::empty());
        assert(pattern@ =~= raw_pattern(c@));
    }
    // merge runs of '*'
    let mut cleaned: Vec<char> = Vec::new();
    let mut last_was_star = false;
    let mut k: usize = 0;
    while k < pattern.len()
        invariant
            k <= pattern@.len(),
            cleaned@ == merge_stars(pattern@.subrange(0, k as int)),
            last_was_star == (k > 0 && pattern@[k - 1] == '*'),
        decreases pattern.len() - k,
    {
        let ch = pattern[k];
        proof {
            let s = pattern@.subrange(0, k + 1);
            assert(s.drop_last() =~= pattern@.subrange(0, k as int));
            assert(s.last() == ch);
            if k > 0 {
                assert(s[s.len() - 2] == pattern@[k - 1]);
            }
        }
        if ch == '*' {
            if !last_was_star {
                cleaned.push(ch);
            }
            last_was_star = true;
        } else {
            cleaned.push(ch);
            last_was_star = false;
        }
        k += 1;
    }
    proof {
        assert(pattern@.subrange(0, pattern@.len() as int) =~= pattern@);
    }
    string_from_chars(&cleaned)
}

/// The characters of each path.
pub open spec fn path_views(ps: Seq<String>) -> Seq<Seq<char>> {
    ps.map_values(|p: String| p@)
}

/// Every path lies under `a` (std `Path::starts_with`).
pub open spec fn all_under(ps: Seq<Seq<char>>, a: Seq<char>) -> bool {
    forall|k: int| 0 <= k < ps.len() ==> #[trigger] path_starts_with(ps[k], a)
}

/// The first of `anc` under which every path lies.
pub open spec fn first_shared(anc: Seq<Seq<char>>, ps: Seq<Seq<char>>) -> Option<Seq<char>>
    decreases anc.len(),
{
    if anc.len() == 0 {
        None
    } else if all_under(ps, anc[0]) {
        Some(anc[0])
    } else {
        first_shared(anc.drop_first(), ps)
    }
}

/// The deepest common ancestor of the paths: none for no path, the parent for one
/// path, else the first ancestor of the first path (itself included) that every
/// path starts with.
pub open spec fn common_ancestor(ps: Seq<Seq<char>>) -> Option<Seq<char>> {
    if ps.len() == 0 {
        None
    } else if ps.len() == 1 {
        path_parent(ps[0])
    } else {
        first_shared(path_ancestors(ps[0]), ps)
    }
}

/// Find the deepest common ancestor directory of a set of paths.
pub fn find_common_ancestor(paths: &Vec<String>) -> (r: Option<String>)
    ensures
        opt_view(r) == common_ancestor(path_views(paths@)),
{
    let ghost ps = path_views(paths@);
    if paths.len() == 0 {
        return None;
    }
    if paths.len() == 1 {
        return parent_of(paths[0].as_str());
    }
    let ancestors = ancestors_of(paths[0].as_str());
    let ghost anc = path_ancestors(ps[0]);
    proof {
        assert(anc.skip(0) =~= anc);
    }
    let mut a: usize = 0;
    while a < ancestors.len()
        invariant
            ps == path_views(paths@),
            ps.len() >= 2,
            anc == path_ancestors(ps[0]),
            ancestors@.len() == anc.len(),
            forall|i: int| 0 <= i < ancestors@.len() ==> #[trigger] ancestors@[i]@ == anc[i],
            a <= ancestors@.len(),
            first_shared(anc.skip(a as int), ps) == first_shared(anc, ps),
        decreases ancestors.len() - a,
    {
        let mut all = true;
        let mut k: usize = 0;
        while k < paths.len()
            invariant
                ps == path_views(paths@),
                a < ancestors@.len(),
                k <= paths@.len(),
                all == (forall|m: int| 0 <= m < k ==> #[trigger] path_starts_with(ps[m], ancestors@[a as int]@)),
            decreases paths.len() - k,
        {
            let under = starts_with_path(paths[k].as_str(), ancestors[a].as_str());
            proof {
                assert(ps[k as int] == paths@[k as int]@);
                if !under {
                    assert(!path_starts_with(ps[k as int], ancestors@[a as int]@));
                }
            }
            all = all && under;
            k += 1;
        }
        let ghost rest = anc.skip(a as int);
        proof {
            assert(rest[0] == anc[a as int]);
            assert(rest.drop_first() =~= anc.skip(a + 1));
        }
        if all {
            proof {
                assert(ps.len() == paths@.len());
                assert(ancestors@[a as int]@ == rest[0]);
                assert forall|m: int| 0 <= m < ps.len() implies #[trigger] path_starts_with(ps[m], rest[0]) by {
                    assert(path_starts_with(ps[m], ancestors@[a as int]@));
                }
            }
            return Some(ancestors[a].clone());
        }
        proof {
            assert(ancestors@[a as int]@ == rest[0]);
            assert(!all_under(ps, rest[0]));
        }
        a += 1;
    }
    proof {
        assert(anc.skip(a as int) =~= Seq::<Seq<char>>::empty());
    }
    None
}

/// The candidate lies directly in the directory `dir` (compared as std compares
/// paths).
pub open spec fn lies_in(c: Candidate, dir: Seq<char>) -> bool {
    match path_parent(c.path@) {
        Some(q) => path_normal(q) == path_normal(dir),
        None => false,
    }
}

/// The paths of the candidates that lie in `dir`, other than `path` itself.
pub open spec fn siblings_in(cs: Seq<Candidate>, dir: Seq<char>, path: Seq<char>) -> Seq<Seq<char>>
    decreases cs.len(),
{
    if cs.len() == 0 {
        Seq::empty()
    } else {
        let rest = siblings_in(cs.drop_last(), dir, path);
        if lies_in(cs.last(), dir) && path_normal(cs.last().path@) != path_normal(path) {
            rest.push(cs.last().path@)
        } else {
            rest
        }
    }
}

/// Total size of the candidates that lie in `dir`.
pub open spec fn size_in(cs: Seq<Candidate>, dir: Seq<char>) -> nat
    decreases cs.len(),
{
    if cs.len() == 0 {
        0
    } else {
        size_in(cs.drop_last(), dir) + (if lies_in(cs.last(), dir) {
            cs.last().size_bytes as nat
        } else {
            0
        })
    }
}

/// A path with its parent, the other candidates beside it, and their total size.
#[derive(Debug, Clone)]
pub struct DirectoryContext {
    pub path: String,
    pub parent: Option<String>,
    pub siblings: Vec<String>,
    pub total_size_in_parent: u64,
    pub sibling_count: usize,
}

/// Whether the candidate lies in the directory whose normal form is `dir_norm`.
fn lies_in_exec(c: &Candidate, dir: &String, dir_norm: &String) -> (r: bool)
    requires
        dir_norm@ == path_normal(dir@),
    ensures
        r == lies_in(*c, dir@),
{
    match parent_of(c.path.as_str()) {
        Some(q) => {
            let qn = normal_form(q.as_str());
            crate::text::string_eq(&qn, dir_norm)
        },
        None => false,
    }
}

/// The directory context of a path among the candidates: its parent, the other
/// candidates in that directory and the total size of all candidates there.
pub fn get_directory_context(path: &str, all_candidates: &[Candidate]) -> (r: DirectoryContext)
    requires
        crate::report::sum_sizes(all_candidates@) <= u64::MAX,
    ensures
        r.path@ == path@,
        opt_view(r.parent) == path_parent(path@),
        r.parent is Some ==> r.siblings@.map_values(|s: String| s@) == siblings_in(all_candidates@, r.parent->0@, path@),
        r.parent is Some ==> r.total_size_in_parent == size_in(all_candidates@, r.parent->0@),
        r.parent is None ==> r.siblings@.len() == 0 && r.total_size_in_parent == 0,
        r.sibling_count == r.siblings@.len(),
{
    let parent = parent_of(path);
    let mut siblings: Vec<String> = Vec::new();
    let mut total: u64 = 0;
    match &parent {
        Some(dir) => {
            let dir_norm = normal_form(dir.as_str());
            let path_norm = normal_form(path);
            let mut i: usize = 0;
            while i < all_candidates.len()
                invariant
                    dir_norm@ == path_normal(dir@),
                    path_norm@ == path_normal(path@),
                    i <= all_candidates@.len(),
                    siblings@.map_values(|s: String| s@) == siblings_in(all_candidates@.subrange(0, i as int), dir@, path@),
                    total == size_in(all_candidates@.subrange(0, i as int), dir@),
                    crate::report::sum_sizes(all_candidates@) <= u64::MAX,
                decreases all_candidates.len() - i,
            {
                let c = &all_candidates[i];
                let ghost pre = all_candidates@.subrange(0, i as int);
                proof {
                    assert(all_candidates@.subrange(0, i + 1).drop_last() =~= pre);
                    lemma_size_in_bounded(all_candidates@.subrange(0, i + 1), dir@);
                    crate::report::lemma_sizes_monotone(all_candidates@, i + 1);
                }
                let inside = lies_in_exec(c, dir, &dir_norm);
                if inside {
                    total = total + c.size_bytes;
                    let cn = normal_form(c.path.as_str());
                    if !crate::text::string_eq(&cn, &path_norm) {
                        let ghost before = siblings@;
                        siblings.push(c.path.clone());
                        proof {
                            assert(siblings@.map_values(|s: String| s@) =~= before.map_values(|s: String| s@).push(c.path@));
                        }
                    }
                }
                i += 1;
            }
            proof {
                assert(all_candidates@.subrange(0, all_candidates@.len() as int) =~= all_candidates@);
            }
        },
        None => {},
    }
    let n = siblings.len();
    DirectoryContext {
        path: crate::text::owned(path),
        parent,
        siblings,
        total_size_in_parent: total,
        sibling_count: n,
    }
}

/// The size of the candidates in a directory is at most the size of all of them.
pub proof fn lemma_size_in_bounded(cs: Seq<Candidate>, dir: Seq<char>)
    ensures
        size_in(cs, dir) <= crate::report::sum_sizes(cs),
    decreases cs.len(),
{
    if cs.len() > 0 {
        lemma_size_in_bounded(cs.drop_last(), dir);
    }
}

/// How a group of candidates came together.
#[derive(Debug, Clone)]
pub enum GroupType {
    /// Files of the same size and a similar name (possible copies of one another).
    Duplicates,
    /// Files in the same directory.
    SameDirectory,
    /// Files sharing a common ancestor directory.
    CommonAncestor { depth: usize },
    /// Files whose names differ only in dates, times or sequence numbers.
    SimilarNames { pattern: String },
    /// A candidate on its own.
    Single,
}

/// A group of related candidates.
#[derive(Debug, Clone)]
pub struct CandidateGroup {
    pub id: String,
    pub name: String,
    pub group_type: GroupType,
    /// Positions in the candidate list, in increasing order.
    pub candidates: Vec<usize>,
    pub total_size: u64,
    pub parent_path: Option<String>,
    pub common_ancestor: Option<String>,
}

/// Duplicate key of a candidate: its size and the pattern of its file name, so
/// that possible copies have the same size and a similar name (names equal once
/// dates, times and sequence numbers are masked).
pub open spec fn dup_key(c: Candidate) -> KeyValue {
    KeyValue::Composite(c.size_bytes, 0, name_pattern(file_name_or_empty(c.path@)))
}

/// Duplicate key of each candidate.
pub open spec fn dup_keys(cs: Seq<Candidate>) -> Seq<Option<KeyValue>> {
    Seq::new(cs.len(), |i: int| Some(dup_key(cs[i])))
}

/// The name pattern of a candidate, when it differs from the name and is not empty.
pub open spec fn pattern_key(c: Candidate) -> Option<KeyValue> {
    let f = file_name_or_empty(c.path@);
    let p = name_pattern(f);
    if p.len() > 0 && p != f {
        Some(KeyValue::Text(p))
    } else {
        None
    }
}

/// Similar-name key of each candidate that is in no duplicate group.
pub open spec fn similar_keys(cs: Seq<Candidate>) -> Seq<Option<KeyValue>> {
    Seq::new(
        cs.len(),
        |i: int|
            if shares(dup_keys(cs), i) {
                None
            } else {
                pattern_key(cs[i])
            },
    )
}

/// The directory of a candidate, in the form in which paths compare.
pub open spec fn parent_key(c: Candidate) -> Option<KeyValue> {
    match path_parent(c.path@) {
        Some(q) => Some(KeyValue::Text(path_normal(q))),
        None => None,
    }
}

/// Directory key of each candidate that is in no duplicate or similar-name group.
pub open spec fn dir_keys(cs: Seq<Candidate>) -> Seq<Option<KeyValue>> {
    Seq::new(
        cs.len(),
        |i: int|
            if shares(dup_keys(cs), i) || shares(similar_keys(cs), i) {
                None
            } else {
                parent_key(cs[i])
            },
    )
}

/// Which kind of group candidate `x` belongs in: 0 duplicates, 1 similar names,
/// 2 same directory, 3 on its own.
pub open spec fn member_class(cs: Seq<Candidate>, x: int) -> int {
    if shares(dup_keys(cs), x) {
        0
    } else if shares(similar_keys(cs), x) {
        1
    } else if shares(dir_keys(cs), x) {
        2
    } else {
        3
    }
}

/// Total size of the listed candidates.
pub open spec fn members_size(cs: Seq<Candidate>, m: Seq<usize>) -> nat
    decreases m.len(),
{
    if m.len() == 0 {
        0
    } else {
        members_size(cs, m.drop_last()) + (cs[m.last() as int].size_bytes as nat)
    }
}

/// Paths of the listed candidates.
pub open spec fn member_paths(cs: Seq<Candidate>, m: Seq<usize>) -> Seq<Seq<char>> {
    m.map_values(|k: usize| cs[k as int].path@)
}

/// `g` is a well-formed group of the candidates: its members, size, type, id,
/// name and paths are what grouping gives for its members.
pub open spec fn group_ok(cs: Seq<Candidate>, g: CandidateGroup) -> bool {
    let m = g.candidates@;
    &&& g.total_size == members_size(cs, m)
    &&& match g.group_type {
        GroupType::Duplicates => {
            &&& is_full_class(dup_keys(cs), m)
            &&& g.id@ == "dup_"@ + dec_seq(m[0] as nat)
            &&& g.name@ == "Duplicates: "@ + file_name_or_empty(cs[m[0] as int].path@) + " ("@ + dec_seq(m.len()) + " files)"@
            &&& opt_view(g.parent_path) == path_parent(cs[m[0] as int].path@)
            &&& opt_view(g.common_ancestor) == common_ancestor(member_paths(cs, m))
        },
        GroupType::SimilarNames { pattern } => {
            &&& is_full_class(similar_keys(cs), m)
            &&& similar_keys(cs)[m[0] as int] == Some(KeyValue::Text(pattern@))
            &&& g.id@ == "similar_"@ + pattern@
            &&& g.name@ == pattern@ + " ("@ + dec_seq(m.len()) + " files)"@
            &&& opt_view(g.parent_path) == common_ancestor(member_paths(cs, m))
            &&& opt_view(g.common_ancestor) == common_ancestor(member_paths(cs, m))
        },
        GroupType::SameDirectory => {
            &&& is_full_class(dir_keys(cs), m)
            &&& path_parent(cs[m[0] as int].path@) is Some
            &&& g.id@ == "dir_"@ + path_parent(cs[m[0] as int].path@)->0
            &&& g.name@ == file_name_or_empty(path_parent(cs[m[0] as int].path@)->0) + " ("@ + dec_seq(m.len()) + " items)"@
            &&& opt_view(g.parent_path) == path_parent(path_parent(cs[m[0] as int].path@)->0)
            &&& opt_view(g.common_ancestor) == path_parent(cs[m[0] as int].path@)
        },
        GroupType::Single => {
            &&& m.len() == 1
            &&& m[0] < cs.len()
            &&& member_class(cs, m[0] as int) == 3
            &&& g.id@ == "single_"@ + dec_seq(m[0] as nat)
            &&& g.name@ == file_name_or_empty(cs[m[0] as int].path@)
            &&& opt_view(g.parent_path) == path_parent(cs[m[0] as int].path@)
            &&& opt_view(g.common_ancestor) == path_parent(cs[m[0] as int].path@)
        },
        GroupType::CommonAncestor { .. } => false,
    }
}

/// Some group lists candidate `i`.
pub open spec fn covers(gs: Seq<CandidateGroup>, i: int) -> bool {
    exists|g: int| 0 <= g < gs.len() && (#[trigger] gs[g]).candidates@.contains(i as usize)
}

/// No candidate is listed by two groups.
pub open spec fn disjoint(gs: Seq<CandidateGroup>) -> bool {
    forall|g1: int, g2: int, a: int, b: int|
        0 <= g1 < gs.len() && 0 <= g2 < gs.len() && g1 != g2 && 0 <= a < gs[g1].candidates@.len() && 0
            <= b < gs[g2].candidates@.len() ==> #[trigger] gs[g1].candidates@[a] != #[trigger] gs[g2].candidates@[b]
}

/// The groups are a grouping of the candidates: each well formed, each candidate
/// in exactly one of them.
pub open spec fn is_grouping(cs: Seq<Candidate>, gs: Seq<CandidateGroup>) -> bool {
    &&& forall|g: int| 0 <= g < gs.len() ==> group_ok(cs, #[trigger] gs[g])
    &&& forall|i: int| 0 <= i < cs.len() ==> covers(gs, i)
    &&& disjoint(gs)
}

/// The listed candidates weigh no more than all of the first `k`.
pub proof fn lemma_members_bound(cs: Seq<Candidate>, m: Seq<usize>, k: int)
    requires
        0 <= k <= cs.len(),
        forall|a: int| 0 <= a < m.len() ==> #[trigger] m[a] < k,
        forall|a: int, b: int| 0 <= a < b < m.len() ==> #[trigger] m[a] < #[trigger] m[b],
    ensures
        members_size(cs, m) <= sum_sizes(cs.subrange(0, k)),
    decreases k,
{
    if k == 0 {
        if m.len() > 0 {
            assert(m[0] < 0);
        }
    } else {
        let pre = cs.subrange(0, k);
        assert(pre.drop_last() =~= cs.subrange(0, k - 1));
        if m.len() > 0 && m.last() == k - 1 {
            let d = m.drop_last();
            assert forall|a: int| 0 <= a < d.len() implies #[trigger] d[a] < k - 1 by {
                assert(m[a] < m[m.len() - 1]);
            }
            lemma_members_bound(cs, d, k - 1);
        } else {
            assert forall|a: int| 0 <= a < m.len() implies #[trigger] m[a] < k - 1 by {
                if a < m.len() - 1 {
                    assert(m[a] < m[m.len() - 1]);
                }
            }
            lemma_members_bound(cs, m, k - 1);
        }
    }
}

/// Total size of the listed candidates.
fn members_total(cs: &[Candidate], m: &Vec<usize>) -> (t: u64)
    requires
        forall|a: int| 0 <= a < m@.len() ==> #[trigger] m@[a] < cs@.len(),
        forall|a: int, b: int| 0 <= a < b < m@.len() ==> #[trigger] m@[a] < #[trigger] m@[b],
        sum_sizes(cs@) <= u64::MAX,
    ensures
        t == members_size(cs@, m@),
{
    let mut t: u64 = 0;
    let mut a: usize = 0;
    while a < m.len()
        invariant
            a <= m@.len(),
            forall|x: int| 0 <= x < m@.len() ==> #[trigger] m@[x] < cs@.len(),
            forall|x: int, y: int| 0 <= x < y < m@.len() ==> #[trigger] m@[x] < #[trigger] m@[y],
            sum_sizes(cs@) <= u64::MAX,
            t == members_size(cs@, m@.subrange(0, a as int)),
        decreases m.len() - a,
    {
        let ghost part = m@.subrange(0, a + 1);
        proof {
            assert(part.drop_last() =~= m@.subrange(0, a as int));
            assert forall|x: int, y: int| 0 <= x < y < part.len() implies #[trigger] part[x] < #[trigger] part[y] by {
                assert(m@[x] < m@[y]);
            }
            lemma_members_bound(cs@, part, cs@.len() as int);
            assert(cs@.subrange(0, cs@.len() as int) =~= cs@);
        }
        t = t + cs[m[a]].size_bytes;
        a += 1;
    }
    proof {
        assert(m@.subrange(0, m@.len() as int) =~= m@);
    }
    t
}

/// Paths of the listed candidates.
fn member_path_list(cs: &[Candidate], m: &Vec<usize>) -> (r: Vec<String>)
    requires
        forall|a: int| 0 <= a < m@.len() ==> #[trigger] m@[a] < cs@.len(),
    ensures
        path_views(r@) == member_paths(cs@, m@),
{
    let mut r: Vec<String> = Vec::new();
    let mut a: usize = 0;
    while a < m.len()
        invariant
            a <= m@.len(),
            forall|x: int| 0 <= x < m@.len() ==> #[trigger] m@[x] < cs@.len(),
            r@.len() == a,
            path_views(r@) == member_paths(cs@, m@.subrange(0, a as int)),
        decreases m.len() - a,
    {
        let ghost before = r@;
        r.push(cs[m[a]].path.clone());
        a += 1;
        proof {
            let want = member_paths(cs@, m@.subrange(0, a as int));
            assert(want.len() == r@.len());
            assert forall|x: int| 0 <= x < r@.len() implies #[trigger] path_views(r@)[x] == want[x] by {
                assert(path_views(r@)[x] == r@[x]@);
                assert(want[x] == cs@[m@[x] as int].path@);
                if x < before.len() {
                    assert(r@[x] == before[x]);
                    assert(path_views(before)[x] == before[x]@);
                    assert(path_views(before)[x] == member_paths(cs@, m@.subrange(0, a - 1))[x]);
                    assert(member_paths(cs@, m@.subrange(0, a - 1))[x] == cs@[m@[x] as int].path@);
                } else {
                    assert(r@[x] == cs@[m@[x] as int].path);
                }
            }
            assert(path_views(r@) =~= want);
        }
    }
    assert(m@.subrange(0, m@.len() as int) =~= m@);
    r
}

/// The characters of the listed literal pieces and texts joined.
fn text_of(v: &Vec<char>) -> (r: String)
    ensures
        r@ == v@,
{
    string_from_chars(v)
}

/// The group of a full class of equal sizes.
fn duplicate_group(cs: &[Candidate], m: Vec<usize>) -> (g: CandidateGroup)
    requires
        is_full_class(dup_keys(cs@), m@),
        sum_sizes(cs@) <= u64::MAX,
    ensures
        group_ok(cs@, g),
        g.candidates@ == m@,
        g.group_type is Duplicates,
{
    let first = m[0];
    let total = members_total(cs, &m);
    let paths = member_path_list(cs, &m);
    let ancestor = find_common_ancestor(&paths);
    let mut id: Vec<char> = Vec::new();
    push_str(&mut id, "dup_");
    let digits = dec_chars(first as u64);
    push_all(&mut id, &digits);
    let mut name: Vec<char> = Vec::new();
    push_str(&mut name, "Duplicates: ");
    let fname = file_name_text(cs[first].path.as_str());
    push_str(&mut name, fname.as_str());
    push_str(&mut name, " (");
    let count = dec_chars(m.len() as u64);
    push_all(&mut name, &count);
    push_str(&mut name, " files)");
    let parent = parent_of(cs[first].path.as_str());
    CandidateGroup {
        id: text_of(&id),
        name: text_of(&name),
        group_type: GroupType::Duplicates,
        candidates: m,
        total_size: total,
        parent_path: parent,
        common_ancestor: ancestor,
    }
}

/// The group of a full class of equal name patterns.
fn similar_group(cs: &[Candidate], m: Vec<usize>, pattern: String) -> (g: CandidateGroup)
    requires
        is_full_class(similar_keys(cs@), m@),
        similar_keys(cs@)[m@[0] as int] == Some(KeyValue::Text(pattern@)),
        sum_sizes(cs@) <= u64::MAX,
    ensures
        group_ok(cs@, g),
        g.candidates@ == m@,
        g.group_type is SimilarNames,
{
    let total = members_total(cs, &m);
    let paths = member_path_list(cs, &m);
    let ancestor = find_common_ancestor(&paths);
    let parent = crate::text::clone_opt_string(&ancestor);
    let mut id: Vec<char> = Vec::new();
    push_str(&mut id, "similar_");
    push_str(&mut id, pattern.as_str());
    let mut name: Vec<char> = Vec::new();
    push_str(&mut name, pattern.as_str());
    push_str(&mut name, " (");
    let count = dec_chars(m.len() as u64);
    push_all(&mut name, &count);
    push_str(&mut name, " files)");
    CandidateGroup {
        id: text_of(&id),
        name: text_of(&name),
        group_type: GroupType::SimilarNames { pattern },
        candidates: m,
        total_size: total,
        parent_path: parent,
        common_ancestor: ancestor,
    }
}

/// The group of a full class of equal directories.
fn directory_group(cs: &[Candidate], m: Vec<usize>) -> (g: CandidateGroup)
    requires
        is_full_class(dir_keys(cs@), m@),
        sum_sizes(cs@) <= u64::MAX,
    ensures
        group_ok(cs@, g),
        g.candidates@ == m@,
        g.group_type is SameDirectory,
{
    let first = m[0];
    proof {
        assert(dir_keys(cs@)[first as int] is Some);
    }
    let total = members_total(cs, &m);
    let dir = match parent_of(cs[first].path.as_str()) {
        Some(d) => d,
        None => {
            proof {
                assert(parent_key(cs@[first as int]) is None);
            }
            String::new()
        },
    };
    let mut id: Vec<char> = Vec::new();
    push_str(&mut id, "dir_");
    push_str(&mut id, dir.as_str());
    let mut name: Vec<char> = Vec::new();
    let dname = file_name_text(dir.as_str());
    push_str(&mut name, dname.as_str());
    push_str(&mut name, " (");
    let count = dec_chars(m.len() as u64);
    push_all(&mut name, &count);
    push_str(&mut name, " items)");
    let grand = parent_of(dir.as_str());
    CandidateGroup {
        id: text_of(&id),
        name: text_of(&name),
        group_type: GroupType::SameDirectory,
        candidates: m,
        total_size: total,
        parent_path: grand,
        common_ancestor: Some(dir),
    }
}

/// The group of a candidate on its own.
fn single_group(cs: &[Candidate], i: usize) -> (g: CandidateGroup)
    requires
        i < cs@.len(),
        member_class(cs@, i as int) == 3,
    ensures
        group_ok(cs@, g),
        g.candidates@ == seq![i],
        g.group_type is Single,
{
    let mut id: Vec<char> = Vec::new();
    push_str(&mut id, "single_");
    let digits = dec_chars(i as u64);
    push_all(&mut id, &digits);
    let mut m: Vec<usize> = Vec::new();
    m.push(i);
    proof {
        assert(m@ =~= seq![i]);
        assert(m@.drop_last() =~= Seq::<usize>::empty());
        assert(m@.last() == i);
        assert(members_size(cs@, m@.drop_last()) == 0);
        assert(members_size(cs@, m@) == cs@[i as int].size_bytes);
    }
    CandidateGroup {
        id: text_of(&id),
        name: file_name_text(cs[i].path.as_str()),
        group_type: GroupType::Single,
        candidates: m,
        total_size: cs[i].size_bytes,
        parent_path: parent_of(cs[i].path.as_str()),
        common_ancestor: parent_of(cs[i].path.as_str()),
    }
}

/// The groups of one phase: well formed, disjoint, holding exactly the candidates
/// of member class `p`.
pub open spec fn phase_ok(cs: Seq<Candidate>, gs: Seq<CandidateGroup>, p: int) -> bool {
    &&& forall|g: int| 0 <= g < gs.len() ==> group_ok(cs, #[trigger] gs[g])
    &&& disjoint(gs)
    &&& forall|g: int, a: int|
        0 <= g < gs.len() && 0 <= a < gs[g].candidates@.len() ==> member_class(cs, #[trigger] gs[g].candidates@[a] as int) == p
    &&& forall|i: int| 0 <= i < cs.len() && member_class(cs, i) == p ==> covers(gs, i)
}

/// Groups built one per full class, in order, are disjoint.
proof fn lemma_class_groups_disjoint(ks: Seq<Option<KeyValue>>, classes: Seq<Vec<usize>>, gs: Seq<CandidateGroup>)
    requires
        gs.len() == classes.len(),
        forall|k: int| 0 <= k < gs.len() ==> (#[trigger] gs[k]).candidates@ == classes[k]@,
        forall|c: int| 0 <= c < classes.len() ==> is_full_class(ks, #[trigger] classes[c]@),
        forall|c1: int, c2: int| 0 <= c1 < c2 < classes.len() ==> (#[trigger] classes[c1])@[0] < (#[trigger] classes[c2])@[0],
    ensures
        disjoint(gs),
{
    let ms = classes.map_values(|c: Vec<usize>| c@);
    assert forall|c: int| 0 <= c < ms.len() implies is_full_class(ks, #[trigger] ms[c]) by {
        assert(ms[c] == classes[c]@);
    }
    assert forall|x: int, y: int| 0 <= x < y < ms.len() implies (#[trigger] ms[x])[0] < (#[trigger] ms[y])[0] by {
        assert(ms[x] == classes[x]@ && ms[y] == classes[y]@);
    }
    assert forall|g1: int, g2: int, a: int, b: int|
        0 <= g1 < gs.len() && 0 <= g2 < gs.len() && g1 != g2 && 0 <= a < gs[g1].candidates@.len() && 0
            <= b < gs[g2].candidates@.len() implies #[trigger] gs[g1].candidates@[a] != #[trigger] gs[g2].candidates@[b] by {
        assert(ms[g1] == gs[g1].candidates@ && ms[g2] == gs[g2].candidates@);
        crate::order::lemma_full_classes_disjoint(ks, ms, g1, g2, a, b);
    }
}

/// Phase one: candidates of equal size.
fn duplicate_groups(cs: &[Candidate]) -> (r: (Vec<CandidateGroup>, Vec<bool>))
    requires
        sum_sizes(cs@) <= u64::MAX,
    ensures
        phase_ok(cs@, r.0@, 0),
        r.1@.len() == cs@.len(),
        forall|i: int| 0 <= i < cs@.len() ==> #[trigger] r.1@[i] == shares(dup_keys(cs@), i),
{
    let mut keys: Vec<Option<ClassKey>> = Vec::new();
    let mut i: usize = 0;
    while i < cs.len()
        invariant
            i <= cs@.len(),
            keys@.len() == i,
            forall|j: int| 0 <= j < i ==> key_value(#[trigger] keys@[j]) == dup_keys(cs@)[j],
        decreases cs.len() - i,
    {
        let fname = file_name_text(cs[i].path.as_str());
        let pattern = extract_name_pattern(fname.as_str());
        keys.push(Some(ClassKey::Composite(cs[i].size_bytes, 0, chars_of(pattern.as_str()))));
        i += 1;
    }
    let ghost ks = dup_keys(cs@);
    proof {
        assert(key_values(keys@) =~= ks);
    }
    let (classes, flags) = multi_classes(&keys);
    let mut groups: Vec<CandidateGroup> = Vec::new();
    let mut c: usize = 0;
    while c < classes.len()
        invariant
            ks == dup_keys(cs@),
            ks == key_values(keys@),
            forall|d: int| 0 <= d < classes@.len() ==> is_full_class(ks, #[trigger] classes@[d]@),
            sum_sizes(cs@) <= u64::MAX,
            c <= classes@.len(),
            groups@.len() == c,
            forall|k: int| 0 <= k < c ==> (#[trigger] groups@[k]).candidates@ == classes@[k]@ && group_ok(cs@, groups@[k]),
        decreases classes.len() - c,
    {
        let m = crate::order::copy_positions(&classes[c]);
        let g = duplicate_group(cs, m);
        groups.push(g);
        c += 1;
    }
    proof {
        lemma_class_groups_disjoint(ks, classes@, groups@);
        assert forall|g: int, a: int|
            0 <= g < groups@.len() && 0 <= a < groups@[g].candidates@.len() implies member_class(cs@, #[trigger] groups@[g].candidates@[a] as int) == 0 by {
            crate::order::lemma_full_class_shares(ks, classes@[g]@, a);
        }
        assert forall|x: int| 0 <= x < cs@.len() && member_class(cs@, x) == 0 implies covers(groups@, x) by {
            assert(shares(key_values(keys@), x));
            let d = choose|d: int| 0 <= d < classes@.len() && (#[trigger] classes@[d])@.contains(x as usize);
            assert(groups@[d].candidates@.contains(x as usize));
        }
        assert forall|g: int| 0 <= g < groups@.len() implies group_ok(cs@, #[trigger] groups@[g]) by {}
    }
    (groups, flags)
}

/// The similar-name key of one candidate outside the duplicate groups.
fn pattern_key_of(c: &Candidate) -> (k: Option<ClassKey>)
    ensures
        key_value(k) == pattern_key(*c),
{
    let fname = file_name_text(c.path.as_str());
    let pattern = extract_name_pattern(fname.as_str());
    let chars = chars_of(pattern.as_str());
    if chars.len() > 0 && !crate::text::string_eq(&pattern, &fname) {
        Some(ClassKey::Text(chars))
    } else {
        None
    }
}

/// The pattern held by a text key.
fn key_text(k: &Option<ClassKey>) -> (s: String)
    requires
        key_value(*k) matches Some(KeyValue::Text(_)),
    ensures
        key_value(*k) == Some(KeyValue::Text(s@)),
{
    match k {
        Some(ClassKey::Text(t)) => string_from_chars(t),
        _ => {
            proof {
                assert(false);
            }
            String::new()
        },
    }
}

/// Phase two: candidates outside the duplicate groups whose names share a pattern.
fn similar_groups(cs: &[Candidate], dup: &Vec<bool>) -> (r: (Vec<CandidateGroup>, Vec<bool>))
    requires
        sum_sizes(cs@) <= u64::MAX,
        dup@.len() == cs@.len(),
        forall|i: int| 0 <= i < cs@.len() ==> #[trigger] dup@[i] == shares(dup_keys(cs@), i),
    ensures
        phase_ok(cs@, r.0@, 1),
        r.1@.len() == cs@.len(),
        forall|i: int| 0 <= i < cs@.len() ==> #[trigger] r.1@[i] == shares(similar_keys(cs@), i),
{
    let mut keys: Vec<Option<ClassKey>> = Vec::new();
    let mut i: usize = 0;
    while i < cs.len()
        invariant
            i <= cs@.len(),
            dup@.len() == cs@.len(),
            forall|j: int| 0 <= j < cs@.len() ==> #[trigger] dup@[j] == shares(dup_keys(cs@), j),
            keys@.len() == i,
            forall|j: int| 0 <= j < i ==> key_value(#[trigger] keys@[j]) == similar_keys(cs@)[j],
        decreases cs.len() - i,
    {
        if dup[i] {
            keys.push(None);
        } else {
            let k = pattern_key_of(&cs[i]);
            keys.push(k);
        }
        i += 1;
    }
    let ghost ks = similar_keys(cs@);
    proof {
        assert(key_values(keys@) =~= ks);
    }
    let (classes, flags) = multi_classes(&keys);
    let mut groups: Vec<CandidateGroup> = Vec::new();
    let mut c: usize = 0;
    while c < classes.len()
        invariant
            ks == similar_keys(cs@),
            ks == key_values(keys@),
            forall|d: int| 0 <= d < classes@.len() ==> is_full_class(ks, #[trigger] classes@[d]@),
            sum_sizes(cs@) <= u64::MAX,
            c <= classes@.len(),
            groups@.len() == c,
            forall|k: int| 0 <= k < c ==> (#[trigger] groups@[k]).candidates@ == classes@[k]@ && group_ok(cs@, groups@[k]),
        decreases classes.len() - c,
    {
        let m = crate::order::copy_positions(&classes[c]);
        proof {
            assert(is_full_class(ks, classes@[c as int]@));
            assert(m@[0] < keys@.len());
            assert(ks[m@[0] as int] == key_value(keys@[m@[0] as int]));
            assert(pattern_key(cs@[m@[0] as int]) matches Some(KeyValue::Text(_)));
        }
        let pattern = key_text(&keys[m[0]]);
        let g = similar_group(cs, m, pattern);
        groups.push(g);
        c += 1;
    }
    proof {
        lemma_class_groups_disjoint(ks, classes@, groups@);
        assert forall|g: int, a: int|
            0 <= g < groups@.len() && 0 <= a < groups@[g].candidates@.len() implies member_class(cs@, #[trigger] groups@[g].candidates@[a] as int) == 1 by {
            crate::order::lemma_full_class_shares(ks, classes@[g]@, a);
            let x = groups@[g].candidates@[a] as int;
            assert(ks[x] is Some);
            assert(!shares(dup_keys(cs@), x));
        }
        assert forall|x: int| 0 <= x < cs@.len() && member_class(cs@, x) == 1 implies covers(groups@, x) by {
            assert(shares(key_values(keys@), x));
            let d = choose|d: int| 0 <= d < classes@.len() && (#[trigger] classes@[d])@.contains(x as usize);
            assert(groups@[d].candidates@.contains(x as usize));
        }
        assert forall|g: int| 0 <= g < groups@.len() implies group_ok(cs@, #[trigger] groups@[g]) by {}
    }
    (groups, flags)
}

/// The directory key of one candidate.
fn parent_key_of(c: &Candidate) -> (k: Option<ClassKey>)
    ensures
        key_value(k) == parent_key(*c),
{
    match parent_of(c.path.as_str()) {
        Some(q) => {
            let norm = normal_form(q.as_str());
            Some(ClassKey::Text(chars_of(norm.as_str())))
        },
        None => None,
    }
}

/// Phase three: the remaining candidates that share a directory.
fn directory_groups(cs: &[Candidate], dup: &Vec<bool>, sim: &Vec<bool>) -> (r: (Vec<CandidateGroup>, Vec<bool>))
    requires
        sum_sizes(cs@) <= u64::MAX,
        dup@.len() == cs@.len(),
        sim@.len() == cs@.len(),
        forall|i: int| 0 <= i < cs@.len() ==> #[trigger] dup@[i] == shares(dup_keys(cs@), i),
        forall|i: int| 0 <= i < cs@.len() ==> #[trigger] sim@[i] == shares(similar_keys(cs@), i),
    ensures
        phase_ok(cs@, r.0@, 2),
        r.1@.len() == cs@.len(),
        forall|i: int| 0 <= i < cs@.len() ==> #[trigger] r.1@[i] == shares(dir_keys(cs@), i),
{
    let mut keys: Vec<Option<ClassKey>> = Vec::new();
    let mut i: usize = 0;
    while i < cs.len()
        invariant
            i <= cs@.len(),
            dup@.len() == cs@.len(),
            sim@.len() == cs@.len(),
            forall|j: int| 0 <= j < cs@.len() ==> #[trigger] dup@[j] == shares(dup_keys(cs@), j),
            forall|j: int| 0 <= j < cs@.len() ==> #[trigger] sim@[j] == shares(similar_keys(cs@), j),
            keys@.len() == i,
            forall|j: int| 0 <= j < i ==> key_value(#[trigger] keys@[j]) == dir_keys(cs@)[j],
        decreases cs.len() - i,
    {
        if dup[i] || sim[i] {
            keys.push(None);
        } else {
            let k = parent_key_of(&cs[i]);
            keys.push(k);
        }
        i += 1;
    }
    let ghost ks = dir_keys(cs@);
    proof {
        assert(key_values(keys@) =~= ks);
    }
    let (classes, flags) = multi_classes(&keys);
    let mut groups: Vec<CandidateGroup> = Vec::new();
    let mut c: usize = 0;
    while c < classes.len()
        invariant
            ks == dir_keys(cs@),
            ks == key_values(keys@),
            forall|d: int| 0 <= d < classes@.len() ==> is_full_class(ks, #[trigger] classes@[d]@),
            sum_sizes(cs@) <= u64::MAX,
            c <= classes@.len(),
            groups@.len() == c,
            forall|k: int| 0 <= k < c ==> (#[trigger] groups@[k]).candidates@ == classes@[k]@ && group_ok(cs@, groups@[k]),
        decreases classes.len() - c,
    {
        let m = crate::order::copy_positions(&classes[c]);
        let g = directory_group(cs, m);
        groups.push(g);
        c += 1;
    }
    proof {
        lemma_class_groups_disjoint(ks, classes@, groups@);
        assert forall|g: int, a: int|
            0 <= g < groups@.len() && 0 <= a < groups@[g].candidates@.len() implies member_class(cs@, #[trigger] groups@[g].candidates@[a] as int) == 2 by {
            crate::order::lemma_full_class_shares(ks, classes@[g]@, a);
            let x = groups@[g].candidates@[a] as int;
            assert(ks[x] is Some);
            assert(!shares(dup_keys(cs@), x));
            assert(!shares(similar_keys(cs@), x));
        }
        assert forall|x: int| 0 <= x < cs@.len() && member_class(cs@, x) == 2 implies covers(groups@, x) by {
            assert(shares(key_values(keys@), x));
            let d = choose|d: int| 0 <= d < classes@.len() && (#[trigger] classes@[d])@.contains(x as usize);
            assert(groups@[d].candidates@.contains(x as usize));
        }
        assert forall|g: int| 0 <= g < groups@.len() implies group_ok(cs@, #[trigger] groups@[g]) by {}
    }
    (groups, flags)
}

/// Phase four: every candidate left over, on its own.
fn single_groups(cs: &[Candidate], dup: &Vec<bool>, sim: &Vec<bool>, dir: &Vec<bool>) -> (gs: Vec<CandidateGroup>)
    requires
        dup@.len() == cs@.len(),
        sim@.len() == cs@.len(),
        dir@.len() == cs@.len(),
        forall|i: int| 0 <= i < cs@.len() ==> #[trigger] dup@[i] == shares(dup_keys(cs@), i),
        forall|i: int| 0 <= i < cs@.len() ==> #[trigger] sim@[i] == shares(similar_keys(cs@), i),
        forall|i: int| 0 <= i < cs@.len() ==> #[trigger] dir@[i] == shares(dir_keys(cs@), i),
    ensures
        phase_ok(cs@, gs@, 3),
{
    let mut groups: Vec<CandidateGroup> = Vec::new();
    let mut i: usize = 0;
    while i < cs.len()
        invariant
            i <= cs@.len(),
            dup@.len() == cs@.len(),
            sim@.len() == cs@.len(),
            dir@.len() == cs@.len(),
            forall|j: int| 0 <= j < cs@.len() ==> #[trigger] dup@[j] == shares(dup_keys(cs@), j),
            forall|j: int| 0 <= j < cs@.len() ==> #[trigger] sim@[j] == shares(similar_keys(cs@), j),
            forall|j: int| 0 <= j < cs@.len() ==> #[trigger] dir@[j] == shares(dir_keys(cs@), j),
            forall|g: int| 0 <= g < groups@.len() ==> group_ok(cs@, #[trigger] groups@[g]),
            forall|g: int| 0 <= g < groups@.len() ==> (#[trigger] groups@[g]).candidates@.len() == 1 && groups@[g].candidates@[0] < i,
            forall|g1: int, g2: int| 0 <= g1 < g2 < groups@.len() ==> (#[trigger] groups@[g1]).candidates@[0] < (#[trigger] groups@[g2]).candidates@[0],
            forall|j: int| 0 <= j < i && member_class(cs@, j) == 3 ==> covers(groups@, j),
        decreases cs.len() - i,
    {
        if !dup[i] && !sim[i] && !dir[i] {
            let g = single_group(cs, i);
            let ghost before = groups@;
            groups.push(g);
            proof {
                assert(groups@[groups@.len() - 1].candidates@[0] == i);
                assert forall|j: int| 0 <= j < i + 1 && member_class(cs@, j) == 3 implies covers(groups@, j) by {
                    if j == i {
                        assert(groups@[groups@.len() - 1].candidates@.contains(i));
                    } else {
                        let g = choose|g: int| 0 <= g < before.len() && (#[trigger] before[g]).candidates@.contains(j as usize);
                        assert(groups@[g] == before[g]);
                    }
                }
            }
        }
        i += 1;
    }
    proof {
        assert forall|g1: int, g2: int, a: int, b: int|
            0 <= g1 < groups@.len() && 0 <= g2 < groups@.len() && g1 != g2 && 0 <= a < groups@[g1].candidates@.len() && 0
                <= b < groups@[g2].candidates@.len() implies #[trigger] groups@[g1].candidates@[a] != #[trigger] groups@[g2].candidates@[b] by {
            if g1 < g2 {
                assert(groups@[g1].candidates@[0] < groups@[g2].candidates@[0]);
            } else {
                assert(groups@[g2].candidates@[0] < groups@[g1].candidates@[0]);
            }
        }
        assert forall|g: int, a: int|
            0 <= g < groups@.len() && 0 <= a < groups@[g].candidates@.len() implies member_class(cs@, #[trigger] groups@[g].candidates@[a] as int) == 3 by {
            assert(group_ok(cs@, groups@[g]));
        }
    }
    groups
}

/// Groups of lower member classes and groups of higher ones together are still
/// disjoint.
proof fn lemma_concat_disjoint(cs: Seq<Candidate>, a: Seq<CandidateGroup>, b: Seq<CandidateGroup>, k: int)
    requires
        disjoint(a),
        disjoint(b),
        forall|g: int, x: int| 0 <= g < a.len() && 0 <= x < a[g].candidates@.len() ==> member_class(cs, #[trigger] a[g].candidates@[x] as int) < k,
        forall|g: int, x: int| 0 <= g < b.len() && 0 <= x < b[g].candidates@.len() ==> member_class(cs, #[trigger] b[g].candidates@[x] as int) >= k,
    ensures
        disjoint(a + b),
{
    let ab = a + b;
    assert forall|g1: int, g2: int, x: int, y: int|
        0 <= g1 < ab.len() && 0 <= g2 < ab.len() && g1 != g2 && 0 <= x < ab[g1].candidates@.len() && 0
            <= y < ab[g2].candidates@.len() implies #[trigger] ab[g1].candidates@[x] != #[trigger] ab[g2].candidates@[y] by {
        if g1 < a.len() && g2 < a.len() {
            assert(ab[g1] == a[g1] && ab[g2] == a[g2]);
        } else if g1 >= a.len() && g2 >= a.len() {
            assert(ab[g1] == b[g1 - a.len()] && ab[g2] == b[g2 - a.len()]);
        } else if g1 < a.len() {
            assert(ab[g1] == a[g1] && ab[g2] == b[g2 - a.len()]);
            assert(member_class(cs, a[g1].candidates@[x] as int) < k);
            assert(member_class(cs, b[g2 - a.len()].candidates@[y] as int) >= k);
        } else {
            assert(ab[g2] == a[g2] && ab[g1] == b[g1 - a.len()]);
            assert(member_class(cs, a[g2].candidates@[y] as int) < k);
            assert(member_class(cs, b[g1 - a.len()].candidates@[x] as int) >= k);
        }
    }
}

impl GroupType {
    /// A copy of the group type.
    pub fn duplicate(&self) -> (r: GroupType)
        ensures
            r == *self,
    {
        match self {
            GroupType::Duplicates => GroupType::Duplicates,
            GroupType::SameDirectory => GroupType::SameDirectory,
            GroupType::CommonAncestor { depth } => GroupType::CommonAncestor { depth: *depth },
            GroupType::SimilarNames { pattern } => GroupType::SimilarNames { pattern: pattern.clone() },
            GroupType::Single => GroupType::Single,
        }
    }
}

impl CandidateGroup {
    /// The two groups hold the same values.
    pub open spec fn same_as(&self, other: CandidateGroup) -> bool {
        &&& self.id == other.id
        &&& self.name == other.name
        &&& self.group_type == other.group_type
        &&& self.candidates@ == other.candidates@
        &&& self.total_size == other.total_size
        &&& self.parent_path == other.parent_path
        &&& self.common_ancestor == other.common_ancestor
    }

    /// A copy of the group.
    pub fn duplicate(&self) -> (r: CandidateGroup)
        ensures
            r.same_as(*self),
    {
        CandidateGroup {
            id: self.id.clone(),
            name: self.name.clone(),
            group_type: self.group_type.duplicate(),
            candidates: crate::order::copy_positions(&self.candidates),
            total_size: self.total_size,
            parent_path: crate::text::clone_opt_string(&self.parent_path),
            common_ancestor: crate::text::clone_opt_string(&self.common_ancestor),
        }
    }
}

/// Every member class is one of the four.
proof fn lemma_member_class_range(cs: Seq<Candidate>, x: int)
    ensures
        0 <= member_class(cs, x) <= 3,
{
}

/// The groups of all four phases, phase by phase.
fn unsorted_groups(cs: &[Candidate]) -> (gs: Vec<CandidateGroup>)
    requires
        sum_sizes(cs@) <= u64::MAX,
    ensures
        is_grouping(cs@, gs@),
{
    let (mut groups, dup) = duplicate_groups(cs);
    let (mut sim_groups, sim) = similar_groups(cs, &dup);
    let (mut dir_groups, dir) = directory_groups(cs, &dup, &sim);
    let mut singles = single_groups(cs, &dup, &sim, &dir);
    let ghost a = groups@;
    let ghost b = sim_groups@;
    let ghost c = dir_groups@;
    let ghost d = singles@;
    groups.append(&mut sim_groups);
    proof {
        assert(groups@ == a + b);
        lemma_concat_disjoint(cs@, a, b, 1);
    }
    let ghost ab = groups@;
    groups.append(&mut dir_groups);
    proof {
        assert forall|g: int, x: int| 0 <= g < ab.len() && 0 <= x < ab[g].candidates@.len() implies member_class(cs@, #[trigger] ab[g].candidates@[x] as int) < 2 by {
            if g < a.len() {
                assert(ab[g] == a[g]);
            } else {
                assert(ab[g] == b[g - a.len()]);
            }
        }
        lemma_concat_disjoint(cs@, ab, c, 2);
    }
    let ghost abc = groups@;
    groups.append(&mut singles);
    proof {
        assert forall|g: int, x: int| 0 <= g < abc.len() && 0 <= x < abc[g].candidates@.len() implies member_class(cs@, #[trigger] abc[g].candidates@[x] as int) < 3 by {
            if g < ab.len() {
                assert(abc[g] == ab[g]);
            } else {
                assert(abc[g] == c[g - ab.len()]);
            }
        }
        lemma_concat_disjoint(cs@, abc, d, 3);
        let all = groups@;
        assert(all == abc + d);
        assert forall|g: int| 0 <= g < all.len() implies group_ok(cs@, #[trigger] all[g]) by {
            if g < a.len() {
                assert(all[g] == a[g]);
            } else if g < ab.len() {
                assert(all[g] == b[g - a.len()]);
            } else if g < abc.len() {
                assert(all[g] == c[g - ab.len()]);
            } else {
                assert(all[g] == d[g - abc.len()]);
            }
        }
        assert forall|i: int| 0 <= i < cs@.len() implies covers(all, i) by {
            lemma_member_class_range(cs@, i);
            let p = member_class(cs@, i);
            if p == 0 {
                let g = choose|g: int| 0 <= g < a.len() && (#[trigger] a[g]).candidates@.contains(i as usize);
                assert(all[g] == a[g]);
            } else if p == 1 {
                let g = choose|g: int| 0 <= g < b.len() && (#[trigger] b[g]).candidates@.contains(i as usize);
                assert(all[g + a.len()] == b[g]);
            } else if p == 2 {
                let g = choose|g: int| 0 <= g < c.len() && (#[trigger] c[g]).candidates@.contains(i as usize);
                assert(all[g + ab.len()] == c[g]);
            } else {
                let g = choose|g: int| 0 <= g < d.len() && (#[trigger] d[g]).candidates@.contains(i as usize);
                assert(all[g + abc.len()] == d[g]);
            }
        }
    }
    groups
}

/// Group candidates: first candidates of equal size (possible duplicates), then,
/// among the rest, those whose names share a date/number pattern, then those in
/// the same directory; every candidate left stands alone. Groups come largest
/// total size first.
pub fn group_candidates(candidates: &[Candidate]) -> (r: Vec<CandidateGroup>)
    requires
        sum_sizes(candidates@) <= u64::MAX,
    ensures
        is_grouping(candidates@, r@),
        forall|g1: int, g2: int| 0 <= g1 < g2 < r@.len() ==> (#[trigger] r@[g1]).total_size >= (#[trigger] r@[g2]).total_size,
{
    let groups = unsorted_groups(candidates);
    let mut totals: Vec<u64> = Vec::new();
    let mut k: usize = 0;
    while k < groups.len()
        invariant
            k <= groups@.len(),
            totals@.len() == k,
            forall|j: int| 0 <= j < k ==> #[trigger] totals@[j] == groups@[j].total_size,
        decreases groups.len() - k,
    {
        totals.push(groups[k].total_size);
        k += 1;
    }
    let order = desc_order(&totals);
    let mut result: Vec<CandidateGroup> = Vec::new();
    let mut j: usize = 0;
    while j < order.len()
        invariant
            totals@.len() == groups@.len(),
            forall|x: int| 0 <= x < groups@.len() ==> #[trigger] totals@[x] == groups@[x].total_size,
            is_desc_order(totals@, order@),
            j <= order@.len(),
            result@.len() == j,
            forall|x: int| 0 <= x < j ==> (#[trigger] result@[x]).same_as(groups@[order@[x] as int]),
        decreases order.len() - j,
    {
        let g = groups[order[j]].duplicate();
        result.push(g);
        j += 1;
    }
    proof {
        let cs = candidates@;
        let u = groups@;
        let r = result@;
        assert forall|g: int| 0 <= g < r.len() implies group_ok(cs, #[trigger] r[g]) by {
            assert(r[g].same_as(u[order@[g] as int]));
            assert(group_ok(cs, u[order@[g] as int]));
        }
        assert forall|i: int| 0 <= i < cs.len() implies covers(r, i) by {
            assert(covers(u, i));
            let k = choose|k: int| 0 <= k < u.len() && (#[trigger] u[k]).candidates@.contains(i as usize);
            assert(totals@.len() == u.len());
            assert(listed(order@, k));
            let x = choose|x: int| 0 <= x < order@.len() && order@[x] == k;
            assert(r[x].candidates@ == u[k].candidates@);
        }
        assert forall|g1: int, g2: int, a: int, b: int|
            0 <= g1 < r.len() && 0 <= g2 < r.len() && g1 != g2 && 0 <= a < r[g1].candidates@.len() && 0
                <= b < r[g2].candidates@.len() implies #[trigger] r[g1].candidates@[a] != #[trigger] r[g2].candidates@[b] by {
            if g1 < g2 {
                assert(ranks_before(totals@, order@[g1] as int, order@[g2] as int));
            } else {
                assert(ranks_before(totals@, order@[g2] as int, order@[g1] as int));
            }
            assert(order@[g1] != order@[g2]);
            assert(r[g1].candidates@ == u[order@[g1] as int].candidates@);
            assert(r[g2].candidates@ == u[order@[g2] as int].candidates@);
        }
        assert forall|g1: int, g2: int| 0 <= g1 < g2 < r.len() implies (#[trigger] r[g1]).total_size >= (#[trigger] r[g2]).total_size by {
            assert(ranks_before(totals@, order@[g1] as int, order@[g2] as int));
        }
    }
    result
}


/// The groups worth showing, in order: all but those of a single candidate.
pub open spec fn multi_groups(gs: Seq<CandidateGroup>) -> Seq<CandidateGroup>
    decreases gs.len(),
{
    if gs.len() == 0 {
        Seq::empty()
    } else if gs.last().group_type is Single {
        multi_groups(gs.drop_last())
    } else {
        multi_groups(gs.drop_last()).push(gs.last())
    }
}

/// Drop the groups of a single candidate, keeping the others in order.
pub fn shown_groups(groups: Vec<CandidateGroup>) -> (r: Vec<CandidateGroup>)
    ensures
        r@ == multi_groups(groups@),
{
    let ghost all = groups@;
    let mut rest = groups;
    let mut rev: Vec<CandidateGroup> = Vec::new();
    let total = rest.len();
    proof {
        assert(all.len() == total);
        assert(all.take(all.len() as int) =~= all);
        assert(all.skip(all.len() as int).reverse() =~= rev@);
    }
    while rest.len() > 0
        invariant
            rest@ == all.take(rest@.len() as int),
            rest@.len() <= all.len(),
            all.len() <= usize::MAX,
            rev@ == all.skip(rest@.len() as int).reverse(),
        decreases rest.len(),
    {
        let n = rest.len();
        let g = rest.pop().unwrap();
        rev.push(g);
        proof {
            assert(g == all[n - 1]);
            assert(rest@ =~= all.take(n - 1));
            assert(all.skip(n - 1).reverse() =~= all.skip(n as int).reverse().push(all[n - 1]));
        }
    }
    let mut r: Vec<CandidateGroup> = Vec::new();
    let mut j: usize = 0;
    proof {
        assert(all.take(0) =~= Seq::<CandidateGroup>::empty());
        assert(all.skip(0) =~= all);
    }
    while rev.len() > 0
        invariant
            j + rev@.len() == all.len(),
            all.len() <= usize::MAX,
            rev@ == all.skip(j as int).reverse(),
            r@ == multi_groups(all.take(j as int)),
        decreases rev.len(),
    {
        let g = rev.pop().unwrap();
        proof {
            assert(g == all[j as int]);
            assert(rev@ =~= all.skip(j + 1).reverse());
            assert(all.take(j + 1).drop_last() =~= all.take(j as int));
            assert(all.take(j + 1).last() == all[j as int]);
        }
        let single = match g.group_type {
            GroupType::Single => true,
            _ => false,
        };
        if !single {
            r.push(g);
        }
        j += 1;
    }
    proof {
        assert(all.take(j as int) =~= all);
    }
    r
}

/// The ids of the duplicate groups, in order: these start expanded.
pub open spec fn duplicate_ids(gs: Seq<CandidateGroup>) -> Seq<Seq<char>>
    decreases gs.len(),
{
    if gs.len() == 0 {
        Seq::empty()
    } else if gs.last().group_type is Duplicates {
        duplicate_ids(gs.drop_last()).push(gs.last().id@)
    } else {
        duplicate_ids(gs.drop_last())
    }
}

/// The ids of the duplicate groups, which are shown expanded at first.
pub fn expanded_ids(groups: &Vec<CandidateGroup>) -> (r: Vec<String>)
    ensures
        r@.map_values(|s: String| s@) == duplicate_ids(groups@),
{
    let mut r: Vec<String> = Vec::new();
    let mut i: usize = 0;
    while i < groups.len()
        invariant
            i <= groups@.len(),
            r@.map_values(|s: String| s@) == duplicate_ids(groups@.take(i as int)),
        decreases groups.len() - i,
    {
        proof {
            assert(groups@.take(i + 1).drop_last() =~= groups@.take(i as int));
            assert(groups@.take(i + 1).last() == groups@[i as int]);
        }
        let ghost before = r@.map_values(|s: String| s@);
        match groups[i].group_type {
            GroupType::Duplicates => {
                let id = crate::text::owned(groups[i].id.as_str());
                r.push(id);
                proof {
                    assert(r@.map_values(|s: String| s@) =~= before.push(groups@[i as int].id@));
                }
            },
            _ => {},
        }
        i += 1;
    }
    proof {
        assert(groups@.take(groups@.len() as int) =~= groups@);
    }
    r
}

/// Scanning a digit-free prefix copies it: nothing in it starts a date, a time or
/// a sequence number.
proof fn lemma_raw_plain_prefix(p: Seq<char>, r: Seq<char>)
    requires
        forall|i: int| 0 <= i < p.len() ==> !is_digit(#[trigger] p[i]),
        p.len() == 0 || r.len() == 0 || !is_digit(r[0]) || !is_separator(p.last()),
    ensures
        raw_pattern(p + r) == p + raw_pattern(r),
    decreases p.len(),
{
    if p.len() > 0 {
        let s = p + r;
        let t = p.drop_first();
        assert(s[0] == p[0]);
        if p.len() > 1 {
            assert(s[1] == p[1]);
        } else if r.len() > 0 {
            assert(s[1] == r[0]);
        }
        assert(s.skip(1) =~= t + r);
        assert forall|i: int| 0 <= i < t.len() implies !is_digit(#[trigger] t[i]) by {
            assert(t[i] == p[i + 1]);
        }
        if t.len() > 0 {
            assert(t.last() == p.last());
        }
        lemma_raw_plain_prefix(t, r);
        assert(seq![p[0]] + (t + raw_pattern(r)) =~= p + raw_pattern(r));
    }
}

/// The digits of `s` from `k` run up to position `e`.
proof fn lemma_digit_run(s: Seq<char>, k: int, e: int)
    requires
        0 <= k <= e <= s.len(),
        forall|i: int| k <= i < e ==> is_digit(#[trigger] s[i]),
        e == s.len() || !is_digit(s[e]),
    ensures
        digits_end(s, k) == e,
    decreases e - k,
{
    if k < e {
        lemma_digit_run(s, k + 1, e);
    }
}

/// A bracketed number at the front becomes one `*`.
proof fn lemma_raw_bracketed(d: Seq<char>, q: Seq<char>)
    requires
        d.len() > 0,
        forall|i: int| 0 <= i < d.len() ==> is_digit(#[trigger] d[i]),
    ensures
        raw_pattern(seq!['('] + d + seq![')'] + q) == seq!['*'] + raw_pattern(q),
{
    let s = seq!['('] + d + seq![')'] + q;
    let n: int = d.len() as int;
    assert(s[0] == '(');
    assert(s[1] == d[0]);
    assert forall|i: int| 1 <= i < n + 1 implies is_digit(#[trigger] s[i]) by {
        assert(s[i] == d[i - 1]);
    }
    assert(s[n + 1] == ')');
    lemma_digit_run(s, 1, n + 1);
    assert(sequence_end(s) == n + 2);
    assert(s.skip(n + 2) =~= q);
}

/// A number in brackets counts as a sequence number: after a prefix without
/// digits, `(` digits `)` gives the same name pattern as a single `*`, whatever the
/// number. So "report (1).pdf" and "report (2).pdf" share their pattern.
pub proof fn law_bracketed_number_is_masked(p: Seq<char>, d: Seq<char>, q: Seq<char>)
    requires
        forall|i: int| 0 <= i < p.len() ==> !('0' <= #[trigger] p[i] && p[i] <= '9'),
        d.len() > 0,
        forall|i: int| 0 <= i < d.len() ==> '0' <= #[trigger] d[i] && d[i] <= '9',
    ensures
        name_pattern(p + seq!['('] + d + seq![')'] + q) == name_pattern(p + seq!['*'] + q),
{
    let r = seq!['('] + d + seq![')'] + q;
    assert(p + seq!['('] + d + seq![')'] + q =~= p + r);
    lemma_raw_plain_prefix(p, r);
    lemma_raw_bracketed(d, q);
    let p2 = p + seq!['*'];
    assert forall|i: int| 0 <= i < p2.len() implies !is_digit(#[trigger] p2[i]) by {
        if i < p.len() {
            assert(p2[i] == p[i]);
        }
    }
    lemma_raw_plain_prefix(p2, q);
    assert(p + seq!['*'] + q =~= p2 + q);
    assert(p + (seq!['*'] + raw_pattern(q)) =~= p2 + raw_pattern(q));
}

/// Two files of one size whose names differ only in a bracketed number after a
/// digit-free prefix ("x (1).ext", "x (2).ext") always land in the same duplicates
/// group.
pub proof fn law_numbered_copies_are_duplicates(
    cs: Seq<Candidate>,
    gs: Seq<CandidateGroup>,
    i: int,
    j: int,
    p: Seq<char>,
    d1: Seq<char>,
    d2: Seq<char>,
    q: Seq<char>,
)
    requires
        is_grouping(cs, gs),
        cs.len() <= usize::MAX,
        0 <= i < cs.len(),
        0 <= j < cs.len(),
        i != j,
        cs[i].size_bytes == cs[j].size_bytes,
        forall|k: int| 0 <= k < p.len() ==> !('0' <= #[trigger] p[k] && p[k] <= '9'),
        d1.len() > 0,
        d2.len() > 0,
        forall|k: int| 0 <= k < d1.len() ==> '0' <= #[trigger] d1[k] && d1[k] <= '9',
        forall|k: int| 0 <= k < d2.len() ==> '0' <= #[trigger] d2[k] && d2[k] <= '9',
        path_file_name(cs[i].path@) == Some(p + seq!['('] + d1 + seq![')'] + q),
        path_file_name(cs[j].path@) == Some(p + seq!['('] + d2 + seq![')'] + q),
    ensures
        exists|g: int|
            0 <= g < gs.len() && (#[trigger] gs[g]).group_type is Duplicates && gs[g].candidates@.contains(i as usize)
                && gs[g].candidates@.contains(j as usize),
{
    law_bracketed_number_is_masked(p, d1, q);
    law_bracketed_number_is_masked(p, d2, q);
    let ks = dup_keys(cs);
    assert(ks[i] == ks[j]);
    assert(shares(ks, i));
    assert(covers(gs, i));
    let g = choose|g: int| 0 <= g < gs.len() && (#[trigger] gs[g]).candidates@.contains(i as usize);
    assert(group_ok(cs, gs[g]));
    let m = gs[g].candidates@;
    let a = choose|a: int| 0 <= a < m.len() && m[a] == i as usize;
    assert(m[a] as int == i);
    match gs[g].group_type {
        GroupType::Duplicates => {
            assert(ks[m[a] as int] == ks[m[0] as int]);
            assert(ks[j] == ks[m[0] as int]);
            assert(m.contains(j as usize));
        },
        GroupType::SimilarNames { .. } => {
            let sk = similar_keys(cs);
            assert(sk[m[a] as int] == sk[m[0] as int]);
            assert(sk[i] is None);
        },
        GroupType::SameDirectory => {
            let dk = dir_keys(cs);
            assert(dk[m[a] as int] == dk[m[0] as int]);
            assert(dk[i] is None);
        },
        GroupType::Single => {
            assert(m[0] == i as usize);
            assert(member_class(cs, i) == 0);
        },
        GroupType::CommonAncestor { .. } => {},
    }
}

/// A sequence number (a separator `.`, `-`, `_` or `(` and digits), with a closing
/// `)` or `.` right after the digits when `closed`, at the front of the text is
/// scanned as one `*`.
proof fn lemma_raw_sequence(sep: char, d: Seq<char>, closed: bool, c: char, q: Seq<char>)
    requires
        is_separator(sep),
        d.len() > 0,
        forall|i: int| 0 <= i < d.len() ==> is_digit(#[trigger] d[i]),
        closed ==> c == ')' || c == '.',
        !closed ==> q.len() == 0 || (!is_digit(q[0]) && q[0] != ')' && q[0] != '.'),
    ensures
        raw_pattern(seq![sep] + d + (if closed { seq![c] } else { Seq::empty() }) + q) == seq!['*'] + raw_pattern(q),
{
    let tail: Seq<char> = if closed { seq![c] } else { Seq::empty() };
    let s = seq![sep] + d + tail + q;
    let n: int = d.len() as int;
    assert(s[0] == sep);
    assert(s[1] == d[0]);
    assert forall|i: int| 1 <= i < n + 1 implies is_digit(#[trigger] s[i]) by {
        assert(s[i] == d[i - 1]);
    }
    if closed {
        assert(s[n + 1] == c);
        lemma_digit_run(s, 1, n + 1);
        assert(sequence_end(s) == n + 2);
        assert(s.skip(n + 2) =~= q);
    } else {
        assert(s =~= seq![sep] + d + q);
        if q.len() > 0 {
            assert(s[n + 1] == q[0]);
        }
        lemma_digit_run(s, 1, n + 1);
        assert(sequence_end(s) == n + 1);
        assert(s.skip(n + 1) =~= q);
    }
}

/// After a digit-free prefix, text that scans as one `*` followed by `q` gives the
/// pattern of the prefix, `*` and `q`.
proof fn lemma_masked_after_prefix(p: Seq<char>, h: Seq<char>, q: Seq<char>)
    requires
        forall|i: int| 0 <= i < p.len() ==> !is_digit(#[trigger] p[i]),
        h.len() > 0,
        p.len() == 0 || !is_digit(h[0]) || !is_separator(p.last()),
        raw_pattern(h + q) == seq!['*'] + raw_pattern(q),
    ensures
        name_pattern(p + h + q) == name_pattern(p + seq!['*'] + q),
{
    assert(p + h + q =~= p + (h + q));
    assert((h + q)[0] == h[0]);
    lemma_raw_plain_prefix(p, h + q);
    let p2 = p + seq!['*'];
    assert forall|i: int| 0 <= i < p2.len() implies !is_digit(#[trigger] p2[i]) by {
        if i < p.len() {
            assert(p2[i] == p[i]);
        }
    }
    lemma_raw_plain_prefix(p2, q);
    assert(p + seq!['*'] + q =~= p2 + q);
    assert(p + (seq!['*'] + raw_pattern(q)) =~= p2 + raw_pattern(q));
}

/// A sequence number after a digit-free prefix is masked: a `.`, `-`, `_` or `(`
/// followed by digits becomes one `*`, together with a `)` or `.` right after the
/// digits. So "photo-001.jpg" and "photo-002.jpg" share the pattern "photo*jpg",
/// and "part_7" and "part_12" the pattern "part*".
pub proof fn law_sequence_number_is_masked(p: Seq<char>, sep: char, d: Seq<char>, c: char, q: Seq<char>)
    requires
        forall|i: int| 0 <= i < p.len() ==> !('0' <= #[trigger] p[i] && p[i] <= '9'),
        sep == '.' || sep == '-' || sep == '_' || sep == '(',
        d.len() > 0,
        forall|i: int| 0 <= i < d.len() ==> '0' <= #[trigger] d[i] && d[i] <= '9',
    ensures
        q.len() == 0 || (!('0' <= q[0] && q[0] <= '9') && q[0] != ')' && q[0] != '.') ==> name_pattern(
            p + seq![sep] + d + q,
        ) == name_pattern(p + seq!['*'] + q),
        c == ')' || c == '.' ==> name_pattern(p + seq![sep] + d + seq![c] + q) == name_pattern(p + seq!['*'] + q),
{
    if q.len() == 0 || (!is_digit(q[0]) && q[0] != ')' && q[0] != '.') {
        lemma_raw_sequence(sep, d, false, c, q);
        assert(seq![sep] + d + Seq::<char>::empty() =~= seq![sep] + d);
        lemma_masked_after_prefix(p, seq![sep] + d, q);
        assert(p + seq![sep] + d + q =~= p + (seq![sep] + d) + q);
    }
    if c == ')' || c == '.' {
        lemma_raw_sequence(sep, d, true, c, q);
        lemma_masked_after_prefix(p, seq![sep] + d + seq![c], q);
        assert(p + seq![sep] + d + seq![c] + q =~= p + (seq![sep] + d + seq![c]) + q);
    }
}

/// A date after a digit-free prefix that does not end in a separator is masked
/// whole: a `YYYY-MM-DD` date or eight digits (`YYYYMMDD`) become one `*`. So
/// "backup2024-01-15.tar" and "backup20240116.tar" both give "backup*.tar".
pub proof fn law_date_is_masked(p: Seq<char>, dt: Seq<char>, q: Seq<char>)
    requires
        forall|i: int| 0 <= i < p.len() ==> !('0' <= #[trigger] p[i] && p[i] <= '9'),
        p.len() == 0 || (p.last() != '.' && p.last() != '-' && p.last() != '_' && p.last() != '('),
        (dt.len() == 10 && dt[4] == '-' && dt[7] == '-' && forall|i: int|
            0 <= i < 10 && i != 4 && i != 7 ==> '0' <= #[trigger] dt[i] && dt[i] <= '9') || (dt.len() == 8
            && forall|i: int| 0 <= i < 8 ==> '0' <= #[trigger] dt[i] && dt[i] <= '9'),
    ensures
        name_pattern(p + dt + q) == name_pattern(p + seq!['*'] + q),
{
    let s = dt + q;
    let k: int = dt.len() as int;
    assert forall|i: int| 0 <= i < k implies #[trigger] s[i] == dt[i] by {}
    assert(s.subrange(0, k) =~= dt);
    assert(s.skip(k) =~= q);
    if k == 10 {
        assert(is_digit(dt[0]) && is_digit(dt[1]) && is_digit(dt[2]) && is_digit(dt[3]));
        assert(is_digit(dt[5]) && is_digit(dt[6]) && is_digit(dt[8]) && is_digit(dt[9]));
        assert(dashed_date(s.subrange(0, 10)));
    } else {
        assert(is_digit(dt[4]));
        assert(s.subrange(0, 8) =~= dt);
        assert(!dashed_date(s.subrange(0, 10)) || s.len() <= 9);
        assert(date_like(s.subrange(0, 8)));
    }
    assert(raw_pattern(dt + q) == seq!['*'] + raw_pattern(q));
    lemma_masked_after_prefix(p, dt, q);
}

/// Merging keeps the last character and leaves no two `*` side by side.
proof fn lemma_merge_stars(s: Seq<char>)
    ensures
        s.len() > 0 ==> merge_stars(s).len() > 0 && merge_stars(s).last() == s.last(),
        forall|i: int| 0 <= i < merge_stars(s).len() - 1 ==> !(#[trigger] merge_stars(s)[i] == '*' && merge_stars(s)[i + 1] == '*'),
    decreases s.len(),
{
    if s.len() > 0 {
        let t = s.drop_last();
        lemma_merge_stars(t);
        if s.last() == '*' && s.len() >= 2 && s[s.len() - 2] == '*' {
            assert(t.last() == s[s.len() - 2]);
        } else {
            let m = merge_stars(t);
            let r = m.push(s.last());
            assert forall|i: int| 0 <= i < r.len() - 1 implies !(#[trigger] r[i] == '*' && r[i + 1] == '*') by {
                if i < m.len() - 1 {
                    assert(r[i] == m[i] && r[i + 1] == m[i + 1]);
                } else {
                    assert(r[i] == m.last());
                    assert(t.last() == s[s.len() - 2]);
                }
            }
        }
    }
}

/// A name pattern never holds two `*` side by side: runs of masked parts merge.
pub proof fn law_pattern_stars_merged(s: Seq<char>)
    ensures
        forall|i: int| 0 <= i < name_pattern(s).len() - 1 ==> !(#[trigger] name_pattern(s)[i] == '*' && name_pattern(s)[i + 1] == '*'),
{
    lemma_merge_stars(raw_pattern(s));
}

} // verus!
