//! Character-level text helpers shared by the classifiers and formatters.
use vstd::prelude::*;
use vstd::string::*;

verus! {

/// `needle` occurs in `hay` starting at position `i`.
pub open spec fn occurs_at(hay: Seq<char>, needle: Seq<char>, i: int) -> bool {
    &&& 0 <= i
    &&& i + needle.len() <= hay.len()
    &&& hay.subrange(i, i + needle.len()) == needle
}

/// `needle` occurs somewhere in `hay` (std `str::contains` on a string pattern).
pub open spec fn has_substring(hay: Seq<char>, needle: Seq<char>) -> bool {
    exists|i: int| occurs_at(hay, needle, i)
}

/// `hay` ends with `suffix`.
pub open spec fn has_suffix(hay: Seq<char>, suffix: Seq<char>) -> bool {
    suffix.len() <= hay.len() && hay.subrange(hay.len() - suffix.len(), hay.len() as int) == suffix
}

/// `hay` starts with `prefix`.
pub open spec fn has_prefix(hay: Seq<char>, prefix: Seq<char>) -> bool {
    prefix.len() <= hay.len() && hay.subrange(0, prefix.len() as int) == prefix
}

/// The characters of a string slice, in order.
pub fn chars_of(s: &str) -> (r: Vec<char>)
    ensures
        r@ == s@,
{
    let n = s.unicode_len();
    let mut r: Vec<char> = Vec::new();
    let mut i: usize = 0;
    while i < n
        invariant
            n == s@.len(),
            i <= n,
            r@ == s@.subrange(0, i as int),
        decreases n - i,
    {
        let c = s.get_char(i);
        r.push(c);
        i += 1;
        assert(r@ =~= s@.subrange(0, i as int));
    }
    assert(r@ =~= s@);
    r
}

/// A `String` holding exactly the given characters (std `FromIterator<char>`
/// for `String`): the contract claims the string's characters are `v`, in order.
#[verifier::external_body]
pub(crate) fn string_from_chars(v: &Vec<char>) -> (s: String)
    ensures
        s@ == v@,
{
    v.iter().collect()
}

/// A `String` copy of a string slice.
pub fn owned(s: &str) -> (r: String)
    ensures
        r@ == s@,
{
    let v = chars_of(s);
    string_from_chars(&v)
}

/// What std's `str::to_lowercase` returns for a string (full Unicode mapping).
pub uninterp spec fn lowercase_of(s: Seq<char>) -> Seq<char>;

/// std `str::to_lowercase`: the contract only names its result; the Unicode
/// case mapping it performs is not written out.
#[verifier::external_body]
pub(crate) fn to_lowercase(s: &str) -> (r: String)
    ensures
        r@ == lowercase_of(s@),
{
    s.to_lowercase()
}

/// Whether `needle` occurs in `hay` at position `i`.
pub fn matches_at(hay: &Vec<char>, needle: &Vec<char>, i: usize) -> (r: bool)
    ensures
        r == occurs_at(hay@, needle@, i as int),
{
    if needle.len() > hay.len() || i > hay.len() - needle.len() {
        return false;
    }
    let mut j: usize = 0;
    while j < needle.len()
        invariant
            i + needle@.len() <= hay@.len(),
            hay@.len() <= usize::MAX,
            j <= needle@.len(),
            forall|k: int| 0 <= k < j ==> hay@[i + k] == needle@[k],
        decreases needle.len() - j,
    {
        if hay[i + j] != needle[j] {
            assert(hay@.subrange(i as int, i + needle@.len())[j as int] != needle@[j as int]);
            return false;
        }
        j += 1;
    }
    assert(hay@.subrange(i as int, i + needle@.len()) =~= needle@);
    true
}

/// Whether `needle` occurs anywhere in `hay`.
pub fn contains(hay: &Vec<char>, needle: &Vec<char>) -> (r: bool)
    ensures
        r == has_substring(hay@, needle@),
{
    if needle.len() > hay.len() {
        assert forall|i: int| !occurs_at(hay@, needle@, i) by {}
        return false;
    }
    let last = hay.len() - needle.len();
    let mut i: usize = 0;
    while i < last
        invariant
            last == hay@.len() - needle@.len(),
            i <= last,
            forall|k: int| 0 <= k < i ==> !occurs_at(hay@, needle@, k),
        decreases last - i,
    {
        if matches_at(hay, needle, i) {
            return true;
        }
        i += 1;
    }
    if matches_at(hay, needle, last) {
        return true;
    }
    assert forall|k: int| !occurs_at(hay@, needle@, k) by {
        if 0 <= k && k < i {
        }
    }
    false
}

/// Whether the literal `needle` occurs in `hay`.
pub fn contains_str(hay: &Vec<char>, needle: &str) -> (r: bool)
    ensures
        r == has_substring(hay@, needle@),
{
    let n = chars_of(needle);
    contains(hay, &n)
}

/// Whether `hay` ends with the literal `suffix`.
pub fn ends_with_str(hay: &Vec<char>, suffix: &str) -> (r: bool)
    ensures
        r == has_suffix(hay@, suffix@),
{
    let s = chars_of(suffix);
    if s.len() > hay.len() {
        return false;
    }
    let r = matches_at(hay, &s, hay.len() - s.len());
    r
}

/// Whether `hay` starts with the literal `prefix`.
pub fn starts_with_str(hay: &Vec<char>, prefix: &str) -> (r: bool)
    ensures
        r == has_prefix(hay@, prefix@),
{
    let p = chars_of(prefix);
    if p.len() > hay.len() {
        return false;
    }
    matches_at(hay, &p, 0)
}

/// Whether two character sequences are equal.
pub fn same_chars(a: &Vec<char>, b: &Vec<char>) -> (r: bool)
    ensures
        r == (a@ == b@),
{
    if a.len() != b.len() {
        return false;
    }
    let r = matches_at(a, b, 0);
    proof {
        if r {
            assert(a@.subrange(0, b@.len() as int) =~= a@);
        } else {
            assert(a@.subrange(0, b@.len() as int) =~= a@);
        }
    }
    r
}

/// Whether `a` is exactly the literal `b`.
pub fn is_str(a: &Vec<char>, b: &str) -> (r: bool)
    ensures
        r == (a@ == b@),
{
    let bv = chars_of(b);
    same_chars(a, &bv)
}

/// Whether two strings are equal.
pub fn string_eq(a: &String, b: &String) -> (r: bool)
    ensures
        r == (a@ == b@),
{
    let r = *a == *b;
    r
}

/// Appends the literal `s` to `v`.
pub fn push_str(v: &mut Vec<char>, s: &str)
    ensures
        final(v)@ == old(v)@ + s@,
{
    let c = chars_of(s);
    push_all(v, &c);
}

/// Appends the characters of `c` to `v`.
pub fn push_all(v: &mut Vec<char>, c: &Vec<char>)
    ensures
        final(v)@ == old(v)@ + c@,
{
    let mut i: usize = 0;
    while i < c.len()
        invariant
            i <= c@.len(),
            v@ == old(v)@ + c@.subrange(0, i as int),
        decreases c.len() - i,
    {
        v.push(c[i]);
        i += 1;
        assert(v@ =~= old(v)@ + c@.subrange(0, i as int));
    }
    assert(c@.subrange(0, c@.len() as int) =~= c@);
}

/// `v` is one of the literals.
pub open spec fn one_of(v: Seq<char>, lits: Seq<&str>) -> bool {
    exists|k: int| 0 <= k < lits.len() && v == #[trigger] lits[k]@
}

/// One of the literals occurs in `v`.
pub open spec fn contains_any(v: Seq<char>, lits: Seq<&str>) -> bool {
    exists|k: int| 0 <= k < lits.len() && has_substring(v, #[trigger] lits[k]@)
}

/// Whether `v` is one of the literals.
pub fn is_one_of(v: &Vec<char>, lits: &[&str]) -> (r: bool)
    ensures
        r == one_of(v@, lits@),
{
    let mut k: usize = 0;
    while k < lits.len()
        invariant
            k <= lits@.len(),
            forall|j: int| 0 <= j < k ==> v@ != #[trigger] lits@[j]@,
        decreases lits.len() - k,
    {
        if is_str(v, lits[k]) {
            return true;
        }
        k += 1;
    }
    false
}

/// Whether one of the literals occurs in `v`.
pub fn contains_any_of(v: &Vec<char>, lits: &[&str]) -> (r: bool)
    ensures
        r == contains_any(v@, lits@),
{
    let mut k: usize = 0;
    while k < lits.len()
        invariant
            k <= lits@.len(),
            forall|j: int| 0 <= j < k ==> !has_substring(v@, #[trigger] lits@[j]@),
        decreases lits.len() - k,
    {
        if contains_str(v, lits[k]) {
            return true;
        }
        k += 1;
    }
    false
}

/// Digit character of a value below 16 (lowercase hexadecimal).
pub open spec fn digit_char(d: nat) -> char {
    if d == 0 { '0' }
    else if d == 1 { '1' }
    else if d == 2 { '2' }
    else if d == 3 { '3' }
    else if d == 4 { '4' }
    else if d == 5 { '5' }
    else if d == 6 { '6' }
    else if d == 7 { '7' }
    else if d == 8 { '8' }
    else if d == 9 { '9' }
    else if d == 10 { 'a' }
    else if d == 11 { 'b' }
    else if d == 12 { 'c' }
    else if d == 13 { 'd' }
    else if d == 14 { 'e' }
    else { 'f' }
}

/// The digit character of `d`.
pub fn digit(d: u64) -> (c: char)
    requires
        d < 16,
    ensures
        c == digit_char(d as nat),
{
    if d == 0 { '0' }
    else if d == 1 { '1' }
    else if d == 2 { '2' }
    else if d == 3 { '3' }
    else if d == 4 { '4' }
    else if d == 5 { '5' }
    else if d == 6 { '6' }
    else if d == 7 { '7' }
    else if d == 8 { '8' }
    else if d == 9 { '9' }
    else if d == 10 { 'a' }
    else if d == 11 { 'b' }
    else if d == 12 { 'c' }
    else if d == 13 { 'd' }
    else if d == 14 { 'e' }
    else { 'f' }
}

/// Decimal representation of `n` without leading zeros (`"{}"` formatting).
pub open spec fn dec_seq(n: nat) -> Seq<char>
    decreases n,
{
    if n < 10 {
        seq![digit_char(n)]
    } else {
        dec_seq(n / 10).push(digit_char(n % 10))
    }
}

/// Lowercase hexadecimal representation of `n` without leading zeros (`"{:x}"`).
pub open spec fn hex_seq(n: nat) -> Seq<char>
    decreases n,
{
    if n < 16 {
        seq![digit_char(n)]
    } else {
        hex_seq(n / 16).push(digit_char(n % 16))
    }
}

/// The last `k` lowercase hexadecimal digits of `n`, zero padded (`"{:016x}"` for `k == 16`).
pub open spec fn hex_fixed(n: nat, k: nat) -> Seq<char>
    decreases k,
{
    if k == 0 {
        Seq::empty()
    } else {
        hex_fixed(n / 16, (k - 1) as nat).push(digit_char(n % 16))
    }
}

/// Decimal digits of `n`.
pub fn dec_chars(n: u64) -> (r: Vec<char>)
    ensures
        r@ == dec_seq(n as nat),
    decreases n,
{
    if n < 10 {
        let mut v: Vec<char> = Vec::new();
        v.push(digit(n));
        assert(v@ =~= seq![digit_char(n as nat)]);
        v
    } else {
        let mut v = dec_chars(n / 10);
        v.push(digit(n % 10));
        v
    }
}

/// Lowercase hexadecimal digits of `n`.
pub fn hex_chars(n: u64) -> (r: Vec<char>)
    ensures
        r@ == hex_seq(n as nat),
    decreases n,
{
    if n < 16 {
        let mut v: Vec<char> = Vec::new();
        v.push(digit(n));
        assert(v@ =~= seq![digit_char(n as nat)]);
        v
    } else {
        let mut v = hex_chars(n / 16);
        v.push(digit(n % 16));
        v
    }
}

/// The last `k` hexadecimal digits of `n`, zero padded.
pub fn hex_fixed_chars(n: u64, k: u64) -> (r: Vec<char>)
    ensures
        r@ == hex_fixed(n as nat, k as nat),
    decreases k,
{
    if k == 0 {
        let v: Vec<char> = Vec::new();
        assert(v@ =~= Seq::<char>::empty());
        v
    } else {
        let mut v = hex_fixed_chars(n / 16, k - 1);
        v.push(digit(n % 16));
        v
    }
}

/// Decimal representation of `n` as a `String`.
pub fn dec_string(n: u64) -> (r: String)
    ensures
        r@ == dec_seq(n as nat),
{
    let v = dec_chars(n);
    string_from_chars(&v)
}

/// A copy of a sequence of strings.
pub fn clone_strings(v: &Vec<String>) -> (r: Vec<String>)
    ensures
        r@ == v@,
{
    let mut r: Vec<String> = Vec::new();
    let mut i: usize = 0;
    while i < v.len()
        invariant
            i <= v@.len(),
            r@ == v@.subrange(0, i as int),
        decreases v.len() - i,
    {
        r.push(v[i].clone());
        i += 1;
        assert(r@ =~= v@.subrange(0, i as int));
    }
    assert(v@.subrange(0, v@.len() as int) =~= v@);
    r
}

/// A copy of an optional string.
pub fn clone_opt_string(s: &Option<String>) -> (r: Option<String>)
    ensures
        r == *s,
{
    match s {
        Some(x) => Some(x.clone()),
        None => None,
    }
}

/// Owned copies of the literals, in order.
pub fn strings_of(lits: &[&str]) -> (r: Vec<String>)
    ensures
        r@.map_values(|s: String| s@) == lits@.map_values(|l: &str| l@),
{
    let mut r: Vec<String> = Vec::new();
    let mut i: usize = 0;
    while i < lits.len()
        invariant
            i <= lits@.len(),
            r@.map_values(|s: String| s@) == lits@.take(i as int).map_values(|l: &str| l@),
        decreases lits.len() - i,
    {
        let ghost before = r@;
        r.push(owned(lits[i]));
        i += 1;
        proof {
            assert(lits@.take(i as int).map_values(|l: &str| l@) =~= lits@.take(i - 1).map_values(|l: &str| l@).push(lits@[i - 1]@));
            assert(r@.map_values(|s: String| s@) =~= before.map_values(|s: String| s@).push(r@[i - 1]@));
        }
    }
    assert(lits@.take(lits@.len() as int) =~= lits@);
    r
}

} // verus!
