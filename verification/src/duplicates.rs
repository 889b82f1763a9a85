//! Duplicate files and folders: what is hashed, which copies group together, and
//! which copy is kept.
use vstd::prelude::*;
use vstd::string::*;
use vstd::utf8::encode_utf8;
use crate::cache::{seahash_of, seahash_value};
use crate::text::{chars_of, dec_chars, dec_seq, hex_seq, hex_chars, string_from_chars, push_all, push_str, strings_of, owned};
use crate::candidate::{Action, Candidate, FileEntry, TargetKind};
use crate::paths::{opt_view, file_name_or_empty, file_name_text};
use crate::order::{
    ClassKey, KeyValue, key_value, key_values, is_full_class, multi_classes, desc_order_wide, is_desc_order_wide,
    ranks_before_wide, listed, is_class_list, class_offset, lemma_class_list, lemma_class_offset_step,
    lemma_class_offset_monotone,
};
use crate::archives::time_key;
use crate::strategy::tag_views;

verus! {

/// Text order by character codes (the order of `String`'s `Ord`: UTF-8 bytes
/// compare like the code points they encode).
pub open spec fn lex_lt(a: Seq<char>, b: Seq<char>) -> bool
    decreases a.len(),
{
    if a.len() == 0 {
        b.len() > 0
    } else if b.len() == 0 {
        false
    } else if a[0] != b[0] {
        a[0] < b[0]
    } else {
        lex_lt(a.drop_first(), b.drop_first())
    }
}

/// No text comes before itself.
pub proof fn lemma_lex_irreflexive(a: Seq<char>)
    ensures
        !lex_lt(a, a),
    decreases a.len(),
{
    if a.len() > 0 {
        lemma_lex_irreflexive(a.drop_first());
    }
}

/// Text order is transitive.
pub proof fn lemma_lex_transitive(a: Seq<char>, b: Seq<char>, c: Seq<char>)
    requires
        lex_lt(a, b),
        lex_lt(b, c),
    ensures
        lex_lt(a, c),
    decreases a.len(),
{
    if a.len() > 0 && b.len() > 0 && c.len() > 0 && a[0] == b[0] && b[0] == c[0] {
        lemma_lex_transitive(a.drop_first(), b.drop_first(), c.drop_first());
    }
}

/// Two texts are equal or one comes before the other.
pub proof fn lemma_lex_total(a: Seq<char>, b: Seq<char>)
    ensures
        a == b || lex_lt(a, b) || lex_lt(b, a),
    decreases a.len(),
{
    if a.len() > 0 && b.len() > 0 {
        if a[0] == b[0] {
            lemma_lex_total(a.drop_first(), b.drop_first());
            if a.drop_first() == b.drop_first() {
                assert(a =~= seq![a[0]] + a.drop_first());
                assert(b =~= seq![b[0]] + b.drop_first());
            }
        }
    } else if a.len() == 0 && b.len() == 0 {
        assert(a =~= b);
    }
}

/// Whether `a` comes before `b` in text order.
pub fn text_less(a: &Vec<char>, b: &Vec<char>) -> (r: bool)
    ensures
        r == lex_lt(a@, b@),
{
    let mut i: usize = 0;
    proof {
        assert(a@.skip(0) =~= a@);
        assert(b@.skip(0) =~= b@);
    }
    while i < a.len() && i < b.len() && a[i] == b[i]
        invariant
            i <= a@.len(),
            i <= b@.len(),
            lex_lt(a@, b@) == lex_lt(a@.skip(i as int), b@.skip(i as int)),
        decreases a.len() - i,
    {
        proof {
            assert(a@.skip(i as int).drop_first() =~= a@.skip(i + 1));
            assert(b@.skip(i as int).drop_first() =~= b@.skip(i + 1));
        }
        i += 1;
    }
    if i == a.len() {
        i < b.len()
    } else if i == b.len() {
        false
    } else {
        proof {
            assert(a@.skip(i as int)[0] == a@[i as int]);
            assert(b@.skip(i as int)[0] == b@[i as int]);
        }
        a[i] < b[i]
    }
}

/// Texts in order: none comes before an earlier one.
pub open spec fn texts_sorted(s: Seq<Seq<char>>) -> bool {
    forall|i: int, j: int| 0 <= i < j < s.len() ==> !lex_lt(#[trigger] s[j], #[trigger] s[i])
}

/// `s` holds the texts of `t`, sorted.
pub open spec fn is_sorted_perm(t: Seq<Seq<char>>, s: Seq<Seq<char>>) -> bool {
    s.to_multiset() == t.to_multiset() && texts_sorted(s)
}

/// The characters of each text.
pub open spec fn char_views(v: Seq<Vec<char>>) -> Seq<Seq<char>> {
    v.map_values(|c: Vec<char>| c@)
}

/// Sort texts (std `sort` on strings).
pub fn sort_texts(v: Vec<Vec<char>>) -> (r: Vec<Vec<char>>)
    ensures
        is_sorted_perm(char_views(v@), char_views(r@)),
{
    let ghost t = char_views(v@);
    let mut r: Vec<Vec<char>> = Vec::new();
    let mut rest = v;
    let n = rest.len();
    let mut i: usize = 0;
    proof {
        assert(char_views(rest@) =~= t.skip(0));
        assert(char_views(r@) =~= t.take(0));
    }
    while i < n
        invariant
            n == t.len(),
            i <= n,
            char_views(rest@) == t.skip(i as int),
            char_views(r@).to_multiset() == t.take(i as int).to_multiset(),
            texts_sorted(char_views(r@)),
        decreases n - i,
    {
        let ghost old_rest = rest@;
        proof {
            assert(rest@.len() == char_views(rest@).len());
            assert(char_views(rest@)[0] == t[i as int]);
        }
        let x = rest.remove(0);
        proof {
            assert forall|k: int| 0 <= k < rest@.len() implies #[trigger] char_views(rest@)[k] == t.skip(i + 1)[k] by {
                assert(rest@[k] == old_rest[k + 1]);
                assert(char_views(old_rest)[k + 1] == t.skip(i as int)[k + 1]);
            }
            assert(char_views(rest@) =~= t.skip(i + 1));
            assert(x@ == t[i as int]);
        }
        let mut pos: usize = 0;
        while pos < r.len() && !text_less(&x, &r[pos])
            invariant
                pos <= r@.len(),
                forall|k: int| 0 <= k < pos ==> !lex_lt(x@, #[trigger] char_views(r@)[k]),
            decreases r.len() - pos,
        {
            pos += 1;
        }
        let ghost before = char_views(r@);
        r.insert(pos, x);
        proof {
            assert(char_views(r@) =~= before.insert(pos as int, x@));
            assert(t.take(i + 1) =~= t.take(i as int).push(t[i as int]));
            vstd::seq_lib::to_multiset_insert(before, pos as int, x@);
            vstd::seq_lib::to_multiset_build(t.take(i as int), t[i as int]);
            let s = char_views(r@);
            assert forall|a: int, b: int| 0 <= a < b < s.len() implies !lex_lt(#[trigger] s[b], #[trigger] s[a]) by {
                if b < pos {
                    assert(s[a] == before[a] && s[b] == before[b]);
                } else if b == pos {
                    assert(s[a] == before[a]);
                    assert(!lex_lt(x@, before[a]));
                } else if a < pos {
                    assert(s[a] == before[a] && s[b] == before[b - 1]);
                } else if a == pos {
                    assert(s[b] == before[b - 1]);
                    if pos < before.len() {
                        assert(lex_lt(x@, before[pos as int]));
                        if b - 1 > pos {
                            lemma_lex_total(before[pos as int], before[b - 1]);
                            if lex_lt(before[pos as int], before[b - 1]) {
                                lemma_lex_transitive(x@, before[pos as int], before[b - 1]);
                            }
                        }
                        if lex_lt(before[b - 1], x@) {
                            lemma_lex_transitive(before[b - 1], x@, before[pos as int]);
                            if b - 1 == pos {
                                lemma_lex_irreflexive(before[pos as int]);
                            } else {
                                assert(!lex_lt(before[b - 1], before[pos as int]));
                            }
                        }
                    }
                } else {
                    assert(s[a] == before[a - 1] && s[b] == before[b - 1]);
                }
            }
        }
        i += 1;
    }
    proof {
        assert(t.take(n as int) =~= t);
    }
    r
}

/// The texts joined with `|` between them.
pub open spec fn join_bar(s: Seq<Seq<char>>) -> Seq<char>
    decreases s.len(),
{
    if s.len() == 0 {
        Seq::empty()
    } else if s.len() == 1 {
        s[0]
    } else {
        join_bar(s.drop_last()) + seq!['|'] + s.last()
    }
}

/// One file of a folder: its path relative to the folder, and its size.
#[derive(Debug, Clone)]
pub struct FolderFile {
    pub relative_path: String,
    pub size: u64,
}

/// The line a file contributes to a folder's structure: `"{relative_path}:{size}"`.
pub open spec fn structure_line(f: FolderFile) -> Seq<char> {
    f.relative_path@ + seq![':'] + dec_seq(f.size as nat)
}

/// The lines of all files.
pub open spec fn structure_lines(fs: Seq<FolderFile>) -> Seq<Seq<char>> {
    fs.map_values(|f: FolderFile| structure_line(f))
}

/// The hash of a folder's structure: seahash of its files' lines, sorted, joined
/// with `|`, where `s` is that sorted order.
pub open spec fn structure_hash_ok(fs: Seq<FolderFile>, s: Seq<Seq<char>>, h: u64) -> bool {
    &&& is_sorted_perm(structure_lines(fs), s)
    &&& h == seahash_value(encode_utf8(join_bar(s)))
}

/// The hash of a folder's structure (names and sizes of the files in it, not their
/// content), independent of the order the files were listed in.
pub fn folder_structure_hash(files: &Vec<FolderFile>) -> (h: u64)
    ensures
        exists|s: Seq<Seq<char>>| structure_hash_ok(files@, s, h),
{
    let mut lines: Vec<Vec<char>> = Vec::new();
    let mut i: usize = 0;
    while i < files.len()
        invariant
            i <= files@.len(),
            char_views(lines@) == structure_lines(files@.take(i as int)),
        decreases files.len() - i,
    {
        let mut line = chars_of(files[i].relative_path.as_str());
        line.push(':');
        let d = dec_chars(files[i].size);
        push_all(&mut line, &d);
        let ghost before = char_views(lines@);
        proof {
            assert(line@ =~= structure_line(files@[i as int]));
        }
        lines.push(line);
        proof {
            assert(char_views(lines@) =~= before.push(structure_line(files@[i as int])));
            assert(structure_lines(files@.take(i + 1)) =~= structure_lines(files@.take(i as int)).push(structure_line(files@[i as int])));
        }
        i += 1;
    }
    proof {
        assert(files@.take(files@.len() as int) =~= files@);
    }
    let sorted = sort_texts(lines);
    let mut joined: Vec<char> = Vec::new();
    let mut k: usize = 0;
    while k < sorted.len()
        invariant
            k <= sorted@.len(),
            joined@ == join_bar(char_views(sorted@).take(k as int)),
        decreases sorted.len() - k,
    {
        proof {
            let s = char_views(sorted@);
            assert(s.take(k + 1).drop_last() =~= s.take(k as int));
            assert(s.take(k + 1).last() == sorted@[k as int]@);
            if k == 0 {
                assert(s.take(0) =~= Seq::<Seq<char>>::empty());
            }
        }
        if k > 0 {
            joined.push('|');
        }
        push_all(&mut joined, &sorted[k]);
        proof {
            if k == 0 {
                assert(joined@ =~= sorted@[0]@);
            }
        }
        k += 1;
    }
    proof {
        assert(char_views(sorted@).take(sorted@.len() as int) =~= char_views(sorted@));
    }
    let text = string_from_chars(&joined);
    let bytes = text.as_str().as_bytes_vec();
    let h = seahash_of(&bytes);
    proof {
        assert(structure_hash_ok(files@, char_views(sorted@), h));
    }
    h
}

/// The eight little-endian bytes of a number.
pub open spec fn le_bytes(x: u64) -> Seq<u8> {
    Seq::new(8, |k: int| ((x as nat / vstd::arithmetic::power2::pow2((8 * k) as nat)) % 256) as u8)
}

/// The bytes of a number, least significant first.
fn le_bytes_of(x: u64) -> (r: Vec<u8>)
    ensures
        r@ == le_bytes(x),
{
    let mut r: Vec<u8> = Vec::new();
    let mut v: u64 = x;
    let mut k: usize = 0;
    proof {
        vstd::arithmetic::power2::lemma2_to64();
        assert((8 * 0) as nat == 0);
        assert(vstd::arithmetic::power2::pow2(0) == 1);
        assert(x as nat / 1 == x as nat);
    }
    while k < 8
        invariant
            k <= 8,
            r@.len() == k,
            v as nat == x as nat / vstd::arithmetic::power2::pow2((8 * k) as nat),
            forall|j: int| 0 <= j < k ==> #[trigger] r@[j] == le_bytes(x)[j],
        decreases 8 - k,
    {
        r.push((v % 256) as u8);
        proof {
            vstd::arithmetic::power2::lemma_pow2_adds((8 * k) as nat, 8);
            vstd::arithmetic::power2::lemma2_to64();
            let p = vstd::arithmetic::power2::pow2((8 * k) as nat);
            assert(p > 0) by {
                vstd::arithmetic::power2::lemma_pow2_pos((8 * k) as nat);
            }
            vstd::arithmetic::div_mod::lemma_div_denominator(x as int, p as int, 256);
            assert((8 * (k + 1)) as nat == (8 * k) as nat + 8);
        }
        v = v / 256;
        k += 1;
    }
    assert(r@ =~= le_bytes(x));
    r
}

/// The hash identifying a file's content: seahash of the first bytes of the file
/// (up to 64 KiB), combined with the file's size by hashing both as little-endian
/// bytes.
pub open spec fn content_hash(prefix: Seq<u8>, size: u64) -> u64 {
    seahash_value(le_bytes(seahash_value(prefix)) + le_bytes(size))
}

/// The content hash of a file from its first bytes and its size.
pub fn file_content_hash(prefix: &Vec<u8>, size: u64) -> (h: u64)
    ensures
        h == content_hash(prefix@, size),
{
    let inner = seahash_of(prefix);
    let mut bytes = le_bytes_of(inner);
    let tail = le_bytes_of(size);
    let ghost a = bytes@;
    let mut k: usize = 0;
    while k < tail.len()
        invariant
            k <= tail@.len(),
            bytes@ == a + tail@.take(k as int),
        decreases tail.len() - k,
    {
        bytes.push(tail[k]);
        k += 1;
        assert(bytes@ =~= a + tail@.take(k as int));
    }
    assert(tail@.take(tail@.len() as int) =~= tail@);
    seahash_of(&bytes)
}

/// Total of the sizes.
pub open spec fn sum_of(v: Seq<u64>) -> nat
    decreases v.len(),
{
    if v.len() == 0 {
        0
    } else {
        sum_of(v.drop_last()) + (v.last() as nat)
    }
}

/// The size of a directory: the total of its files' sizes.
pub fn total_size(sizes: &Vec<u64>) -> (r: u64)
    requires
        sum_of(sizes@) <= u64::MAX,
    ensures
        r == sum_of(sizes@),
{
    let mut t: u64 = 0;
    let mut i: usize = 0;
    while i < sizes.len()
        invariant
            i <= sizes@.len(),
            sum_of(sizes@) <= u64::MAX,
            t == sum_of(sizes@.take(i as int)),
        decreases sizes.len() - i,
    {
        proof {
            assert(sizes@.take(i + 1).drop_last() =~= sizes@.take(i as int));
            lemma_sum_prefix(sizes@, i + 1);
        }
        t = t + sizes[i];
        i += 1;
    }
    assert(sizes@.take(sizes@.len() as int) =~= sizes@);
    t
}

/// A prefix sums to no more than the whole.
proof fn lemma_sum_prefix(v: Seq<u64>, k: int)
    requires
        0 <= k <= v.len(),
    ensures
        sum_of(v.take(k)) <= sum_of(v),
    decreases v.len() - k,
{
    if k < v.len() {
        lemma_sum_prefix(v, k + 1);
        assert(v.take(k + 1).drop_last() =~= v.take(k));
    } else {
        assert(v.take(k) =~= v);
    }
}

/// First-pass key of each entry: its size and name, when it is large enough.
pub open spec fn size_name_keys(es: Seq<FileEntry>, min: u64) -> Seq<Option<KeyValue>> {
    Seq::new(
        es.len(),
        |i: int|
            if es[i].size >= min {
                Some(KeyValue::Composite(es[i].size, 0, file_name_or_empty(es[i].path@)))
            } else {
                None
            },
    )
}

/// The key of an entry, given its name.
fn entry_key(e: &FileEntry, min: u64, hash: Option<u64>) -> (k: Option<ClassKey>)
    ensures
        key_value(k) == (if e.size >= min && (hash is Some) {
            Some(KeyValue::Composite(e.size, hash->0, file_name_or_empty(e.path@)))
        } else {
            None
        }),
{
    if e.size >= min {
        match hash {
            Some(h) => {
                let name = file_name_text(e.path.as_str());
                Some(ClassKey::Composite(e.size, h, chars_of(name.as_str())))
            },
            None => None,
        }
    } else {
        None
    }
}

/// The entries of equal size and name (each at least `min` bytes) that may be
/// copies of one another: only these need their content hashed.
pub fn size_name_classes(entries: &Vec<FileEntry>, min: u64) -> (r: Vec<Vec<usize>>)
    ensures
        is_class_list(size_name_keys(entries@, min), r@.map_values(|c: Vec<usize>| c@)),
{
    let mut keys: Vec<Option<ClassKey>> = Vec::new();
    let mut i: usize = 0;
    while i < entries.len()
        invariant
            i <= entries@.len(),
            keys@.len() == i,
            forall|j: int| 0 <= j < i ==> key_value(#[trigger] keys@[j]) == size_name_keys(entries@, min)[j],
        decreases entries.len() - i,
    {
        keys.push(entry_key(&entries[i], min, Some(0)));
        i += 1;
    }
    assert(key_values(keys@) =~= size_name_keys(entries@, min));
    let (classes, _) = multi_classes(&keys);
    proof {
        lemma_class_list(keys@, classes@);
    }
    classes
}

/// Second-pass key of each entry: size, content hash and name, for large enough
/// entries whose hash is known.
pub open spec fn copy_keys(es: Seq<FileEntry>, hashes: Seq<Option<u64>>, min: u64) -> Seq<Option<KeyValue>> {
    Seq::new(
        es.len(),
        |i: int|
            if es[i].size >= min && (hashes[i] is Some) {
                Some(KeyValue::Composite(es[i].size, hashes[i]->0, file_name_or_empty(es[i].path@)))
            } else {
                None
            },
    )
}

/// `o` lists the entries of `m` newest first; among equally recent ones, those
/// listed later come first (a stable sort by time, reversed).
pub open spec fn newest_first_reversed(es: Seq<FileEntry>, m: Seq<usize>, o: Seq<usize>) -> bool {
    &&& o.len() == m.len()
    &&& forall|a: int| 0 <= a < o.len() ==> m.contains(#[trigger] o[a])
    &&& forall|b: int| 0 <= b < m.len() ==> o.contains(#[trigger] m[b])
    &&& forall|i: int, j: int|
        0 <= i < j < o.len() ==> time_key(es[#[trigger] o[i] as int].modified) > time_key(es[#[trigger] o[j] as int].modified)
            || (time_key(es[o[i] as int].modified) == time_key(es[o[j] as int].modified) && o[i] > o[j])
}

/// `c` is the candidate for copy `i` (with content hash `h`): the newest copy is
/// kept, older ones are proposed for deletion.
pub open spec fn duplicate_ok(es: Seq<FileEntry>, i: int, newest: bool, h: u64, folders: bool, c: Candidate) -> bool {
    &&& c.path@ == es[i].path@
    &&& c.kind == TargetKind::Other(c.kind->Other_0) && c.kind->Other_0@ == (if folders { "duplicate-folder"@ } else { "duplicate-file"@ })
    &&& (if newest { c.action is Skip } else { c.action is Delete })
    &&& c.size_bytes == es[i].size
    &&& c.last_modified == es[i].modified
    &&& c.last_accessed is None
    &&& c.reproducibility == 1000
    &&& c.score == (if newest { 0u32 } else { 900u32 })
    &&& tag_views(c.tags@) == (if newest {
        seq!["duplicate"@, "newest"@, "keep"@]
    } else {
        seq!["duplicate"@, "older-copy"@]
    })
    &&& opt_view(c.group) == Some((if folders { "Duplicate Folder: hash-"@ } else { "Duplicate File: hash-"@ }) + hex_seq(h as nat))
}

/// The listed entries newest first, ties latest first.
fn newest_first_reversed_order(es: &Vec<FileEntry>, m: &Vec<usize>) -> (o: Vec<usize>)
    requires
        forall|a: int| 0 <= a < m@.len() ==> #[trigger] m@[a] < es@.len(),
        forall|a: int, b: int| 0 <= a < b < m@.len() ==> #[trigger] m@[a] < #[trigger] m@[b],
    ensures
        newest_first_reversed(es@, m@, o@),
{
    let n = m.len();
    let mut rev: Vec<usize> = Vec::new();
    let mut keys: Vec<u128> = Vec::new();
    let mut x: usize = 0;
    while x < n
        invariant
            n == m@.len(),
            x <= n,
            forall|a: int| 0 <= a < m@.len() ==> #[trigger] m@[a] < es@.len(),
            rev@.len() == x,
            keys@.len() == x,
            forall|a: int| 0 <= a < x ==> #[trigger] rev@[a] == m@[n - 1 - a],
            forall|a: int| 0 <= a < x ==> #[trigger] keys@[a] == time_key(es@[rev@[a] as int].modified),
        decreases n - x,
    {
        let idx = m[n - 1 - x];
        rev.push(idx);
        keys.push(crate::archives::time_key_of(es[idx].modified));
        x += 1;
    }
    let ord = desc_order_wide(&keys);
    let mut o: Vec<usize> = Vec::new();
    let mut y: usize = 0;
    while y < ord.len()
        invariant
            is_desc_order_wide(keys@, ord@),
            keys@.len() == n,
            rev@.len() == n,
            y <= ord@.len(),
            o@.len() == y,
            forall|a: int| 0 <= a < y ==> #[trigger] o@[a] == rev@[ord@[a] as int],
        decreases ord.len() - y,
    {
        o.push(rev[ord[y]]);
        y += 1;
    }
    proof {
        assert forall|a: int| 0 <= a < o@.len() implies m@.contains(#[trigger] o@[a]) by {
            let r = ord@[a] as int;
            assert(rev@[r] == m@[n - 1 - r]);
        }
        assert forall|b: int| 0 <= b < m@.len() implies o@.contains(#[trigger] m@[b]) by {
            let r = n - 1 - b;
            assert(rev@[r] == m@[b]);
            assert(listed(ord@, r));
            let i = choose|i: int| 0 <= i < ord@.len() && ord@[i] == r;
            assert(o@[i] == m@[b]);
        }
        assert forall|i: int, j: int| 0 <= i < j < o@.len() implies time_key(es@[#[trigger] o@[i] as int].modified) > time_key(es@[#[trigger] o@[j] as int].modified)
            || (time_key(es@[o@[i] as int].modified) == time_key(es@[o@[j] as int].modified) && o@[i] > o@[j]) by {
            assert(ranks_before_wide(keys@, ord@[i] as int, ord@[j] as int));
            let ri = ord@[i] as int;
            let rj = ord@[j] as int;
            assert(o@[i] == rev@[ri] && o@[j] == rev@[rj]);
            if ri < rj {
                assert(rev@[ri] == m@[n - 1 - ri] && rev@[rj] == m@[n - 1 - rj]);
                assert(m@[n - 1 - rj] < m@[n - 1 - ri]);
            }
        }
    }
    o
}

/// The candidate for one copy.
fn duplicate_candidate(es: &Vec<FileEntry>, i: usize, newest: bool, h: u64, folders: bool) -> (c: Candidate)
    requires
        i < es@.len(),
    ensures
        duplicate_ok(es@, i as int, newest, h, folders, c),
{
    let e = &es[i];
    let mut group: Vec<char> = Vec::new();
    if folders {
        push_str(&mut group, "Duplicate Folder: hash-");
    } else {
        push_str(&mut group, "Duplicate File: hash-");
    }
    let hex = hex_chars(h);
    push_all(&mut group, &hex);
    let tags = if newest {
        let t = strings_of(&["duplicate", "newest", "keep"]);
        proof {
            assert(tag_views(t@) =~= seq!["duplicate"@, "newest"@, "keep"@]);
        }
        t
    } else {
        let t = strings_of(&["duplicate", "older-copy"]);
        proof {
            assert(tag_views(t@) =~= seq!["duplicate"@, "older-copy"@]);
        }
        t
    };
    let label = if folders { owned("duplicate-folder") } else { owned("duplicate-file") };
    Candidate {
        path: e.path.clone(),
        kind: TargetKind::Other(label),
        size_bytes: e.size,
        last_modified: e.modified,
        last_accessed: None,
        reproducibility: 1000,
        score: if newest { 0 } else { 900 },
        tags,
        action: if newest { Action::Skip } else { Action::Delete },
        group: Some(string_from_chars(&group)),
    }
}

/// The candidates from classes `ms` of copies, each listed as in `os`.
pub open spec fn duplicates_ok(
    es: Seq<FileEntry>,
    hashes: Seq<Option<u64>>,
    min: u64,
    folders: bool,
    ms: Seq<Seq<usize>>,
    os: Seq<Seq<usize>>,
    r: Seq<Candidate>,
) -> bool {
    &&& is_class_list(copy_keys(es, hashes, min), ms)
    &&& os.len() == ms.len()
    &&& forall|c: int| 0 <= c < ms.len() ==> newest_first_reversed(es, #[trigger] ms[c], os[c])
    &&& r.len() == class_offset(ms, ms.len() as int)
    &&& forall|c: int, j: int|
        0 <= c < ms.len() && 0 <= j < ms[c].len() ==> duplicate_ok(
            es,
            #[trigger] os[c][j] as int,
            j == 0,
            hashes[ms[c][0] as int]->0,
            folders,
            r[class_offset(ms, c) + j],
        )
}

/// Append the candidates of one class of copies.
fn push_duplicates(out: &mut Vec<Candidate>, es: &Vec<FileEntry>, order: &Vec<usize>, h: u64, folders: bool)
    requires
        forall|x: int| 0 <= x < order@.len() ==> #[trigger] order@[x] < es@.len(),
    ensures
        final(out)@.len() == old(out)@.len() + order@.len(),
        forall|k: int| 0 <= k < old(out)@.len() ==> final(out)@[k] == old(out)@[k],
        forall|x: int| 0 <= x < order@.len() ==> duplicate_ok(es@, #[trigger] order@[x] as int, x == 0, h, folders, final(out)@[old(out)@.len() + x]),
{
    let ghost start = out@.len();
    let ghost before = out@;
    let mut j: usize = 0;
    while j < order.len()
        invariant
            forall|x: int| 0 <= x < order@.len() ==> #[trigger] order@[x] < es@.len(),
            start == old(out)@.len(),
            before == old(out)@,
            j <= order@.len(),
            out@.len() == start + j,
            forall|k: int| 0 <= k < start ==> out@[k] == before[k],
            forall|x: int| 0 <= x < j ==> duplicate_ok(es@, #[trigger] order@[x] as int, x == 0, h, folders, out@[start + x]),
        decreases order.len() - j,
    {
        let cand = duplicate_candidate(es, order[j], j == 0, h, folders);
        out.push(cand);
        j += 1;
    }
}

/// The duplicate candidates among entries (files, or folders when `folders`), given
/// each entry's content hash where it was computed: entries of at least `min`
/// bytes with equal size, name and hash form a group; in each group the newest is
/// kept and the others are proposed for deletion.
pub fn duplicate_candidates(entries: &Vec<FileEntry>, hashes: &Vec<Option<u64>>, min: u64, folders: bool) -> (r: Vec<Candidate>)
    requires
        hashes@.len() == entries@.len(),
    ensures
        exists|ms: Seq<Seq<usize>>, os: Seq<Seq<usize>>| duplicates_ok(entries@, hashes@, min, folders, ms, os, r@),
{
    let ghost es = entries@;
    let mut keys: Vec<Option<ClassKey>> = Vec::new();
    let mut i: usize = 0;
    while i < entries.len()
        invariant
            es == entries@,
            hashes@.len() == es.len(),
            i <= es.len(),
            keys@.len() == i,
            forall|j: int| 0 <= j < i ==> key_value(#[trigger] keys@[j]) == copy_keys(es, hashes@, min)[j],
        decreases entries.len() - i,
    {
        keys.push(entry_key(&entries[i], min, hashes[i]));
        i += 1;
    }
    assert(key_values(keys@) =~= copy_keys(es, hashes@, min));
    let (classes, _) = multi_classes(&keys);
    let ghost g = classes@.map_values(|c: Vec<usize>| c@);
    proof {
        lemma_class_list(keys@, classes@);
    }
    let mut out: Vec<Candidate> = Vec::new();
    let ghost mut os: Seq<Seq<usize>> = Seq::empty();
    let mut d: usize = 0;
    while d < classes.len()
        invariant
            es == entries@,
            hashes@.len() == es.len(),
            g == classes@.map_values(|c: Vec<usize>| c@),
            is_class_list(copy_keys(es, hashes@, min), g),
            d <= classes@.len(),
            os.len() == d,
            forall|k: int| 0 <= k < d ==> newest_first_reversed(es, #[trigger] g[k], os[k]),
            out@.len() == class_offset(g, d as int),
            forall|k: int, j: int|
                0 <= k < d && 0 <= j < g[k].len() ==> duplicate_ok(
                    es,
                    #[trigger] os[k][j] as int,
                    j == 0,
                    hashes@[g[k][0] as int]->0,
                    folders,
                    out@[class_offset(g, k) + j],
                ),
        decreases classes.len() - d,
    {
        let m = &classes[d];
        proof {
            assert(g[d as int] == m@);
            assert(is_full_class(copy_keys(es, hashes@, min), m@));
            assert(copy_keys(es, hashes@, min)[m@[0] as int] is Some);
            lemma_class_offset_step(g, d as int);
        }
        let order = newest_first_reversed_order(entries, m);
        let h = match hashes[m[0]] {
            Some(h) => h,
            None => 0,
        };
        let ghost before = out@;
        proof {
            assert forall|x: int| 0 <= x < order@.len() implies #[trigger] order@[x] < es.len() by {
                assert(m@.contains(order@[x]));
            }
        }
        push_duplicates(&mut out, entries, &order, h, folders);
        proof {
            os = os.push(order@);
            assert forall|k: int, j: int|
                0 <= k < d + 1 && 0 <= j < g[k].len() implies duplicate_ok(
                    es,
                    #[trigger] os[k][j] as int,
                    j == 0,
                    hashes@[g[k][0] as int]->0,
                    folders,
                    out@[class_offset(g, k) + j],
                ) by {
                if k < d {
                    lemma_class_offset_step(g, k);
                    lemma_class_offset_monotone(g, k + 1, d as int);
                    assert(out@[class_offset(g, k) + j] == before[class_offset(g, k) + j]);
                } else {
                    assert(os[k] == order@);
                }
            }
        }
        d += 1;
    }
    proof {
        assert(duplicates_ok(es, hashes@, min, folders, g, os, out@));
    }
    out
}

} // verus!
