//! Large archives: split archives (`.part-NNN`) and copies of one archive.
use vstd::prelude::*;
use crate::text::{
    chars_of, string_from_chars, to_lowercase, lowercase_of, has_suffix, occurs_at, matches_at, ends_with_str,
    push_str, push_all, strings_of,
};
use crate::time::Timestamp;
use crate::candidate::{Action, Candidate, TargetKind, FileEntry};
use crate::profile::Profile;
use crate::paths::{opt_view, path_file_name, path_parent, file_name_of, parent_of};
use crate::order::{
    ClassKey, KeyValue, key_value, key_values, shares, is_full_class, multi_classes, desc_order_wide,
    is_desc_order_wide, ranks_before_wide, listed, copy_positions, is_class_list, class_offset,
    lemma_class_list, lemma_class_offset_step, lemma_class_offset_monotone,
};
use crate::strategy::tag_views;

verus! {

/// `.part-` followed by the part number marks a piece of a split archive.
pub open spec fn part_marker() -> Seq<char> {
    seq!['.', 'p', 'a', 'r', 't', '-']
}

/// The last position at or before `k` where `p` occurs in `s`.
pub open spec fn last_occurrence_from(s: Seq<char>, p: Seq<char>, k: int) -> Option<int>
    decreases k + 1,
{
    if k < 0 {
        None
    } else if occurs_at(s, p, k) {
        Some(k)
    } else {
        last_occurrence_from(s, p, k - 1)
    }
}

/// The last position where `p` occurs in `s` (std `str::rfind`).
pub open spec fn last_occurrence(s: Seq<char>, p: Seq<char>) -> Option<int> {
    last_occurrence_from(s, p, s.len() - p.len())
}

/// Every character is an ASCII digit.
pub open spec fn all_digits(s: Seq<char>) -> bool {
    forall|i: int| 0 <= i < s.len() ==> '0' <= #[trigger] s[i] <= '9'
}

/// The archive name before the last `.part-` marker, when the marker is not at the
/// start and only digits follow it.
pub open spec fn split_base(s: Seq<char>) -> Option<Seq<char>> {
    match last_occurrence(s, part_marker()) {
        Some(i) => if i > 0 && all_digits(s.skip(i + 6)) {
            Some(s.take(i))
        } else {
            None
        },
        None => None,
    }
}

/// The last position where `p` occurs in `c`.
fn last_at(c: &Vec<char>, p: &Vec<char>) -> (r: Option<usize>)
    requires
        p@.len() <= c@.len(),
    ensures
        match r {
            Some(k) => last_occurrence(c@, p@) == Some(k as int) && k + p@.len() <= c@.len(),
            None => last_occurrence(c@, p@) is None,
        },
{
    let mut k: usize = c.len() - p.len();
    loop
        invariant
            p@.len() <= c@.len(),
            k <= c@.len() - p@.len(),
            last_occurrence(c@, p@) == last_occurrence_from(c@, p@, k as int),
        decreases k,
    {
        if matches_at(c, p, k) {
            return Some(k);
        }
        if k == 0 {
            assert(last_occurrence_from(c@, p@, -1) is None);
            return None;
        }
        k = k - 1;
    }
}

/// Detect a split archive name (`file.zip.part-000`) and give the name of the whole
/// archive (`file.zip`).
pub fn detect_split_archive(filename: &str) -> (r: Option<String>)
    ensures
        match r {
            Some(b) => split_base(filename@) == Some(b@),
            None => split_base(filename@) is None,
        },
{
    let c = chars_of(filename);
    let marker = chars_of(".part-");
    proof {
        reveal_strlit(".part-");
        assert(marker@ =~= part_marker());
    }
    if c.len() < 6 {
        proof {
            assert(last_occurrence(c@, part_marker()) is None);
        }
        return None;
    }
    let k = match last_at(&c, &marker) {
        Some(k) => k,
        None => {
            return None;
        },
    };
    if k == 0 {
        return None;
    }
    let mut j: usize = k + 6;
    while j < c.len()
        invariant
            c@ == filename@,
            last_occurrence(c@, part_marker()) == Some(k as int),
            k > 0,
            k + 6 <= j <= c@.len(),
            forall|x: int| k + 6 <= x < j ==> '0' <= #[trigger] c@[x] <= '9',
        decreases c.len() - j,
    {
        if !(c[j] >= '0' && c[j] <= '9') {
            proof {
                let t = c@.skip(k + 6);
                assert(t[j - k - 6] == c@[j as int]);
            }
            return None;
        }
        j += 1;
    }
    let mut base: Vec<char> = Vec::new();
    let mut x: usize = 0;
    while x < k
        invariant
            c@ == filename@,
            last_occurrence(c@, part_marker()) == Some(k as int),
            forall|y: int| k + 6 <= y < c@.len() ==> '0' <= #[trigger] c@[y] <= '9',
            k + 6 <= c@.len(),
            x <= k < c@.len(),
            base@ == c@.subrange(0, x as int),
        decreases k - x,
    {
        base.push(c[x]);
        x += 1;
        assert(base@ =~= c@.subrange(0, x as int));
    }
    proof {
        let t = c@.skip(k + 6);
        assert forall|i: int| 0 <= i < t.len() implies '0' <= #[trigger] t[i] <= '9' by {
            assert(t[i] == c@[k + 6 + i]);
        }
        assert(base@ =~= c@.take(k as int));
    }
    Some(string_from_chars(&base))
}

/// Archive suffixes removed from a name before its copies are compared, tried in
/// this order.
pub open spec fn strip_exts() -> Seq<&'static str> {
    seq![".tar.gz", ".tar.bz2", ".tar.xz", ".zip", ".tgz", ".tbz2", ".txz", ".7z", ".rar", ".tar"]
}

/// The name without the first of `exts` that it ends with.
pub open spec fn strip_first_suffix(s: Seq<char>, exts: Seq<&str>) -> Seq<char>
    decreases exts.len(),
{
    if exts.len() == 0 {
        s
    } else if has_suffix(s, exts[0]@) {
        s.take(s.len() - exts[0]@.len())
    } else {
        strip_first_suffix(s, exts.drop_first())
    }
}

/// A character of a version or date suffix: a digit, `.`, `-` or `_`.
pub open spec fn version_char(c: char) -> bool {
    ('0' <= c && c <= '9') || c == '.' || c == '-' || c == '_'
}

/// The text without its trailing version characters.
pub open spec fn trim_version(s: Seq<char>) -> Seq<char>
    decreases s.len(),
{
    if s.len() > 0 && version_char(s.last()) {
        trim_version(s.drop_last())
    } else {
        s
    }
}

/// Unicode white space (the `White_Space` property that std's `char::is_whitespace`
/// tests).
pub open spec fn white_space(c: char) -> bool {
    ('\u{9}' <= c && c <= '\u{d}') || c == ' ' || c == '\u{85}' || c == '\u{a0}' || c == '\u{1680}'
        || ('\u{2000}' <= c && c <= '\u{200a}') || c == '\u{2028}' || c == '\u{2029}' || c == '\u{202f}'
        || c == '\u{205f}' || c == '\u{3000}'
}

/// The text without its trailing white space.
pub open spec fn trim_white_end(s: Seq<char>) -> Seq<char>
    decreases s.len(),
{
    if s.len() > 0 && white_space(s.last()) {
        trim_white_end(s.drop_last())
    } else {
        s
    }
}

/// The last position of `c` in `s`.
pub open spec fn last_index_of(s: Seq<char>, c: char) -> Option<int>
    decreases s.len(),
{
    if s.len() == 0 {
        None
    } else if s.last() == c {
        Some(s.len() - 1)
    } else {
        last_index_of(s.drop_last(), c)
    }
}

/// The name under which copies of one archive are compared: lowercased, without
/// its archive suffix, without trailing version characters, and cut before a last
/// `(` (with the white space before it).
pub open spec fn base_name(filename: Seq<char>) -> Seq<char> {
    let a = trim_version(strip_first_suffix(lowercase_of(filename), strip_exts()));
    match last_index_of(a, '(') {
        Some(i) => trim_white_end(a.take(i)),
        None => a,
    }
}

/// The first `n` characters.
fn prefix_chars(c: &Vec<char>, n: usize) -> (r: Vec<char>)
    requires
        n <= c@.len(),
    ensures
        r@ == c@.take(n as int),
{
    let mut r: Vec<char> = Vec::new();
    let mut x: usize = 0;
    while x < n
        invariant
            n <= c@.len(),
            x <= n,
            r@ == c@.take(x as int),
        decreases n - x,
    {
        r.push(c[x]);
        x += 1;
        assert(r@ =~= c@.take(x as int));
    }
    r
}

/// Whether a character belongs to a version or date suffix.
fn is_version_char(ch: char) -> (r: bool)
    ensures
        r == version_char(ch),
{
    ('0' <= ch && ch <= '9') || ch == '.' || ch == '-' || ch == '_'
}

/// Drop trailing characters while they are version characters.
fn trim_version_chars(c: &Vec<char>) -> (r: Vec<char>)
    ensures
        r@ == trim_version(c@),
{
    let mut n: usize = c.len();
    assert(c@.take(n as int) =~= c@);
    while n > 0 && is_version_char(c[n - 1])
        invariant
            n <= c@.len(),
            trim_version(c@) == trim_version(c@.take(n as int)),
        decreases n,
    {
        proof {
            assert(c@.take(n as int).drop_last() =~= c@.take(n - 1));
        }
        n = n - 1;
    }
    proof {
        if n == 0 {
            assert(c@.take(0) =~= Seq::<char>::empty());
        }
    }
    prefix_chars(c, n)
}

/// Drop trailing white space.
fn trim_white_chars(c: &Vec<char>) -> (r: Vec<char>)
    ensures
        r@ == trim_white_end(c@),
{
    let mut n: usize = c.len();
    assert(c@.take(n as int) =~= c@);
    while n > 0 && crate::plugins::is_white_char(c[n - 1])
        invariant
            n <= c@.len(),
            trim_white_end(c@) == trim_white_end(c@.take(n as int)),
        decreases n,
    {
        proof {
            assert(c@.take(n as int).drop_last() =~= c@.take(n - 1));
        }
        n = n - 1;
    }
    proof {
        if n == 0 {
            assert(c@.take(0) =~= Seq::<char>::empty());
        }
    }
    prefix_chars(c, n)
}

/// The last position of `ch`.
fn last_index(c: &Vec<char>, ch: char) -> (r: Option<usize>)
    ensures
        match r {
            Some(i) => last_index_of(c@, ch) == Some(i as int) && i < c@.len(),
            None => last_index_of(c@, ch) is None,
        },
{
    let mut n: usize = c.len();
    assert(c@.take(n as int) =~= c@);
    while n > 0
        invariant
            n <= c@.len(),
            last_index_of(c@, ch) == last_index_of(c@.take(n as int), ch),
        decreases n,
    {
        proof {
            assert(c@.take(n as int).drop_last() =~= c@.take(n - 1));
        }
        if c[n - 1] == ch {
            return Some(n - 1);
        }
        n = n - 1;
    }
    None
}

/// Extract the name under which copies of one archive are compared (strip the
/// archive suffix, version numbers, dates and a trailing ` (1)`).
pub fn extract_base_name(filename: &str) -> (r: String)
    ensures
        r@ == base_name(filename@),
{
    let lower = to_lowercase(filename);
    let name = chars_of(lower.as_str());
    let exts: [&str; 10] = [".tar.gz", ".tar.bz2", ".tar.xz", ".zip", ".tgz", ".tbz2", ".txz", ".7z", ".rar", ".tar"];
    assert(exts@ == strip_exts());
    let mut stripped: Option<Vec<char>> = None;
    let mut e: usize = 0;
    assert(strip_exts().skip(0) =~= strip_exts());
    while e < 10 && stripped.is_none()
        invariant
            exts@ == strip_exts(),
            e <= 10,
            stripped is None ==> strip_first_suffix(name@, strip_exts()) == strip_first_suffix(name@, strip_exts().skip(e as int)),
            stripped matches Some(v) ==> v@ == strip_first_suffix(name@, strip_exts()),
        decreases 10 - e + (if stripped is None { 1int } else { 0int }),
    {
        let ghost rest = strip_exts().skip(e as int);
        proof {
            assert(rest[0] == exts@[e as int]);
            assert(rest.drop_first() =~= strip_exts().skip(e + 1));
        }
        if ends_with_str(&name, exts[e]) {
            let ext = chars_of(exts[e]);
            stripped = Some(prefix_chars(&name, name.len() - ext.len()));
        } else {
            e += 1;
        }
    }
    let base = match stripped {
        Some(v) => v,
        None => {
            proof {
                assert(strip_exts().skip(10) =~= Seq::<&str>::empty());
            }
            name
        },
    };
    let trimmed = trim_version_chars(&base);
    let out = match last_index(&trimmed, '(') {
        Some(i) => {
            let head = prefix_chars(&trimmed, i);
            trim_white_chars(&head)
        },
        None => trimmed,
    };
    string_from_chars(&out)
}

/// Suffixes (after lowercasing) of the archive formats looked at.
pub open spec fn archive_suffixes() -> Seq<&'static str> {
    seq![
        ".zip", ".tar", ".gz", ".tgz", ".bz2", ".tbz2", ".xz", ".txz", ".7z", ".rar", ".tar.gz", ".tar.bz2",
        ".tar.xz",
    ]
}

/// The file name, lowercased, ends with an archive suffix.
pub open spec fn is_archive_name(name: Seq<char>) -> bool {
    exists|k: int| 0 <= k < archive_suffixes().len() && has_suffix(lowercase_of(name), #[trigger] archive_suffixes()[k]@)
}

/// What a file is to the archive scan: nothing (`None`), a part of a split archive
/// (`true` and the whole archive's name), or a possible copy (`false` and its base
/// name). Only archives of at least `min` bytes count.
pub open spec fn archive_role(f: FileEntry, min: u64) -> Option<(bool, Seq<char>)> {
    match path_file_name(f.path@) {
        None => None,
        Some(n) => if !is_archive_name(n) || f.size < min {
            None
        } else {
            match split_base(n) {
                Some(b) => Some((true, b)),
                None => Some((false, base_name(n))),
            }
        },
    }
}

/// Split-archive key of each file: the whole archive's name.
pub open spec fn split_keys(fs: Seq<FileEntry>, min: u64) -> Seq<Option<KeyValue>> {
    Seq::new(
        fs.len(),
        |i: int|
            match archive_role(fs[i], min) {
                Some((true, b)) => Some(KeyValue::Text(b)),
                _ => None,
            },
    )
}

/// Copy key of each file: its base name.
pub open spec fn copy_keys(fs: Seq<FileEntry>, min: u64) -> Seq<Option<KeyValue>> {
    Seq::new(
        fs.len(),
        |i: int|
            match archive_role(fs[i], min) {
                Some((false, b)) => Some(KeyValue::Text(b)),
                _ => None,
            },
    )
}

/// An order-preserving number for an optional instant: unknown first, then by
/// seconds, then by sub-second part.
pub open spec fn time_key(t: Option<Timestamp>) -> int {
    match t {
        None => 0,
        Some(x) => (x.secs + 0x8000_0000_0000_0000) * 0x1_0000_0000 + x.nanos + 1,
    }
}

/// `o` lists the files of `m`, newest first; files equally recent keep their order.
pub open spec fn newest_first(fs: Seq<FileEntry>, m: Seq<usize>, o: Seq<usize>) -> bool {
    &&& o.len() == m.len()
    &&& forall|a: int| 0 <= a < o.len() ==> m.contains(#[trigger] o[a])
    &&& forall|b: int| 0 <= b < m.len() ==> o.contains(#[trigger] m[b])
    &&& forall|i: int, j: int|
        0 <= i < j < o.len() ==> time_key(fs[#[trigger] o[i] as int].modified) > time_key(fs[#[trigger] o[j] as int].modified)
            || (time_key(fs[o[i] as int].modified) == time_key(fs[o[j] as int].modified) && o[i] < o[j])
}

/// Total size of the listed files.
pub open spec fn files_size(fs: Seq<FileEntry>, m: Seq<usize>) -> nat
    decreases m.len(),
{
    if m.len() == 0 {
        0
    } else {
        files_size(fs, m.drop_last()) + (fs[m.last() as int].size as nat)
    }
}

/// Whether `f` is a part of a split archive at minimum size `min`.
pub open spec fn is_split_part(f: FileEntry, min: u64) -> bool {
    archive_role(f, min) matches Some((true, _))
}

/// Total size of the files that are parts of split archives: the sizes the scan
/// adds up.
pub open spec fn split_parts_size(fs: Seq<FileEntry>, min: u64) -> nat
    decreases fs.len(),
{
    if fs.len() == 0 {
        0
    } else {
        split_parts_size(fs.drop_last(), min) + (if is_split_part(fs.last(), min) {
            fs.last().size as nat
        } else {
            0
        })
    }
}

/// The earlier of two optional instants, an unknown one left out.
pub open spec fn earlier(a: Option<Timestamp>, b: Option<Timestamp>) -> Option<Timestamp> {
    match (a, b) {
        (None, _) => b,
        (Some(x), None) => Some(x),
        (Some(x), Some(y)) => if y.spec_not_after(x) && y != x { Some(y) } else { Some(x) },
    }
}

/// The earliest known modification time among the listed files.
pub open spec fn earliest(fs: Seq<FileEntry>, m: Seq<usize>) -> Option<Timestamp>
    decreases m.len(),
{
    if m.len() == 0 {
        None
    } else {
        earlier(earliest(fs, m.drop_last()), fs[m.last() as int].modified)
    }
}

/// The name a role carries.
pub open spec fn role_name(f: FileEntry, min: u64) -> Seq<char> {
    match archive_role(f, min) {
        Some((_, b)) => b,
        None => Seq::empty(),
    }
}

/// `c` is the candidate for the split archive whose parts are `m`: the directory
/// of the first part, the parts' total size and earliest time, for review.
pub open spec fn split_candidate_ok(fs: Seq<FileEntry>, min: u64, m: Seq<usize>, c: Candidate) -> bool {
    &&& path_parent(fs[m[0] as int].path@) == Some(c.path@)
    &&& c.kind is LargeArchive
    &&& c.action is Skip
    &&& c.size_bytes == files_size(fs, m)
    &&& c.last_modified == earliest(fs, m)
    &&& c.last_accessed is None
    &&& c.reproducibility == 300
    &&& c.score == 600
    &&& tag_views(c.tags@) == seq!["split-archive"@, "review"@]
    &&& opt_view(c.group) == Some("Split Archive: "@ + role_name(fs[m[0] as int], min))
}

/// `c` is the candidate for copy `i` of an archive with base name `base`: the
/// newest copy is kept for review, older ones are proposed for deletion.
pub open spec fn copy_candidate_ok(fs: Seq<FileEntry>, i: int, newest: bool, base: Seq<char>, c: Candidate) -> bool {
    &&& c.path@ == fs[i].path@
    &&& c.kind is LargeArchive
    &&& (if newest { c.action is Skip } else { c.action is Delete })
    &&& c.size_bytes == fs[i].size
    &&& c.last_modified == fs[i].modified
    &&& c.last_accessed is None
    &&& c.reproducibility == 900
    &&& c.score == (if newest { 400u32 } else { 700u32 })
    &&& tag_views(c.tags@) == (if newest {
        seq!["duplicate"@, "newest"@, "review"@]
    } else {
        seq!["duplicate"@, "older-copy"@]
    })
    &&& opt_view(c.group) == Some("Duplicate Archive: "@ + base)
}

/// The sizes of listed split-archive parts add up to no more than those of all parts.
proof fn lemma_files_size_bound(fs: Seq<FileEntry>, min: u64, m: Seq<usize>, k: int)
    requires
        0 <= k <= fs.len(),
        forall|a: int| 0 <= a < m.len() ==> #[trigger] m[a] < k,
        forall|a: int| 0 <= a < m.len() ==> is_split_part(fs[#[trigger] m[a] as int], min),
        forall|a: int, b: int| 0 <= a < b < m.len() ==> #[trigger] m[a] < #[trigger] m[b],
    ensures
        files_size(fs, m) <= split_parts_size(fs.take(k), min),
    decreases k,
{
    if k == 0 {
        if m.len() > 0 {
            assert(m[0] < 0);
        }
    } else {
        assert(fs.take(k).drop_last() =~= fs.take(k - 1));
        assert(fs.take(k).last() == fs[k - 1]);
        if m.len() > 0 && m.last() == k - 1 {
            let d = m.drop_last();
            assert forall|a: int| 0 <= a < d.len() implies #[trigger] d[a] < k - 1 by {
                assert(m[a] < m[m.len() - 1]);
            }
            assert forall|a: int| 0 <= a < d.len() implies is_split_part(fs[#[trigger] d[a] as int], min) by {
                assert(d[a] == m[a]);
            }
            assert(is_split_part(fs[m[m.len() - 1] as int], min));
            lemma_files_size_bound(fs, min, d, k - 1);
        } else {
            assert forall|a: int| 0 <= a < m.len() implies #[trigger] m[a] < k - 1 by {
                if a < m.len() - 1 {
                    assert(m[a] < m[m.len() - 1]);
                }
            }
            lemma_files_size_bound(fs, min, m, k - 1);
        }
    }
}

/// Whether a name, lowercased, ends with an archive suffix.
fn archive_name(name: &str) -> (r: bool)
    ensures
        r == is_archive_name(name@),
{
    let lower = to_lowercase(name);
    let l = chars_of(lower.as_str());
    let sufs: [&str; 13] = [
        ".zip", ".tar", ".gz", ".tgz", ".bz2", ".tbz2", ".xz", ".txz", ".7z", ".rar", ".tar.gz", ".tar.bz2",
        ".tar.xz",
    ];
    assert(sufs@ == archive_suffixes());
    let mut k: usize = 0;
    while k < 13
        invariant
            sufs@ == archive_suffixes(),
            l@ == lowercase_of(name@),
            k <= 13,
            forall|j: int| 0 <= j < k ==> !has_suffix(lowercase_of(name@), #[trigger] archive_suffixes()[j]@),
        decreases 13 - k,
    {
        if ends_with_str(&l, sufs[k]) {
            return true;
        }
        k += 1;
    }
    false
}

/// The role of one file in the archive scan.
fn role_of(f: &FileEntry, min: u64) -> (r: Option<(bool, String)>)
    ensures
        match r {
            Some((split, b)) => archive_role(*f, min) == Some((split, b@)),
            None => archive_role(*f, min) is None,
        },
{
    let name = match file_name_of(f.path.as_str()) {
        Some(n) => n,
        None => {
            return None;
        },
    };
    if !archive_name(name.as_str()) || f.size < min {
        return None;
    }
    match detect_split_archive(name.as_str()) {
        Some(b) => Some((true, b)),
        None => Some((false, extract_base_name(name.as_str()))),
    }
}

/// The order-preserving number of an optional instant.
pub fn time_key_of(t: Option<Timestamp>) -> (k: u128)
    ensures
        k == time_key(t),
{
    match t {
        None => 0,
        Some(x) => {
            let s: u128 = (x.secs as i128 + 0x8000_0000_0000_0000i128) as u128;
            s * 0x1_0000_0000 + x.nanos as u128 + 1
        },
    }
}

/// The listed files, newest first (a stable sort on modification time).
fn newest_first_order(fs: &Vec<FileEntry>, m: &Vec<usize>) -> (o: Vec<usize>)
    requires
        forall|a: int| 0 <= a < m@.len() ==> #[trigger] m@[a] < fs@.len(),
        forall|a: int, b: int| 0 <= a < b < m@.len() ==> #[trigger] m@[a] < #[trigger] m@[b],
    ensures
        newest_first(fs@, m@, o@),
{
    let mut keys: Vec<u128> = Vec::new();
    let mut x: usize = 0;
    while x < m.len()
        invariant
            x <= m@.len(),
            forall|a: int| 0 <= a < m@.len() ==> #[trigger] m@[a] < fs@.len(),
            keys@.len() == x,
            forall|a: int| 0 <= a < x ==> #[trigger] keys@[a] == time_key(fs@[m@[a] as int].modified),
        decreases m.len() - x,
    {
        keys.push(time_key_of(fs[m[x]].modified));
        x += 1;
    }
    let ord = desc_order_wide(&keys);
    let mut o: Vec<usize> = Vec::new();
    let mut y: usize = 0;
    while y < ord.len()
        invariant
            is_desc_order_wide(keys@, ord@),
            keys@.len() == m@.len(),
            y <= ord@.len(),
            o@.len() == y,
            forall|a: int| 0 <= a < y ==> #[trigger] o@[a] == m@[ord@[a] as int],
        decreases ord.len() - y,
    {
        o.push(m[ord[y]]);
        y += 1;
    }
    proof {
        assert forall|a: int| 0 <= a < o@.len() implies m@.contains(#[trigger] o@[a]) by {
            assert(ord@[a] < m@.len());
        }
        assert forall|b: int| 0 <= b < m@.len() implies o@.contains(#[trigger] m@[b]) by {
            assert(listed(ord@, b));
            let i = choose|i: int| 0 <= i < ord@.len() && ord@[i] == b;
            assert(o@[i] == m@[b]);
        }
        assert forall|i: int, j: int| 0 <= i < j < o@.len() implies time_key(fs@[#[trigger] o@[i] as int].modified) > time_key(fs@[#[trigger] o@[j] as int].modified)
            || (time_key(fs@[o@[i] as int].modified) == time_key(fs@[o@[j] as int].modified) && o@[i] < o@[j]) by {
            assert(ranks_before_wide(keys@, ord@[i] as int, ord@[j] as int));
            assert(keys@[ord@[i] as int] == time_key(fs@[o@[i] as int].modified));
            assert(keys@[ord@[j] as int] == time_key(fs@[o@[j] as int].modified));
            if ord@[i] < ord@[j] {
                assert(m@[ord@[i] as int] < m@[ord@[j] as int]);
            }
        }
    }
    o
}

/// The earlier of two optional instants.
fn earlier_of(a: Option<Timestamp>, b: Option<Timestamp>) -> (r: Option<Timestamp>)
    ensures
        r == earlier(a, b),
{
    match (a, b) {
        (None, _) => b,
        (Some(x), None) => Some(x),
        (Some(x), Some(y)) => if y.not_after(&x) && !(y.secs == x.secs && y.nanos == x.nanos) {
            Some(y)
        } else {
            Some(x)
        },
    }
}

/// The candidate of one split archive, made of the parts `m`.
fn split_candidate(fs: &Vec<FileEntry>, min: u64, m: &Vec<usize>, base: &String) -> (c: Candidate)
    requires
        m@.len() >= 1,
        forall|a: int| 0 <= a < m@.len() ==> #[trigger] m@[a] < fs@.len(),
        forall|a: int, b: int| 0 <= a < b < m@.len() ==> #[trigger] m@[a] < #[trigger] m@[b],
        forall|a: int| 0 <= a < m@.len() ==> is_split_part(fs@[#[trigger] m@[a] as int], min),
        split_parts_size(fs@, min) <= u64::MAX,
        archive_role(fs@[m@[0] as int], min) is Some,
        role_name(fs@[m@[0] as int], min) == base@,
    ensures
        split_candidate_ok(fs@, min, m@, c),
{
    let mut total: u64 = 0;
    let mut oldest: Option<Timestamp> = None;
    let mut a: usize = 0;
    while a < m.len()
        invariant
            a <= m@.len(),
            forall|x: int| 0 <= x < m@.len() ==> #[trigger] m@[x] < fs@.len(),
            forall|x: int, y: int| 0 <= x < y < m@.len() ==> #[trigger] m@[x] < #[trigger] m@[y],
            forall|x: int| 0 <= x < m@.len() ==> is_split_part(fs@[#[trigger] m@[x] as int], min),
            split_parts_size(fs@, min) <= u64::MAX,
            total == files_size(fs@, m@.take(a as int)),
            oldest == earliest(fs@, m@.take(a as int)),
        decreases m.len() - a,
    {
        let ghost part = m@.take(a + 1);
        proof {
            assert(part.drop_last() =~= m@.take(a as int));
            assert forall|x: int, y: int| 0 <= x < y < part.len() implies #[trigger] part[x] < #[trigger] part[y] by {
                assert(m@[x] < m@[y]);
            }
            assert forall|x: int| 0 <= x < part.len() implies is_split_part(fs@[#[trigger] part[x] as int], min) by {
                assert(part[x] == m@[x]);
            }
            lemma_files_size_bound(fs@, min, part, fs@.len() as int);
            assert(fs@.take(fs@.len() as int) =~= fs@);
        }
        let f = &fs[m[a]];
        total = total + f.size;
        oldest = earlier_of(oldest, f.modified);
        a += 1;
    }
    proof {
        assert(m@.take(m@.len() as int) =~= m@);
    }
    let first = &fs[m[0]];
    proof {
        assert(path_file_name(first.path@) is Some);
    }
    let dir = match parent_of(first.path.as_str()) {
        Some(d) => d,
        None => String::new(),
    };
    let mut group: Vec<char> = Vec::new();
    push_str(&mut group, "Split Archive: ");
    push_str(&mut group, base.as_str());
    let tags = strings_of(&["split-archive", "review"]);
    proof {
        reveal_strlit("split-archive");
        reveal_strlit("review");
        assert(tag_views(tags@) =~= seq!["split-archive"@, "review"@]);
    }
    Candidate {
        path: dir,
        kind: TargetKind::LargeArchive,
        size_bytes: total,
        last_modified: oldest,
        last_accessed: None,
        reproducibility: 300,
        score: 600,
        tags,
        action: Action::Skip,
        group: Some(string_from_chars(&group)),
    }
}

/// The candidate of copy `i` of an archive.
fn copy_candidate(fs: &Vec<FileEntry>, i: usize, newest: bool, base: &String) -> (c: Candidate)
    requires
        i < fs@.len(),
    ensures
        copy_candidate_ok(fs@, i as int, newest, base@, c),
{
    let f = &fs[i];
    let mut group: Vec<char> = Vec::new();
    push_str(&mut group, "Duplicate Archive: ");
    push_str(&mut group, base.as_str());
    let tags = if newest {
        let t = strings_of(&["duplicate", "newest", "review"]);
        proof {
            assert(tag_views(t@) =~= seq!["duplicate"@, "newest"@, "review"@]);
        }
        t
    } else {
        let t = strings_of(&["duplicate", "older-copy"]);
        proof {
            assert(tag_views(t@) =~= seq!["duplicate"@, "older-copy"@]);
        }
        t
    };
    Candidate {
        path: f.path.clone(),
        kind: TargetKind::LargeArchive,
        size_bytes: f.size,
        last_modified: f.modified,
        last_accessed: None,
        reproducibility: 900,
        score: if newest { 400 } else { 700 },
        tags,
        action: if newest { Action::Skip } else { Action::Delete },
        group: Some(string_from_chars(&group)),
    }
}

/// Default minimum size of an archive worth a look: 100 MiB.
pub const DEFAULT_MIN_ARCHIVE_BYTES: u64 = 104857600;

/// The minimum archive size a profile asks for.
pub open spec fn min_archive_size(p: Profile) -> u64 {
    match p.min_size_bytes {
        Some(m) => m,
        None => DEFAULT_MIN_ARCHIVE_BYTES,
    }
}

/// Whether the profile enables the archive scan.
pub open spec fn archive_scan_on(p: Profile) -> bool {
    p.config_for("large-archive"@) matches Some(cfg) && cfg.enabled
}

/// The candidates found among `fs` when the scan runs with minimum size `min`:
/// one per split archive (classes `ms1`), then every copy of each archive with
/// copies (classes `ms2`, each listed newest first as in `os`).
pub open spec fn archive_candidates_ok(
    fs: Seq<FileEntry>,
    min: u64,
    ms1: Seq<Seq<usize>>,
    ms2: Seq<Seq<usize>>,
    os: Seq<Seq<usize>>,
    r: Seq<Candidate>,
) -> bool {
    &&& is_class_list(split_keys(fs, min), ms1)
    &&& is_class_list(copy_keys(fs, min), ms2)
    &&& os.len() == ms2.len()
    &&& forall|c: int| 0 <= c < ms2.len() ==> newest_first(fs, #[trigger] ms2[c], os[c])
    &&& r.len() == ms1.len() + class_offset(ms2, ms2.len() as int)
    &&& forall|c: int| 0 <= c < ms1.len() ==> split_candidate_ok(fs, min, #[trigger] ms1[c], r[c])
    &&& forall|c: int, j: int|
        0 <= c < ms2.len() && 0 <= j < ms2[c].len() ==> copy_candidate_ok(
            fs,
            #[trigger] os[c][j] as int,
            j == 0,
            role_name(fs[ms2[c][0] as int], min),
            r[ms1.len() + class_offset(ms2, c) + j],
        )
}

/// The split-part total of a prefix is at most that of a longer prefix.
proof fn lemma_split_parts_grow(fs: Seq<FileEntry>, min: u64, k: int, j: int)
    requires
        0 <= k <= j <= fs.len(),
    ensures
        split_parts_size(fs.take(k), min) <= split_parts_size(fs.take(j), min),
    decreases j - k,
{
    if j > k {
        assert(fs.take(j).drop_last() =~= fs.take(j - 1));
        lemma_split_parts_grow(fs, min, k, j - 1);
    }
}

/// Whether the parts of split archives among `files` have sizes that add up within
/// 64 bits at the profile's minimum size: the bound `scan_files` needs.
pub fn split_parts_fit(files: &Vec<FileEntry>, profile: &Profile) -> (r: bool)
    ensures
        r == (split_parts_size(files@, min_archive_size(*profile)) <= u64::MAX),
{
    let min: u64 = match profile.min_size_bytes {
        Some(m) => m,
        None => DEFAULT_MIN_ARCHIVE_BYTES,
    };
    let ghost fs = files@;
    let mut total: u64 = 0;
    let mut i: usize = 0;
    while i < files.len()
        invariant
            fs == files@,
            min == min_archive_size(*profile),
            i <= fs.len(),
            total == split_parts_size(fs.take(i as int), min),
        decreases files.len() - i,
    {
        proof {
            assert(fs.take(i + 1).drop_last() =~= fs.take(i as int));
            assert(fs.take(i + 1).last() == fs[i as int]);
        }
        let part = match role_of(&files[i], min) {
            Some((split, _)) => split,
            None => false,
        };
        if part {
            match total.checked_add(files[i].size) {
                Some(t) => {
                    total = t;
                },
                None => {
                    proof {
                        lemma_split_parts_grow(fs, min, i + 1, fs.len() as int);
                        assert(fs.take(fs.len() as int) =~= fs);
                    }
                    return false;
                },
            }
        }
        i += 1;
    }
    proof {
        assert(fs.take(fs.len() as int) =~= fs);
    }
    true
}

/// Find large archives among the files met while walking a directory: parts of
/// split archives become one candidate for their directory, and copies of one
/// archive (same base name) become candidates with all but the newest proposed for
/// deletion. Nothing when the profile does not enable "large-archive". When it
/// does, the parts of split archives must have sizes that add up within 64 bits.
pub fn scan_files(files: &Vec<FileEntry>, profile: &Profile) -> (r: Vec<Candidate>)
    requires
        archive_scan_on(*profile) ==> split_parts_size(files@, min_archive_size(*profile)) <= u64::MAX,
    ensures
        match profile.config_for("large-archive"@) {
            Some(cfg) if cfg.enabled => exists|ms1: Seq<Seq<usize>>, ms2: Seq<Seq<usize>>, os: Seq<Seq<usize>>|
                archive_candidates_ok(files@, min_archive_size(*profile), ms1, ms2, os, r@),
            _ => r@.len() == 0,
        },
{
    let cfg = profile.target_config("large-archive");
    if !cfg.enabled {
        return Vec::new();
    }
    let min: u64 = match profile.min_size_bytes {
        Some(m) => m,
        None => DEFAULT_MIN_ARCHIVE_BYTES,
    };
    let ghost fs = files@;
    let mut names: Vec<String> = Vec::new();
    let mut skeys: Vec<Option<ClassKey>> = Vec::new();
    let mut ckeys: Vec<Option<ClassKey>> = Vec::new();
    let mut i: usize = 0;
    while i < files.len()
        invariant
            fs == files@,
            i <= fs.len(),
            names@.len() == i,
            skeys@.len() == i,
            ckeys@.len() == i,
            forall|j: int| 0 <= j < i ==> #[trigger] names@[j]@ == role_name(fs[j], min),
            forall|j: int| 0 <= j < i ==> key_value(#[trigger] skeys@[j]) == split_keys(fs, min)[j],
            forall|j: int| 0 <= j < i ==> key_value(#[trigger] ckeys@[j]) == copy_keys(fs, min)[j],
        decreases files.len() - i,
    {
        match role_of(&files[i], min) {
            Some((split, b)) => {
                let chars = chars_of(b.as_str());
                if split {
                    skeys.push(Some(ClassKey::Text(chars)));
                    ckeys.push(None);
                } else {
                    skeys.push(None);
                    ckeys.push(Some(ClassKey::Text(chars)));
                }
                names.push(b);
            },
            None => {
                skeys.push(None);
                ckeys.push(None);
                names.push(String::new());
            },
        }
        i += 1;
    }
    proof {
        assert(key_values(skeys@) =~= split_keys(fs, min));
        assert(key_values(ckeys@) =~= copy_keys(fs, min));
    }
    let (ms1, _) = multi_classes(&skeys);
    let (ms2, _) = multi_classes(&ckeys);
    let ghost g1 = ms1@.map_values(|c: Vec<usize>| c@);
    let ghost g2 = ms2@.map_values(|c: Vec<usize>| c@);
    proof {
        lemma_class_list(skeys@, ms1@);
        lemma_class_list(ckeys@, ms2@);
    }
    let mut out: Vec<Candidate> = Vec::new();
    let mut c: usize = 0;
    while c < ms1.len()
        invariant
            fs == files@,
            split_parts_size(fs, min) <= u64::MAX,
            g1 == ms1@.map_values(|c: Vec<usize>| c@),
            is_class_list(split_keys(fs, min), g1),
            names@.len() == fs.len(),
            forall|j: int| 0 <= j < fs.len() ==> #[trigger] names@[j]@ == role_name(fs[j], min),
            c <= ms1@.len(),
            out@.len() == c,
            forall|k: int| 0 <= k < c ==> split_candidate_ok(fs, min, g1[k], #[trigger] out@[k]),
        decreases ms1.len() - c,
    {
        let m = &ms1[c];
        proof {
            assert(g1[c as int] == m@);
            assert(is_full_class(split_keys(fs, min), m@));
            assert(m@[0] < fs.len());
            assert(split_keys(fs, min)[m@[0] as int] is Some);
            assert forall|a: int| 0 <= a < m@.len() implies is_split_part(fs[#[trigger] m@[a] as int], min) by {
                assert(split_keys(fs, min)[m@[a] as int] is Some);
            }
        }
        let cand = split_candidate(files, min, m, &names[m[0]]);
        out.push(cand);
        c += 1;
    }
    let ghost mut os: Seq<Seq<usize>> = Seq::empty();
    let mut d: usize = 0;
    proof {
        assert(class_offset(g2, 0) == 0);
    }
    while d < ms2.len()
        invariant
            fs == files@,
            g1 == ms1@.map_values(|c: Vec<usize>| c@),
            g2 == ms2@.map_values(|c: Vec<usize>| c@),
            is_class_list(copy_keys(fs, min), g2),
            names@.len() == fs.len(),
            forall|j: int| 0 <= j < fs.len() ==> #[trigger] names@[j]@ == role_name(fs[j], min),
            d <= ms2@.len(),
            os.len() == d,
            forall|k: int| 0 <= k < d ==> newest_first(fs, #[trigger] g2[k], os[k]),
            out@.len() == g1.len() + class_offset(g2, d as int),
            forall|k: int| 0 <= k < g1.len() ==> split_candidate_ok(fs, min, g1[k], #[trigger] out@[k]),
            forall|k: int, j: int|
                0 <= k < d && 0 <= j < g2[k].len() ==> copy_candidate_ok(
                    fs,
                    #[trigger] os[k][j] as int,
                    j == 0,
                    role_name(fs[g2[k][0] as int], min),
                    out@[g1.len() + class_offset(g2, k) + j],
                ),
        decreases ms2.len() - d,
    {
        let m = &ms2[d];
        proof {
            assert(g2[d as int] == m@);
            assert(is_full_class(copy_keys(fs, min), m@));
            lemma_class_offset_step(g2, d as int);
        }
        let order = newest_first_order(files, m);
        let ghost start = out@.len();
        let ghost before = out@;
        push_copies(&mut out, files, &order, &names[m[0]]);
        proof {
            assert forall|k: int| 0 <= k < g1.len() implies split_candidate_ok(fs, min, g1[k], #[trigger] out@[k]) by {
                assert(out@[k] == before[k]);
            }
        }
        proof {
            os = os.push(order@);
            assert forall|k: int, x: int|
                0 <= k < d + 1 && 0 <= x < g2[k].len() implies copy_candidate_ok(
                    fs,
                    #[trigger] os[k][x] as int,
                    x == 0,
                    role_name(fs[g2[k][0] as int], min),
                    out@[g1.len() + class_offset(g2, k) + x],
                ) by {
                if k < d {
                    lemma_class_offset_step(g2, k);
                    lemma_class_offset_monotone(g2, k + 1, d as int);
                    assert(out@[g1.len() + class_offset(g2, k) + x] == before[g1.len() + class_offset(g2, k) + x]);
                } else {
                    assert(os[k] == order@);
                }
            }
        }
        d += 1;
    }
    proof {
        assert(min == min_archive_size(*profile));
        assert(archive_candidates_ok(fs, min_archive_size(*profile), g1, g2, os, out@));
    }
    out
}

/// Append the candidates of the copies listed in `order`, the first one newest.
fn push_copies(out: &mut Vec<Candidate>, files: &Vec<FileEntry>, order: &Vec<usize>, base: &String)
    requires
        forall|x: int| 0 <= x < order@.len() ==> #[trigger] order@[x] < files@.len(),
    ensures
        final(out)@.len() == old(out)@.len() + order@.len(),
        forall|k: int| 0 <= k < old(out)@.len() ==> final(out)@[k] == old(out)@[k],
        forall|x: int| 0 <= x < order@.len() ==> copy_candidate_ok(files@, #[trigger] order@[x] as int, x == 0, base@, final(out)@[old(out)@.len() + x]),
{
    let ghost start = out@.len();
    let ghost before = out@;
    let mut j: usize = 0;
    while j < order.len()
        invariant
            forall|x: int| 0 <= x < order@.len() ==> #[trigger] order@[x] < files@.len(),
            start == old(out)@.len(),
            before == old(out)@,
            j <= order@.len(),
            out@.len() == start + j,
            forall|k: int| 0 <= k < start ==> out@[k] == before[k],
            forall|x: int| 0 <= x < j ==> copy_candidate_ok(files@, #[trigger] order@[x] as int, x == 0, base@, out@[start + x]),
        decreases order.len() - j,
    {
        let cand = copy_candidate(files, order[j], j == 0, base);
        out.push(cand);
        j += 1;
    }
}

/// `x` is no suffix of `s` when one of their last four characters differ.
proof fn lemma_not_suffix(s: Seq<char>, x: Seq<char>, t: int)
    requires
        0 <= t < x.len(),
        t < s.len(),
        s[s.len() - 1 - t] != x[x.len() - 1 - t],
    ensures
        !has_suffix(s, x),
{
    if has_suffix(s, x) {
        let sub = s.subrange(s.len() - x.len(), s.len() as int);
        assert(sub[x.len() - 1 - t] == s[s.len() - 1 - t]);
    }
}

/// Removing the first listed suffix from a name that ends in one of the archive
/// suffixes gives back what stood before it.
proof fn lemma_strip_known_suffix(w: Seq<char>, e: Seq<char>)
    requires
        e == ".tar.gz"@ || e == ".tar.bz2"@ || e == ".tar.xz"@ || e == ".zip"@ || e == ".tgz"@ || e == ".tbz2"@ || e == ".txz"@ || e == ".7z"@ || e == ".rar"@ || e == ".tar"@,
    ensures
        strip_first_suffix(w + e, strip_exts()) == w,
{
    reveal_strlit(".tar.gz");
    reveal_strlit(".tar.bz2");
    reveal_strlit(".tar.xz");
    reveal_strlit(".zip");
    reveal_strlit(".tgz");
    reveal_strlit(".tbz2");
    reveal_strlit(".txz");
    reveal_strlit(".7z");
    reveal_strlit(".rar");
    reveal_strlit(".tar");
    reveal_with_fuel(strip_first_suffix, 11);
    let s = w + e;
    let wl: int = w.len() as int;
    let ex = strip_exts();
    assert(s.subrange(s.len() - e.len(), s.len() as int) =~= e);
    assert(s.take(s.len() - e.len()) =~= w);
    assert forall|i: int| 0 <= i < e.len() implies #[trigger] s[wl + i] == e[i] by {}
    if e == ".tar.gz"@ {
        assert(e.len() == 7);
        assert(s[wl + 0] == '.');
        assert(s[wl + 1] == 't');
        assert(s[wl + 2] == 'a');
        assert(s[wl + 3] == 'r');
        assert(s[wl + 4] == '.');
        assert(s[wl + 5] == 'g');
        assert(s[wl + 6] == 'z');
        assert(ex[0]@ == ".tar.gz"@);
    }
    if e == ".tar.bz2"@ {
        assert(e.len() == 8);
        assert(s[wl + 0] == '.');
        assert(s[wl + 1] == 't');
        assert(s[wl + 2] == 'a');
        assert(s[wl + 3] == 'r');
        assert(s[wl + 4] == '.');
        assert(s[wl + 5] == 'b');
        assert(s[wl + 6] == 'z');
        assert(s[wl + 7] == '2');
        assert(ex[0]@ == ".tar.gz"@);
        lemma_not_suffix(s, ".tar.gz"@, 0);
        assert(ex[1]@ == ".tar.bz2"@);
    }
    if e == ".tar.xz"@ {
        assert(e.len() == 7);
        assert(s[wl + 0] == '.');
        assert(s[wl + 1] == 't');
        assert(s[wl + 2] == 'a');
        assert(s[wl + 3] == 'r');
        assert(s[wl + 4] == '.');
        assert(s[wl + 5] == 'x');
        assert(s[wl + 6] == 'z');
        assert(ex[0]@ == ".tar.gz"@);
        lemma_not_suffix(s, ".tar.gz"@, 1);
        assert(ex[1]@ == ".tar.bz2"@);
        lemma_not_suffix(s, ".tar.bz2"@, 0);
        assert(ex[2]@ == ".tar.xz"@);
    }
    if e == ".zip"@ {
        assert(e.len() == 4);
        assert(s[wl + 0] == '.');
        assert(s[wl + 1] == 'z');
        assert(s[wl + 2] == 'i');
        assert(s[wl + 3] == 'p');
        assert(ex[0]@ == ".tar.gz"@);
        lemma_not_suffix(s, ".tar.gz"@, 0);
        assert(ex[1]@ == ".tar.bz2"@);
        lemma_not_suffix(s, ".tar.bz2"@, 0);
        assert(ex[2]@ == ".tar.xz"@);
        lemma_not_suffix(s, ".tar.xz"@, 0);
        assert(ex[3]@ == ".zip"@);
    }
    if e == ".tgz"@ {
        assert(e.len() == 4);
        assert(s[wl + 0] == '.');
        assert(s[wl + 1] == 't');
        assert(s[wl + 2] == 'g');
        assert(s[wl + 3] == 'z');
        assert(ex[0]@ == ".tar.gz"@);
        lemma_not_suffix(s, ".tar.gz"@, 2);
        assert(ex[1]@ == ".tar.bz2"@);
        lemma_not_suffix(s, ".tar.bz2"@, 0);
        assert(ex[2]@ == ".tar.xz"@);
        lemma_not_suffix(s, ".tar.xz"@, 1);
        assert(ex[3]@ == ".zip"@);
        lemma_not_suffix(s, ".zip"@, 0);
        assert(ex[4]@ == ".tgz"@);
    }
    if e == ".tbz2"@ {
        assert(e.len() == 5);
        assert(s[wl + 0] == '.');
        assert(s[wl + 1] == 't');
        assert(s[wl + 2] == 'b');
        assert(s[wl + 3] == 'z');
        assert(s[wl + 4] == '2');
        assert(ex[0]@ == ".tar.gz"@);
        lemma_not_suffix(s, ".tar.gz"@, 0);
        assert(ex[1]@ == ".tar.bz2"@);
        lemma_not_suffix(s, ".tar.bz2"@, 3);
        assert(ex[2]@ == ".tar.xz"@);
        lemma_not_suffix(s, ".tar.xz"@, 0);
        assert(ex[3]@ == ".zip"@);
        lemma_not_suffix(s, ".zip"@, 0);
        assert(ex[4]@ == ".tgz"@);
        lemma_not_suffix(s, ".tgz"@, 0);
        assert(ex[5]@ == ".tbz2"@);
    }
    if e == ".txz"@ {
        assert(e.len() == 4);
        assert(s[wl + 0] == '.');
        assert(s[wl + 1] == 't');
        assert(s[wl + 2] == 'x');
        assert(s[wl + 3] == 'z');
        assert(ex[0]@ == ".tar.gz"@);
        lemma_not_suffix(s, ".tar.gz"@, 1);
        assert(ex[1]@ == ".tar.bz2"@);
        lemma_not_suffix(s, ".tar.bz2"@, 0);
        assert(ex[2]@ == ".tar.xz"@);
        lemma_not_suffix(s, ".tar.xz"@, 2);
        assert(ex[3]@ == ".zip"@);
        lemma_not_suffix(s, ".zip"@, 0);
        assert(ex[4]@ == ".tgz"@);
        lemma_not_suffix(s, ".tgz"@, 1);
        assert(ex[5]@ == ".tbz2"@);
        lemma_not_suffix(s, ".tbz2"@, 0);
        assert(ex[6]@ == ".txz"@);
    }
    if e == ".7z"@ {
        assert(e.len() == 3);
        assert(s[wl + 0] == '.');
        assert(s[wl + 1] == '7');
        assert(s[wl + 2] == 'z');
        assert(ex[0]@ == ".tar.gz"@);
        lemma_not_suffix(s, ".tar.gz"@, 1);
        assert(ex[1]@ == ".tar.bz2"@);
        lemma_not_suffix(s, ".tar.bz2"@, 0);
        assert(ex[2]@ == ".tar.xz"@);
        lemma_not_suffix(s, ".tar.xz"@, 1);
        assert(ex[3]@ == ".zip"@);
        lemma_not_suffix(s, ".zip"@, 0);
        assert(ex[4]@ == ".tgz"@);
        lemma_not_suffix(s, ".tgz"@, 1);
        assert(ex[5]@ == ".tbz2"@);
        lemma_not_suffix(s, ".tbz2"@, 0);
        assert(ex[6]@ == ".txz"@);
        lemma_not_suffix(s, ".txz"@, 1);
        assert(ex[7]@ == ".7z"@);
    }
    if e == ".rar"@ {
        assert(e.len() == 4);
        assert(s[wl + 0] == '.');
        assert(s[wl + 1] == 'r');
        assert(s[wl + 2] == 'a');
        assert(s[wl + 3] == 'r');
        assert(ex[0]@ == ".tar.gz"@);
        lemma_not_suffix(s, ".tar.gz"@, 0);
        assert(ex[1]@ == ".tar.bz2"@);
        lemma_not_suffix(s, ".tar.bz2"@, 0);
        assert(ex[2]@ == ".tar.xz"@);
        lemma_not_suffix(s, ".tar.xz"@, 0);
        assert(ex[3]@ == ".zip"@);
        lemma_not_suffix(s, ".zip"@, 0);
        assert(ex[4]@ == ".tgz"@);
        lemma_not_suffix(s, ".tgz"@, 0);
        assert(ex[5]@ == ".tbz2"@);
        lemma_not_suffix(s, ".tbz2"@, 0);
        assert(ex[6]@ == ".txz"@);
        lemma_not_suffix(s, ".txz"@, 0);
        assert(ex[7]@ == ".7z"@);
        lemma_not_suffix(s, ".7z"@, 0);
        assert(ex[8]@ == ".rar"@);
    }
    if e == ".tar"@ {
        assert(e.len() == 4);
        assert(s[wl + 0] == '.');
        assert(s[wl + 1] == 't');
        assert(s[wl + 2] == 'a');
        assert(s[wl + 3] == 'r');
        assert(ex[0]@ == ".tar.gz"@);
        lemma_not_suffix(s, ".tar.gz"@, 0);
        assert(ex[1]@ == ".tar.bz2"@);
        lemma_not_suffix(s, ".tar.bz2"@, 0);
        assert(ex[2]@ == ".tar.xz"@);
        lemma_not_suffix(s, ".tar.xz"@, 0);
        assert(ex[3]@ == ".zip"@);
        lemma_not_suffix(s, ".zip"@, 0);
        assert(ex[4]@ == ".tgz"@);
        lemma_not_suffix(s, ".tgz"@, 0);
        assert(ex[5]@ == ".tbz2"@);
        lemma_not_suffix(s, ".tbz2"@, 0);
        assert(ex[6]@ == ".txz"@);
        lemma_not_suffix(s, ".txz"@, 0);
        assert(ex[7]@ == ".7z"@);
        lemma_not_suffix(s, ".7z"@, 0);
        assert(ex[8]@ == ".rar"@);
        lemma_not_suffix(s, ".rar"@, 2);
        assert(ex[9]@ == ".tar"@);
    }
}

/// Trailing version characters after a stem that ends in a letter are trimmed
/// back to the stem.
proof fn lemma_trim_version_tail(stem: Seq<char>, v: Seq<char>)
    requires
        stem.len() > 0,
        'a' <= stem.last() && stem.last() <= 'z',
        forall|i: int| 0 <= i < v.len() ==> version_char(#[trigger] v[i]),
    ensures
        trim_version(stem + v) == stem,
    decreases v.len(),
{
    if v.len() > 0 {
        assert((stem + v).drop_last() =~= stem + v.drop_last());
        assert((stem + v).last() == v.last());
        lemma_trim_version_tail(stem, v.drop_last());
    } else {
        assert(stem + v =~= stem);
    }
}

/// A text without `(` has no last `(`.
proof fn lemma_no_bracket(s: Seq<char>)
    requires
        forall|i: int| 0 <= i < s.len() ==> #[trigger] s[i] != '(',
    ensures
        last_index_of(s, '(') is None,
    decreases s.len(),
{
    if s.len() > 0 {
        assert(s.last() == s[s.len() - 1]);
        lemma_no_bracket(s.drop_last());
    }
}

/// Copies of one archive are recognised whatever their version and archive
/// suffix: a name that lowercases to a stem (ending in a letter, without `(`),
/// then version characters (digits, `.`, `-`, `_`), then one of the suffixes
/// `.tar.gz`, `.tar.bz2`, `.tar.xz`, `.zip`, `.tgz`, `.tbz2`, `.txz`, `.7z`, `.rar`
/// or `.tar`, has that stem as its base name. So "photos-2023.rar" and
/// "photos-2024.zip" both have base name "photos".
pub proof fn law_archive_base_name(n: Seq<char>, stem: Seq<char>, v: Seq<char>, ext: Seq<char>)
    requires
        lowercase_of(n) == stem + v + ext,
        stem.len() > 0,
        'a' <= stem.last() && stem.last() <= 'z',
        forall|i: int| 0 <= i < stem.len() ==> #[trigger] stem[i] != '(',
        forall|i: int|
            0 <= i < v.len() ==> ('0' <= #[trigger] v[i] && v[i] <= '9') || v[i] == '.' || v[i] == '-' || v[i]
                == '_',
        ext == ".tar.gz"@ || ext == ".tar.bz2"@ || ext == ".tar.xz"@ || ext == ".zip"@ || ext == ".tgz"@ || ext == ".tbz2"@ || ext == ".txz"@ || ext == ".7z"@ || ext == ".rar"@ || ext == ".tar"@,
    ensures
        base_name(n) == stem,
{
    lemma_strip_known_suffix(stem + v, ext);
    assert forall|i: int| 0 <= i < v.len() implies version_char(#[trigger] v[i]) by {}
    lemma_trim_version_tail(stem, v);
    lemma_no_bracket(stem);
}

/// The last `c` of a text that ends in `c` and then text without `c` is that one.
proof fn lemma_last_index_before(a: Seq<char>, c: char, r: Seq<char>)
    requires
        forall|i: int| 0 <= i < r.len() ==> #[trigger] r[i] != c,
    ensures
        last_index_of(a + seq![c] + r, c) == Some(a.len() as int),
    decreases r.len(),
{
    let x = a + seq![c] + r;
    if r.len() == 0 {
        assert(x.last() == c);
    } else {
        assert(x.last() == r.last());
        assert(x.drop_last() =~= a + seq![c] + r.drop_last());
        lemma_last_index_before(a, c, r.drop_last());
    }
}

/// Trailing spaces after a stem that ends in a letter are trimmed back to the stem.
proof fn lemma_trim_spaces(stem: Seq<char>, w: Seq<char>)
    requires
        stem.len() > 0,
        'a' <= stem.last() && stem.last() <= 'z',
        forall|i: int| 0 <= i < w.len() ==> #[trigger] w[i] == ' ',
    ensures
        trim_white_end(stem + w) == stem,
    decreases w.len(),
{
    if w.len() > 0 {
        assert((stem + w).drop_last() =~= stem + w.drop_last());
        assert((stem + w).last() == w.last());
        lemma_trim_spaces(stem, w.drop_last());
    } else {
        assert(stem + w =~= stem);
    }
}

/// A copy marker in brackets does not change the base name: a name that lowercases
/// to a stem ending in a letter, spaces, then `(` and a bracketed part that closes
/// with `)` and holds no other `(`, then one of the archive suffixes `.tar.gz`,
/// `.tar.bz2`, `.tar.xz`, `.zip`, `.tgz`, `.tbz2`, `.txz`, `.7z`, `.rar` or `.tar`,
/// has that stem as its base name. So "photos (1).zip" has base name "photos".
pub proof fn law_copy_marker_ignored(n: Seq<char>, stem: Seq<char>, w: Seq<char>, r: Seq<char>, ext: Seq<char>)
    requires
        lowercase_of(n) == stem + w + seq!['('] + r + ext,
        stem.len() > 0,
        'a' <= stem.last() && stem.last() <= 'z',
        forall|i: int| 0 <= i < w.len() ==> #[trigger] w[i] == ' ',
        r.len() > 0,
        r.last() == ')',
        forall|i: int| 0 <= i < r.len() ==> #[trigger] r[i] != '(',
        ext == ".tar.gz"@ || ext == ".tar.bz2"@ || ext == ".tar.xz"@ || ext == ".zip"@ || ext == ".tgz"@ || ext == ".tbz2"@ || ext == ".txz"@ || ext == ".7z"@ || ext == ".rar"@ || ext == ".tar"@,
    ensures
        base_name(n) == stem,
{
    let x = stem + w + seq!['('] + r;
    lemma_strip_known_suffix(x, ext);
    assert(x.last() == ')');
    assert(trim_version(x) == x);
    lemma_last_index_before(stem + w, '(', r);
    assert(x.take((stem + w).len() as int) =~= stem + w);
    lemma_trim_spaces(stem, w);
}

} // verus!
