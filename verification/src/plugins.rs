//! System file indexers (Spotlight, locate, Baloo): their names, how their output
//! is read, and how changed files roll up into changed directories.
use vstd::prelude::*;
use crate::paths::{opt_view, path_ancestors, path_starts_with, ancestors_of, starts_with_path};
use crate::path_order::{path_components, components_of, comp_views, key_views, is_sorted_unique, sorted_unique, components_equal};
use crate::text::{chars_of, string_from_chars, has_prefix, starts_with_str, owned};
use crate::archives::white_space;

verus! {

/// macOS Spotlight (`mdfind`).
pub struct SpotlightPlugin;

/// Linux `locate`/`updatedb`.
pub struct LocatePlugin;

/// KDE Baloo.
pub struct BalooPlugin;

impl SpotlightPlugin {
    /// The indexer's name.
    pub fn name(&self) -> (r: &'static str)
        ensures
            r@ == "Spotlight"@,
    {
        "Spotlight"
    }
}

impl LocatePlugin {
    /// The indexer's name.
    pub fn name(&self) -> (r: &'static str)
        ensures
            r@ == "locate/updatedb"@,
    {
        "locate/updatedb"
    }
}

impl BalooPlugin {
    /// The indexer's name.
    pub fn name(&self) -> (r: &'static str)
        ensures
            r@ == "Baloo"@,
    {
        "Baloo"
    }
}

/// The lines of a text as std's `str::lines` gives them: split at each `\n`, a
/// `\r` before it dropped, no empty last line after a final `\n`.
pub open spec fn text_lines(s: Seq<char>) -> Seq<Seq<char>>
    decreases s.len(),
{
    if s.len() == 0 {
        Seq::empty()
    } else {
        let i = first_newline(s, 0);
        let line = s.take(i);
        let line = if line.len() > 0 && line.last() == '\r' && i < s.len() { line.drop_last() } else { line };
        if i < s.len() {
            proof {
                lemma_first_newline(s, 0);
            }
            seq![line] + text_lines(s.skip(i + 1))
        } else {
            seq![line]
        }
    }
}

/// The first position from `k` holding `\n`, or the length.
pub open spec fn first_newline(s: Seq<char>, k: int) -> int
    decreases s.len() - k,
{
    if k >= s.len() {
        s.len() as int
    } else if s[k] == '\n' {
        k
    } else {
        first_newline(s, k + 1)
    }
}

pub proof fn lemma_first_newline(s: Seq<char>, k: int)
    requires
        0 <= k <= s.len(),
    ensures
        k <= first_newline(s, k) <= s.len(),
        first_newline(s, k) < s.len() ==> s[first_newline(s, k)] == '\n',
    decreases s.len() - k,
{
    if k < s.len() && s[k] != '\n' {
        lemma_first_newline(s, k + 1);
    }
}

/// The text without white space at either end (std `str::trim`).
pub open spec fn trim_text(s: Seq<char>) -> Seq<char> {
    crate::archives::trim_white_end(trim_white_start(s))
}

/// The text without leading white space.
pub open spec fn trim_white_start(s: Seq<char>) -> Seq<char>
    decreases s.len(),
{
    if s.len() > 0 && white_space(s[0]) {
        trim_white_start(s.drop_first())
    } else {
        s
    }
}

/// Whether a character is white space.
pub fn is_white_char(c: char) -> (r: bool)
    ensures
        r == white_space(c),
{
    ('\u{9}' <= c && c <= '\u{d}') || c == ' ' || c == '\u{85}' || c == '\u{a0}' || c == '\u{1680}'
        || ('\u{2000}' <= c && c <= '\u{200a}') || c == '\u{2028}' || c == '\u{2029}' || c == '\u{202f}'
        || c == '\u{205f}' || c == '\u{3000}'
}

/// Split an indexer's output into lines.
pub fn output_lines(text: &str) -> (r: Vec<String>)
    ensures
        r@.map_values(|l: String| l@) == text_lines(text@),
{
    let c = chars_of(text);
    let n = c.len();
    let mut r: Vec<String> = Vec::new();
    let mut start: usize = 0;
    proof {
        assert(c@.skip(0) =~= c@);
    }
    while start < n
        invariant
            n == c@.len(),
            c@ == text@,
            start <= n,
            r@.map_values(|l: String| l@) + text_lines(c@.skip(start as int)) == text_lines(c@),
        decreases n - start,
    {
        let ghost rest = c@.skip(start as int);
        let mut i: usize = start;
        while i < n && c[i] != '\n'
            invariant
                n == c@.len(),
                start <= i <= n,
                rest == c@.skip(start as int),
                first_newline(rest, 0) == first_newline(rest, i - start),
            decreases n - i,
        {
            proof {
                assert(rest[i - start] == c@[i as int]);
            }
            i += 1;
        }
        proof {
            if i < n {
                assert(rest[i - start] == c@[i as int]);
            }
            assert(first_newline(rest, i - start) == i - start);
        }
        let mut end: usize = i;
        if end > start && c[end - 1] == '\r' && i < n {
            end = end - 1;
        }
        let mut line: Vec<char> = Vec::new();
        let mut k: usize = start;
        while k < end
            invariant
                start <= k <= end <= n,
                n == c@.len(),
                line@ == c@.subrange(start as int, k as int),
            decreases end - k,
        {
            line.push(c[k]);
            k += 1;
            assert(line@ =~= c@.subrange(start as int, k as int));
        }
        let ghost before = r@;
        r.push(string_from_chars(&line));
        proof {
            let take = rest.take(i - start);
            assert(take =~= c@.subrange(start as int, i as int));
            if end < i {
                assert(take.last() == c@[i - 1]);
                assert(take.drop_last() =~= c@.subrange(start as int, end as int));
            }
            assert(r@.map_values(|l: String| l@) =~= before.map_values(|l: String| l@).push(line@));
            if i < n {
                assert(rest.skip(i - start + 1) =~= c@.skip(i + 1));
            }
        }
        start = if i < n { i + 1 } else { n };
        proof {
            if i >= n {
                assert(c@.skip(n as int) =~= Seq::<char>::empty());
            }
        }
    }
    proof {
        assert(c@.skip(n as int) =~= Seq::<char>::empty());
        assert(r@.map_values(|l: String| l@) + Seq::<Seq<char>>::empty() =~= r@.map_values(|l: String| l@));
    }
    r
}

/// A Baloo result line as a path: without its `file://` scheme when it has one.
pub open spec fn baloo_path(line: Seq<char>) -> Seq<char> {
    if has_prefix(line, "file://"@) {
        line.skip(7)
    } else {
        line
    }
}

/// The path named by a Baloo result line.
pub fn baloo_line_path(line: &str) -> (r: String)
    ensures
        r@ == baloo_path(line@),
{
    let c = chars_of(line);
    if starts_with_str(&c, "file://") {
        proof {
            reveal_strlit("file://");
        }
        let mut out: Vec<char> = Vec::new();
        let mut k: usize = 7;
        while k < c.len()
            invariant
                7 <= k <= c@.len(),
                out@ == c@.subrange(7, k as int),
            decreases c.len() - k,
        {
            out.push(c[k]);
            k += 1;
            assert(out@ =~= c@.subrange(7, k as int));
        }
        assert(out@ =~= c@.skip(7));
        string_from_chars(&out)
    } else {
        owned(line)
    }
}

/// The directories a changed file rolls up into: its ancestors from its parent up,
/// as long as they lie under the root and are not the root itself.
pub open spec fn rollup(anc: Seq<Seq<char>>, root: Seq<char>, k: int) -> Seq<Seq<char>>
    decreases anc.len() - k,
{
    if k < 0 || k >= anc.len() || path_components(anc[k]) == path_components(root) || !path_starts_with(anc[k], root) {
        Seq::empty()
    } else {
        seq![anc[k]] + rollup(anc, root, k + 1)
    }
}

/// The directories all changed files roll up into, file after file.
pub open spec fn rolled_up(files: Seq<String>, root: Seq<char>) -> Seq<Seq<char>>
    decreases files.len(),
{
    if files.len() == 0 {
        Seq::empty()
    } else {
        rolled_up(files.drop_last(), root) + rollup(path_ancestors(files.last()@), root, 1)
    }
}

/// The component lists of paths.
pub open spec fn path_keys(ps: Seq<Seq<char>>) -> Seq<Seq<Seq<char>>> {
    Seq::new(ps.len(), |i: int| path_components(ps[i]))
}

/// The directories under `root` holding changed files (up to, not including, the
/// root), each once, sorted by path.
pub fn changed_dirs(files: &Vec<String>, root: &str) -> (r: Vec<String>)
    ensures
        exists|order: Seq<usize>|
            is_sorted_unique(path_keys(rolled_up(files@, root@)), order) && r@.len() == order.len() && forall|k: int|
                0 <= k < order.len() ==> #[trigger] r@[k]@ == rolled_up(files@, root@)[order[k] as int],
{
    let root_comps = components_of(root);
    let mut dirs: Vec<String> = Vec::new();
    let mut keys: Vec<Vec<Vec<char>>> = Vec::new();
    let mut f: usize = 0;
    while f < files.len()
        invariant
            comp_views(root_comps@) == path_components(root@),
            f <= files@.len(),
            dirs@.len() == keys@.len(),
            dirs@.map_values(|d: String| d@) == rolled_up(files@.take(f as int), root@),
            forall|j: int| 0 <= j < keys@.len() ==> comp_views(#[trigger] keys@[j]@) == path_components(dirs@[j]@),
        decreases files.len() - f,
    {
        let anc = ancestors_of(files[f].as_str());
        let ghost a = path_ancestors(files@[f as int]@);
        let ghost before = dirs@.map_values(|d: String| d@);
        let mut k: usize = 1;
        let mut stop = false;
        proof {
            assert(files@.take(f + 1).drop_last() =~= files@.take(f as int));
            assert(files@.take(f + 1).last() == files@[f as int]);
        }
        while k < anc.len() && !stop
            invariant
                comp_views(root_comps@) == path_components(root@),
                anc@.len() == a.len(),
                forall|i: int| 0 <= i < anc@.len() ==> #[trigger] anc@[i]@ == a[i],
                1 <= k <= anc@.len(),
                dirs@.len() == keys@.len(),
                forall|j: int| 0 <= j < keys@.len() ==> comp_views(#[trigger] keys@[j]@) == path_components(dirs@[j]@),
                !stop ==> dirs@.map_values(|d: String| d@) + rollup(a, root@, k as int) == before + rollup(a, root@, 1),
                stop ==> dirs@.map_values(|d: String| d@) == before + rollup(a, root@, 1),
            decreases anc.len() - k + (if stop { 0int } else { 1int }),
        {
            let comps = components_of(anc[k].as_str());
            let at_root = components_equal(&comps, &root_comps);
            let under = starts_with_path(anc[k].as_str(), root);
            if at_root || !under {
                stop = true;
                proof {
                    assert(rollup(a, root@, k as int) == Seq::<Seq<char>>::empty());
                    assert(dirs@.map_values(|d: String| d@) + Seq::<Seq<char>>::empty() =~= dirs@.map_values(|d: String| d@));
                }
            } else {
                let ghost d0 = dirs@.map_values(|d: String| d@);
                dirs.push(anc[k].clone());
                keys.push(comps);
                proof {
                    assert(dirs@.map_values(|d: String| d@) =~= d0.push(a[k as int]));
                    assert(rollup(a, root@, k as int) == seq![a[k as int]] + rollup(a, root@, k + 1));
                    assert(d0.push(a[k as int]) + rollup(a, root@, k + 1) =~= d0 + (seq![a[k as int]] + rollup(a, root@, k + 1)));
                }
                k += 1;
            }
        }
        proof {
            if !stop {
                assert(rollup(a, root@, k as int) == Seq::<Seq<char>>::empty());
                assert(dirs@.map_values(|d: String| d@) + Seq::<Seq<char>>::empty() =~= dirs@.map_values(|d: String| d@));
            }
        }
        f += 1;
    }
    proof {
        assert(files@.take(files@.len() as int) =~= files@);
        assert forall|j: int| 0 <= j < keys@.len() implies #[trigger] key_views(keys@)[j] == path_keys(rolled_up(files@, root@))[j] by {
            assert(dirs@.map_values(|d: String| d@)[j] == dirs@[j]@);
        }
        assert(key_views(keys@) =~= path_keys(rolled_up(files@, root@)));
    }
    let order = sorted_unique(&keys);
    let mut r: Vec<String> = Vec::new();
    let mut m: usize = 0;
    while m < order.len()
        invariant
            is_sorted_unique(path_keys(rolled_up(files@, root@)), order@),
            dirs@.map_values(|d: String| d@) == rolled_up(files@, root@),
            m <= order@.len(),
            r@.len() == m,
            forall|j: int| 0 <= j < m ==> #[trigger] r@[j]@ == rolled_up(files@, root@)[order@[j] as int],
        decreases order.len() - m,
    {
        proof {
            assert(order@[m as int] < dirs@.len());
            assert(dirs@.map_values(|d: String| d@)[order@[m as int] as int] == dirs@[order@[m as int] as int]@);
        }
        r.push(dirs[order[m]].clone());
        m += 1;
    }
    r
}

/// The first position from `k` holding `c`, or the length.
pub open spec fn first_char_from(s: Seq<char>, c: char, k: int) -> int
    decreases s.len() - k,
{
    if k >= s.len() {
        s.len() as int
    } else if s[k] == c {
        k
    } else {
        first_char_from(s, c, k + 1)
    }
}

/// The first position of `ch`, or the length.
pub fn first_char_index(c: &Vec<char>, ch: char) -> (r: usize)
    ensures
        r == first_char_from(c@, ch, 0),
        r <= c@.len(),
{
    let mut i: usize = 0;
    while i < c.len() && c[i] != ch
        invariant
            i <= c@.len(),
            first_char_from(c@, ch, 0) == first_char_from(c@, ch, i as int),
        decreases c.len() - i,
    {
        i += 1;
    }
    i
}

} // verus!
