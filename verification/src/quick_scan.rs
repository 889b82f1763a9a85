//! Quick scans through the system's file indexer: which directory names are looked
//! up, how the queries read, and the candidates made of what comes back.
use vstd::prelude::*;
use crate::candidate::{Candidate, TargetKind};
use crate::profile::Profile;
use crate::time::Timestamp;
use crate::paths::opt_view;
use crate::scanning::{directory_candidate, parent_name};
use crate::strategy::tag_views;
use crate::text::{chars_of, string_from_chars, push_str};
use crate::archives::{white_space, trim_white_end};
use crate::plugins::{trim_text, trim_white_start};

verus! {

/// Directory names looked up on macOS, with the kind each stands for.
pub open spec fn macos_patterns() -> Seq<(&'static str, TargetKind)> {
    seq![
        ("node_modules", TargetKind::NpmModules),
        (".venv", TargetKind::Venv),
        ("venv", TargetKind::Venv),
        ("target", TargetKind::BuildDir),
        ("build", TargetKind::BuildDir),
        ("dist", TargetKind::BuildDir),
        (".next", TargetKind::BuildDir),
        (".nuxt", TargetKind::BuildDir),
        ("__pycache__", TargetKind::BuildDir),
    ]
}

/// Directory names looked up on Linux, with the kind each stands for.
pub open spec fn linux_patterns() -> Seq<(&'static str, TargetKind)> {
    seq![
        ("node_modules", TargetKind::NpmModules),
        (".venv", TargetKind::Venv),
        ("venv", TargetKind::Venv),
        ("target", TargetKind::BuildDir),
        ("build", TargetKind::BuildDir),
        ("dist", TargetKind::BuildDir),
        ("__pycache__", TargetKind::BuildDir),
    ]
}

/// The directory names a quick scan looks up (on macOS the longer list).
pub fn quick_patterns(macos: bool) -> (r: Vec<(&'static str, TargetKind)>)
    ensures
        r@ == (if macos { macos_patterns() } else { linux_patterns() }),
{
    let mut r: Vec<(&'static str, TargetKind)> = Vec::new();
    r.push(("node_modules", TargetKind::NpmModules));
    r.push((".venv", TargetKind::Venv));
    r.push(("venv", TargetKind::Venv));
    r.push(("target", TargetKind::BuildDir));
    r.push(("build", TargetKind::BuildDir));
    r.push(("dist", TargetKind::BuildDir));
    if macos {
        r.push((".next", TargetKind::BuildDir));
        r.push((".nuxt", TargetKind::BuildDir));
    }
    r.push(("__pycache__", TargetKind::BuildDir));
    proof {
        if macos {
            assert(r@ =~= macos_patterns());
        } else {
            assert(r@ =~= linux_patterns());
        }
    }
    r
}

/// The Spotlight query for a directory name: `kMDItemFSName == '{name}'`.
pub fn spotlight_query(name: &str) -> (r: String)
    ensures
        r@ == "kMDItemFSName == '"@ + name@ + "'"@,
{
    let mut v: Vec<char> = Vec::new();
    push_str(&mut v, "kMDItemFSName == '");
    push_str(&mut v, name);
    push_str(&mut v, "'");
    string_from_chars(&v)
}

/// The locate pattern for a directory name under a root: `{root}/.*/{name}`.
pub fn locate_query(root: &str, name: &str) -> (r: String)
    ensures
        r@ == root@ + "/.*/"@ + name@,
{
    let mut v: Vec<char> = Vec::new();
    push_str(&mut v, root);
    push_str(&mut v, "/.*/");
    push_str(&mut v, name);
    string_from_chars(&v)
}

/// A path from one line of indexer output, without surrounding white space.
pub fn trimmed(s: &str) -> (r: String)
    ensures
        r@ == trim_text(s@),
{
    let c = chars_of(s);
    let mut a: usize = 0;
    proof {
        assert(c@.skip(0) =~= c@);
    }
    while a < c.len() && crate::plugins::is_white_char(c[a])
        invariant
            a <= c@.len(),
            trim_white_start(c@) == trim_white_start(c@.skip(a as int)),
        decreases c.len() - a,
    {
        proof {
            assert(c@.skip(a as int)[0] == c@[a as int]);
            assert(c@.skip(a as int).drop_first() =~= c@.skip(a + 1));
        }
        a += 1;
    }
    proof {
        if a < c@.len() {
            assert(c@.skip(a as int)[0] == c@[a as int]);
        }
    }
    let mut b: usize = c.len();
    proof {
        assert(c@.skip(a as int) =~= c@.subrange(a as int, b as int));
    }
    while b > a && crate::plugins::is_white_char(c[b - 1])
        invariant
            a <= b <= c@.len(),
            trim_white_end(c@.skip(a as int)) == trim_white_end(c@.subrange(a as int, b as int)),
        decreases b,
    {
        proof {
            assert(c@.subrange(a as int, b as int).drop_last() =~= c@.subrange(a as int, b - 1));
        }
        b = b - 1;
    }
    let mut out: Vec<char> = Vec::new();
    let mut k: usize = a;
    while k < b
        invariant
            a <= k <= b <= c@.len(),
            out@ == c@.subrange(a as int, k as int),
        decreases b - k,
    {
        out.push(c[k]);
        k += 1;
        assert(out@ =~= c@.subrange(a as int, k as int));
    }
    proof {
        let t = c@.subrange(a as int, b as int);
        if !(b > a) {
            assert(t.len() == 0);
        }
    }
    string_from_chars(&out)
}

/// `c` is the quick-scan candidate for a directory: likely reproducible, kept until
/// scored, grouped under the directory it lies in.
pub open spec fn quick_candidate_ok(path: Seq<char>, kind: TargetKind, size: u64, modified: Option<Timestamp>, accessed: Option<Timestamp>, c: Candidate) -> bool {
    &&& c.path@ == path
    &&& c.kind == kind
    &&& c.size_bytes == size
    &&& c.last_modified == modified
    &&& c.last_accessed == accessed
    &&& c.reproducibility == 900
    &&& c.score == 0
    &&& tag_views(c.tags@) == seq!["quick-scan"@, "reproducible"@]
    &&& c.action is Skip
    &&& opt_view(c.group) == parent_name(path)
}

/// The candidate for a directory an indexer found, unless the profile skips its
/// size.
pub fn quick_candidate(
    path: String,
    kind: TargetKind,
    size: u64,
    modified: Option<Timestamp>,
    accessed: Option<Timestamp>,
    profile: &Profile,
) -> (r: Option<Candidate>)
    ensures
        match r {
            Some(c) => !(profile.min_size_bytes matches Some(m) && size < m) && quick_candidate_ok(path@, kind, size, modified, accessed, c),
            None => profile.min_size_bytes matches Some(m) && size < m,
        },
{
    if profile.should_skip_size(size) {
        return None;
    }
    let ghost p = path@;
    let c = directory_candidate(path, kind, size, modified, accessed, 900, &["quick-scan", "reproducible"]);
    proof {
        reveal_strlit("quick-scan");
        reveal_strlit("reproducible");
        assert(tag_views(c.tags@) =~= seq!["quick-scan"@, "reproducible"@]);
    }
    Some(c)
}

} // verus!
