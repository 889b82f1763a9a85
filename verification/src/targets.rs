//! The rules of each scan target: which directory or file names it looks for,
//! what makes a find count, and the candidate it makes of it.
use vstd::prelude::*;
use crate::candidate::{Action, Candidate, TargetKind};
use crate::time::Timestamp;
use crate::profile::Profile;
use crate::paths::{opt_view, path_ancestors, path_file_name, file_name_of, ancestors_of, file_name_or_empty};
use crate::strategy::tag_views;
use crate::text::{chars_of, one_of, is_one_of, is_str, has_suffix, ends_with_str, owned, strings_of, string_from_chars, push_str, push_all, lowercase_of, to_lowercase, dec_seq, dec_chars};
use crate::scanning::{directory_candidate, parent_name};

verus! {

/// A candidate with every field given.
pub fn fixed_candidate(
    path: String,
    kind: TargetKind,
    size_bytes: u64,
    last_modified: Option<Timestamp>,
    reproducibility: u32,
    score: u32,
    tags: Vec<String>,
    action: Action,
    group: String,
) -> (c: Candidate)
    ensures
        c.path == path,
        c.kind == kind,
        c.size_bytes == size_bytes,
        c.last_modified == last_modified,
        c.last_accessed is None,
        c.reproducibility == reproducibility,
        c.score == score,
        c.tags == tags,
        c.action == action,
        c.group == Some(group),
{
    Candidate {
        path,
        kind,
        size_bytes,
        last_modified,
        last_accessed: None,
        reproducibility,
        score,
        tags,
        action,
        group: Some(group),
    }
}

/// Whole days from `t` to `now` (chrono's `num_days` of the difference), zero when
/// `t` is unknown.
pub open spec fn age_days_or_zero(t: Option<Timestamp>, now: Timestamp) -> int {
    match t {
        Some(x) => now.spec_days_since(x),
        None => 0,
    }
}

/// Whether something last modified at `t` is at least `min_days` old at `now` (an
/// unknown time counts as age zero).
pub fn old_enough(t: Option<Timestamp>, now: &Timestamp, min_days: u32) -> (r: bool)
    requires
        now.wf(),
        t matches Some(x) ==> x.wf(),
    ensures
        r == (age_days_or_zero(t, *now) >= min_days),
{
    match t {
        Some(x) => now.days_since(&x) >= min_days as i64,
        None => 0 >= min_days,
    }
}

// ----- virtual environments -----

/// Directory names of Python virtual environments.
pub open spec fn venv_names() -> Seq<&'static str> {
    seq![".venv", "venv", ".env"]
}

/// Files whose presence confirms a virtual environment, relative to it.
pub open spec fn venv_markers() -> Seq<&'static str> {
    seq!["pyvenv.cfg", "bin/python", "bin/python3", "Scripts/python.exe"]
}

/// Whether a directory name is one of a virtual environment.
pub fn is_venv_name(name: &str) -> (r: bool)
    ensures
        r == one_of(name@, venv_names()),
{
    let n = chars_of(name);
    let names: [&str; 3] = [".venv", "venv", ".env"];
    assert(names@ == venv_names());
    is_one_of(&n, &names)
}

/// The marker files to look for inside a directory named like a virtual environment.
pub fn venv_marker_files() -> (r: Vec<&'static str>)
    ensures
        r@ == venv_markers(),
{
    let mut r: Vec<&'static str> = Vec::new();
    r.push("pyvenv.cfg");
    r.push("bin/python");
    r.push("bin/python3");
    r.push("Scripts/python.exe");
    assert(r@ =~= venv_markers());
    r
}

/// The candidate of a confirmed virtual environment.
pub fn venv_candidate(path: String, size: u64, modified: Option<Timestamp>, accessed: Option<Timestamp>) -> (c: Candidate)
    ensures
        c.path == path && c.kind == TargetKind::Venv && c.size_bytes == size && c.last_modified == modified
            && c.last_accessed == accessed && c.reproducibility == 950 && c.score == 0 && c.action is Skip,
        tag_views(c.tags@) == seq!["reproducible"@],
        opt_view(c.group) == parent_name(path@),
{
    let c = directory_candidate(path, TargetKind::Venv, size, modified, accessed, 950, &["reproducible"]);
    proof {
        reveal_strlit("reproducible");
        assert(tag_views(c.tags@) =~= seq!["reproducible"@]);
    }
    c
}

// ----- build directories -----

/// Build output directory names with the reproducibility (thousandths) of each.
pub open spec fn build_patterns() -> Seq<(&'static str, u32)> {
    seq![
        ("target", 980u32),
        ("build", 970u32),
        ("dist", 950u32),
        ("__pycache__", 1000u32),
        (".mypy_cache", 1000u32),
        (".pytest_cache", 1000u32),
        (".tox", 980u32),
        (".ruff_cache", 1000u32),
    ]
}

/// The reproducibility of the first build pattern named `name`.
pub open spec fn build_repro_from(ps: Seq<(&'static str, u32)>, name: Seq<char>) -> Option<u32>
    decreases ps.len(),
{
    if ps.len() == 0 {
        None
    } else if ps[0].0@ == name {
        Some(ps[0].1)
    } else {
        build_repro_from(ps.drop_first(), name)
    }
}

/// The reproducibility of a build directory name, if it is one.
pub fn build_repro(name: &str) -> (r: Option<u32>)
    ensures
        r == build_repro_from(build_patterns(), name@),
{
    let n = chars_of(name);
    let names: [&str; 8] = ["target", "build", "dist", "__pycache__", ".mypy_cache", ".pytest_cache", ".tox", ".ruff_cache"];
    let repros: [u32; 8] = [980, 970, 950, 1000, 1000, 1000, 980, 1000];
    let mut k: usize = 0;
    proof {
        assert(build_patterns().skip(0) =~= build_patterns());
    }
    while k < 8
        invariant
            k <= 8,
            forall|j: int| 0 <= j < 8 ==> #[trigger] names@[j] == build_patterns()[j].0 && repros@[j] == build_patterns()[j].1,
            n@ == name@,
            build_repro_from(build_patterns(), name@) == build_repro_from(build_patterns().skip(k as int), name@),
        decreases 8 - k,
    {
        proof {
            assert(build_patterns().skip(k as int)[0] == build_patterns()[k as int]);
            assert(build_patterns().skip(k as int).drop_first() =~= build_patterns().skip(k + 1));
        }
        if is_str(&n, names[k]) {
            return Some(repros[k]);
        }
        k += 1;
    }
    None
}

/// A name is present and one of `names`.
pub open spec fn named_one_of(n: Option<Seq<char>>, names: Seq<&'static str>) -> bool {
    match n {
        Some(x) => one_of(x, names),
        None => false,
    }
}

/// Some ancestor of the path above itself has a name from `names`.
pub open spec fn ancestor_named(p: Seq<char>, names: Seq<&'static str>) -> bool {
    exists|k: int| 1 <= k < path_ancestors(p).len() && named_one_of(#[trigger] path_file_name(path_ancestors(p)[k]), names)
}

/// The names of build directories.
pub open spec fn build_names() -> Seq<&'static str> {
    seq!["target", "build", "dist", "__pycache__", ".mypy_cache", ".pytest_cache", ".tox", ".ruff_cache"]
}

/// Whether some ancestor (above the path itself) has one of the names.
fn has_ancestor_named(p: &str, names: &[&'static str]) -> (r: bool)
    ensures
        r == ancestor_named(p@, names@),
{
    let anc = ancestors_of(p);
    let mut k: usize = 1;
    while k < anc.len()
        invariant
            anc@.len() == path_ancestors(p@).len(),
            forall|i: int| 0 <= i < anc@.len() ==> #[trigger] anc@[i]@ == path_ancestors(p@)[i],
            1 <= k <= anc@.len(),
            forall|j: int| 1 <= j < k ==> !named_one_of(#[trigger] path_file_name(path_ancestors(p@)[j]), names@),
        decreases anc.len() - k,
    {
        match file_name_of(anc[k].as_str()) {
            Some(nm) => {
                let c = chars_of(nm.as_str());
                if is_one_of(&c, names) {
                    return true;
                }
            },
            None => {},
        }
        k += 1;
    }
    false
}

/// Whether a build directory lies inside another build directory.
pub fn inside_build_dir(p: &str) -> (r: bool)
    ensures
        r == ancestor_named(p@, build_names()),
{
    let names: [&'static str; 8] = ["target", "build", "dist", "__pycache__", ".mypy_cache", ".pytest_cache", ".tox", ".ruff_cache"];
    assert(names@ == build_names());
    has_ancestor_named(p, &names)
}

/// The candidate of a build output directory.
pub fn build_candidate(path: String, repro: u32, size: u64, modified: Option<Timestamp>, accessed: Option<Timestamp>) -> (c: Candidate)
    ensures
        c.path == path && c.kind == TargetKind::BuildDir && c.size_bytes == size && c.last_modified == modified
            && c.last_accessed == accessed && c.reproducibility == repro && c.score == 0 && c.action is Skip,
        tag_views(c.tags@) == seq!["reproducible"@],
        opt_view(c.group) == parent_name(path@),
{
    let c = directory_candidate(path, TargetKind::BuildDir, size, modified, accessed, repro, &["reproducible"]);
    proof {
        reveal_strlit("reproducible");
        assert(tag_views(c.tags@) =~= seq!["reproducible"@]);
    }
    c
}

// ----- npm -----

/// Whether a `node_modules` directory lies inside another one.
pub fn inside_node_modules(p: &str) -> (r: bool)
    ensures
        r == ancestor_named(p@, seq!["node_modules"]),
{
    let names: [&'static str; 1] = ["node_modules"];
    assert(names@ =~= seq!["node_modules"]);
    has_ancestor_named(p, &names)
}

/// The candidate of a project's `node_modules`.
pub fn npm_candidate(path: String, size: u64, modified: Option<Timestamp>, accessed: Option<Timestamp>) -> (c: Candidate)
    ensures
        c.path == path && c.kind == TargetKind::NpmModules && c.size_bytes == size && c.last_modified == modified
            && c.last_accessed == accessed && c.reproducibility == 980 && c.score == 0 && c.action is Skip,
        tag_views(c.tags@) == seq!["reproducible"@],
        opt_view(c.group) == parent_name(path@),
{
    let c = directory_candidate(path, TargetKind::NpmModules, size, modified, accessed, 980, &["reproducible"]);
    proof {
        reveal_strlit("reproducible");
        assert(tag_views(c.tags@) =~= seq!["reproducible"@]);
    }
    c
}

/// The candidate of the global npm cache.
pub fn npm_cache_candidate(path: String, size: u64) -> (c: Candidate)
    ensures
        c.path == path && c.kind == TargetKind::NpmCache && c.size_bytes == size && c.last_modified is None
            && c.last_accessed is None && c.reproducibility == 1000 && c.score == 0 && c.action is Skip,
        tag_views(c.tags@) == seq!["cache"@, "reproducible"@],
        opt_view(c.group) == Some("npm-global"@),
{
    let tags = strings_of(&["cache", "reproducible"]);
    proof {
        assert(tag_views(tags@) =~= seq!["cache"@, "reproducible"@]);
    }
    fixed_candidate(path, TargetKind::NpmCache, size, None, 1000, 0, tags, Action::Skip, owned("npm-global"))
}

// ----- logs -----

/// Directory names of log folders.
pub open spec fn log_dir_names() -> Seq<&'static str> {
    seq!["logs", "log", ".logs"]
}

/// File name endings of log files.
pub open spec fn log_suffixes() -> Seq<&'static str> {
    seq!["log", "log.gz", "log.1", "log.2"]
}

/// The entry is a log folder (a directory with a log folder name) or a log file (a
/// file whose name ends like a log).
pub open spec fn is_log_entry(name: Seq<char>, is_dir: bool, is_file: bool) -> bool {
    (is_dir && one_of(name, log_dir_names()))
        || (!(is_dir && one_of(name, log_dir_names())) && is_file
            && exists|k: int| 0 <= k < log_suffixes().len() && has_suffix(name, #[trigger] log_suffixes()[k]@))
}

/// Whether a walked entry is a log folder or a log file.
pub fn log_entry(name: &str, is_dir: bool, is_file: bool) -> (r: bool)
    ensures
        r == is_log_entry(name@, is_dir, is_file),
{
    let n = chars_of(name);
    let dirs: [&str; 3] = ["logs", "log", ".logs"];
    assert(dirs@ == log_dir_names());
    if is_dir && is_one_of(&n, &dirs) {
        return true;
    }
    if !is_file {
        return false;
    }
    let sufs: [&str; 4] = ["log", "log.gz", "log.1", "log.2"];
    assert(sufs@ == log_suffixes());
    let mut k: usize = 0;
    while k < 4
        invariant
            sufs@ == log_suffixes(),
            n@ == name@,
            is_file,
            !(is_dir && one_of(name@, log_dir_names())),
            k <= 4,
            forall|j: int| 0 <= j < k ==> !has_suffix(name@, #[trigger] log_suffixes()[j]@),
        decreases 4 - k,
    {
        if ends_with_str(&n, sufs[k]) {
            proof {
                assert(has_suffix(name@, log_suffixes()[k as int]@));
            }
            return true;
        }
        k += 1;
    }
    false
}

/// The candidate of a log folder or file.
pub fn log_candidate(path: String, size: u64, modified: Option<Timestamp>) -> (c: Candidate)
    ensures
        c.path == path && c.kind == TargetKind::LogFiles && c.size_bytes == size && c.last_modified == modified
            && c.last_accessed is None && c.reproducibility == 0 && c.score == 0 && c.action is Skip,
        tag_views(c.tags@) == seq!["logs"@],
        opt_view(c.group) == Some("logs"@),
{
    let tags = strings_of(&["logs"]);
    proof {
        reveal_strlit("logs");
        assert(tag_views(tags@) =~= seq!["logs"@]);
    }
    fixed_candidate(path, TargetKind::LogFiles, size, modified, 0, 0, tags, Action::Skip, owned("logs"))
}

/// Whether a log found at age `t` is kept for review: at least `min_days` old, or of
/// unknown age.
pub fn log_old_enough(t: Option<Timestamp>, now: &Timestamp, min_days: i64) -> (r: bool)
    requires
        now.wf(),
        t matches Some(x) ==> x.wf(),
    ensures
        r == (match t {
            Some(x) => now.spec_days_since(x) >= min_days,
            None => true,
        }),
{
    match t {
        Some(x) => now.days_since(&x) >= min_days,
        None => true,
    }
}

// ----- package manager caches -----

/// The pip cache, cleaned by `pip cache purge`.
pub fn pip_candidate(path: String, size: u64, modified: Option<Timestamp>) -> (c: Candidate)
    ensures
        c.path == path && c.kind == TargetKind::PipCache && c.size_bytes == size && c.last_modified == modified
            && c.last_accessed is None && c.reproducibility == 1000 && c.score == 0,
        tag_views(c.tags@) == seq!["cache"@, "reproducible"@],
        c.action matches Action::Exec { cmd, args, description } && cmd@ == "pip"@ && tag_views(args@) == seq!["cache"@, "purge"@]
            && description@ == "pip cache purge"@,
        opt_view(c.group) == Some("pip"@),
{
    let tags = strings_of(&["cache", "reproducible"]);
    let args = strings_of(&["cache", "purge"]);
    proof {
        assert(tag_views(tags@) =~= seq!["cache"@, "reproducible"@]);
        assert(tag_views(args@) =~= seq!["cache"@, "purge"@]);
    }
    let action = Action::Exec { cmd: owned("pip"), args, description: owned("pip cache purge") };
    fixed_candidate(path, TargetKind::PipCache, size, modified, 1000, 0, tags, action, owned("pip"))
}

/// The Homebrew cache, cleaned by `brew cleanup --prune=all`.
pub fn brew_candidate(path: String, size: u64) -> (c: Candidate)
    ensures
        c.path == path && c.kind == TargetKind::BrewCache && c.size_bytes == size && c.last_modified is None
            && c.last_accessed is None && c.reproducibility == 1000 && c.score == 0,
        tag_views(c.tags@) == seq!["cache"@, "reproducible"@],
        c.action matches Action::Exec { cmd, args, description } && cmd@ == "brew"@ && tag_views(args@) == seq!["cleanup"@, "--prune=all"@]
            && description@ == "brew cleanup --prune=all"@,
        opt_view(c.group) == Some("brew"@),
{
    let tags = strings_of(&["cache", "reproducible"]);
    let args = strings_of(&["cleanup", "--prune=all"]);
    proof {
        assert(tag_views(tags@) =~= seq!["cache"@, "reproducible"@]);
        assert(tag_views(args@) =~= seq!["cleanup"@, "--prune=all"@]);
    }
    let action = Action::Exec { cmd: owned("brew"), args, description: owned("brew cleanup --prune=all") };
    fixed_candidate(path, TargetKind::BrewCache, size, None, 1000, 0, tags, action, owned("brew"))
}

// ----- Cisco and Webex logs -----

/// The size from which the Cisco Data Shift log is worth deleting: 10 MB.
pub const DATA_SHIFT_MIN_BYTES: u64 = 10000000;

/// The Cisco Data Shift log, when large and old enough.
pub fn data_shift_candidate(path: String, size: u64, modified: Option<Timestamp>, now: &Timestamp, min_days: u32) -> (r: Option<Candidate>)
    requires
        now.wf(),
        modified matches Some(x) ==> x.wf(),
    ensures
        r is Some <==> (size >= DATA_SHIFT_MIN_BYTES && age_days_or_zero(modified, *now) >= min_days),
        r matches Some(c) ==> c.path == path && c.kind == TargetKind::CiscoLogs && c.size_bytes == size
            && c.last_modified == modified && c.last_accessed is None && c.reproducibility == 1000 && c.score == 0
            && c.action is Delete && tag_views(c.tags@) == seq!["enterprise"@, "single-file"@, "cisco-data-shift"@]
            && opt_view(c.group) == Some("Cisco Logs"@),
{
    if size >= DATA_SHIFT_MIN_BYTES && old_enough(modified, now, min_days) {
        let tags = strings_of(&["enterprise", "single-file", "cisco-data-shift"]);
        proof {
            assert(tag_views(tags@) =~= seq!["enterprise"@, "single-file"@, "cisco-data-shift"@]);
        }
        Some(fixed_candidate(path, TargetKind::CiscoLogs, size, modified, 1000, 0, tags, Action::Delete, owned("Cisco Logs")))
    } else {
        None
    }
}

/// A log file in the Cisco logs folder (extension `log`), when old enough.
pub fn cisco_log_candidate(path: String, size: u64, modified: Option<Timestamp>, now: &Timestamp, min_days: u32) -> (r: Option<Candidate>)
    requires
        now.wf(),
        modified matches Some(x) ==> x.wf(),
    ensures
        r is Some <==> (crate::paths::path_extension(path@) == Some("log"@) && age_days_or_zero(modified, *now) >= min_days),
        r matches Some(c) ==> c.path == path && c.kind == TargetKind::CiscoLogs && c.size_bytes == size
            && c.last_modified == modified && c.last_accessed is None && c.reproducibility == 1000 && c.score == 0
            && c.action is Delete && tag_views(c.tags@) == seq!["enterprise"@, "cisco"@]
            && opt_view(c.group) == Some("Cisco Logs"@),
{
    let is_log = match crate::paths::extension_of(path.as_str()) {
        Some(e) => {
            let c = chars_of(e.as_str());
            is_str(&c, "log")
        },
        None => false,
    };
    if is_log && old_enough(modified, now, min_days) {
        let tags = strings_of(&["enterprise", "cisco"]);
        proof {
            assert(tag_views(tags@) =~= seq!["enterprise"@, "cisco"@]);
        }
        Some(fixed_candidate(path, TargetKind::CiscoLogs, size, modified, 1000, 0, tags, Action::Delete, owned("Cisco Logs")))
    } else {
        None
    }
}

/// A file in a Webex log folder, when old enough; grouped under `group`.
pub fn webex_log_candidate(path: String, size: u64, modified: Option<Timestamp>, now: &Timestamp, min_days: u32, group: &str) -> (r: Option<Candidate>)
    requires
        now.wf(),
        modified matches Some(x) ==> x.wf(),
    ensures
        r is Some <==> age_days_or_zero(modified, *now) >= min_days,
        r matches Some(c) ==> c.path == path && c.kind == TargetKind::CiscoLogs && c.size_bytes == size
            && c.last_modified == modified && c.last_accessed is None && c.reproducibility == 1000 && c.score == 0
            && c.action is Delete && tag_views(c.tags@) == seq!["enterprise"@, "webex"@]
            && opt_view(c.group) == Some(group@),
{
    if old_enough(modified, now, min_days) {
        let tags = strings_of(&["enterprise", "webex"]);
        proof {
            assert(tag_views(tags@) =~= seq!["enterprise"@, "webex"@]);
        }
        Some(fixed_candidate(path, TargetKind::CiscoLogs, size, modified, 1000, 0, tags, Action::Delete, owned(group)))
    } else {
        None
    }
}

// ----- browser caches -----

/// Browser cache folders (under the user's cache folder) and the browser's name.
pub open spec fn browser_dirs() -> Seq<(&'static str, &'static str)> {
    seq![
        ("Google", "Chrome/Chromium"),
        ("Mozilla", "Mozilla"),
        ("Firefox", "Firefox"),
        ("com.apple.Safari", "Safari"),
        ("com.microsoft.Edge", "Microsoft Edge"),
        ("BraveSoftware", "Brave"),
    ]
}

/// The browser cache folders looked at, in order.
pub fn browsers() -> (r: Vec<(&'static str, &'static str)>)
    ensures
        r@ == browser_dirs(),
{
    let mut r: Vec<(&'static str, &'static str)> = Vec::new();
    r.push(("Google", "Chrome/Chromium"));
    r.push(("Mozilla", "Mozilla"));
    r.push(("Firefox", "Firefox"));
    r.push(("com.apple.Safari", "Safari"));
    r.push(("com.microsoft.Edge", "Microsoft Edge"));
    r.push(("BraveSoftware", "Brave"));
    assert(r@ =~= browser_dirs());
    r
}

/// A browser's cache folder, when old enough.
pub fn browser_candidate(path: String, browser: &str, size: u64, modified: Option<Timestamp>, now: &Timestamp, min_days: u32) -> (r: Option<Candidate>)
    requires
        now.wf(),
        modified matches Some(x) ==> x.wf(),
    ensures
        r is Some <==> age_days_or_zero(modified, *now) >= min_days,
        r matches Some(c) ==> c.path == path && c.kind == TargetKind::BrowserCache && c.size_bytes == size
            && c.last_modified == modified && c.last_accessed is None && c.reproducibility == 1000 && c.score == 0
            && c.action is Delete && tag_views(c.tags@) == seq!["browser"@, "web"@, crate::large_files::tag_form(browser@)]
            && opt_view(c.group) == Some(browser@ + " Cache"@),
{
    if !old_enough(modified, now, min_days) {
        return None;
    }
    let mut tags: Vec<String> = Vec::new();
    tags.push(owned("browser"));
    tags.push(owned("web"));
    tags.push(crate::large_files::category_tag(browser));
    let mut group: Vec<char> = Vec::new();
    push_str(&mut group, browser);
    push_str(&mut group, " Cache");
    proof {
        assert(tag_views(tags@) =~= seq!["browser"@, "web"@, crate::large_files::tag_form(browser@)]);
    }
    Some(fixed_candidate(path, TargetKind::BrowserCache, size, modified, 1000, 0, tags, Action::Delete, string_from_chars(&group)))
}

// ----- VS Code -----

/// What serde_json finds under a key of a JSON text: `None` when the text is not
/// JSON, `Some(None)` when the key is missing or holds no string.
pub uninterp spec fn json_string_field(text: Seq<char>, key: Seq<char>) -> Option<Option<Seq<char>>>;

/// serde_json: parse a text as a JSON value and read the string under a key of
/// it. The contract names the result.
#[verifier::external_body]
pub(crate) fn json_string_of(text: &str, key: &str) -> (r: Option<Option<String>>)
    ensures
        match r {
            None => json_string_field(text@, key@) is None,
            Some(None) => json_string_field(text@, key@) == Some(None::<Seq<char>>),
            Some(Some(s)) => json_string_field(text@, key@) == Some(Some(s@)),
        },
{
    match serde_json::from_str::<serde_json::Value>(text) {
        Ok(v) => Some(v.get(key).and_then(|f| f.as_str()).map(|s| s.to_string())),
        Err(_) => None,
    }
}

/// The folder a workspace's `workspace.json` names, without a `file://` scheme:
/// `None` when the text is not JSON or names no folder.
pub open spec fn workspace_folder(text: Seq<char>) -> Option<Seq<char>> {
    match json_string_field(text, "folder"@) {
        Some(Some(f)) => Some(crate::plugins::baloo_path(f)),
        _ => None,
    }
}

/// The folder a workspace belongs to, read from its `workspace.json`.
pub fn workspace_folder_of(text: &str) -> (r: Option<String>)
    ensures
        opt_view(r) == workspace_folder(text@),
{
    match json_string_of(text, "folder") {
        Some(Some(f)) => Some(crate::plugins::baloo_line_path(f.as_str())),
        _ => None,
    }
}

/// A workspace's storage is orphaned unless its `workspace.json` could be read and
/// names a folder that still exists.
pub fn is_orphaned(folder: Option<String>, folder_exists: bool) -> (r: bool)
    ensures
        r == !(folder is Some && folder_exists),
{
    match folder {
        Some(_) => !folder_exists,
        None => true,
    }
}

/// The storage of an orphaned workspace, when old enough.
pub fn workspace_candidate(path: String, size: u64, modified: Option<Timestamp>, now: &Timestamp, min_days: u32) -> (r: Option<Candidate>)
    requires
        now.wf(),
        modified matches Some(x) ==> x.wf(),
    ensures
        r is Some <==> age_days_or_zero(modified, *now) >= min_days,
        r matches Some(c) ==> c.path == path && c.kind == TargetKind::VsCodeWorkspaceStorage && c.size_bytes == size
            && c.last_modified == modified && c.last_accessed is None && c.reproducibility == 1000 && c.score == 0
            && c.action is Delete && tag_views(c.tags@) == seq!["orphaned"@, "vscode"@]
            && opt_view(c.group) == Some("VS Code Workspace Storage"@),
{
    if old_enough(modified, now, min_days) {
        let tags = strings_of(&["orphaned", "vscode"]);
        proof {
            assert(tag_views(tags@) =~= seq!["orphaned"@, "vscode"@]);
        }
        Some(fixed_candidate(path, TargetKind::VsCodeWorkspaceStorage, size, modified, 1000, 0, tags, Action::Delete, owned("VS Code Workspace Storage")))
    } else {
        None
    }
}

/// Default minimum size of VS Code extension data: 50 MiB.
pub const EXTENSION_MIN_BYTES: u64 = 52428800;

/// The data folder of one extension, for review.
pub fn extension_data_candidate(path: String, size: u64, modified: Option<Timestamp>) -> (c: Candidate)
    ensures
        c.path == path && c.kind == TargetKind::VsCodeExtensionData && c.size_bytes == size
            && c.last_modified == modified && c.last_accessed is None && c.reproducibility == 500 && c.score == 500
            && c.action is Skip
            && tag_views(c.tags@) == seq![
                "extension-data"@,
                (match path_file_name(path@) {
                    Some(n) => n,
                    None => "unknown"@,
                }),
                "review"@,
            ]
            && opt_view(c.group) == Some("VS Code Extension Storage"@),
{
    let id = match file_name_of(path.as_str()) {
        Some(n) => n,
        None => owned("unknown"),
    };
    let mut tags: Vec<String> = Vec::new();
    tags.push(owned("extension-data"));
    tags.push(id);
    tags.push(owned("review"));
    proof {
        assert(tag_views(tags@) =~= seq![
            "extension-data"@,
            (match path_file_name(path@) {
                Some(n) => n,
                None => "unknown"@,
            }),
            "review"@,
        ]);
    }
    fixed_candidate(path, TargetKind::VsCodeExtensionData, size, modified, 500, 500, tags, Action::Skip, owned("VS Code Extension Storage"))
}

/// VS Code's file edit history.
pub fn history_candidate(path: String, size: u64, modified: Option<Timestamp>) -> (c: Candidate)
    ensures
        c.path == path && c.kind == TargetKind::VsCodeExtensionData && c.size_bytes == size
            && c.last_modified == modified && c.last_accessed is None && c.reproducibility == 1000 && c.score == 700
            && c.action is Delete && tag_views(c.tags@) == seq!["history"@, "cache"@]
            && opt_view(c.group) == Some("VS Code File History"@),
{
    let tags = strings_of(&["history", "cache"]);
    proof {
        assert(tag_views(tags@) =~= seq!["history"@, "cache"@]);
    }
    fixed_candidate(path, TargetKind::VsCodeExtensionData, size, modified, 1000, 700, tags, Action::Delete, owned("VS Code File History"))
}

/// A cached extension package.
pub fn vsix_candidate(path: String, size: u64, modified: Option<Timestamp>) -> (c: Candidate)
    ensures
        c.path == path && c.kind == TargetKind::VsCodeExtensionData && c.size_bytes == size
            && c.last_modified == modified && c.last_accessed is None && c.reproducibility == 1000 && c.score == 800
            && c.action is Delete && tag_views(c.tags@) == seq!["vsix"@, "cache"@]
            && opt_view(c.group) == Some("VS Code Cached Extensions"@),
{
    let tags = strings_of(&["vsix", "cache"]);
    proof {
        assert(tag_views(tags@) =~= seq!["vsix"@, "cache"@]);
    }
    fixed_candidate(path, TargetKind::VsCodeExtensionData, size, modified, 1000, 800, tags, Action::Delete, owned("VS Code Cached Extensions"))
}

/// VS Code's logs folder.
pub fn vscode_logs_candidate(path: String, size: u64, modified: Option<Timestamp>) -> (c: Candidate)
    ensures
        c.path == path && c.kind == TargetKind::VsCodeExtensionData && c.size_bytes == size
            && c.last_modified == modified && c.last_accessed is None && c.reproducibility == 1000 && c.score == 800
            && c.action is Delete && tag_views(c.tags@) == seq!["logs"@]
            && opt_view(c.group) == Some("VS Code Logs"@),
{
    let tags = strings_of(&["logs"]);
    proof {
        reveal_strlit("logs");
        assert(tag_views(tags@) =~= seq!["logs"@]);
    }
    fixed_candidate(path, TargetKind::VsCodeExtensionData, size, modified, 1000, 800, tags, Action::Delete, owned("VS Code Logs"))
}

/// What the VS Code data scan found.
#[derive(Debug, Clone, Copy, PartialEq, Eq, Structural)]
pub enum VsCodeFind {
    /// The data folder of one extension.
    ExtensionData,
    /// The file edit history.
    History,
    /// A cached extension package.
    Vsix,
    /// The logs folder.
    Logs,
}

/// A folder or file the VS Code data scan found, with its size and modification time.
#[derive(Debug, Clone)]
pub struct VsCodeEntry {
    pub find: VsCodeFind,
    pub path: String,
    pub size: u64,
    pub modified: Option<Timestamp>,
}

/// `c` is the candidate for the found entry `e`.
pub open spec fn vscode_candidate_ok(e: VsCodeEntry, c: Candidate) -> bool {
    &&& c.path@ == e.path@
    &&& c.kind == TargetKind::VsCodeExtensionData
    &&& c.size_bytes == e.size
    &&& c.last_modified == e.modified
    &&& c.last_accessed is None
    &&& match e.find {
        VsCodeFind::ExtensionData => {
            &&& c.reproducibility == 500 && c.score == 500 && c.action is Skip
            &&& tag_views(c.tags@) == seq![
                "extension-data"@,
                (match path_file_name(e.path@) {
                    Some(n) => n,
                    None => "unknown"@,
                }),
                "review"@,
            ]
            &&& opt_view(c.group) == Some("VS Code Extension Storage"@)
        },
        VsCodeFind::History => {
            &&& c.reproducibility == 1000 && c.score == 700 && c.action is Delete
            &&& tag_views(c.tags@) == seq!["history"@, "cache"@]
            &&& opt_view(c.group) == Some("VS Code File History"@)
        },
        VsCodeFind::Vsix => {
            &&& c.reproducibility == 1000 && c.score == 800 && c.action is Delete
            &&& tag_views(c.tags@) == seq!["vsix"@, "cache"@]
            &&& opt_view(c.group) == Some("VS Code Cached Extensions"@)
        },
        VsCodeFind::Logs => {
            &&& c.reproducibility == 1000 && c.score == 800 && c.action is Delete
            &&& tag_views(c.tags@) == seq!["logs"@]
            &&& opt_view(c.group) == Some("VS Code Logs"@)
        },
    }
}

/// The smallest VS Code data the profile reports: its minimum size, else 50 MiB.
pub open spec fn vscode_min(p: Profile) -> u64 {
    match p.min_size_bytes {
        Some(m) => m,
        None => EXTENSION_MIN_BYTES,
    }
}

/// The found entries large enough to report, in order.
pub open spec fn vscode_kept(es: Seq<VsCodeEntry>, min: u64) -> Seq<VsCodeEntry>
    decreases es.len(),
{
    if es.len() == 0 {
        Seq::empty()
    } else if es.last().size >= min {
        vscode_kept(es.drop_last(), min).push(es.last())
    } else {
        vscode_kept(es.drop_last(), min)
    }
}

/// The candidates for what the VS Code data scan found: nothing unless the profile
/// enables "vscode-extensions"; else one for each entry of at least the profile's
/// minimum size (50 MiB without one), in order.
pub fn vscode_extension_candidates(entries: &Vec<VsCodeEntry>, profile: &Profile) -> (r: Vec<Candidate>)
    ensures
        match profile.config_for("vscode-extensions"@) {
            Some(cfg) if cfg.enabled => {
                let kept = vscode_kept(entries@, vscode_min(*profile));
                &&& r@.len() == kept.len()
                &&& forall|k: int| 0 <= k < kept.len() ==> vscode_candidate_ok(kept[k], #[trigger] r@[k])
            },
            _ => r@.len() == 0,
        },
{
    let cfg = profile.target_config("vscode-extensions");
    if !cfg.enabled {
        return Vec::new();
    }
    let min: u64 = match profile.min_size_bytes {
        Some(m) => m,
        None => EXTENSION_MIN_BYTES,
    };
    let mut out: Vec<Candidate> = Vec::new();
    let mut i: usize = 0;
    while i < entries.len()
        invariant
            i <= entries@.len(),
            min == vscode_min(*profile),
            out@.len() == vscode_kept(entries@.take(i as int), min).len(),
            forall|k: int|
                0 <= k < out@.len() ==> vscode_candidate_ok(vscode_kept(entries@.take(i as int), min)[k], #[trigger] out@[k]),
        decreases entries.len() - i,
    {
        let e = &entries[i];
        proof {
            assert(entries@.take(i + 1).drop_last() =~= entries@.take(i as int));
            assert(entries@.take(i + 1).last() == entries@[i as int]);
        }
        if e.size >= min {
            let path = owned(e.path.as_str());
            let c = match e.find {
                VsCodeFind::ExtensionData => extension_data_candidate(path, e.size, e.modified),
                VsCodeFind::History => history_candidate(path, e.size, e.modified),
                VsCodeFind::Vsix => vsix_candidate(path, e.size, e.modified),
                VsCodeFind::Logs => vscode_logs_candidate(path, e.size, e.modified),
            };
            out.push(c);
        }
        i += 1;
    }
    proof {
        assert(entries@.take(entries@.len() as int) =~= entries@);
    }
    out
}

/// A Copilot chat sessions folder holding `sessions` entries.
pub fn chat_sessions_candidate(path: String, size: u64, modified: Option<Timestamp>, sessions: usize) -> (c: Candidate)
    ensures
        c.path == path && c.kind == TargetKind::VsCodeCache && c.size_bytes == size
            && c.last_modified == modified && c.last_accessed is None && c.reproducibility == 0 && c.score == 0
            && c.action is Skip && tag_views(c.tags@) == seq!["vscode"@, "copilot"@, dec_seq(sessions as nat) + " sessions"@]
            && opt_view(c.group) == Some("vscode-chats"@),
{
    let mut count = dec_chars(sessions as u64);
    push_str(&mut count, " sessions");
    let mut tags: Vec<String> = Vec::new();
    tags.push(owned("vscode"));
    tags.push(owned("copilot"));
    tags.push(string_from_chars(&count));
    proof {
        assert(tag_views(tags@) =~= seq!["vscode"@, "copilot"@, dec_seq(sessions as nat) + " sessions"@]);
    }
    fixed_candidate(path, TargetKind::VsCodeCache, size, modified, 0, 0, tags, Action::Skip, owned("vscode-chats"))
}

// ----- Xcode -----

/// The project a DerivedData folder belongs to: the folder name up to its first
/// `-` ("MyApp-abc123" gives "MyApp"), "unknown" without a name.
pub open spec fn xcode_project(p: Seq<char>) -> Seq<char> {
    match path_file_name(p) {
        Some(n) => n.take(crate::plugins::first_char_from(n, '-', 0)),
        None => "unknown"@,
    }
}

/// A project's DerivedData folder.
pub fn xcode_candidate(path: String, size: u64, modified: Option<Timestamp>) -> (c: Candidate)
    ensures
        c.path == path && c.kind == TargetKind::XcodeDerivedData && c.size_bytes == size
            && c.last_modified == modified && c.last_accessed is None && c.reproducibility == 1000 && c.score == 0
            && c.action is Delete && tag_views(c.tags@) == seq!["xcode"@, "build"@]
            && opt_view(c.group) == Some("xcode-"@ + xcode_project(path@)),
{
    let mut group: Vec<char> = Vec::new();
    push_str(&mut group, "xcode-");
    match file_name_of(path.as_str()) {
        Some(n) => {
            let c = chars_of(n.as_str());
            let k = crate::plugins::first_char_index(&c, '-');
            let mut x: usize = 0;
            let ghost g0 = group@;
            while x < k
                invariant
                    k <= c@.len(),
                    x <= k,
                    group@ == g0 + c@.take(x as int),
                decreases k - x,
            {
                group.push(c[x]);
                x += 1;
                assert(group@ =~= g0 + c@.take(x as int));
            }
        },
        None => {
            push_str(&mut group, "unknown");
        },
    }
    let tags = strings_of(&["xcode", "build"]);
    proof {
        assert(tag_views(tags@) =~= seq!["xcode"@, "build"@]);
    }
    fixed_candidate(path, TargetKind::XcodeDerivedData, size, modified, 1000, 0, tags, Action::Delete, string_from_chars(&group))
}

// ----- system caches (macOS) -----

/// System cache folders (relative to the home folder) with the profile key that
/// enables each.
pub open spec fn system_cache_spots() -> Seq<(&'static str, &'static str)> {
    seq![
        ("Library/Caches/go-build", "go-cache"),
        ("Library/Caches/vscode-cpptools", "vscode-cache"),
        ("Library/Caches/ms-playwright", "playwright-cache"),
        ("Library/Caches/Google", "browser-cache"),
        ("Library/Application Support/Code/logs", "vscode-logs"),
    ]
}

/// The system cache folders looked at, in order.
pub fn system_caches() -> (r: Vec<(&'static str, &'static str)>)
    ensures
        r@ == system_cache_spots(),
{
    let mut r: Vec<(&'static str, &'static str)> = Vec::new();
    r.push(("Library/Caches/go-build", "go-cache"));
    r.push(("Library/Caches/vscode-cpptools", "vscode-cache"));
    r.push(("Library/Caches/ms-playwright", "playwright-cache"));
    r.push(("Library/Caches/Google", "browser-cache"));
    r.push(("Library/Application Support/Code/logs", "vscode-logs"));
    assert(r@ =~= system_cache_spots());
    r
}

/// The kind of system cache `i`.
pub open spec fn system_cache_kind(i: int) -> TargetKind {
    if i == 0 {
        TargetKind::GoCache
    } else if i == 1 {
        TargetKind::VsCodeCache
    } else if i == 2 {
        TargetKind::PlaywrightCache
    } else if i == 3 {
        TargetKind::BrowserCache
    } else {
        TargetKind::VsCodeLogs
    }
}

/// The candidate of system cache `i`: the Go build cache is cleaned by `go clean
/// -cache`, Playwright's by `npx playwright uninstall --all`, the others are kept
/// until scored.
pub fn system_cache_candidate(i: usize, path: String, size: u64, modified: Option<Timestamp>) -> (c: Candidate)
    requires
        i < 5,
    ensures
        c.path == path && c.kind == system_cache_kind(i as int) && c.size_bytes == size
            && c.last_modified == modified && c.last_accessed is None && c.reproducibility == 1000 && c.score == 0,
        tag_views(c.tags@) == seq!["cache"@, "reproducible"@],
        opt_view(c.group) == Some("system-cache"@),
        i == 0 ==> (c.action matches Action::Exec { cmd, args, description } && cmd@ == "go"@
            && tag_views(args@) == seq!["clean"@, "-cache"@] && description@ == "go clean -cache"@),
        i == 2 ==> (c.action matches Action::Exec { cmd, args, description } && cmd@ == "npx"@
            && tag_views(args@) == seq!["playwright"@, "uninstall"@, "--all"@]
            && description@ == "npx playwright uninstall --all"@),
        i != 0 && i != 2 ==> c.action is Skip,
{
    let kind = if i == 0 {
        TargetKind::GoCache
    } else if i == 1 {
        TargetKind::VsCodeCache
    } else if i == 2 {
        TargetKind::PlaywrightCache
    } else if i == 3 {
        TargetKind::BrowserCache
    } else {
        TargetKind::VsCodeLogs
    };
    let action = if i == 0 {
        let args = strings_of(&["clean", "-cache"]);
        proof {
            assert(tag_views(args@) =~= seq!["clean"@, "-cache"@]);
        }
        Action::Exec { cmd: owned("go"), args, description: owned("go clean -cache") }
    } else if i == 2 {
        let args = strings_of(&["playwright", "uninstall", "--all"]);
        proof {
            assert(tag_views(args@) =~= seq!["playwright"@, "uninstall"@, "--all"@]);
        }
        Action::Exec { cmd: owned("npx"), args, description: owned("npx playwright uninstall --all") }
    } else {
        Action::Skip
    };
    let tags = strings_of(&["cache", "reproducible"]);
    proof {
        assert(tag_views(tags@) =~= seq!["cache"@, "reproducible"@]);
    }
    fixed_candidate(path, kind, size, modified, 1000, 0, tags, action, owned("system-cache"))
}

} // verus!
