//! Large files of any other kind, grouped by file type for manual review.
use vstd::prelude::*;
use crate::candidate::{Action, Candidate, FileEntry, TargetKind};
use crate::profile::Profile;
use crate::paths::{opt_view, path_extension, extension_of};
use crate::text::{chars_of, string_from_chars, to_lowercase, lowercase_of, one_of, is_one_of, push_str, push_all, owned};
use crate::strategy::tag_views;

verus! {

/// File types with their score (thousandths), by lowercased extension.
pub open spec fn category_of_ext(ext: Seq<char>) -> (Seq<char>, u32) {
    if one_of(ext, seq!["mp4", "mkv", "avi", "mov", "wmv", "flv", "webm", "m4v"]) {
        ("Video"@, 500)
    } else if one_of(ext, seq!["iso", "dmg", "img", "vdi", "vmdk", "qcow2"]) {
        ("Disk Image"@, 700)
    } else if one_of(ext, seq!["sql", "dump", "db", "sqlite", "sqlite3"]) {
        ("Database"@, 500)
    } else if one_of(ext, seq!["csv", "json", "xml", "parquet", "feather", "arrow"]) {
        ("Dataset"@, 300)
    } else if one_of(ext, seq!["mp3", "wav", "flac", "m4a", "aac", "ogg", "wma"]) {
        ("Audio"@, 500)
    } else if one_of(ext, seq!["bak", "backup", "old", "tmp"]) {
        ("Backup"@, 700)
    } else if ext == "pdf"@ {
        ("PDF Document"@, 300)
    } else if one_of(ext, seq!["bin", "fw", "hex", "elf"]) {
        ("Binary/Firmware"@, 500)
    } else {
        ("Unknown"@, 500)
    }
}

/// The category and score of a path: by its extension, lowercased (none counts as
/// the empty extension).
pub open spec fn category_of_path(p: Seq<char>) -> (Seq<char>, u32) {
    match path_extension(p) {
        Some(e) => category_of_ext(lowercase_of(e)),
        None => category_of_ext(lowercase_of(Seq::empty())),
    }
}

/// Categorize a file by its extension, with the score (thousandths) its category
/// gets.
pub fn categorize_file(path: &str) -> (r: (String, u32))
    ensures
        (r.0@, r.1) == category_of_path(path@),
{
    let lower = match extension_of(path) {
        Some(e) => to_lowercase(e.as_str()),
        None => {
            let l = to_lowercase("");
            proof {
                reveal_strlit("");
                assert(""@ =~= Seq::<char>::empty());
            }
            l
        },
    };
    let ext = chars_of(lower.as_str());
    if is_one_of(&ext, &["mp4", "mkv", "avi", "mov", "wmv", "flv", "webm", "m4v"]) {
        (owned("Video"), 500)
    } else if is_one_of(&ext, &["iso", "dmg", "img", "vdi", "vmdk", "qcow2"]) {
        (owned("Disk Image"), 700)
    } else if is_one_of(&ext, &["sql", "dump", "db", "sqlite", "sqlite3"]) {
        (owned("Database"), 500)
    } else if is_one_of(&ext, &["csv", "json", "xml", "parquet", "feather", "arrow"]) {
        (owned("Dataset"), 300)
    } else if is_one_of(&ext, &["mp3", "wav", "flac", "m4a", "aac", "ogg", "wma"]) {
        (owned("Audio"), 500)
    } else if is_one_of(&ext, &["bak", "backup", "old", "tmp"]) {
        (owned("Backup"), 700)
    } else if crate::text::is_str(&ext, "pdf") {
        (owned("PDF Document"), 300)
    } else if is_one_of(&ext, &["bin", "fw", "hex", "elf"]) {
        (owned("Binary/Firmware"), 500)
    } else {
        (owned("Unknown"), 500)
    }
}

/// Directory names whose subtrees the large-file scan does not enter.
pub open spec fn skipped_dirs() -> Seq<&'static str> {
    seq![
        "node_modules", ".venv", "venv", ".git", "target", "build", "dist", "__pycache__", ".cache", "Cache",
        "Caches",
    ]
}

/// Extensions (compared ignoring ASCII case) that other scans handle.
pub open spec fn skipped_exts() -> Seq<&'static str> {
    seq!["zip", "tar", "gz", "tgz", "bz2", "tbz2", "xz", "txz", "7z", "rar", "o", "obj", "a", "lib", "so", "dylib", "dll", "log"]
}

/// Whether the large-file scan leaves out a directory with this name.
pub fn is_skipped_dir(name: &str) -> (r: bool)
    ensures
        r == one_of(name@, skipped_dirs()),
{
    let n = chars_of(name);
    let dirs: [&str; 11] = [
        "node_modules", ".venv", "venv", ".git", "target", "build", "dist", "__pycache__", ".cache", "Cache",
        "Caches",
    ];
    assert(dirs@ == skipped_dirs());
    is_one_of(&n, &dirs)
}

/// The code of a character with ASCII capitals lowered.
pub open spec fn ascii_lower_code(c: char) -> u32 {
    if 'A' <= c && c <= 'Z' {
        (c as u32 + 32) as u32
    } else {
        c as u32
    }
}

/// The texts are equal ignoring ASCII case (std `eq_ignore_ascii_case`).
pub open spec fn eq_ignore_ascii_case(a: Seq<char>, b: Seq<char>) -> bool {
    a.len() == b.len() && forall|i: int| 0 <= i < a.len() ==> #[trigger] ascii_lower_code(a[i]) == ascii_lower_code(b[i])
}

/// The extension is one of those that other scans handle.
pub open spec fn is_skipped_ext(e: Seq<char>) -> bool {
    exists|k: int| 0 <= k < skipped_exts().len() && eq_ignore_ascii_case(e, #[trigger] skipped_exts()[k]@)
}

fn lower_code(c: char) -> (r: u32)
    ensures
        r == ascii_lower_code(c),
{
    if 'A' <= c && c <= 'Z' {
        c as u32 + 32
    } else {
        c as u32
    }
}

fn same_ignoring_ascii_case(a: &Vec<char>, b: &str) -> (r: bool)
    ensures
        r == eq_ignore_ascii_case(a@, b@),
{
    let bc = chars_of(b);
    if a.len() != bc.len() {
        return false;
    }
    let mut i: usize = 0;
    while i < a.len()
        invariant
            bc@ == b@,
            a@.len() == bc@.len(),
            i <= a@.len(),
            forall|j: int| 0 <= j < i ==> #[trigger] ascii_lower_code(a@[j]) == ascii_lower_code(bc@[j]),
        decreases a.len() - i,
    {
        if lower_code(a[i]) != lower_code(bc[i]) {
            return false;
        }
        i += 1;
    }
    true
}

/// Whether an extension is one that other scans handle.
pub fn skipped_extension(ext: &str) -> (r: bool)
    ensures
        r == is_skipped_ext(ext@),
{
    let e = chars_of(ext);
    let exts: [&str; 18] = ["zip", "tar", "gz", "tgz", "bz2", "tbz2", "xz", "txz", "7z", "rar", "o", "obj", "a", "lib", "so", "dylib", "dll", "log"];
    assert(exts@ == skipped_exts());
    let mut k: usize = 0;
    while k < 18
        invariant
            exts@ == skipped_exts(),
            e@ == ext@,
            k <= 18,
            forall|j: int| 0 <= j < k ==> !eq_ignore_ascii_case(ext@, #[trigger] skipped_exts()[j]@),
        decreases 18 - k,
    {
        if same_ignoring_ascii_case(&e, exts[k]) {
            return true;
        }
        k += 1;
    }
    false
}

/// The tag form of a category: lowercased, spaces turned into dashes.
pub open spec fn tag_form(cat: Seq<char>) -> Seq<char> {
    Seq::new(lowercase_of(cat).len(), |i: int| if lowercase_of(cat)[i] == ' ' { '-' } else { lowercase_of(cat)[i] })
}

/// The tag of a category.
pub fn category_tag(cat: &str) -> (r: String)
    ensures
        r@ == tag_form(cat@),
{
    let lower = to_lowercase(cat);
    let l = chars_of(lower.as_str());
    let mut out: Vec<char> = Vec::new();
    let mut i: usize = 0;
    while i < l.len()
        invariant
            l@ == lowercase_of(cat@),
            i <= l@.len(),
            out@.len() == i,
            forall|j: int| 0 <= j < i ==> #[trigger] out@[j] == (if l@[j] == ' ' { '-' } else { l@[j] }),
        decreases l.len() - i,
    {
        if l[i] == ' ' {
            out.push('-');
        } else {
            out.push(l[i]);
        }
        i += 1;
    }
    assert(out@ =~= tag_form(cat@));
    string_from_chars(&out)
}

/// Smallest size the large-file scan reports: 100 MiB.
pub const LARGE_FILE_FLOOR: u64 = 104857600;

/// The minimum size of the scan: the profile's, but at least 100 MiB.
pub open spec fn large_file_min(p: Profile) -> u64 {
    let m = match p.min_size_bytes {
        Some(m) => m,
        None => LARGE_FILE_FLOOR,
    };
    if m > LARGE_FILE_FLOOR { m } else { LARGE_FILE_FLOOR }
}

/// The file is reported: large enough and not of a type other scans handle.
pub open spec fn reported(f: FileEntry, min: u64) -> bool {
    f.size >= min && !(path_extension(f.path@) matches Some(e) && is_skipped_ext(e))
}

/// `c` is the review candidate of file `f`.
pub open spec fn large_file_ok(f: FileEntry, c: Candidate) -> bool {
    let cat = category_of_path(f.path@);
    &&& c.path@ == f.path@
    &&& c.kind is LargeFile
    &&& c.action is Skip
    &&& c.size_bytes == f.size
    &&& c.last_modified == f.modified
    &&& c.last_accessed is None
    &&& c.reproducibility == 0
    &&& c.score == cat.1
    &&& tag_views(c.tags@) == seq!["large-file"@, tag_form(cat.0), "review"@]
    &&& opt_view(c.group) == Some("Large File: "@ + cat.0)
}

/// The files reported, in order.
pub open spec fn reported_files(fs: Seq<FileEntry>, min: u64) -> Seq<FileEntry>
    decreases fs.len(),
{
    if fs.len() == 0 {
        Seq::empty()
    } else if reported(fs.last(), min) {
        reported_files(fs.drop_last(), min).push(fs.last())
    } else {
        reported_files(fs.drop_last(), min)
    }
}

/// The review candidate of a large file.
pub fn large_file_candidate(f: &FileEntry) -> (c: Candidate)
    ensures
        large_file_ok(*f, c),
{
    let (cat, score) = categorize_file(f.path.as_str());
    let tag = category_tag(cat.as_str());
    let mut tags: Vec<String> = Vec::new();
    tags.push(owned("large-file"));
    tags.push(tag);
    tags.push(owned("review"));
    let mut group: Vec<char> = Vec::new();
    push_str(&mut group, "Large File: ");
    push_str(&mut group, cat.as_str());
    proof {
        assert(tag_views(tags@) =~= seq!["large-file"@, tag_form(cat@), "review"@]);
    }
    Candidate {
        path: f.path.clone(),
        kind: TargetKind::LargeFile,
        size_bytes: f.size,
        last_modified: f.modified,
        last_accessed: None,
        reproducibility: 0,
        score,
        tags,
        action: Action::Skip,
        group: Some(string_from_chars(&group)),
    }
}

/// Report the large files met while walking a directory (outside the skipped
/// directories): every file of at least the minimum size whose extension no other
/// scan handles, categorized for manual review. Nothing when the profile does not
/// enable "large-file".
pub fn scan_files(files: &Vec<FileEntry>, profile: &Profile) -> (r: Vec<Candidate>)
    ensures
        match profile.config_for("large-file"@) {
            Some(cfg) if cfg.enabled => {
                let kept = reported_files(files@, large_file_min(*profile));
                &&& r@.len() == kept.len()
                &&& forall|k: int| 0 <= k < kept.len() ==> large_file_ok(kept[k], #[trigger] r@[k])
            },
            _ => r@.len() == 0,
        },
{
    let cfg = profile.target_config("large-file");
    if !cfg.enabled {
        return Vec::new();
    }
    let base: u64 = match profile.min_size_bytes {
        Some(m) => m,
        None => LARGE_FILE_FLOOR,
    };
    let min: u64 = if base > LARGE_FILE_FLOOR { base } else { LARGE_FILE_FLOOR };
    let mut out: Vec<Candidate> = Vec::new();
    let mut i: usize = 0;
    while i < files.len()
        invariant
            i <= files@.len(),
            out@.len() == reported_files(files@.take(i as int), min).len(),
            forall|k: int| 0 <= k < out@.len() ==> large_file_ok(reported_files(files@.take(i as int), min)[k], #[trigger] out@[k]),
        decreases files.len() - i,
    {
        let f = &files[i];
        proof {
            assert(files@.take(i + 1).drop_last() =~= files@.take(i as int));
        }
        let skip_ext = match extension_of(f.path.as_str()) {
            Some(e) => skipped_extension(e.as_str()),
            None => false,
        };
        if f.size >= min && !skip_ext {
            out.push(large_file_candidate(f));
        }
        i += 1;
    }
    proof {
        assert(files@.take(files@.len() as int) =~= files@);
    }
    out
}

} // verus!
