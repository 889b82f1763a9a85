//! Disk space categories and the classification of paths into them.
use vstd::prelude::*;
use crate::paths::{extension_of, file_name_of, file_name_or_empty, path_extension};
use crate::size::{format_two_decimals, size_two_decimals};
use crate::text::{chars_of, contains_any, contains_any_of, has_substring, is_one_of, is_str, lowercase_of, one_of, to_lowercase};

verus! {

/// Main disk space categories.
#[derive(Debug, Clone, Copy, PartialEq, Eq, Structural, Hash)]
pub enum DiskCategory {
    /// Operating system, binaries, libraries.
    System,
    /// Photos, videos, audio files.
    Media,
    /// Documents, PDFs, Office files, text.
    Documents,
    /// Source code repositories.
    Code,
    /// Reclaimable artifacts (caches, build artifacts, etc.).
    Reclaimable,
    /// Everything else.
    Other,
}

impl DiskCategory {
    /// Display label.
    pub fn label(&self) -> (r: &str)
        ensures
            r@ == (match self {
                DiskCategory::System => "System"@,
                DiskCategory::Media => "Media"@,
                DiskCategory::Documents => "Documents"@,
                DiskCategory::Code => "Code"@,
                DiskCategory::Reclaimable => "Reclaimable"@,
                DiskCategory::Other => "Other"@,
            }),
    {
        match self {
            DiskCategory::System => "System",
            DiskCategory::Media => "Media",
            DiskCategory::Documents => "Documents",
            DiskCategory::Code => "Code",
            DiskCategory::Reclaimable => "Reclaimable",
            DiskCategory::Other => "Other",
        }
    }

    /// Emoji shown next to the label.
    pub fn emoji(&self) -> (r: &str)
        ensures
            r@ == (match self {
                DiskCategory::System => "⚙️"@,
                DiskCategory::Media => "🎬"@,
                DiskCategory::Documents => "📄"@,
                DiskCategory::Code => "💻"@,
                DiskCategory::Reclaimable => "♻️"@,
                DiskCategory::Other => "📦"@,
            }),
    {
        match self {
            DiskCategory::System => "⚙️",
            DiskCategory::Media => "🎬",
            DiskCategory::Documents => "📄",
            DiskCategory::Code => "💻",
            DiskCategory::Reclaimable => "♻️",
            DiskCategory::Other => "📦",
        }
    }
}

/// Detailed subcategories.
#[derive(Debug, Clone, Copy, PartialEq, Eq, Structural, Hash)]
pub enum DiskSubcategory {
    SystemBinaries,
    SystemLibraries,
    SystemKernel,
    SystemCaches,
    SystemLogs,
    Photos,
    Videos,
    Audio,
    MediaBackups,
    PDFs,
    OfficeDocuments,
    TextFiles,
    Presentations,
    Spreadsheets,
    Archives,
    SourceCode,
    Dependencies,
    BuildArtifacts,
    GitRepositories,
    Caches,
    Logs,
    TempFiles,
    Duplicates,
    OldBackups,
    Unknown,
}

impl DiskSubcategory {
    /// Whether this subcategory is potentially reclaimable.
    pub open spec fn reclaimable(&self) -> bool {
        match self {
            DiskSubcategory::SystemBinaries => false,
            DiskSubcategory::SystemLibraries => false,
            DiskSubcategory::SystemKernel => false,
            DiskSubcategory::SystemCaches => true,
            DiskSubcategory::SystemLogs => true,
            DiskSubcategory::Photos => false,
            DiskSubcategory::Videos => false,
            DiskSubcategory::Audio => false,
            DiskSubcategory::MediaBackups => true,
            DiskSubcategory::PDFs => false,
            DiskSubcategory::OfficeDocuments => false,
            DiskSubcategory::TextFiles => false,
            DiskSubcategory::Presentations => false,
            DiskSubcategory::Spreadsheets => false,
            DiskSubcategory::Archives => true,
            DiskSubcategory::SourceCode => false,
            DiskSubcategory::Dependencies => true,
            DiskSubcategory::BuildArtifacts => true,
            DiskSubcategory::GitRepositories => false,
            DiskSubcategory::Caches => true,
            DiskSubcategory::Logs => true,
            DiskSubcategory::TempFiles => true,
            DiskSubcategory::Duplicates => true,
            DiskSubcategory::OldBackups => true,
            DiskSubcategory::Unknown => false,
        }
    }

    /// The parent category.
    pub open spec fn parent(&self) -> DiskCategory {
        match self {
            DiskSubcategory::SystemBinaries => DiskCategory::System,
            DiskSubcategory::SystemLibraries => DiskCategory::System,
            DiskSubcategory::SystemKernel => DiskCategory::System,
            DiskSubcategory::SystemCaches => DiskCategory::Reclaimable,
            DiskSubcategory::SystemLogs => DiskCategory::Reclaimable,
            DiskSubcategory::Photos => DiskCategory::Media,
            DiskSubcategory::Videos => DiskCategory::Media,
            DiskSubcategory::Audio => DiskCategory::Media,
            DiskSubcategory::MediaBackups => DiskCategory::Reclaimable,
            DiskSubcategory::PDFs => DiskCategory::Documents,
            DiskSubcategory::OfficeDocuments => DiskCategory::Documents,
            DiskSubcategory::TextFiles => DiskCategory::Documents,
            DiskSubcategory::Presentations => DiskCategory::Documents,
            DiskSubcategory::Spreadsheets => DiskCategory::Documents,
            DiskSubcategory::Archives => DiskCategory::Reclaimable,
            DiskSubcategory::SourceCode => DiskCategory::Code,
            DiskSubcategory::Dependencies => DiskCategory::Reclaimable,
            DiskSubcategory::BuildArtifacts => DiskCategory::Reclaimable,
            DiskSubcategory::GitRepositories => DiskCategory::Code,
            DiskSubcategory::Caches => DiskCategory::Reclaimable,
            DiskSubcategory::Logs => DiskCategory::Reclaimable,
            DiskSubcategory::TempFiles => DiskCategory::Reclaimable,
            DiskSubcategory::Duplicates => DiskCategory::Reclaimable,
            DiskSubcategory::OldBackups => DiskCategory::Reclaimable,
            DiskSubcategory::Unknown => DiskCategory::Other,
        }
    }

    /// Display label.
    pub fn label(&self) -> (r: &str)
        ensures
            r@ == (match self {
                DiskSubcategory::SystemBinaries => "Binaries"@,
                DiskSubcategory::SystemLibraries => "Libraries"@,
                DiskSubcategory::SystemKernel => "Kernel"@,
                DiskSubcategory::SystemCaches => "System Caches"@,
                DiskSubcategory::SystemLogs => "System Logs"@,
                DiskSubcategory::Photos => "Photos"@,
                DiskSubcategory::Videos => "Videos"@,
                DiskSubcategory::Audio => "Audio"@,
                DiskSubcategory::MediaBackups => "Media Backups"@,
                DiskSubcategory::PDFs => "PDF Documents"@,
                DiskSubcategory::OfficeDocuments => "Office Documents"@,
                DiskSubcategory::TextFiles => "Text Files"@,
                DiskSubcategory::Presentations => "Presentations"@,
                DiskSubcategory::Spreadsheets => "Spreadsheets"@,
                DiskSubcategory::Archives => "Archives"@,
                DiskSubcategory::SourceCode => "Source Code"@,
                DiskSubcategory::Dependencies => "Dependencies"@,
                DiskSubcategory::BuildArtifacts => "Build Artifacts"@,
                DiskSubcategory::GitRepositories => "Git Repos"@,
                DiskSubcategory::Caches => "Caches"@,
                DiskSubcategory::Logs => "Logs"@,
                DiskSubcategory::TempFiles => "Temp Files"@,
                DiskSubcategory::Duplicates => "Duplicates"@,
                DiskSubcategory::OldBackups => "Old Backups"@,
                DiskSubcategory::Unknown => "Unknown"@,
            }),
    {
        match self {
            DiskSubcategory::SystemBinaries => "Binaries",
            DiskSubcategory::SystemLibraries => "Libraries",
            DiskSubcategory::SystemKernel => "Kernel",
            DiskSubcategory::SystemCaches => "System Caches",
            DiskSubcategory::SystemLogs => "System Logs",
            DiskSubcategory::Photos => "Photos",
            DiskSubcategory::Videos => "Videos",
            DiskSubcategory::Audio => "Audio",
            DiskSubcategory::MediaBackups => "Media Backups",
            DiskSubcategory::PDFs => "PDF Documents",
            DiskSubcategory::OfficeDocuments => "Office Documents",
            DiskSubcategory::TextFiles => "Text Files",
            DiskSubcategory::Presentations => "Presentations",
            DiskSubcategory::Spreadsheets => "Spreadsheets",
            DiskSubcategory::Archives => "Archives",
            DiskSubcategory::SourceCode => "Source Code",
            DiskSubcategory::Dependencies => "Dependencies",
            DiskSubcategory::BuildArtifacts => "Build Artifacts",
            DiskSubcategory::GitRepositories => "Git Repos",
            DiskSubcategory::Caches => "Caches",
            DiskSubcategory::Logs => "Logs",
            DiskSubcategory::TempFiles => "Temp Files",
            DiskSubcategory::Duplicates => "Duplicates",
            DiskSubcategory::OldBackups => "Old Backups",
            DiskSubcategory::Unknown => "Unknown",
        }
    }

    /// Is this subcategory potentially reclaimable?
    pub fn is_reclaimable(&self) -> (r: bool)
        ensures
            r == self.reclaimable(),
    {
        match self {
            DiskSubcategory::SystemBinaries => false,
            DiskSubcategory::SystemLibraries => false,
            DiskSubcategory::SystemKernel => false,
            DiskSubcategory::SystemCaches => true,
            DiskSubcategory::SystemLogs => true,
            DiskSubcategory::Photos => false,
            DiskSubcategory::Videos => false,
            DiskSubcategory::Audio => false,
            DiskSubcategory::MediaBackups => true,
            DiskSubcategory::PDFs => false,
            DiskSubcategory::OfficeDocuments => false,
            DiskSubcategory::TextFiles => false,
            DiskSubcategory::Presentations => false,
            DiskSubcategory::Spreadsheets => false,
            DiskSubcategory::Archives => true,
            DiskSubcategory::SourceCode => false,
            DiskSubcategory::Dependencies => true,
            DiskSubcategory::BuildArtifacts => true,
            DiskSubcategory::GitRepositories => false,
            DiskSubcategory::Caches => true,
            DiskSubcategory::Logs => true,
            DiskSubcategory::TempFiles => true,
            DiskSubcategory::Duplicates => true,
            DiskSubcategory::OldBackups => true,
            DiskSubcategory::Unknown => false,
        }
    }

    /// Parent category.
    pub fn category(&self) -> (r: DiskCategory)
        ensures
            r == self.parent(),
    {
        match self {
            DiskSubcategory::SystemBinaries => DiskCategory::System,
            DiskSubcategory::SystemLibraries => DiskCategory::System,
            DiskSubcategory::SystemKernel => DiskCategory::System,
            DiskSubcategory::SystemCaches => DiskCategory::Reclaimable,
            DiskSubcategory::SystemLogs => DiskCategory::Reclaimable,
            DiskSubcategory::Photos => DiskCategory::Media,
            DiskSubcategory::Videos => DiskCategory::Media,
            DiskSubcategory::Audio => DiskCategory::Media,
            DiskSubcategory::MediaBackups => DiskCategory::Reclaimable,
            DiskSubcategory::PDFs => DiskCategory::Documents,
            DiskSubcategory::OfficeDocuments => DiskCategory::Documents,
            DiskSubcategory::TextFiles => DiskCategory::Documents,
            DiskSubcategory::Presentations => DiskCategory::Documents,
            DiskSubcategory::Spreadsheets => DiskCategory::Documents,
            DiskSubcategory::Archives => DiskCategory::Reclaimable,
            DiskSubcategory::SourceCode => DiskCategory::Code,
            DiskSubcategory::Dependencies => DiskCategory::Reclaimable,
            DiskSubcategory::BuildArtifacts => DiskCategory::Reclaimable,
            DiskSubcategory::GitRepositories => DiskCategory::Code,
            DiskSubcategory::Caches => DiskCategory::Reclaimable,
            DiskSubcategory::Logs => DiskCategory::Reclaimable,
            DiskSubcategory::TempFiles => DiskCategory::Reclaimable,
            DiskSubcategory::Duplicates => DiskCategory::Reclaimable,
            DiskSubcategory::OldBackups => DiskCategory::Reclaimable,
            DiskSubcategory::Unknown => DiskCategory::Other,
        }
    }
}

/// The category a lowercased extension alone decides, if any.
pub open spec fn classify_extension(e: Seq<char>) -> Option<(DiskCategory, DiskSubcategory)> {
    if one_of(e, seq!["jpg", "jpeg", "png", "gif", "webp", "heic", "raw", "cr2", "nef"]) {
        Some((DiskCategory::Media, DiskSubcategory::Photos))
    } else if one_of(e, seq!["mp4", "mkv", "avi", "mov", "wmv", "flv", "webm", "m4v"]) {
        Some((DiskCategory::Media, DiskSubcategory::Videos))
    } else if one_of(e, seq!["mp3", "wav", "flac", "m4a", "aac", "ogg", "wma"]) {
        Some((DiskCategory::Media, DiskSubcategory::Audio))
    } else if e == "pdf"@ {
        Some((DiskCategory::Documents, DiskSubcategory::PDFs))
    } else if one_of(e, seq!["doc", "docx", "odt"]) {
        Some((DiskCategory::Documents, DiskSubcategory::OfficeDocuments))
    } else if one_of(e, seq!["txt", "md", "markdown", "rst"]) {
        Some((DiskCategory::Documents, DiskSubcategory::TextFiles))
    } else if one_of(e, seq!["ppt", "pptx", "key", "odp"]) {
        Some((DiskCategory::Documents, DiskSubcategory::Presentations))
    } else if one_of(e, seq!["xls", "xlsx", "csv", "ods"]) {
        Some((DiskCategory::Documents, DiskSubcategory::Spreadsheets))
    } else if one_of(e, seq!["zip", "tar", "gz", "bz2", "7z", "rar"]) {
        Some((DiskCategory::Reclaimable, DiskSubcategory::Archives))
    } else if one_of(
        e,
        seq!["rs", "py", "js", "ts", "java", "c", "cpp", "go", "rb", "php", "swift", "kt"],
    ) {
        Some((DiskCategory::Code, DiskSubcategory::SourceCode))
    } else if one_of(e, seq!["so", "dylib", "dll", "a", "lib"]) {
        Some((DiskCategory::System, DiskSubcategory::SystemLibraries))
    } else if e == "log"@ {
        Some((DiskCategory::Reclaimable, DiskSubcategory::Logs))
    } else {
        None
    }
}

/// The category the lowercased path and file name decide.
pub open spec fn classify_location(p: Seq<char>, name: Seq<char>) -> (DiskCategory, DiskSubcategory) {
    if contains_any(p, seq!["/system/", "/usr/bin", "/usr/sbin"]) {
        (DiskCategory::System, DiskSubcategory::SystemBinaries)
    } else if contains_any(p, seq!["/usr/lib", "/system/library"]) {
        (DiskCategory::System, DiskSubcategory::SystemLibraries)
    } else if name == "node_modules"@ || has_substring(p, "/node_modules/"@) {
        (DiskCategory::Reclaimable, DiskSubcategory::Dependencies)
    } else if name == ".venv"@ || name == "venv"@ || has_substring(p, "/.venv/"@) {
        (DiskCategory::Reclaimable, DiskSubcategory::Dependencies)
    } else if name == "target"@ && has_substring(p, "/cargo/"@) {
        (DiskCategory::Reclaimable, DiskSubcategory::BuildArtifacts)
    } else if one_of(name, seq!["build", "dist", "__pycache__"]) {
        (DiskCategory::Reclaimable, DiskSubcategory::BuildArtifacts)
    } else if contains_any(p, seq!["/cache", "/caches"]) {
        (DiskCategory::Reclaimable, DiskSubcategory::Caches)
    } else if contains_any(p, seq!["/logs/", "/log/"]) {
        (DiskCategory::Reclaimable, DiskSubcategory::Logs)
    } else if name == ".git"@ || has_substring(p, "/.git/"@) {
        (DiskCategory::Code, DiskSubcategory::GitRepositories)
    } else if contains_any(p, seq!["/repos/", "/projects/", "/src/"]) {
        (DiskCategory::Code, DiskSubcategory::SourceCode)
    } else if contains_any(p, seq!["/photos/", "/pictures/"]) {
        (DiskCategory::Media, DiskSubcategory::Photos)
    } else if contains_any(p, seq!["/videos/", "/movies/"]) {
        (DiskCategory::Media, DiskSubcategory::Videos)
    } else if contains_any(p, seq!["/music/", "/audio/"]) {
        (DiskCategory::Media, DiskSubcategory::Audio)
    } else if contains_any(p, seq!["/documents/", "/docs/"]) {
        (DiskCategory::Documents, DiskSubcategory::TextFiles)
    } else {
        (DiskCategory::Other, DiskSubcategory::Unknown)
    }
}

/// The path is a `node_modules` folder or lies inside one.
pub open spec fn in_node_modules(p: Seq<char>, name: Seq<char>) -> bool {
    name == "node_modules"@ || has_substring(p, "/node_modules/"@)
}

/// Classification from the lowercased path, the lowercased file name (empty when
/// there is none) and the lowercased extension: anything in a `node_modules`
/// folder is a dependency, otherwise the extension decides first.
pub open spec fn classify_parts(
    p: Seq<char>,
    name: Seq<char>,
    ext: Option<Seq<char>>,
) -> (DiskCategory, DiskSubcategory) {
    if in_node_modules(p, name) {
        (DiskCategory::Reclaimable, DiskSubcategory::Dependencies)
    } else {
        match ext {
        Some(e) => match classify_extension(e) {
            Some(c) => c,
            None => classify_location(p, name),
        },
        None => classify_location(p, name),
        }
    }
}

/// The classification of a path.
pub open spec fn classification(path: Seq<char>) -> (DiskCategory, DiskSubcategory) {
    classify_parts(
        lowercase_of(path),
        lowercase_of(file_name_or_empty(path)),
        match path_extension(path) {
            Some(e) => Some(lowercase_of(e)),
            None => None,
        },
    )
}

/// Category from a lowercased extension, if the extension decides it.
pub fn classify_by_extension(e: &Vec<char>) -> (r: Option<(DiskCategory, DiskSubcategory)>)
    ensures
        r == classify_extension(e@),
{
    let b0 = is_one_of(e, &["jpg", "jpeg", "png", "gif", "webp", "heic", "raw", "cr2", "nef"]);
    if b0 {
        return Some((DiskCategory::Media, DiskSubcategory::Photos));
    }
    let b1 = is_one_of(e, &["mp4", "mkv", "avi", "mov", "wmv", "flv", "webm", "m4v"]);
    if b1 {
        return Some((DiskCategory::Media, DiskSubcategory::Videos));
    }
    let b2 = is_one_of(e, &["mp3", "wav", "flac", "m4a", "aac", "ogg", "wma"]);
    if b2 {
        return Some((DiskCategory::Media, DiskSubcategory::Audio));
    }
    let b3 = is_str(e, "pdf");
    if b3 {
        return Some((DiskCategory::Documents, DiskSubcategory::PDFs));
    }
    let b4 = is_one_of(e, &["doc", "docx", "odt"]);
    if b4 {
        return Some((DiskCategory::Documents, DiskSubcategory::OfficeDocuments));
    }
    let b5 = is_one_of(e, &["txt", "md", "markdown", "rst"]);
    if b5 {
        return Some((DiskCategory::Documents, DiskSubcategory::TextFiles));
    }
    let b6 = is_one_of(e, &["ppt", "pptx", "key", "odp"]);
    if b6 {
        return Some((DiskCategory::Documents, DiskSubcategory::Presentations));
    }
    let b7 = is_one_of(e, &["xls", "xlsx", "csv", "ods"]);
    if b7 {
        return Some((DiskCategory::Documents, DiskSubcategory::Spreadsheets));
    }
    let b8 = is_one_of(e, &["zip", "tar", "gz", "bz2", "7z", "rar"]);
    if b8 {
        return Some((DiskCategory::Reclaimable, DiskSubcategory::Archives));
    }
    let b9 = is_one_of(e, &["rs", "py", "js", "ts", "java", "c", "cpp", "go", "rb", "php", "swift", "kt"]);
    if b9 {
        return Some((DiskCategory::Code, DiskSubcategory::SourceCode));
    }
    let b10 = is_one_of(e, &["so", "dylib", "dll", "a", "lib"]);
    if b10 {
        return Some((DiskCategory::System, DiskSubcategory::SystemLibraries));
    }
    let b11 = is_str(e, "log");
    if b11 {
        return Some((DiskCategory::Reclaimable, DiskSubcategory::Logs));
    }
    None
}

/// Category from the lowercased path and file name.
pub fn classify_by_location(p: &Vec<char>, name: &Vec<char>) -> (r: (DiskCategory, DiskSubcategory))
    ensures
        r == classify_location(p@, name@),
{
    if contains_any_of(p, &["/system/", "/usr/bin", "/usr/sbin"]) {
        (DiskCategory::System, DiskSubcategory::SystemBinaries)
    } else if contains_any_of(p, &["/usr/lib", "/system/library"]) {
        (DiskCategory::System, DiskSubcategory::SystemLibraries)
    } else if is_str(name, "node_modules") || crate::text::contains_str(p, "/node_modules/") {
        (DiskCategory::Reclaimable, DiskSubcategory::Dependencies)
    } else if is_str(name, ".venv") || is_str(name, "venv") || crate::text::contains_str(p, "/.venv/") {
        (DiskCategory::Reclaimable, DiskSubcategory::Dependencies)
    } else if is_str(name, "target") && crate::text::contains_str(p, "/cargo/") {
        (DiskCategory::Reclaimable, DiskSubcategory::BuildArtifacts)
    } else if is_one_of(name, &["build", "dist", "__pycache__"]) {
        (DiskCategory::Reclaimable, DiskSubcategory::BuildArtifacts)
    } else if contains_any_of(p, &["/cache", "/caches"]) {
        (DiskCategory::Reclaimable, DiskSubcategory::Caches)
    } else if contains_any_of(p, &["/logs/", "/log/"]) {
        (DiskCategory::Reclaimable, DiskSubcategory::Logs)
    } else if is_str(name, ".git") || crate::text::contains_str(p, "/.git/") {
        (DiskCategory::Code, DiskSubcategory::GitRepositories)
    } else if contains_any_of(p, &["/repos/", "/projects/", "/src/"]) {
        (DiskCategory::Code, DiskSubcategory::SourceCode)
    } else if contains_any_of(p, &["/photos/", "/pictures/"]) {
        (DiskCategory::Media, DiskSubcategory::Photos)
    } else if contains_any_of(p, &["/videos/", "/movies/"]) {
        (DiskCategory::Media, DiskSubcategory::Videos)
    } else if contains_any_of(p, &["/music/", "/audio/"]) {
        (DiskCategory::Media, DiskSubcategory::Audio)
    } else if contains_any_of(p, &["/documents/", "/docs/"]) {
        (DiskCategory::Documents, DiskSubcategory::TextFiles)
    } else {
        (DiskCategory::Other, DiskSubcategory::Unknown)
    }
}

/// Classification from already lowercased parts: a `node_modules` folder first,
/// then the extension, then path patterns.
pub fn classify_lowercased(p: &Vec<char>, name: &Vec<char>, ext: &Option<Vec<char>>) -> (r: (
    DiskCategory,
    DiskSubcategory,
))
    ensures
        r == classify_parts(
            p@,
            name@,
            match ext {
                Some(e) => Some(e@),
                None => None,
            },
        ),
{
    if is_str(name, "node_modules") || crate::text::contains_str(p, "/node_modules/") {
        return (DiskCategory::Reclaimable, DiskSubcategory::Dependencies);
    }
    if let Some(e) = ext {
        if let Some(c) = classify_by_extension(e) {
            return c;
        }
    }
    classify_by_location(p, name)
}

/// Classify a path into category and subcategory.
pub fn classify_path(path: &str) -> (r: (DiskCategory, DiskSubcategory))
    ensures
        r == classification(path@),
{
    let lower = to_lowercase(path);
    let p = chars_of(lower.as_str());
    let name = match file_name_of(path) {
        Some(n) => {
            let l = to_lowercase(n.as_str());
            chars_of(l.as_str())
        },
        None => {
            let l = to_lowercase("");
            proof {
                assert(file_name_or_empty(path@) == ""@) by {
                    reveal_strlit("");
                }
            }
            chars_of(l.as_str())
        },
    };
    let ext = match extension_of(path) {
        Some(e) => {
            let l = to_lowercase(e.as_str());
            Some(chars_of(l.as_str()))
        },
        None => None,
    };
    classify_lowercased(&p, &name, &ext)
}

/// A classified file or directory entry.
#[derive(Debug, Clone)]
pub struct ClassifiedEntry {
    pub path: String,
    pub size_bytes: u64,
    pub category: DiskCategory,
    pub subcategory: DiskSubcategory,
    pub is_reclaimable: bool,
}

/// Sum of the amounts in a keyed list.
pub open spec fn sum_values<K>(s: Seq<(K, u64)>) -> nat
    decreases s.len(),
{
    if s.len() == 0 {
        0
    } else {
        sum_values(s.drop_last()) + (s.last().1 as nat)
    }
}

/// Amount recorded for key `k` (entries with that key summed).
pub open spec fn key_total<K>(s: Seq<(K, u64)>, k: K) -> nat
    decreases s.len(),
{
    if s.len() == 0 {
        0
    } else {
        key_total(s.drop_last(), k) + (if s.last().0 == k {
            s.last().1 as nat
        } else {
            0
        })
    }
}

/// No key occurs twice.
pub open spec fn keys_distinct<K>(s: Seq<(K, u64)>) -> bool {
    forall|i: int, j: int| 0 <= i < j < s.len() ==> s[i].0 != s[j].0
}

proof fn lemma_update<K>(s: Seq<(K, u64)>, i: int, v: u64, k: K)
    requires
        0 <= i < s.len(),
    ensures
        sum_values(s.update(i, (s[i].0, v))) == sum_values(s) - s[i].1 + v,
        key_total(s.update(i, (s[i].0, v)), k) == key_total(s, k) - (if s[i].0 == k {
            s[i].1 as int
        } else {
            0
        }) + (if s[i].0 == k {
            v as int
        } else {
            0
        }),
    decreases s.len(),
{
    let t = s.update(i, (s[i].0, v));
    if i == s.len() - 1 {
        assert(t.drop_last() =~= s.drop_last());
    } else {
        lemma_update(s.drop_last(), i, v, k);
        assert(t.drop_last() =~= s.drop_last().update(i, (s[i].0, v)));
    }
}

proof fn lemma_push<K>(s: Seq<(K, u64)>, e: (K, u64))
    ensures
        sum_values(s.push(e)) == sum_values(s) + e.1,
        forall|k: K| #[trigger] key_total(s.push(e), k) == key_total(s, k) + (if e.0 == k {
            e.1 as int
        } else {
            0
        }),
{
    assert(s.push(e).drop_last() =~= s);
}

proof fn lemma_key_total_bounded<K>(s: Seq<(K, u64)>, k: K)
    ensures
        key_total(s, k) <= sum_values(s),
    decreases s.len(),
{
    if s.len() > 0 {
        lemma_key_total_bounded(s.drop_last(), k);
    }
}

/// Aggregate statistics of a disk analysis.
#[derive(Debug, Clone)]
pub struct DiskStats {
    pub total_bytes: u64,
    pub by_category: Vec<(DiskCategory, u64)>,
    pub by_subcategory: Vec<(DiskSubcategory, u64)>,
    pub reclaimable_bytes: u64,
    pub non_reclaimable_bytes: u64,
}

impl Default for DiskStats {
    fn default() -> (r: DiskStats)
        ensures
            r.total_bytes == 0,
            r.by_category@.len() == 0,
            r.by_subcategory@.len() == 0,
            r.reclaimable_bytes == 0,
            r.non_reclaimable_bytes == 0,
            r.wf(),
    {
        DiskStats {
            total_bytes: 0,
            by_category: Vec::new(),
            by_subcategory: Vec::new(),
            reclaimable_bytes: 0,
            non_reclaimable_bytes: 0,
        }
    }
}

/// Adds `size` to the amount of category `c`.
fn add_to_category(v: &mut Vec<(DiskCategory, u64)>, c: DiskCategory, size: u64)
    requires
        sum_values(old(v)@) + size <= u64::MAX,
        keys_distinct(old(v)@),
    ensures
        keys_distinct(final(v)@),
        sum_values(final(v)@) == sum_values(old(v)@) + size,
        forall|k: DiskCategory| #[trigger] key_total(final(v)@, k) == key_total(old(v)@, k) + (
        if k == c {
            size as int
        } else {
            0
        }),
{
    let mut i: usize = 0;
    while i < v.len()
        invariant
            i <= v@.len(),
            v@ == old(v)@,
            keys_distinct(v@),
            sum_values(v@) + size <= u64::MAX,
            forall|j: int| 0 <= j < i ==> v@[j].0 != c,
        decreases v.len() - i,
    {
        if v[i].0 == c {
            let cur = v[i].1;
            proof {
                lemma_key_total_single(v@, i as int);
                lemma_key_total_bounded(v@, c);
            }
            v.set(i, (c, cur + size));
            proof {
                assert forall|k| #[trigger] key_total(v@, k) == key_total(old(v)@, k) + (if k == c {
                    size as int
                } else {
                    0
                }) by {
                    lemma_update(old(v)@, i as int, (cur + size) as u64, k);
                }
                lemma_update(old(v)@, i as int, (cur + size) as u64, c);
            }
            return;
        }
        i += 1;
    }
    proof {
        lemma_push(old(v)@, (c, size));
    }
    v.push((c, size));
}

/// Adds `size` to the amount of subcategory `c`.
fn add_to_subcategory(v: &mut Vec<(DiskSubcategory, u64)>, c: DiskSubcategory, size: u64)
    requires
        sum_values(old(v)@) + size <= u64::MAX,
        keys_distinct(old(v)@),
    ensures
        keys_distinct(final(v)@),
        sum_values(final(v)@) == sum_values(old(v)@) + size,
        forall|k: DiskSubcategory| #[trigger] key_total(final(v)@, k) == key_total(old(v)@, k) + (
        if k == c {
            size as int
        } else {
            0
        }),
{
    let mut i: usize = 0;
    while i < v.len()
        invariant
            i <= v@.len(),
            v@ == old(v)@,
            keys_distinct(v@),
            sum_values(v@) + size <= u64::MAX,
            forall|j: int| 0 <= j < i ==> v@[j].0 != c,
        decreases v.len() - i,
    {
        if v[i].0 == c {
            let cur = v[i].1;
            proof {
                lemma_key_total_single(v@, i as int);
                lemma_key_total_bounded(v@, c);
            }
            v.set(i, (c, cur + size));
            proof {
                assert forall|k| #[trigger] key_total(v@, k) == key_total(old(v)@, k) + (if k == c {
                    size as int
                } else {
                    0
                }) by {
                    lemma_update(old(v)@, i as int, (cur + size) as u64, k);
                }
                lemma_update(old(v)@, i as int, (cur + size) as u64, c);
            }
            return;
        }
        i += 1;
    }
    proof {
        lemma_push(old(v)@, (c, size));
    }
    v.push((c, size));
}

/// With distinct keys, the amount of a present key is its entry's amount.
proof fn lemma_key_total_single<K>(s: Seq<(K, u64)>, i: int)
    requires
        keys_distinct(s),
        0 <= i < s.len(),
    ensures
        key_total(s, s[i].0) == s[i].1,
    decreases s.len(),
{
    let t = s.drop_last();
    if i == s.len() - 1 {
        lemma_key_absent(t, s[i].0);
    } else {
        lemma_key_total_single(t, i);
    }
}

proof fn lemma_key_absent<K>(s: Seq<(K, u64)>, k: K)
    requires
        forall|j: int| 0 <= j < s.len() ==> s[j].0 != k,
    ensures
        key_total(s, k) == 0,
    decreases s.len(),
{
    if s.len() > 0 {
        lemma_key_absent(s.drop_last(), k);
    }
}

impl DiskStats {
    /// The totals agree: everything counted is either reclaimable or not, and the
    /// per-category and per-subcategory amounts add up to the total.
    pub open spec fn wf(&self) -> bool {
        &&& self.total_bytes == self.reclaimable_bytes + self.non_reclaimable_bytes
        &&& self.total_bytes == sum_values(self.by_category@)
        &&& self.total_bytes == sum_values(self.by_subcategory@)
        &&& keys_distinct(self.by_category@)
        &&& keys_distinct(self.by_subcategory@)
    }

    /// Bytes counted for a category.
    pub open spec fn category_bytes(&self, c: DiskCategory) -> nat {
        key_total(self.by_category@, c)
    }

    /// Bytes counted for a subcategory.
    pub open spec fn subcategory_bytes(&self, c: DiskSubcategory) -> nat {
        key_total(self.by_subcategory@, c)
    }

    /// Count `size` bytes under a category and subcategory.
    pub fn record(&mut self, category: DiskCategory, subcategory: DiskSubcategory, size: u64)
        requires
            old(self).wf(),
            old(self).total_bytes + size <= u64::MAX,
        ensures
            final(self).wf(),
            final(self).total_bytes == old(self).total_bytes + size,
            forall|c: DiskCategory| #[trigger] final(self).category_bytes(c) == old(
                self,
            ).category_bytes(c) + (if c == category {
                size as int
            } else {
                0
            }),
            forall|c: DiskSubcategory| #[trigger] final(self).subcategory_bytes(c) == old(
                self,
            ).subcategory_bytes(c) + (if c == subcategory {
                size as int
            } else {
                0
            }),
            final(self).reclaimable_bytes == old(self).reclaimable_bytes + (
            if subcategory.reclaimable() {
                size as int
            } else {
                0
            }),
            final(self).non_reclaimable_bytes == old(self).non_reclaimable_bytes + (
            if subcategory.reclaimable() {
                0
            } else {
                size as int
            }),
    {
        self.total_bytes = self.total_bytes + size;
        add_to_category(&mut self.by_category, category, size);
        add_to_subcategory(&mut self.by_subcategory, subcategory, size);
        if subcategory.is_reclaimable() {
            self.reclaimable_bytes = self.reclaimable_bytes + size;
        } else {
            self.non_reclaimable_bytes = self.non_reclaimable_bytes + size;
        }
    }

    /// Bytes counted for a category (0 when none).
    pub fn bytes_for(&self, category: DiskCategory) -> (r: u64)
        requires
            self.wf(),
        ensures
            r == self.category_bytes(category),
    {
        let mut i: usize = 0;
        while i < self.by_category.len()
            invariant
                i <= self.by_category@.len(),
                keys_distinct(self.by_category@),
                forall|j: int| 0 <= j < i ==> self.by_category@[j].0 != category,
            decreases self.by_category.len() - i,
        {
            if self.by_category[i].0 == category {
                proof {
                    lemma_key_total_single(self.by_category@, i as int);
                }
                return self.by_category[i].1;
            }
            i += 1;
        }
        proof {
            lemma_key_absent(self.by_category@, category);
        }
        0
    }
}

/// Account for one walked entry: a file counts with its length, a directory with
/// nothing (its files are counted on their own). Files with a non-zero size are also
/// listed with their classification.
pub fn analyze_entry(
    stats: &mut DiskStats,
    entries: &mut Vec<ClassifiedEntry>,
    path: &str,
    is_file: bool,
    len: u64,
)
    requires
        old(stats).wf(),
        old(stats).total_bytes + len <= u64::MAX,
    ensures
        final(stats).wf(),
        ({
            let size: u64 = if is_file { len } else { 0 };
            let (c, sc) = classification(path@);
            &&& final(stats).total_bytes == old(stats).total_bytes + size
            &&& forall|k: DiskCategory| #[trigger] final(stats).category_bytes(k) == old(
                stats,
            ).category_bytes(k) + (if k == c {
                size as int
            } else {
                0
            })
            &&& forall|k: DiskSubcategory| #[trigger] final(stats).subcategory_bytes(k) == old(
                stats,
            ).subcategory_bytes(k) + (if k == sc {
                size as int
            } else {
                0
            })
            &&& final(stats).reclaimable_bytes == old(stats).reclaimable_bytes + (
            if sc.reclaimable() {
                size as int
            } else {
                0
            })
            &&& if is_file && size > 0 {
                &&& final(entries)@.len() == old(entries)@.len() + 1
                &&& final(entries)@.subrange(0, old(entries)@.len() as int) == old(entries)@
                &&& final(entries)@.last().path@ == path@
                &&& final(entries)@.last().size_bytes == size
                &&& final(entries)@.last().category == c
                &&& final(entries)@.last().subcategory == sc
                &&& final(entries)@.last().is_reclaimable == sc.reclaimable()
            } else {
                final(entries)@ == old(entries)@
            }
        }),
{
    let size: u64 = if is_file {
        len
    } else {
        0
    };
    let (category, subcategory) = classify_path(path);
    let is_reclaimable = subcategory.is_reclaimable();
    stats.record(category, subcategory, size);
    if is_file && size > 0 {
        entries.push(
            ClassifiedEntry {
                path: crate::text::owned(path),
                size_bytes: size,
                category,
                subcategory,
                is_reclaimable,
            },
        );
        assert(entries@.subrange(0, old(entries)@.len() as int) =~= old(entries)@);
    }
}

/// Byte count for reports: `"{n} B"` below one KB, else two decimals.
pub fn human_bytes(bytes: u64) -> (r: String)
    ensures
        r@ == size_two_decimals(bytes as nat),
{
    format_two_decimals(bytes)
}

/// The amounts of category entries.
pub open spec fn category_amounts(v: Seq<(DiskCategory, u64)>) -> Seq<u64> {
    v.map_values(|e: (DiskCategory, u64)| e.1)
}

/// The categories of the statistics, largest amount first (equal amounts in their
/// recorded order), as the report lists them.
pub fn categories_by_size(stats: &DiskStats) -> (r: Vec<(DiskCategory, u64)>)
    ensures
        exists|order: Seq<usize>|
            crate::order::is_desc_order(category_amounts(stats.by_category@), order) && r@.len() == order.len()
                && forall|k: int| 0 <= k < order.len() ==> #[trigger] r@[k] == stats.by_category@[order[k] as int],
{
    let mut amounts: Vec<u64> = Vec::new();
    let mut i: usize = 0;
    while i < stats.by_category.len()
        invariant
            i <= stats.by_category@.len(),
            amounts@ == category_amounts(stats.by_category@).take(i as int),
        decreases stats.by_category.len() - i,
    {
        amounts.push(stats.by_category[i].1);
        i += 1;
        assert(amounts@ =~= category_amounts(stats.by_category@).take(i as int));
    }
    assert(amounts@ =~= category_amounts(stats.by_category@));
    let order = crate::order::desc_order(&amounts);
    let mut r: Vec<(DiskCategory, u64)> = Vec::new();
    let mut k: usize = 0;
    while k < order.len()
        invariant
            crate::order::is_desc_order(category_amounts(stats.by_category@), order@),
            amounts@.len() == stats.by_category@.len(),
            k <= order@.len(),
            r@.len() == k,
            forall|j: int| 0 <= j < k ==> #[trigger] r@[j] == stats.by_category@[order@[j] as int],
        decreases order.len() - k,
    {
        r.push(stats.by_category[order[k]]);
        k += 1;
    }
    r
}

/// A member of the Photos extension list is one of its literals.
proof fn lemma_photos_list(e: Seq<char>)
    requires
        one_of(e, seq!["jpg", "jpeg", "png", "gif", "webp", "heic", "raw", "cr2", "nef"]),
    ensures
        e == "jpg"@ || e == "jpeg"@ || e == "png"@ || e == "gif"@ || e == "webp"@ || e == "heic"@ || e == "raw"@ || e == "cr2"@ || e == "nef"@,
{
    let lits = seq!["jpg", "jpeg", "png", "gif", "webp", "heic", "raw", "cr2", "nef"];
    let k = choose|k: int| 0 <= k < lits.len() && e == #[trigger] lits[k]@;
    if k == 0 {
        assert(lits[0] == "jpg");
    } else if k == 1 {
        assert(lits[1] == "jpeg");
    } else if k == 2 {
        assert(lits[2] == "png");
    } else if k == 3 {
        assert(lits[3] == "gif");
    } else if k == 4 {
        assert(lits[4] == "webp");
    } else if k == 5 {
        assert(lits[5] == "heic");
    } else if k == 6 {
        assert(lits[6] == "raw");
    } else if k == 7 {
        assert(lits[7] == "cr2");
    } else if k == 8 {
        assert(lits[8] == "nef");
    }
}

/// A member of the Videos extension list is one of its literals.
proof fn lemma_videos_list(e: Seq<char>)
    requires
        one_of(e, seq!["mp4", "mkv", "avi", "mov", "wmv", "flv", "webm", "m4v"]),
    ensures
        e == "mp4"@ || e == "mkv"@ || e == "avi"@ || e == "mov"@ || e == "wmv"@ || e == "flv"@ || e == "webm"@ || e == "m4v"@,
{
    let lits = seq!["mp4", "mkv", "avi", "mov", "wmv", "flv", "webm", "m4v"];
    let k = choose|k: int| 0 <= k < lits.len() && e == #[trigger] lits[k]@;
    if k == 0 {
        assert(lits[0] == "mp4");
    } else if k == 1 {
        assert(lits[1] == "mkv");
    } else if k == 2 {
        assert(lits[2] == "avi");
    } else if k == 3 {
        assert(lits[3] == "mov");
    } else if k == 4 {
        assert(lits[4] == "wmv");
    } else if k == 5 {
        assert(lits[5] == "flv");
    } else if k == 6 {
        assert(lits[6] == "webm");
    } else if k == 7 {
        assert(lits[7] == "m4v");
    }
}

/// A member of the Audio extension list is one of its literals.
proof fn lemma_audio_list(e: Seq<char>)
    requires
        one_of(e, seq!["mp3", "wav", "flac", "m4a", "aac", "ogg", "wma"]),
    ensures
        e == "mp3"@ || e == "wav"@ || e == "flac"@ || e == "m4a"@ || e == "aac"@ || e == "ogg"@ || e == "wma"@,
{
    let lits = seq!["mp3", "wav", "flac", "m4a", "aac", "ogg", "wma"];
    let k = choose|k: int| 0 <= k < lits.len() && e == #[trigger] lits[k]@;
    if k == 0 {
        assert(lits[0] == "mp3");
    } else if k == 1 {
        assert(lits[1] == "wav");
    } else if k == 2 {
        assert(lits[2] == "flac");
    } else if k == 3 {
        assert(lits[3] == "m4a");
    } else if k == 4 {
        assert(lits[4] == "aac");
    } else if k == 5 {
        assert(lits[5] == "ogg");
    } else if k == 6 {
        assert(lits[6] == "wma");
    }
}

/// A member of the OfficeDocuments extension list is one of its literals.
proof fn lemma_officedocuments_list(e: Seq<char>)
    requires
        one_of(e, seq!["doc", "docx", "odt"]),
    ensures
        e == "doc"@ || e == "docx"@ || e == "odt"@,
{
    let lits = seq!["doc", "docx", "odt"];
    let k = choose|k: int| 0 <= k < lits.len() && e == #[trigger] lits[k]@;
    if k == 0 {
        assert(lits[0] == "doc");
    } else if k == 1 {
        assert(lits[1] == "docx");
    } else if k == 2 {
        assert(lits[2] == "odt");
    }
}

/// A member of the TextFiles extension list is one of its literals.
proof fn lemma_textfiles_list(e: Seq<char>)
    requires
        one_of(e, seq!["txt", "md", "markdown", "rst"]),
    ensures
        e == "txt"@ || e == "md"@ || e == "markdown"@ || e == "rst"@,
{
    let lits = seq!["txt", "md", "markdown", "rst"];
    let k = choose|k: int| 0 <= k < lits.len() && e == #[trigger] lits[k]@;
    if k == 0 {
        assert(lits[0] == "txt");
    } else if k == 1 {
        assert(lits[1] == "md");
    } else if k == 2 {
        assert(lits[2] == "markdown");
    } else if k == 3 {
        assert(lits[3] == "rst");
    }
}

/// A member of the Presentations extension list is one of its literals.
proof fn lemma_presentations_list(e: Seq<char>)
    requires
        one_of(e, seq!["ppt", "pptx", "key", "odp"]),
    ensures
        e == "ppt"@ || e == "pptx"@ || e == "key"@ || e == "odp"@,
{
    let lits = seq!["ppt", "pptx", "key", "odp"];
    let k = choose|k: int| 0 <= k < lits.len() && e == #[trigger] lits[k]@;
    if k == 0 {
        assert(lits[0] == "ppt");
    } else if k == 1 {
        assert(lits[1] == "pptx");
    } else if k == 2 {
        assert(lits[2] == "key");
    } else if k == 3 {
        assert(lits[3] == "odp");
    }
}

/// A member of the Spreadsheets extension list is one of its literals.
proof fn lemma_spreadsheets_list(e: Seq<char>)
    requires
        one_of(e, seq!["xls", "xlsx", "csv", "ods"]),
    ensures
        e == "xls"@ || e == "xlsx"@ || e == "csv"@ || e == "ods"@,
{
    let lits = seq!["xls", "xlsx", "csv", "ods"];
    let k = choose|k: int| 0 <= k < lits.len() && e == #[trigger] lits[k]@;
    if k == 0 {
        assert(lits[0] == "xls");
    } else if k == 1 {
        assert(lits[1] == "xlsx");
    } else if k == 2 {
        assert(lits[2] == "csv");
    } else if k == 3 {
        assert(lits[3] == "ods");
    }
}

/// A member of the Archives extension list is one of its literals.
proof fn lemma_archives_list(e: Seq<char>)
    requires
        one_of(e, seq!["zip", "tar", "gz", "bz2", "7z", "rar"]),
    ensures
        e == "zip"@ || e == "tar"@ || e == "gz"@ || e == "bz2"@ || e == "7z"@ || e == "rar"@,
{
    let lits = seq!["zip", "tar", "gz", "bz2", "7z", "rar"];
    let k = choose|k: int| 0 <= k < lits.len() && e == #[trigger] lits[k]@;
    if k == 0 {
        assert(lits[0] == "zip");
    } else if k == 1 {
        assert(lits[1] == "tar");
    } else if k == 2 {
        assert(lits[2] == "gz");
    } else if k == 3 {
        assert(lits[3] == "bz2");
    } else if k == 4 {
        assert(lits[4] == "7z");
    } else if k == 5 {
        assert(lits[5] == "rar");
    }
}

/// A member of the SourceCode extension list is one of its literals.
proof fn lemma_sourcecode_list(e: Seq<char>)
    requires
        one_of(e, seq!["rs", "py", "js", "ts", "java", "c", "cpp", "go", "rb", "php", "swift", "kt"]),
    ensures
        e == "rs"@ || e == "py"@ || e == "js"@ || e == "ts"@ || e == "java"@ || e == "c"@ || e == "cpp"@ || e == "go"@ || e == "rb"@ || e == "php"@ || e == "swift"@ || e == "kt"@,
{
    let lits = seq!["rs", "py", "js", "ts", "java", "c", "cpp", "go", "rb", "php", "swift", "kt"];
    let k = choose|k: int| 0 <= k < lits.len() && e == #[trigger] lits[k]@;
    if k == 0 {
        assert(lits[0] == "rs");
    } else if k == 1 {
        assert(lits[1] == "py");
    } else if k == 2 {
        assert(lits[2] == "js");
    } else if k == 3 {
        assert(lits[3] == "ts");
    } else if k == 4 {
        assert(lits[4] == "java");
    } else if k == 5 {
        assert(lits[5] == "c");
    } else if k == 6 {
        assert(lits[6] == "cpp");
    } else if k == 7 {
        assert(lits[7] == "go");
    } else if k == 8 {
        assert(lits[8] == "rb");
    } else if k == 9 {
        assert(lits[9] == "php");
    } else if k == 10 {
        assert(lits[10] == "swift");
    } else if k == 11 {
        assert(lits[11] == "kt");
    }
}

/// A member of the SystemLibraries extension list is one of its literals.
proof fn lemma_systemlibraries_list(e: Seq<char>)
    requires
        one_of(e, seq!["so", "dylib", "dll", "a", "lib"]),
    ensures
        e == "so"@ || e == "dylib"@ || e == "dll"@ || e == "a"@ || e == "lib"@,
{
    let lits = seq!["so", "dylib", "dll", "a", "lib"];
    let k = choose|k: int| 0 <= k < lits.len() && e == #[trigger] lits[k]@;
    if k == 0 {
        assert(lits[0] == "so");
    } else if k == 1 {
        assert(lits[1] == "dylib");
    } else if k == 2 {
        assert(lits[2] == "dll");
    } else if k == 3 {
        assert(lits[3] == "a");
    } else if k == 4 {
        assert(lits[4] == "lib");
    }
}

/// Outside a `node_modules` folder, a known extension decides the category on its
/// own, whatever the path and name: photos, videos, audio, PDFs, office documents,
/// text, presentations, spreadsheets, archives, source code, system libraries and
/// logs each by their own list of extensions. Inside one, everything is a
/// dependency.
pub proof fn law_extension_decides(p: Seq<char>, name: Seq<char>, e: Seq<char>)
    ensures
        name == "node_modules"@ || has_substring(p, "/node_modules/"@) ==> classify_parts(p, name, Some(e)) == (
            DiskCategory::Reclaimable,
            DiskSubcategory::Dependencies,
        ),
        name != "node_modules"@ && !has_substring(p, "/node_modules/"@) ==> {
            &&& (e == "jpg"@ || e == "jpeg"@ || e == "png"@ || e == "gif"@ || e == "webp"@ || e == "heic"@ || e == "raw"@ || e == "cr2"@ || e == "nef"@) ==> classify_parts(p, name, Some(e)) == (DiskCategory::Media, DiskSubcategory::Photos)
            &&& (e == "mp4"@ || e == "mkv"@ || e == "avi"@ || e == "mov"@ || e == "wmv"@ || e == "flv"@ || e == "webm"@ || e == "m4v"@) ==> classify_parts(p, name, Some(e)) == (DiskCategory::Media, DiskSubcategory::Videos)
            &&& (e == "mp3"@ || e == "wav"@ || e == "flac"@ || e == "m4a"@ || e == "aac"@ || e == "ogg"@ || e == "wma"@) ==> classify_parts(p, name, Some(e)) == (DiskCategory::Media, DiskSubcategory::Audio)
            &&& (e == "pdf"@) ==> classify_parts(p, name, Some(e)) == (DiskCategory::Documents, DiskSubcategory::PDFs)
            &&& (e == "doc"@ || e == "docx"@ || e == "odt"@) ==> classify_parts(p, name, Some(e)) == (DiskCategory::Documents, DiskSubcategory::OfficeDocuments)
            &&& (e == "txt"@ || e == "md"@ || e == "markdown"@ || e == "rst"@) ==> classify_parts(p, name, Some(e)) == (DiskCategory::Documents, DiskSubcategory::TextFiles)
            &&& (e == "ppt"@ || e == "pptx"@ || e == "key"@ || e == "odp"@) ==> classify_parts(p, name, Some(e)) == (DiskCategory::Documents, DiskSubcategory::Presentations)
            &&& (e == "xls"@ || e == "xlsx"@ || e == "csv"@ || e == "ods"@) ==> classify_parts(p, name, Some(e)) == (DiskCategory::Documents, DiskSubcategory::Spreadsheets)
            &&& (e == "zip"@ || e == "tar"@ || e == "gz"@ || e == "bz2"@ || e == "7z"@ || e == "rar"@) ==> classify_parts(p, name, Some(e)) == (DiskCategory::Reclaimable, DiskSubcategory::Archives)
            &&& (e == "rs"@ || e == "py"@ || e == "js"@ || e == "ts"@ || e == "java"@ || e == "c"@ || e == "cpp"@ || e == "go"@ || e == "rb"@ || e == "php"@ || e == "swift"@ || e == "kt"@) ==> classify_parts(p, name, Some(e)) == (DiskCategory::Code, DiskSubcategory::SourceCode)
            &&& (e == "so"@ || e == "dylib"@ || e == "dll"@ || e == "a"@ || e == "lib"@) ==> classify_parts(p, name, Some(e)) == (DiskCategory::System, DiskSubcategory::SystemLibraries)
            &&& (e == "log"@) ==> classify_parts(p, name, Some(e)) == (DiskCategory::Reclaimable, DiskSubcategory::Logs)
        },
{
    reveal_strlit("jpg");
    reveal_strlit("jpeg");
    reveal_strlit("png");
    reveal_strlit("gif");
    reveal_strlit("webp");
    reveal_strlit("heic");
    reveal_strlit("raw");
    reveal_strlit("cr2");
    reveal_strlit("nef");
    reveal_strlit("mp4");
    reveal_strlit("mkv");
    reveal_strlit("avi");
    reveal_strlit("mov");
    reveal_strlit("wmv");
    reveal_strlit("flv");
    reveal_strlit("webm");
    reveal_strlit("m4v");
    reveal_strlit("mp3");
    reveal_strlit("wav");
    reveal_strlit("flac");
    reveal_strlit("m4a");
    reveal_strlit("aac");
    reveal_strlit("ogg");
    reveal_strlit("wma");
    reveal_strlit("pdf");
    reveal_strlit("doc");
    reveal_strlit("docx");
    reveal_strlit("odt");
    reveal_strlit("txt");
    reveal_strlit("md");
    reveal_strlit("markdown");
    reveal_strlit("rst");
    reveal_strlit("ppt");
    reveal_strlit("pptx");
    reveal_strlit("key");
    reveal_strlit("odp");
    reveal_strlit("xls");
    reveal_strlit("xlsx");
    reveal_strlit("csv");
    reveal_strlit("ods");
    reveal_strlit("zip");
    reveal_strlit("tar");
    reveal_strlit("gz");
    reveal_strlit("bz2");
    reveal_strlit("7z");
    reveal_strlit("rar");
    reveal_strlit("rs");
    reveal_strlit("py");
    reveal_strlit("js");
    reveal_strlit("ts");
    reveal_strlit("java");
    reveal_strlit("c");
    reveal_strlit("cpp");
    reveal_strlit("go");
    reveal_strlit("rb");
    reveal_strlit("php");
    reveal_strlit("swift");
    reveal_strlit("kt");
    reveal_strlit("so");
    reveal_strlit("dylib");
    reveal_strlit("dll");
    reveal_strlit("a");
    reveal_strlit("lib");
    reveal_strlit("log");
    if name != "node_modules"@ && !has_substring(p, "/node_modules/"@) {
        if e == "jpg"@ {
            assert(e.len() == 3);
            assert(e[0] == 'j');
            assert(e[1] == 'p');
            assert(e[2] == 'g');
            assert(seq!["jpg", "jpeg", "png", "gif", "webp", "heic", "raw", "cr2", "nef"][0]@ == e);
        }
        if e == "jpeg"@ {
            assert(e.len() == 4);
            assert(e[0] == 'j');
            assert(e[1] == 'p');
            assert(e[2] == 'e');
            assert(e[3] == 'g');
            assert(seq!["jpg", "jpeg", "png", "gif", "webp", "heic", "raw", "cr2", "nef"][1]@ == e);
        }
        if e == "png"@ {
            assert(e.len() == 3);
            assert(e[0] == 'p');
            assert(e[1] == 'n');
            assert(e[2] == 'g');
            assert(seq!["jpg", "jpeg", "png", "gif", "webp", "heic", "raw", "cr2", "nef"][2]@ == e);
        }
        if e == "gif"@ {
            assert(e.len() == 3);
            assert(e[0] == 'g');
            assert(e[1] == 'i');
            assert(e[2] == 'f');
            assert(seq!["jpg", "jpeg", "png", "gif", "webp", "heic", "raw", "cr2", "nef"][3]@ == e);
        }
        if e == "webp"@ {
            assert(e.len() == 4);
            assert(e[0] == 'w');
            assert(e[1] == 'e');
            assert(e[2] == 'b');
            assert(e[3] == 'p');
            assert(seq!["jpg", "jpeg", "png", "gif", "webp", "heic", "raw", "cr2", "nef"][4]@ == e);
        }
        if e == "heic"@ {
            assert(e.len() == 4);
            assert(e[0] == 'h');
            assert(e[1] == 'e');
            assert(e[2] == 'i');
            assert(e[3] == 'c');
            assert(seq!["jpg", "jpeg", "png", "gif", "webp", "heic", "raw", "cr2", "nef"][5]@ == e);
        }
        if e == "raw"@ {
            assert(e.len() == 3);
            assert(e[0] == 'r');
            assert(e[1] == 'a');
            assert(e[2] == 'w');
            assert(seq!["jpg", "jpeg", "png", "gif", "webp", "heic", "raw", "cr2", "nef"][6]@ == e);
        }
        if e == "cr2"@ {
            assert(e.len() == 3);
            assert(e[0] == 'c');
            assert(e[1] == 'r');
            assert(e[2] == '2');
            assert(seq!["jpg", "jpeg", "png", "gif", "webp", "heic", "raw", "cr2", "nef"][7]@ == e);
        }
        if e == "nef"@ {
            assert(e.len() == 3);
            assert(e[0] == 'n');
            assert(e[1] == 'e');
            assert(e[2] == 'f');
            assert(seq!["jpg", "jpeg", "png", "gif", "webp", "heic", "raw", "cr2", "nef"][8]@ == e);
        }
        if e == "mp4"@ {
            assert(e.len() == 3);
            assert(e[0] == 'm');
            assert(e[1] == 'p');
            assert(e[2] == '4');
            if one_of(e, seq!["jpg", "jpeg", "png", "gif", "webp", "heic", "raw", "cr2", "nef"]) {
                lemma_photos_list(e);
            }
            assert(seq!["mp4", "mkv", "avi", "mov", "wmv", "flv", "webm", "m4v"][0]@ == e);
        }
        if e == "mkv"@ {
            assert(e.len() == 3);
            assert(e[0] == 'm');
            assert(e[1] == 'k');
            assert(e[2] == 'v');
            if one_of(e, seq!["jpg", "jpeg", "png", "gif", "webp", "heic", "raw", "cr2", "nef"]) {
                lemma_photos_list(e);
            }
            assert(seq!["mp4", "mkv", "avi", "mov", "wmv", "flv", "webm", "m4v"][1]@ == e);
        }
        if e == "avi"@ {
            assert(e.len() == 3);
            assert(e[0] == 'a');
            assert(e[1] == 'v');
            assert(e[2] == 'i');
            if one_of(e, seq!["jpg", "jpeg", "png", "gif", "webp", "heic", "raw", "cr2", "nef"]) {
                lemma_photos_list(e);
            }
            assert(seq!["mp4", "mkv", "avi", "mov", "wmv", "flv", "webm", "m4v"][2]@ == e);
        }
        if e == "mov"@ {
            assert(e.len() == 3);
            assert(e[0] == 'm');
            assert(e[1] == 'o');
            assert(e[2] == 'v');
            if one_of(e, seq!["jpg", "jpeg", "png", "gif", "webp", "heic", "raw", "cr2", "nef"]) {
                lemma_photos_list(e);
            }
            assert(seq!["mp4", "mkv", "avi", "mov", "wmv", "flv", "webm", "m4v"][3]@ == e);
        }
        if e == "wmv"@ {
            assert(e.len() == 3);
            assert(e[0] == 'w');
            assert(e[1] == 'm');
            assert(e[2] == 'v');
            if one_of(e, seq!["jpg", "jpeg", "png", "gif", "webp", "heic", "raw", "cr2", "nef"]) {
                lemma_photos_list(e);
            }
            assert(seq!["mp4", "mkv", "avi", "mov", "wmv", "flv", "webm", "m4v"][4]@ == e);
        }
        if e == "flv"@ {
            assert(e.len() == 3);
            assert(e[0] == 'f');
            assert(e[1] == 'l');
            assert(e[2] == 'v');
            if one_of(e, seq!["jpg", "jpeg", "png", "gif", "webp", "heic", "raw", "cr2", "nef"]) {
                lemma_photos_list(e);
            }
            assert(seq!["mp4", "mkv", "avi", "mov", "wmv", "flv", "webm", "m4v"][5]@ == e);
        }
        if e == "webm"@ {
            assert(e.len() == 4);
            assert(e[0] == 'w');
            assert(e[1] == 'e');
            assert(e[2] == 'b');
            assert(e[3] == 'm');
            if one_of(e, seq!["jpg", "jpeg", "png", "gif", "webp", "heic", "raw", "cr2", "nef"]) {
                lemma_photos_list(e);
            }
            assert(seq!["mp4", "mkv", "avi", "mov", "wmv", "flv", "webm", "m4v"][6]@ == e);
        }
        if e == "m4v"@ {
            assert(e.len() == 3);
            assert(e[0] == 'm');
            assert(e[1] == '4');
            assert(e[2] == 'v');
            if one_of(e, seq!["jpg", "jpeg", "png", "gif", "webp", "heic", "raw", "cr2", "nef"]) {
                lemma_photos_list(e);
            }
            assert(seq!["mp4", "mkv", "avi", "mov", "wmv", "flv", "webm", "m4v"][7]@ == e);
        }
        if e == "mp3"@ {
            assert(e.len() == 3);
            assert(e[0] == 'm');
            assert(e[1] == 'p');
            assert(e[2] == '3');
            if one_of(e, seq!["jpg", "jpeg", "png", "gif", "webp", "heic", "raw", "cr2", "nef"]) {
                lemma_photos_list(e);
            }
            if one_of(e, seq!["mp4", "mkv", "avi", "mov", "wmv", "flv", "webm", "m4v"]) {
                lemma_videos_list(e);
            }
            assert(seq!["mp3", "wav", "flac", "m4a", "aac", "ogg", "wma"][0]@ == e);
        }
        if e == "wav"@ {
            assert(e.len() == 3);
            assert(e[0] == 'w');
            assert(e[1] == 'a');
            assert(e[2] == 'v');
            if one_of(e, seq!["jpg", "jpeg", "png", "gif", "webp", "heic", "raw", "cr2", "nef"]) {
                lemma_photos_list(e);
            }
            if one_of(e, seq!["mp4", "mkv", "avi", "mov", "wmv", "flv", "webm", "m4v"]) {
                lemma_videos_list(e);
            }
            assert(seq!["mp3", "wav", "flac", "m4a", "aac", "ogg", "wma"][1]@ == e);
        }
        if e == "flac"@ {
            assert(e.len() == 4);
            assert(e[0] == 'f');
            assert(e[1] == 'l');
            assert(e[2] == 'a');
            assert(e[3] == 'c');
            if one_of(e, seq!["jpg", "jpeg", "png", "gif", "webp", "heic", "raw", "cr2", "nef"]) {
                lemma_photos_list(e);
            }
            if one_of(e, seq!["mp4", "mkv", "avi", "mov", "wmv", "flv", "webm", "m4v"]) {
                lemma_videos_list(e);
            }
            assert(seq!["mp3", "wav", "flac", "m4a", "aac", "ogg", "wma"][2]@ == e);
        }
        if e == "m4a"@ {
            assert(e.len() == 3);
            assert(e[0] == 'm');
            assert(e[1] == '4');
            assert(e[2] == 'a');
            if one_of(e, seq!["jpg", "jpeg", "png", "gif", "webp", "heic", "raw", "cr2", "nef"]) {
                lemma_photos_list(e);
            }
            if one_of(e, seq!["mp4", "mkv", "avi", "mov", "wmv", "flv", "webm", "m4v"]) {
                lemma_videos_list(e);
            }
            assert(seq!["mp3", "wav", "flac", "m4a", "aac", "ogg", "wma"][3]@ == e);
        }
        if e == "aac"@ {
            assert(e.len() == 3);
            assert(e[0] == 'a');
            assert(e[1] == 'a');
            assert(e[2] == 'c');
            if one_of(e, seq!["jpg", "jpeg", "png", "gif", "webp", "heic", "raw", "cr2", "nef"]) {
                lemma_photos_list(e);
            }
            if one_of(e, seq!["mp4", "mkv", "avi", "mov", "wmv", "flv", "webm", "m4v"]) {
                lemma_videos_list(e);
            }
            assert(seq!["mp3", "wav", "flac", "m4a", "aac", "ogg", "wma"][4]@ == e);
        }
        if e == "ogg"@ {
            assert(e.len() == 3);
            assert(e[0] == 'o');
            assert(e[1] == 'g');
            assert(e[2] == 'g');
            if one_of(e, seq!["jpg", "jpeg", "png", "gif", "webp", "heic", "raw", "cr2", "nef"]) {
                lemma_photos_list(e);
            }
            if one_of(e, seq!["mp4", "mkv", "avi", "mov", "wmv", "flv", "webm", "m4v"]) {
                lemma_videos_list(e);
            }
            assert(seq!["mp3", "wav", "flac", "m4a", "aac", "ogg", "wma"][5]@ == e);
        }
        if e == "wma"@ {
            assert(e.len() == 3);
            assert(e[0] == 'w');
            assert(e[1] == 'm');
            assert(e[2] == 'a');
            if one_of(e, seq!["jpg", "jpeg", "png", "gif", "webp", "heic", "raw", "cr2", "nef"]) {
                lemma_photos_list(e);
            }
            if one_of(e, seq!["mp4", "mkv", "avi", "mov", "wmv", "flv", "webm", "m4v"]) {
                lemma_videos_list(e);
            }
            assert(seq!["mp3", "wav", "flac", "m4a", "aac", "ogg", "wma"][6]@ == e);
        }
        if e == "pdf"@ {
            assert(e.len() == 3);
            assert(e[0] == 'p');
            assert(e[1] == 'd');
            assert(e[2] == 'f');
            if one_of(e, seq!["jpg", "jpeg", "png", "gif", "webp", "heic", "raw", "cr2", "nef"]) {
                lemma_photos_list(e);
            }
            if one_of(e, seq!["mp4", "mkv", "avi", "mov", "wmv", "flv", "webm", "m4v"]) {
                lemma_videos_list(e);
            }
            if one_of(e, seq!["mp3", "wav", "flac", "m4a", "aac", "ogg", "wma"]) {
                lemma_audio_list(e);
            }
        }
        if e == "doc"@ {
            assert(e.len() == 3);
            assert(e[0] == 'd');
            assert(e[1] == 'o');
            assert(e[2] == 'c');
            if one_of(e, seq!["jpg", "jpeg", "png", "gif", "webp", "heic", "raw", "cr2", "nef"]) {
                lemma_photos_list(e);
            }
            if one_of(e, seq!["mp4", "mkv", "avi", "mov", "wmv", "flv", "webm", "m4v"]) {
                lemma_videos_list(e);
            }
            if one_of(e, seq!["mp3", "wav", "flac", "m4a", "aac", "ogg", "wma"]) {
                lemma_audio_list(e);
            }
            assert(seq!["doc", "docx", "odt"][0]@ == e);
        }
        if e == "docx"@ {
            assert(e.len() == 4);
            assert(e[0] == 'd');
            assert(e[1] == 'o');
            assert(e[2] == 'c');
            assert(e[3] == 'x');
            if one_of(e, seq!["jpg", "jpeg", "png", "gif", "webp", "heic", "raw", "cr2", "nef"]) {
                lemma_photos_list(e);
            }
            if one_of(e, seq!["mp4", "mkv", "avi", "mov", "wmv", "flv", "webm", "m4v"]) {
                lemma_videos_list(e);
            }
            if one_of(e, seq!["mp3", "wav", "flac", "m4a", "aac", "ogg", "wma"]) {
                lemma_audio_list(e);
            }
            assert(seq!["doc", "docx", "odt"][1]@ == e);
        }
        if e == "odt"@ {
            assert(e.len() == 3);
            assert(e[0] == 'o');
            assert(e[1] == 'd');
            assert(e[2] == 't');
            if one_of(e, seq!["jpg", "jpeg", "png", "gif", "webp", "heic", "raw", "cr2", "nef"]) {
                lemma_photos_list(e);
            }
            if one_of(e, seq!["mp4", "mkv", "avi", "mov", "wmv", "flv", "webm", "m4v"]) {
                lemma_videos_list(e);
            }
            if one_of(e, seq!["mp3", "wav", "flac", "m4a", "aac", "ogg", "wma"]) {
                lemma_audio_list(e);
            }
            assert(seq!["doc", "docx", "odt"][2]@ == e);
        }
        if e == "txt"@ {
            assert(e.len() == 3);
            assert(e[0] == 't');
            assert(e[1] == 'x');
            assert(e[2] == 't');
            if one_of(e, seq!["jpg", "jpeg", "png", "gif", "webp", "heic", "raw", "cr2", "nef"]) {
                lemma_photos_list(e);
            }
            if one_of(e, seq!["mp4", "mkv", "avi", "mov", "wmv", "flv", "webm", "m4v"]) {
                lemma_videos_list(e);
            }
            if one_of(e, seq!["mp3", "wav", "flac", "m4a", "aac", "ogg", "wma"]) {
                lemma_audio_list(e);
            }
            if one_of(e, seq!["doc", "docx", "odt"]) {
                lemma_officedocuments_list(e);
            }
            assert(seq!["txt", "md", "markdown", "rst"][0]@ == e);
        }
        if e == "md"@ {
            assert(e.len() == 2);
            assert(e[0] == 'm');
            assert(e[1] == 'd');
            if one_of(e, seq!["jpg", "jpeg", "png", "gif", "webp", "heic", "raw", "cr2", "nef"]) {
                lemma_photos_list(e);
            }
            if one_of(e, seq!["mp4", "mkv", "avi", "mov", "wmv", "flv", "webm", "m4v"]) {
                lemma_videos_list(e);
            }
            if one_of(e, seq!["mp3", "wav", "flac", "m4a", "aac", "ogg", "wma"]) {
                lemma_audio_list(e);
            }
            if one_of(e, seq!["doc", "docx", "odt"]) {
                lemma_officedocuments_list(e);
            }
            assert(seq!["txt", "md", "markdown", "rst"][1]@ == e);
        }
        if e == "markdown"@ {
            assert(e.len() == 8);
            assert(e[0] == 'm');
            assert(e[1] == 'a');
            assert(e[2] == 'r');
            assert(e[3] == 'k');
            assert(e[4] == 'd');
            assert(e[5] == 'o');
            assert(e[6] == 'w');
            assert(e[7] == 'n');
            if one_of(e, seq!["jpg", "jpeg", "png", "gif", "webp", "heic", "raw", "cr2", "nef"]) {
                lemma_photos_list(e);
            }
            if one_of(e, seq!["mp4", "mkv", "avi", "mov", "wmv", "flv", "webm", "m4v"]) {
                lemma_videos_list(e);
            }
            if one_of(e, seq!["mp3", "wav", "flac", "m4a", "aac", "ogg", "wma"]) {
                lemma_audio_list(e);
            }
            if one_of(e, seq!["doc", "docx", "odt"]) {
                lemma_officedocuments_list(e);
            }
            assert(seq!["txt", "md", "markdown", "rst"][2]@ == e);
        }
        if e == "rst"@ {
            assert(e.len() == 3);
            assert(e[0] == 'r');
            assert(e[1] == 's');
            assert(e[2] == 't');
            if one_of(e, seq!["jpg", "jpeg", "png", "gif", "webp", "heic", "raw", "cr2", "nef"]) {
                lemma_photos_list(e);
            }
            if one_of(e, seq!["mp4", "mkv", "avi", "mov", "wmv", "flv", "webm", "m4v"]) {
                lemma_videos_list(e);
            }
            if one_of(e, seq!["mp3", "wav", "flac", "m4a", "aac", "ogg", "wma"]) {
                lemma_audio_list(e);
            }
            if one_of(e, seq!["doc", "docx", "odt"]) {
                lemma_officedocuments_list(e);
            }
            assert(seq!["txt", "md", "markdown", "rst"][3]@ == e);
        }
        if e == "ppt"@ {
            assert(e.len() == 3);
            assert(e[0] == 'p');
            assert(e[1] == 'p');
            assert(e[2] == 't');
            if one_of(e, seq!["jpg", "jpeg", "png", "gif", "webp", "heic", "raw", "cr2", "nef"]) {
                lemma_photos_list(e);
            }
            if one_of(e, seq!["mp4", "mkv", "avi", "mov", "wmv", "flv", "webm", "m4v"]) {
                lemma_videos_list(e);
            }
            if one_of(e, seq!["mp3", "wav", "flac", "m4a", "aac", "ogg", "wma"]) {
                lemma_audio_list(e);
            }
            if one_of(e, seq!["doc", "docx", "odt"]) {
                lemma_officedocuments_list(e);
            }
            if one_of(e, seq!["txt", "md", "markdown", "rst"]) {
                lemma_textfiles_list(e);
            }
            assert(seq!["ppt", "pptx", "key", "odp"][0]@ == e);
        }
        if e == "pptx"@ {
            assert(e.len() == 4);
            assert(e[0] == 'p');
            assert(e[1] == 'p');
            assert(e[2] == 't');
            assert(e[3] == 'x');
            if one_of(e, seq!["jpg", "jpeg", "png", "gif", "webp", "heic", "raw", "cr2", "nef"]) {
                lemma_photos_list(e);
            }
            if one_of(e, seq!["mp4", "mkv", "avi", "mov", "wmv", "flv", "webm", "m4v"]) {
                lemma_videos_list(e);
            }
            if one_of(e, seq!["mp3", "wav", "flac", "m4a", "aac", "ogg", "wma"]) {
                lemma_audio_list(e);
            }
            if one_of(e, seq!["doc", "docx", "odt"]) {
                lemma_officedocuments_list(e);
            }
            if one_of(e, seq!["txt", "md", "markdown", "rst"]) {
                lemma_textfiles_list(e);
            }
            assert(seq!["ppt", "pptx", "key", "odp"][1]@ == e);
        }
        if e == "key"@ {
            assert(e.len() == 3);
            assert(e[0] == 'k');
            assert(e[1] == 'e');
            assert(e[2] == 'y');
            if one_of(e, seq!["jpg", "jpeg", "png", "gif", "webp", "heic", "raw", "cr2", "nef"]) {
                lemma_photos_list(e);
            }
            if one_of(e, seq!["mp4", "mkv", "avi", "mov", "wmv", "flv", "webm", "m4v"]) {
                lemma_videos_list(e);
            }
            if one_of(e, seq!["mp3", "wav", "flac", "m4a", "aac", "ogg", "wma"]) {
                lemma_audio_list(e);
            }
            if one_of(e, seq!["doc", "docx", "odt"]) {
                lemma_officedocuments_list(e);
            }
            if one_of(e, seq!["txt", "md", "markdown", "rst"]) {
                lemma_textfiles_list(e);
            }
            assert(seq!["ppt", "pptx", "key", "odp"][2]@ == e);
        }
        if e == "odp"@ {
            assert(e.len() == 3);
            assert(e[0] == 'o');
            assert(e[1] == 'd');
            assert(e[2] == 'p');
            if one_of(e, seq!["jpg", "jpeg", "png", "gif", "webp", "heic", "raw", "cr2", "nef"]) {
                lemma_photos_list(e);
            }
            if one_of(e, seq!["mp4", "mkv", "avi", "mov", "wmv", "flv", "webm", "m4v"]) {
                lemma_videos_list(e);
            }
            if one_of(e, seq!["mp3", "wav", "flac", "m4a", "aac", "ogg", "wma"]) {
                lemma_audio_list(e);
            }
            if one_of(e, seq!["doc", "docx", "odt"]) {
                lemma_officedocuments_list(e);
            }
            if one_of(e, seq!["txt", "md", "markdown", "rst"]) {
                lemma_textfiles_list(e);
            }
            assert(seq!["ppt", "pptx", "key", "odp"][3]@ == e);
        }
        if e == "xls"@ {
            assert(e.len() == 3);
            assert(e[0] == 'x');
            assert(e[1] == 'l');
            assert(e[2] == 's');
            if one_of(e, seq!["jpg", "jpeg", "png", "gif", "webp", "heic", "raw", "cr2", "nef"]) {
                lemma_photos_list(e);
            }
            if one_of(e, seq!["mp4", "mkv", "avi", "mov", "wmv", "flv", "webm", "m4v"]) {
                lemma_videos_list(e);
            }
            if one_of(e, seq!["mp3", "wav", "flac", "m4a", "aac", "ogg", "wma"]) {
                lemma_audio_list(e);
            }
            if one_of(e, seq!["doc", "docx", "odt"]) {
                lemma_officedocuments_list(e);
            }
            if one_of(e, seq!["txt", "md", "markdown", "rst"]) {
                lemma_textfiles_list(e);
            }
            if one_of(e, seq!["ppt", "pptx", "key", "odp"]) {
                lemma_presentations_list(e);
            }
            assert(seq!["xls", "xlsx", "csv", "ods"][0]@ == e);
        }
        if e == "xlsx"@ {
            assert(e.len() == 4);
            assert(e[0] == 'x');
            assert(e[1] == 'l');
            assert(e[2] == 's');
            assert(e[3] == 'x');
            if one_of(e, seq!["jpg", "jpeg", "png", "gif", "webp", "heic", "raw", "cr2", "nef"]) {
                lemma_photos_list(e);
            }
            if one_of(e, seq!["mp4", "mkv", "avi", "mov", "wmv", "flv", "webm", "m4v"]) {
                lemma_videos_list(e);
            }
            if one_of(e, seq!["mp3", "wav", "flac", "m4a", "aac", "ogg", "wma"]) {
                lemma_audio_list(e);
            }
            if one_of(e, seq!["doc", "docx", "odt"]) {
                lemma_officedocuments_list(e);
            }
            if one_of(e, seq!["txt", "md", "markdown", "rst"]) {
                lemma_textfiles_list(e);
            }
            if one_of(e, seq!["ppt", "pptx", "key", "odp"]) {
                lemma_presentations_list(e);
            }
            assert(seq!["xls", "xlsx", "csv", "ods"][1]@ == e);
        }
        if e == "csv"@ {
            assert(e.len() == 3);
            assert(e[0] == 'c');
            assert(e[1] == 's');
            assert(e[2] == 'v');
            if one_of(e, seq!["jpg", "jpeg", "png", "gif", "webp", "heic", "raw", "cr2", "nef"]) {
                lemma_photos_list(e);
            }
            if one_of(e, seq!["mp4", "mkv", "avi", "mov", "wmv", "flv", "webm", "m4v"]) {
                lemma_videos_list(e);
            }
            if one_of(e, seq!["mp3", "wav", "flac", "m4a", "aac", "ogg", "wma"]) {
                lemma_audio_list(e);
            }
            if one_of(e, seq!["doc", "docx", "odt"]) {
                lemma_officedocuments_list(e);
            }
            if one_of(e, seq!["txt", "md", "markdown", "rst"]) {
                lemma_textfiles_list(e);
            }
            if one_of(e, seq!["ppt", "pptx", "key", "odp"]) {
                lemma_presentations_list(e);
            }
            assert(seq!["xls", "xlsx", "csv", "ods"][2]@ == e);
        }
        if e == "ods"@ {
            assert(e.len() == 3);
            assert(e[0] == 'o');
            assert(e[1] == 'd');
            assert(e[2] == 's');
            if one_of(e, seq!["jpg", "jpeg", "png", "gif", "webp", "heic", "raw", "cr2", "nef"]) {
                lemma_photos_list(e);
            }
            if one_of(e, seq!["mp4", "mkv", "avi", "mov", "wmv", "flv", "webm", "m4v"]) {
                lemma_videos_list(e);
            }
            if one_of(e, seq!["mp3", "wav", "flac", "m4a", "aac", "ogg", "wma"]) {
                lemma_audio_list(e);
            }
            if one_of(e, seq!["doc", "docx", "odt"]) {
                lemma_officedocuments_list(e);
            }
            if one_of(e, seq!["txt", "md", "markdown", "rst"]) {
                lemma_textfiles_list(e);
            }
            if one_of(e, seq!["ppt", "pptx", "key", "odp"]) {
                lemma_presentations_list(e);
            }
            assert(seq!["xls", "xlsx", "csv", "ods"][3]@ == e);
        }
        if e == "zip"@ {
            assert(e.len() == 3);
            assert(e[0] == 'z');
            assert(e[1] == 'i');
            assert(e[2] == 'p');
            if one_of(e, seq!["jpg", "jpeg", "png", "gif", "webp", "heic", "raw", "cr2", "nef"]) {
                lemma_photos_list(e);
            }
            if one_of(e, seq!["mp4", "mkv", "avi", "mov", "wmv", "flv", "webm", "m4v"]) {
                lemma_videos_list(e);
            }
            if one_of(e, seq!["mp3", "wav", "flac", "m4a", "aac", "ogg", "wma"]) {
                lemma_audio_list(e);
            }
            if one_of(e, seq!["doc", "docx", "odt"]) {
                lemma_officedocuments_list(e);
            }
            if one_of(e, seq!["txt", "md", "markdown", "rst"]) {
                lemma_textfiles_list(e);
            }
            if one_of(e, seq!["ppt", "pptx", "key", "odp"]) {
                lemma_presentations_list(e);
            }
            if one_of(e, seq!["xls", "xlsx", "csv", "ods"]) {
                lemma_spreadsheets_list(e);
            }
            assert(seq!["zip", "tar", "gz", "bz2", "7z", "rar"][0]@ == e);
        }
        if e == "tar"@ {
            assert(e.len() == 3);
            assert(e[0] == 't');
            assert(e[1] == 'a');
            assert(e[2] == 'r');
            if one_of(e, seq!["jpg", "jpeg", "png", "gif", "webp", "heic", "raw", "cr2", "nef"]) {
                lemma_photos_list(e);
            }
            if one_of(e, seq!["mp4", "mkv", "avi", "mov", "wmv", "flv", "webm", "m4v"]) {
                lemma_videos_list(e);
            }
            if one_of(e, seq!["mp3", "wav", "flac", "m4a", "aac", "ogg", "wma"]) {
                lemma_audio_list(e);
            }
            if one_of(e, seq!["doc", "docx", "odt"]) {
                lemma_officedocuments_list(e);
            }
            if one_of(e, seq!["txt", "md", "markdown", "rst"]) {
                lemma_textfiles_list(e);
            }
            if one_of(e, seq!["ppt", "pptx", "key", "odp"]) {
                lemma_presentations_list(e);
            }
            if one_of(e, seq!["xls", "xlsx", "csv", "ods"]) {
                lemma_spreadsheets_list(e);
            }
            assert(seq!["zip", "tar", "gz", "bz2", "7z", "rar"][1]@ == e);
        }
        if e == "gz"@ {
            assert(e.len() == 2);
            assert(e[0] == 'g');
            assert(e[1] == 'z');
            if one_of(e, seq!["jpg", "jpeg", "png", "gif", "webp", "heic", "raw", "cr2", "nef"]) {
                lemma_photos_list(e);
            }
            if one_of(e, seq!["mp4", "mkv", "avi", "mov", "wmv", "flv", "webm", "m4v"]) {
                lemma_videos_list(e);
            }
            if one_of(e, seq!["mp3", "wav", "flac", "m4a", "aac", "ogg", "wma"]) {
                lemma_audio_list(e);
            }
            if one_of(e, seq!["doc", "docx", "odt"]) {
                lemma_officedocuments_list(e);
            }
            if one_of(e, seq!["txt", "md", "markdown", "rst"]) {
                lemma_textfiles_list(e);
            }
            if one_of(e, seq!["ppt", "pptx", "key", "odp"]) {
                lemma_presentations_list(e);
            }
            if one_of(e, seq!["xls", "xlsx", "csv", "ods"]) {
                lemma_spreadsheets_list(e);
            }
            assert(seq!["zip", "tar", "gz", "bz2", "7z", "rar"][2]@ == e);
        }
        if e == "bz2"@ {
            assert(e.len() == 3);
            assert(e[0] == 'b');
            assert(e[1] == 'z');
            assert(e[2] == '2');
            if one_of(e, seq!["jpg", "jpeg", "png", "gif", "webp", "heic", "raw", "cr2", "nef"]) {
                lemma_photos_list(e);
            }
            if one_of(e, seq!["mp4", "mkv", "avi", "mov", "wmv", "flv", "webm", "m4v"]) {
                lemma_videos_list(e);
            }
            if one_of(e, seq!["mp3", "wav", "flac", "m4a", "aac", "ogg", "wma"]) {
                lemma_audio_list(e);
            }
            if one_of(e, seq!["doc", "docx", "odt"]) {
                lemma_officedocuments_list(e);
            }
            if one_of(e, seq!["txt", "md", "markdown", "rst"]) {
                lemma_textfiles_list(e);
            }
            if one_of(e, seq!["ppt", "pptx", "key", "odp"]) {
                lemma_presentations_list(e);
            }
            if one_of(e, seq!["xls", "xlsx", "csv", "ods"]) {
                lemma_spreadsheets_list(e);
            }
            assert(seq!["zip", "tar", "gz", "bz2", "7z", "rar"][3]@ == e);
        }
        if e == "7z"@ {
            assert(e.len() == 2);
            assert(e[0] == '7');
            assert(e[1] == 'z');
            if one_of(e, seq!["jpg", "jpeg", "png", "gif", "webp", "heic", "raw", "cr2", "nef"]) {
                lemma_photos_list(e);
            }
            if one_of(e, seq!["mp4", "mkv", "avi", "mov", "wmv", "flv", "webm", "m4v"]) {
                lemma_videos_list(e);
            }
            if one_of(e, seq!["mp3", "wav", "flac", "m4a", "aac", "ogg", "wma"]) {
                lemma_audio_list(e);
            }
            if one_of(e, seq!["doc", "docx", "odt"]) {
                lemma_officedocuments_list(e);
            }
            if one_of(e, seq!["txt", "md", "markdown", "rst"]) {
                lemma_textfiles_list(e);
            }
            if one_of(e, seq!["ppt", "pptx", "key", "odp"]) {
                lemma_presentations_list(e);
            }
            if one_of(e, seq!["xls", "xlsx", "csv", "ods"]) {
                lemma_spreadsheets_list(e);
            }
            assert(seq!["zip", "tar", "gz", "bz2", "7z", "rar"][4]@ == e);
        }
        if e == "rar"@ {
            assert(e.len() == 3);
            assert(e[0] == 'r');
            assert(e[1] == 'a');
            assert(e[2] == 'r');
            if one_of(e, seq!["jpg", "jpeg", "png", "gif", "webp", "heic", "raw", "cr2", "nef"]) {
                lemma_photos_list(e);
            }
            if one_of(e, seq!["mp4", "mkv", "avi", "mov", "wmv", "flv", "webm", "m4v"]) {
                lemma_videos_list(e);
            }
            if one_of(e, seq!["mp3", "wav", "flac", "m4a", "aac", "ogg", "wma"]) {
                lemma_audio_list(e);
            }
            if one_of(e, seq!["doc", "docx", "odt"]) {
                lemma_officedocuments_list(e);
            }
            if one_of(e, seq!["txt", "md", "markdown", "rst"]) {
                lemma_textfiles_list(e);
            }
            if one_of(e, seq!["ppt", "pptx", "key", "odp"]) {
                lemma_presentations_list(e);
            }
            if one_of(e, seq!["xls", "xlsx", "csv", "ods"]) {
                lemma_spreadsheets_list(e);
            }
            assert(seq!["zip", "tar", "gz", "bz2", "7z", "rar"][5]@ == e);
        }
        if e == "rs"@ {
            assert(e.len() == 2);
            assert(e[0] == 'r');
            assert(e[1] == 's');
            if one_of(e, seq!["jpg", "jpeg", "png", "gif", "webp", "heic", "raw", "cr2", "nef"]) {
                lemma_photos_list(e);
            }
            if one_of(e, seq!["mp4", "mkv", "avi", "mov", "wmv", "flv", "webm", "m4v"]) {
                lemma_videos_list(e);
            }
            if one_of(e, seq!["mp3", "wav", "flac", "m4a", "aac", "ogg", "wma"]) {
                lemma_audio_list(e);
            }
            if one_of(e, seq!["doc", "docx", "odt"]) {
                lemma_officedocuments_list(e);
            }
            if one_of(e, seq!["txt", "md", "markdown", "rst"]) {
                lemma_textfiles_list(e);
            }
            if one_of(e, seq!["ppt", "pptx", "key", "odp"]) {
                lemma_presentations_list(e);
            }
            if one_of(e, seq!["xls", "xlsx", "csv", "ods"]) {
                lemma_spreadsheets_list(e);
            }
            if one_of(e, seq!["zip", "tar", "gz", "bz2", "7z", "rar"]) {
                lemma_archives_list(e);
            }
            assert(seq!["rs", "py", "js", "ts", "java", "c", "cpp", "go", "rb", "php", "swift", "kt"][0]@ == e);
        }
        if e == "py"@ {
            assert(e.len() == 2);
            assert(e[0] == 'p');
            assert(e[1] == 'y');
            if one_of(e, seq!["jpg", "jpeg", "png", "gif", "webp", "heic", "raw", "cr2", "nef"]) {
                lemma_photos_list(e);
            }
            if one_of(e, seq!["mp4", "mkv", "avi", "mov", "wmv", "flv", "webm", "m4v"]) {
                lemma_videos_list(e);
            }
            if one_of(e, seq!["mp3", "wav", "flac", "m4a", "aac", "ogg", "wma"]) {
                lemma_audio_list(e);
            }
            if one_of(e, seq!["doc", "docx", "odt"]) {
                lemma_officedocuments_list(e);
            }
            if one_of(e, seq!["txt", "md", "markdown", "rst"]) {
                lemma_textfiles_list(e);
            }
            if one_of(e, seq!["ppt", "pptx", "key", "odp"]) {
                lemma_presentations_list(e);
            }
            if one_of(e, seq!["xls", "xlsx", "csv", "ods"]) {
                lemma_spreadsheets_list(e);
            }
            if one_of(e, seq!["zip", "tar", "gz", "bz2", "7z", "rar"]) {
                lemma_archives_list(e);
            }
            assert(seq!["rs", "py", "js", "ts", "java", "c", "cpp", "go", "rb", "php", "swift", "kt"][1]@ == e);
        }
        if e == "js"@ {
            assert(e.len() == 2);
            assert(e[0] == 'j');
            assert(e[1] == 's');
            if one_of(e, seq!["jpg", "jpeg", "png", "gif", "webp", "heic", "raw", "cr2", "nef"]) {
                lemma_photos_list(e);
            }
            if one_of(e, seq!["mp4", "mkv", "avi", "mov", "wmv", "flv", "webm", "m4v"]) {
                lemma_videos_list(e);
            }
            if one_of(e, seq!["mp3", "wav", "flac", "m4a", "aac", "ogg", "wma"]) {
                lemma_audio_list(e);
            }
            if one_of(e, seq!["doc", "docx", "odt"]) {
                lemma_officedocuments_list(e);
            }
            if one_of(e, seq!["txt", "md", "markdown", "rst"]) {
                lemma_textfiles_list(e);
            }
            if one_of(e, seq!["ppt", "pptx", "key", "odp"]) {
                lemma_presentations_list(e);
            }
            if one_of(e, seq!["xls", "xlsx", "csv", "ods"]) {
                lemma_spreadsheets_list(e);
            }
            if one_of(e, seq!["zip", "tar", "gz", "bz2", "7z", "rar"]) {
                lemma_archives_list(e);
            }
            assert(seq!["rs", "py", "js", "ts", "java", "c", "cpp", "go", "rb", "php", "swift", "kt"][2]@ == e);
        }
        if e == "ts"@ {
            assert(e.len() == 2);
            assert(e[0] == 't');
            assert(e[1] == 's');
            if one_of(e, seq!["jpg", "jpeg", "png", "gif", "webp", "heic", "raw", "cr2", "nef"]) {
                lemma_photos_list(e);
            }
            if one_of(e, seq!["mp4", "mkv", "avi", "mov", "wmv", "flv", "webm", "m4v"]) {
                lemma_videos_list(e);
            }
            if one_of(e, seq!["mp3", "wav", "flac", "m4a", "aac", "ogg", "wma"]) {
                lemma_audio_list(e);
            }
            if one_of(e, seq!["doc", "docx", "odt"]) {
                lemma_officedocuments_list(e);
            }
            if one_of(e, seq!["txt", "md", "markdown", "rst"]) {
                lemma_textfiles_list(e);
            }
            if one_of(e, seq!["ppt", "pptx", "key", "odp"]) {
                lemma_presentations_list(e);
            }
            if one_of(e, seq!["xls", "xlsx", "csv", "ods"]) {
                lemma_spreadsheets_list(e);
            }
            if one_of(e, seq!["zip", "tar", "gz", "bz2", "7z", "rar"]) {
                lemma_archives_list(e);
            }
            assert(seq!["rs", "py", "js", "ts", "java", "c", "cpp", "go", "rb", "php", "swift", "kt"][3]@ == e);
        }
        if e == "java"@ {
            assert(e.len() == 4);
            assert(e[0] == 'j');
            assert(e[1] == 'a');
            assert(e[2] == 'v');
            assert(e[3] == 'a');
            if one_of(e, seq!["jpg", "jpeg", "png", "gif", "webp", "heic", "raw", "cr2", "nef"]) {
                lemma_photos_list(e);
            }
            if one_of(e, seq!["mp4", "mkv", "avi", "mov", "wmv", "flv", "webm", "m4v"]) {
                lemma_videos_list(e);
            }
            if one_of(e, seq!["mp3", "wav", "flac", "m4a", "aac", "ogg", "wma"]) {
                lemma_audio_list(e);
            }
            if one_of(e, seq!["doc", "docx", "odt"]) {
                lemma_officedocuments_list(e);
            }
            if one_of(e, seq!["txt", "md", "markdown", "rst"]) {
                lemma_textfiles_list(e);
            }
            if one_of(e, seq!["ppt", "pptx", "key", "odp"]) {
                lemma_presentations_list(e);
            }
            if one_of(e, seq!["xls", "xlsx", "csv", "ods"]) {
                lemma_spreadsheets_list(e);
            }
            if one_of(e, seq!["zip", "tar", "gz", "bz2", "7z", "rar"]) {
                lemma_archives_list(e);
            }
            assert(seq!["rs", "py", "js", "ts", "java", "c", "cpp", "go", "rb", "php", "swift", "kt"][4]@ == e);
        }
        if e == "c"@ {
            assert(e.len() == 1);
            assert(e[0] == 'c');
            if one_of(e, seq!["jpg", "jpeg", "png", "gif", "webp", "heic", "raw", "cr2", "nef"]) {
                lemma_photos_list(e);
            }
            if one_of(e, seq!["mp4", "mkv", "avi", "mov", "wmv", "flv", "webm", "m4v"]) {
                lemma_videos_list(e);
            }
            if one_of(e, seq!["mp3", "wav", "flac", "m4a", "aac", "ogg", "wma"]) {
                lemma_audio_list(e);
            }
            if one_of(e, seq!["doc", "docx", "odt"]) {
                lemma_officedocuments_list(e);
            }
            if one_of(e, seq!["txt", "md", "markdown", "rst"]) {
                lemma_textfiles_list(e);
            }
            if one_of(e, seq!["ppt", "pptx", "key", "odp"]) {
                lemma_presentations_list(e);
            }
            if one_of(e, seq!["xls", "xlsx", "csv", "ods"]) {
                lemma_spreadsheets_list(e);
            }
            if one_of(e, seq!["zip", "tar", "gz", "bz2", "7z", "rar"]) {
                lemma_archives_list(e);
            }
            assert(seq!["rs", "py", "js", "ts", "java", "c", "cpp", "go", "rb", "php", "swift", "kt"][5]@ == e);
        }
        if e == "cpp"@ {
            assert(e.len() == 3);
            assert(e[0] == 'c');
            assert(e[1] == 'p');
            assert(e[2] == 'p');
            if one_of(e, seq!["jpg", "jpeg", "png", "gif", "webp", "heic", "raw", "cr2", "nef"]) {
                lemma_photos_list(e);
            }
            if one_of(e, seq!["mp4", "mkv", "avi", "mov", "wmv", "flv", "webm", "m4v"]) {
                lemma_videos_list(e);
            }
            if one_of(e, seq!["mp3", "wav", "flac", "m4a", "aac", "ogg", "wma"]) {
                lemma_audio_list(e);
            }
            if one_of(e, seq!["doc", "docx", "odt"]) {
                lemma_officedocuments_list(e);
            }
            if one_of(e, seq!["txt", "md", "markdown", "rst"]) {
                lemma_textfiles_list(e);
            }
            if one_of(e, seq!["ppt", "pptx", "key", "odp"]) {
                lemma_presentations_list(e);
            }
            if one_of(e, seq!["xls", "xlsx", "csv", "ods"]) {
                lemma_spreadsheets_list(e);
            }
            if one_of(e, seq!["zip", "tar", "gz", "bz2", "7z", "rar"]) {
                lemma_archives_list(e);
            }
            assert(seq!["rs", "py", "js", "ts", "java", "c", "cpp", "go", "rb", "php", "swift", "kt"][6]@ == e);
        }
        if e == "go"@ {
            assert(e.len() == 2);
            assert(e[0] == 'g');
            assert(e[1] == 'o');
            if one_of(e, seq!["jpg", "jpeg", "png", "gif", "webp", "heic", "raw", "cr2", "nef"]) {
                lemma_photos_list(e);
            }
            if one_of(e, seq!["mp4", "mkv", "avi", "mov", "wmv", "flv", "webm", "m4v"]) {
                lemma_videos_list(e);
            }
            if one_of(e, seq!["mp3", "wav", "flac", "m4a", "aac", "ogg", "wma"]) {
                lemma_audio_list(e);
            }
            if one_of(e, seq!["doc", "docx", "odt"]) {
                lemma_officedocuments_list(e);
            }
            if one_of(e, seq!["txt", "md", "markdown", "rst"]) {
                lemma_textfiles_list(e);
            }
            if one_of(e, seq!["ppt", "pptx", "key", "odp"]) {
                lemma_presentations_list(e);
            }
            if one_of(e, seq!["xls", "xlsx", "csv", "ods"]) {
                lemma_spreadsheets_list(e);
            }
            if one_of(e, seq!["zip", "tar", "gz", "bz2", "7z", "rar"]) {
                lemma_archives_list(e);
            }
            assert(seq!["rs", "py", "js", "ts", "java", "c", "cpp", "go", "rb", "php", "swift", "kt"][7]@ == e);
        }
        if e == "rb"@ {
            assert(e.len() == 2);
            assert(e[0] == 'r');
            assert(e[1] == 'b');
            if one_of(e, seq!["jpg", "jpeg", "png", "gif", "webp", "heic", "raw", "cr2", "nef"]) {
                lemma_photos_list(e);
            }
            if one_of(e, seq!["mp4", "mkv", "avi", "mov", "wmv", "flv", "webm", "m4v"]) {
                lemma_videos_list(e);
            }
            if one_of(e, seq!["mp3", "wav", "flac", "m4a", "aac", "ogg", "wma"]) {
                lemma_audio_list(e);
            }
            if one_of(e, seq!["doc", "docx", "odt"]) {
                lemma_officedocuments_list(e);
            }
            if one_of(e, seq!["txt", "md", "markdown", "rst"]) {
                lemma_textfiles_list(e);
            }
            if one_of(e, seq!["ppt", "pptx", "key", "odp"]) {
                lemma_presentations_list(e);
            }
            if one_of(e, seq!["xls", "xlsx", "csv", "ods"]) {
                lemma_spreadsheets_list(e);
            }
            if one_of(e, seq!["zip", "tar", "gz", "bz2", "7z", "rar"]) {
                lemma_archives_list(e);
            }
            assert(seq!["rs", "py", "js", "ts", "java", "c", "cpp", "go", "rb", "php", "swift", "kt"][8]@ == e);
        }
        if e == "php"@ {
            assert(e.len() == 3);
            assert(e[0] == 'p');
            assert(e[1] == 'h');
            assert(e[2] == 'p');
            if one_of(e, seq!["jpg", "jpeg", "png", "gif", "webp", "heic", "raw", "cr2", "nef"]) {
                lemma_photos_list(e);
            }
            if one_of(e, seq!["mp4", "mkv", "avi", "mov", "wmv", "flv", "webm", "m4v"]) {
                lemma_videos_list(e);
            }
            if one_of(e, seq!["mp3", "wav", "flac", "m4a", "aac", "ogg", "wma"]) {
                lemma_audio_list(e);
            }
            if one_of(e, seq!["doc", "docx", "odt"]) {
                lemma_officedocuments_list(e);
            }
            if one_of(e, seq!["txt", "md", "markdown", "rst"]) {
                lemma_textfiles_list(e);
            }
            if one_of(e, seq!["ppt", "pptx", "key", "odp"]) {
                lemma_presentations_list(e);
            }
            if one_of(e, seq!["xls", "xlsx", "csv", "ods"]) {
                lemma_spreadsheets_list(e);
            }
            if one_of(e, seq!["zip", "tar", "gz", "bz2", "7z", "rar"]) {
                lemma_archives_list(e);
            }
            assert(seq!["rs", "py", "js", "ts", "java", "c", "cpp", "go", "rb", "php", "swift", "kt"][9]@ == e);
        }
        if e == "swift"@ {
            assert(e.len() == 5);
            assert(e[0] == 's');
            assert(e[1] == 'w');
            assert(e[2] == 'i');
            assert(e[3] == 'f');
            assert(e[4] == 't');
            if one_of(e, seq!["jpg", "jpeg", "png", "gif", "webp", "heic", "raw", "cr2", "nef"]) {
                lemma_photos_list(e);
            }
            if one_of(e, seq!["mp4", "mkv", "avi", "mov", "wmv", "flv", "webm", "m4v"]) {
                lemma_videos_list(e);
            }
            if one_of(e, seq!["mp3", "wav", "flac", "m4a", "aac", "ogg", "wma"]) {
                lemma_audio_list(e);
            }
            if one_of(e, seq!["doc", "docx", "odt"]) {
                lemma_officedocuments_list(e);
            }
            if one_of(e, seq!["txt", "md", "markdown", "rst"]) {
                lemma_textfiles_list(e);
            }
            if one_of(e, seq!["ppt", "pptx", "key", "odp"]) {
                lemma_presentations_list(e);
            }
            if one_of(e, seq!["xls", "xlsx", "csv", "ods"]) {
                lemma_spreadsheets_list(e);
            }
            if one_of(e, seq!["zip", "tar", "gz", "bz2", "7z", "rar"]) {
                lemma_archives_list(e);
            }
            assert(seq!["rs", "py", "js", "ts", "java", "c", "cpp", "go", "rb", "php", "swift", "kt"][10]@ == e);
        }
        if e == "kt"@ {
            assert(e.len() == 2);
            assert(e[0] == 'k');
            assert(e[1] == 't');
            if one_of(e, seq!["jpg", "jpeg", "png", "gif", "webp", "heic", "raw", "cr2", "nef"]) {
                lemma_photos_list(e);
            }
            if one_of(e, seq!["mp4", "mkv", "avi", "mov", "wmv", "flv", "webm", "m4v"]) {
                lemma_videos_list(e);
            }
            if one_of(e, seq!["mp3", "wav", "flac", "m4a", "aac", "ogg", "wma"]) {
                lemma_audio_list(e);
            }
            if one_of(e, seq!["doc", "docx", "odt"]) {
                lemma_officedocuments_list(e);
            }
            if one_of(e, seq!["txt", "md", "markdown", "rst"]) {
                lemma_textfiles_list(e);
            }
            if one_of(e, seq!["ppt", "pptx", "key", "odp"]) {
                lemma_presentations_list(e);
            }
            if one_of(e, seq!["xls", "xlsx", "csv", "ods"]) {
                lemma_spreadsheets_list(e);
            }
            if one_of(e, seq!["zip", "tar", "gz", "bz2", "7z", "rar"]) {
                lemma_archives_list(e);
            }
            assert(seq!["rs", "py", "js", "ts", "java", "c", "cpp", "go", "rb", "php", "swift", "kt"][11]@ == e);
        }
        if e == "so"@ {
            assert(e.len() == 2);
            assert(e[0] == 's');
            assert(e[1] == 'o');
            if one_of(e, seq!["jpg", "jpeg", "png", "gif", "webp", "heic", "raw", "cr2", "nef"]) {
                lemma_photos_list(e);
            }
            if one_of(e, seq!["mp4", "mkv", "avi", "mov", "wmv", "flv", "webm", "m4v"]) {
                lemma_videos_list(e);
            }
            if one_of(e, seq!["mp3", "wav", "flac", "m4a", "aac", "ogg", "wma"]) {
                lemma_audio_list(e);
            }
            if one_of(e, seq!["doc", "docx", "odt"]) {
                lemma_officedocuments_list(e);
            }
            if one_of(e, seq!["txt", "md", "markdown", "rst"]) {
                lemma_textfiles_list(e);
            }
            if one_of(e, seq!["ppt", "pptx", "key", "odp"]) {
                lemma_presentations_list(e);
            }
            if one_of(e, seq!["xls", "xlsx", "csv", "ods"]) {
                lemma_spreadsheets_list(e);
            }
            if one_of(e, seq!["zip", "tar", "gz", "bz2", "7z", "rar"]) {
                lemma_archives_list(e);
            }
            if one_of(e, seq!["rs", "py", "js", "ts", "java", "c", "cpp", "go", "rb", "php", "swift", "kt"]) {
                lemma_sourcecode_list(e);
            }
            assert(seq!["so", "dylib", "dll", "a", "lib"][0]@ == e);
        }
        if e == "dylib"@ {
            assert(e.len() == 5);
            assert(e[0] == 'd');
            assert(e[1] == 'y');
            assert(e[2] == 'l');
            assert(e[3] == 'i');
            assert(e[4] == 'b');
            if one_of(e, seq!["jpg", "jpeg", "png", "gif", "webp", "heic", "raw", "cr2", "nef"]) {
                lemma_photos_list(e);
            }
            if one_of(e, seq!["mp4", "mkv", "avi", "mov", "wmv", "flv", "webm", "m4v"]) {
                lemma_videos_list(e);
            }
            if one_of(e, seq!["mp3", "wav", "flac", "m4a", "aac", "ogg", "wma"]) {
                lemma_audio_list(e);
            }
            if one_of(e, seq!["doc", "docx", "odt"]) {
                lemma_officedocuments_list(e);
            }
            if one_of(e, seq!["txt", "md", "markdown", "rst"]) {
                lemma_textfiles_list(e);
            }
            if one_of(e, seq!["ppt", "pptx", "key", "odp"]) {
                lemma_presentations_list(e);
            }
            if one_of(e, seq!["xls", "xlsx", "csv", "ods"]) {
                lemma_spreadsheets_list(e);
            }
            if one_of(e, seq!["zip", "tar", "gz", "bz2", "7z", "rar"]) {
                lemma_archives_list(e);
            }
            if one_of(e, seq!["rs", "py", "js", "ts", "java", "c", "cpp", "go", "rb", "php", "swift", "kt"]) {
                lemma_sourcecode_list(e);
            }
            assert(seq!["so", "dylib", "dll", "a", "lib"][1]@ == e);
        }
        if e == "dll"@ {
            assert(e.len() == 3);
            assert(e[0] == 'd');
            assert(e[1] == 'l');
            assert(e[2] == 'l');
            if one_of(e, seq!["jpg", "jpeg", "png", "gif", "webp", "heic", "raw", "cr2", "nef"]) {
                lemma_photos_list(e);
            }
            if one_of(e, seq!["mp4", "mkv", "avi", "mov", "wmv", "flv", "webm", "m4v"]) {
                lemma_videos_list(e);
            }
            if one_of(e, seq!["mp3", "wav", "flac", "m4a", "aac", "ogg", "wma"]) {
                lemma_audio_list(e);
            }
            if one_of(e, seq!["doc", "docx", "odt"]) {
                lemma_officedocuments_list(e);
            }
            if one_of(e, seq!["txt", "md", "markdown", "rst"]) {
                lemma_textfiles_list(e);
            }
            if one_of(e, seq!["ppt", "pptx", "key", "odp"]) {
                lemma_presentations_list(e);
            }
            if one_of(e, seq!["xls", "xlsx", "csv", "ods"]) {
                lemma_spreadsheets_list(e);
            }
            if one_of(e, seq!["zip", "tar", "gz", "bz2", "7z", "rar"]) {
                lemma_archives_list(e);
            }
            if one_of(e, seq!["rs", "py", "js", "ts", "java", "c", "cpp", "go", "rb", "php", "swift", "kt"]) {
                lemma_sourcecode_list(e);
            }
            assert(seq!["so", "dylib", "dll", "a", "lib"][2]@ == e);
        }
        if e == "a"@ {
            assert(e.len() == 1);
            assert(e[0] == 'a');
            if one_of(e, seq!["jpg", "jpeg", "png", "gif", "webp", "heic", "raw", "cr2", "nef"]) {
                lemma_photos_list(e);
            }
            if one_of(e, seq!["mp4", "mkv", "avi", "mov", "wmv", "flv", "webm", "m4v"]) {
                lemma_videos_list(e);
            }
            if one_of(e, seq!["mp3", "wav", "flac", "m4a", "aac", "ogg", "wma"]) {
                lemma_audio_list(e);
            }
            if one_of(e, seq!["doc", "docx", "odt"]) {
                lemma_officedocuments_list(e);
            }
            if one_of(e, seq!["txt", "md", "markdown", "rst"]) {
                lemma_textfiles_list(e);
            }
            if one_of(e, seq!["ppt", "pptx", "key", "odp"]) {
                lemma_presentations_list(e);
            }
            if one_of(e, seq!["xls", "xlsx", "csv", "ods"]) {
                lemma_spreadsheets_list(e);
            }
            if one_of(e, seq!["zip", "tar", "gz", "bz2", "7z", "rar"]) {
                lemma_archives_list(e);
            }
            if one_of(e, seq!["rs", "py", "js", "ts", "java", "c", "cpp", "go", "rb", "php", "swift", "kt"]) {
                lemma_sourcecode_list(e);
            }
            assert(seq!["so", "dylib", "dll", "a", "lib"][3]@ == e);
        }
        if e == "lib"@ {
            assert(e.len() == 3);
            assert(e[0] == 'l');
            assert(e[1] == 'i');
            assert(e[2] == 'b');
            if one_of(e, seq!["jpg", "jpeg", "png", "gif", "webp", "heic", "raw", "cr2", "nef"]) {
                lemma_photos_list(e);
            }
            if one_of(e, seq!["mp4", "mkv", "avi", "mov", "wmv", "flv", "webm", "m4v"]) {
                lemma_videos_list(e);
            }
            if one_of(e, seq!["mp3", "wav", "flac", "m4a", "aac", "ogg", "wma"]) {
                lemma_audio_list(e);
            }
            if one_of(e, seq!["doc", "docx", "odt"]) {
                lemma_officedocuments_list(e);
            }
            if one_of(e, seq!["txt", "md", "markdown", "rst"]) {
                lemma_textfiles_list(e);
            }
            if one_of(e, seq!["ppt", "pptx", "key", "odp"]) {
                lemma_presentations_list(e);
            }
            if one_of(e, seq!["xls", "xlsx", "csv", "ods"]) {
                lemma_spreadsheets_list(e);
            }
            if one_of(e, seq!["zip", "tar", "gz", "bz2", "7z", "rar"]) {
                lemma_archives_list(e);
            }
            if one_of(e, seq!["rs", "py", "js", "ts", "java", "c", "cpp", "go", "rb", "php", "swift", "kt"]) {
                lemma_sourcecode_list(e);
            }
            assert(seq!["so", "dylib", "dll", "a", "lib"][4]@ == e);
        }
        if e == "log"@ {
            assert(e.len() == 3);
            assert(e[0] == 'l');
            assert(e[1] == 'o');
            assert(e[2] == 'g');
            if one_of(e, seq!["jpg", "jpeg", "png", "gif", "webp", "heic", "raw", "cr2", "nef"]) {
                lemma_photos_list(e);
            }
            if one_of(e, seq!["mp4", "mkv", "avi", "mov", "wmv", "flv", "webm", "m4v"]) {
                lemma_videos_list(e);
            }
            if one_of(e, seq!["mp3", "wav", "flac", "m4a", "aac", "ogg", "wma"]) {
                lemma_audio_list(e);
            }
            if one_of(e, seq!["doc", "docx", "odt"]) {
                lemma_officedocuments_list(e);
            }
            if one_of(e, seq!["txt", "md", "markdown", "rst"]) {
                lemma_textfiles_list(e);
            }
            if one_of(e, seq!["ppt", "pptx", "key", "odp"]) {
                lemma_presentations_list(e);
            }
            if one_of(e, seq!["xls", "xlsx", "csv", "ods"]) {
                lemma_spreadsheets_list(e);
            }
            if one_of(e, seq!["zip", "tar", "gz", "bz2", "7z", "rar"]) {
                lemma_archives_list(e);
            }
            if one_of(e, seq!["rs", "py", "js", "ts", "java", "c", "cpp", "go", "rb", "php", "swift", "kt"]) {
                lemma_sourcecode_list(e);
            }
            if one_of(e, seq!["so", "dylib", "dll", "a", "lib"]) {
                lemma_systemlibraries_list(e);
            }
        }
    }
}

} // verus!
