//! The candidate model: what was found on disk and what to do with it.
use vstd::prelude::*;
use crate::size::{format_one_decimal, size_one_decimal};
use crate::text::{chars_of, clone_opt_string, clone_strings, push_str, string_from_chars};
use crate::time::{now, Timestamp};

verus! {

/// The type of artifact a candidate represents.
#[derive(Debug, Clone)]
pub enum TargetKind {
    Venv,
    BuildDir,
    PipCache,
    BrewCache,
    NpmModules,
    NpmCache,
    DockerImage,
    DockerVolume,
    DockerContainer,
    GradleCache,
    GoCache,
    VsCodeCache,
    VsCodeLogs,
    VsCodeWorkspaceStorage,
    VsCodeCppToolsCache,
    VsCodeExtensionData,
    CiscoLogs,
    PlaywrightCache,
    BrowserCache,
    LargeArchive,
    LargeFile,
    LogFiles,
    XcodeDerivedData,
    XcodeDeviceSupport,
    XcodeSimulators,
    Other(String),
}

impl TargetKind {
    /// The short label of a kind.
    pub open spec fn label_view(&self) -> Seq<char> {
        match self {
            TargetKind::Venv => "venv"@,
            TargetKind::BuildDir => "build"@,
            TargetKind::PipCache => "pip-cache"@,
            TargetKind::BrewCache => "brew-cache"@,
            TargetKind::NpmModules => "node_modules"@,
            TargetKind::NpmCache => "npm-cache"@,
            TargetKind::DockerImage => "docker-image"@,
            TargetKind::DockerVolume => "docker-volume"@,
            TargetKind::DockerContainer => "docker-container"@,
            TargetKind::GradleCache => "gradle-cache"@,
            TargetKind::GoCache => "go-cache"@,
            TargetKind::VsCodeCache => "vscode-cache"@,
            TargetKind::VsCodeLogs => "vscode-logs"@,
            TargetKind::VsCodeWorkspaceStorage => "vscode-workspace"@,
            TargetKind::VsCodeCppToolsCache => "vscode-cpptools"@,
            TargetKind::VsCodeExtensionData => "vscode-extensions"@,
            TargetKind::CiscoLogs => "cisco-logs"@,
            TargetKind::PlaywrightCache => "playwright-cache"@,
            TargetKind::BrowserCache => "browser-cache"@,
            TargetKind::LargeArchive => "large-archive"@,
            TargetKind::LargeFile => "large-file"@,
            TargetKind::LogFiles => "logs"@,
            TargetKind::XcodeDerivedData => "xcode-derived"@,
            TargetKind::XcodeDeviceSupport => "xcode-devices"@,
            TargetKind::XcodeSimulators => "xcode-simulators"@,
            TargetKind::Other(s) => s@,
        }
    }

    /// Short human-readable label used in the kind column.
    pub fn label(&self) -> (r: &str)
        ensures
            r@ == self.label_view(),
    {
        match self {
            TargetKind::Venv => "venv",
            TargetKind::BuildDir => "build",
            TargetKind::PipCache => "pip-cache",
            TargetKind::BrewCache => "brew-cache",
            TargetKind::NpmModules => "node_modules",
            TargetKind::NpmCache => "npm-cache",
            TargetKind::DockerImage => "docker-image",
            TargetKind::DockerVolume => "docker-volume",
            TargetKind::DockerContainer => "docker-container",
            TargetKind::GradleCache => "gradle-cache",
            TargetKind::GoCache => "go-cache",
            TargetKind::VsCodeCache => "vscode-cache",
            TargetKind::VsCodeLogs => "vscode-logs",
            TargetKind::VsCodeWorkspaceStorage => "vscode-workspace",
            TargetKind::VsCodeCppToolsCache => "vscode-cpptools",
            TargetKind::VsCodeExtensionData => "vscode-extensions",
            TargetKind::CiscoLogs => "cisco-logs",
            TargetKind::PlaywrightCache => "playwright-cache",
            TargetKind::BrowserCache => "browser-cache",
            TargetKind::LargeArchive => "large-archive",
            TargetKind::LargeFile => "large-file",
            TargetKind::LogFiles => "logs",
            TargetKind::XcodeDerivedData => "xcode-derived",
            TargetKind::XcodeDeviceSupport => "xcode-devices",
            TargetKind::XcodeSimulators => "xcode-simulators",
            TargetKind::Other(s) => s.as_str(),
        }
    }

    /// An identical copy of the kind.
    pub fn duplicate(&self) -> (r: TargetKind)
        ensures
            r == *self,
    {
        match self {
            TargetKind::Venv => TargetKind::Venv,
            TargetKind::BuildDir => TargetKind::BuildDir,
            TargetKind::PipCache => TargetKind::PipCache,
            TargetKind::BrewCache => TargetKind::BrewCache,
            TargetKind::NpmModules => TargetKind::NpmModules,
            TargetKind::NpmCache => TargetKind::NpmCache,
            TargetKind::DockerImage => TargetKind::DockerImage,
            TargetKind::DockerVolume => TargetKind::DockerVolume,
            TargetKind::DockerContainer => TargetKind::DockerContainer,
            TargetKind::GradleCache => TargetKind::GradleCache,
            TargetKind::GoCache => TargetKind::GoCache,
            TargetKind::VsCodeCache => TargetKind::VsCodeCache,
            TargetKind::VsCodeLogs => TargetKind::VsCodeLogs,
            TargetKind::VsCodeWorkspaceStorage => TargetKind::VsCodeWorkspaceStorage,
            TargetKind::VsCodeCppToolsCache => TargetKind::VsCodeCppToolsCache,
            TargetKind::VsCodeExtensionData => TargetKind::VsCodeExtensionData,
            TargetKind::CiscoLogs => TargetKind::CiscoLogs,
            TargetKind::PlaywrightCache => TargetKind::PlaywrightCache,
            TargetKind::BrowserCache => TargetKind::BrowserCache,
            TargetKind::LargeArchive => TargetKind::LargeArchive,
            TargetKind::LargeFile => TargetKind::LargeFile,
            TargetKind::LogFiles => TargetKind::LogFiles,
            TargetKind::XcodeDerivedData => TargetKind::XcodeDerivedData,
            TargetKind::XcodeDeviceSupport => TargetKind::XcodeDeviceSupport,
            TargetKind::XcodeSimulators => TargetKind::XcodeSimulators,
            TargetKind::Other(s) => TargetKind::Other(s.clone()),
        }
    }
}

/// What reclaim will do with a candidate.
#[derive(Debug, Clone)]
pub enum Action {
    /// Do nothing (shown but not selected).
    Skip,
    /// Remove the path entirely.
    Delete,
    /// Compress and archive before removing.
    Archive,
    /// Delegate cleanup to an external command (e.g. `brew cleanup --prune=all`).
    Exec {
        cmd: String,
        args: Vec<String>,
        /// Human-readable command string shown to the user.
        description: String,
    },
}

impl Default for Action {
    fn default() -> (r: Action)
        ensures
            r == Action::Skip,
    {
        Action::Skip
    }
}

impl Action {
    /// Short label for table/CSV output.
    pub open spec fn label_view(&self) -> Seq<char> {
        match self {
            Action::Skip => "skip"@,
            Action::Delete => "delete"@,
            Action::Archive => "archive"@,
            Action::Exec { .. } => "exec"@,
        }
    }

    /// Display text: the command's description for `Exec` actions.
    pub open spec fn display_view(&self) -> Seq<char> {
        match self {
            Action::Skip => "skip"@,
            Action::Delete => "delete"@,
            Action::Archive => "archive"@,
            Action::Exec { description, .. } => "exec: "@ + description@,
        }
    }

    /// Whether the action is selected for cleanup (`Delete` or `Exec`).
    pub open spec fn active(&self) -> bool {
        self is Delete || self is Exec
    }

    /// Short label for table/CSV output.
    pub fn label(&self) -> (r: &str)
        ensures
            r@ == self.label_view(),
    {
        match self {
            Action::Skip => "skip",
            Action::Delete => "delete",
            Action::Archive => "archive",
            Action::Exec { .. } => "exec",
        }
    }

    /// Display string: shows the command for `Exec` actions.
    pub fn display(&self) -> (r: String)
        ensures
            r@ == self.display_view(),
    {
        match self {
            Action::Skip => crate::text::owned("skip"),
            Action::Delete => crate::text::owned("delete"),
            Action::Archive => crate::text::owned("archive"),
            Action::Exec { description, .. } => {
                let mut out = chars_of("exec: ");
                let d = chars_of(description.as_str());
                crate::text::push_all(&mut out, &d);
                string_from_chars(&out)
            },
        }
    }

    /// Whether this action is selected (`Delete` or `Exec`).
    pub fn is_active(&self) -> (r: bool)
        ensures
            r == self.active(),
    {
        match self {
            Action::Delete => true,
            Action::Exec { .. } => true,
            _ => false,
        }
    }

    /// Both actions are the same (same variant and same fields).
    pub open spec fn same_as(&self, other: Action) -> bool {
        match (*self, other) {
            (Action::Skip, Action::Skip) => true,
            (Action::Delete, Action::Delete) => true,
            (Action::Archive, Action::Archive) => true,
            (
                Action::Exec { cmd: c1, args: a1, description: d1 },
                Action::Exec { cmd: c2, args: a2, description: d2 },
            ) => c1 == c2 && a1@ == a2@ && d1 == d2,
            _ => false,
        }
    }

    /// An identical copy of the action.
    pub fn duplicate(&self) -> (r: Action)
        ensures
            r.same_as(*self),
    {
        match self {
            Action::Skip => Action::Skip,
            Action::Delete => Action::Delete,
            Action::Archive => Action::Archive,
            Action::Exec { cmd, args, description } => Action::Exec {
                cmd: cmd.clone(),
                args: clone_strings(args),
                description: description.clone(),
            },
        }
    }
}

/// A single reclaimable artifact discovered on disk.
///
/// Scores and reproducibility are kept in thousandths (0 = keep / unique,
/// 1000 = safe to delete / reproducible with one command).
#[derive(Debug, Clone)]
pub struct Candidate {
    pub path: String,
    pub kind: TargetKind,
    pub size_bytes: u64,
    pub last_modified: Option<Timestamp>,
    pub last_accessed: Option<Timestamp>,
    /// 0 (unique / risky) to 1000 (fully reproducible with one command).
    pub reproducibility: u32,
    /// Combined cleanup score: 0 (keep) to 1000 (safe to delete).
    pub score: u32,
    /// Human-readable tags, e.g. `["old", "reproducible"]`.
    pub tags: Vec<String>,
    /// Proposed action; may be overridden by the user.
    pub action: Action,
    /// Optional group key for faceted grouping (e.g. parent repo name).
    pub group: Option<String>,
}

/// A regular file met while walking a directory, with its size and modification
/// time.
#[derive(Debug, Clone)]
pub struct FileEntry {
    pub path: String,
    pub size: u64,
    pub modified: Option<Timestamp>,
}

/// Both optional timestamps are well formed.
pub open spec fn opt_wf(t: Option<Timestamp>) -> bool {
    match t {
        Some(x) => x.wf(),
        None => true,
    }
}

impl Candidate {
    /// The timestamps it holds are well formed.
    pub open spec fn wf(&self) -> bool {
        opt_wf(self.last_modified) && opt_wf(self.last_accessed)
    }

    /// The most recent of last access and last modification, if any is known.
    pub open spec fn last_use(&self) -> Option<Timestamp> {
        match (self.last_accessed, self.last_modified) {
            (Some(a), Some(m)) => Some(if a.spec_not_after(m) { m } else { a }),
            (Some(a), None) => Some(a),
            (None, Some(m)) => Some(m),
            (None, None) => None,
        }
    }

    /// Days from the last use to `now`, if a last use is known.
    pub open spec fn age_at(&self, now: Timestamp) -> Option<int> {
        match self.last_use() {
            Some(t) => Some(now.spec_days_since(t)),
            None => None,
        }
    }

    /// Size formatted for display (e.g. "1.4 GB").
    pub fn size_human(&self) -> (r: String)
        ensures
            r@ == size_one_decimal(self.size_bytes as nat),
    {
        human_bytes(self.size_bytes)
    }

    /// Days since last access or modification (most recent wins) at the instant `now`;
    /// `None` if neither timestamp is known.
    pub fn age_days_at(&self, now: &Timestamp) -> (r: Option<i64>)
        requires
            self.wf(),
            now.wf(),
        ensures
            r == (match self.age_at(*now) {
                Some(d) => Some(d as i64),
                None => None::<i64>,
            }),
            r is Some ==> r->0 == self.age_at(*now)->0,
    {
        let ts = match (self.last_accessed, self.last_modified) {
            (Some(a), Some(m)) => Timestamp::later_of(a, m),
            (Some(a), None) => a,
            (None, Some(m)) => m,
            (None, None) => {
                return None;
            },
        };
        Some(now.days_since(&ts))
    }

    /// Days since last access or modification (most recent wins), counted up to
    /// the current time; `None` if neither timestamp is known or the clock gives no
    /// reading.
    pub fn age_days(&self) -> (r: Option<i64>)
        requires
            self.wf(),
        ensures
            r is Some ==> self.last_use() is Some,
            exists|t: Option<Timestamp>| #[trigger] crate::time::reading_ok(t) && r == self.age_by(t),
    {
        let t = now();
        let r = match t {
            Some(x) => self.age_days_at(&x),
            None => None,
        };
        proof {
            assert(crate::time::reading_ok(t));
        }
        r
    }

    /// The age in whole days up to a clock reading, `None` without a reading.
    pub open spec fn age_by(&self, t: Option<Timestamp>) -> Option<i64> {
        match t {
            Some(x) => match self.age_at(x) {
                Some(d) => Some(d as i64),
                None => None::<i64>,
            },
            None => None::<i64>,
        }
    }

    /// Both candidates hold the same values.
    pub open spec fn same_as(&self, other: Candidate) -> bool {
        &&& self.path == other.path
        &&& self.kind == other.kind
        &&& self.size_bytes == other.size_bytes
        &&& self.last_modified == other.last_modified
        &&& self.last_accessed == other.last_accessed
        &&& self.reproducibility == other.reproducibility
        &&& self.score == other.score
        &&& self.tags@ == other.tags@
        &&& self.action.same_as(other.action)
        &&& self.group == other.group
    }

    /// An identical copy of the candidate.
    pub fn duplicate(&self) -> (r: Candidate)
        ensures
            r.same_as(*self),
    {
        Candidate {
            path: self.path.clone(),
            kind: self.kind.duplicate(),
            size_bytes: self.size_bytes,
            last_modified: self.last_modified,
            last_accessed: self.last_accessed,
            reproducibility: self.reproducibility,
            score: self.score,
            tags: clone_strings(&self.tags),
            action: self.action.duplicate(),
            group: clone_opt_string(&self.group),
        }
    }
}

/// Format a byte count as a human-readable string: `"{:.1} {unit}"` with units
/// B, KB, MB, GB, TB (powers of 1024).
pub fn human_bytes(bytes: u64) -> (r: String)
    ensures
        r@ == size_one_decimal(bytes as nat),
{
    format_one_decimal(bytes)
}

} // verus!
