//! Update policy: how the application was installed, whether it may update
//! itself, and which release asset fits a platform.
use vstd::prelude::*;
use crate::text::{chars_of, has_substring, contains_str};

verus! {

/// How the application was installed.
#[derive(Debug, Clone, Copy, PartialEq, Eq, Structural)]
pub enum InstallMethod {
    /// AppImage, DMG or a manually placed binary: may update itself.
    Standalone,
    /// A system package manager (apt, flatpak, snap, Homebrew): updates come from it.
    SystemPackage,
}

impl InstallMethod {
    /// Whether the built-in updater may run.
    pub fn can_auto_update(&self) -> (r: bool)
        ensures
            r == (*self == InstallMethod::Standalone),
    {
        match self {
            InstallMethod::Standalone => true,
            InstallMethod::SystemPackage => false,
        }
    }

    /// How to update, in words.
    pub fn update_instructions(&self) -> (r: &'static str)
        ensures
            r@ == (match self {
                InstallMethod::Standalone => "Use the built-in updater or download from GitHub releases"@,
                InstallMethod::SystemPackage => "Use your system package manager to update"@,
            }),
    {
        match self {
            InstallMethod::Standalone => "Use the built-in updater or download from GitHub releases",
            InstallMethod::SystemPackage => "Use your system package manager to update",
        }
    }
}

/// On Linux: a dpkg file list, a Flatpak or a Snap mean a system package; an
/// AppImage, or none of these, a standalone install.
pub fn install_method_linux(dpkg_listed: bool, flatpak: bool, snap: bool, appimage: bool) -> (r: InstallMethod)
    ensures
        r == (if dpkg_listed || flatpak || snap { InstallMethod::SystemPackage } else { InstallMethod::Standalone }),
{
    if dpkg_listed {
        return InstallMethod::SystemPackage;
    }
    if flatpak {
        return InstallMethod::SystemPackage;
    }
    if snap {
        return InstallMethod::SystemPackage;
    }
    if appimage {
        return InstallMethod::Standalone;
    }
    InstallMethod::Standalone
}

/// The executable lies under a Homebrew prefix.
pub open spec fn homebrew_path(exe: Seq<char>) -> bool {
    has_substring(exe, "/opt/homebrew"@) || has_substring(exe, "/usr/local/Cellar"@) || has_substring(exe, "/usr/local/opt"@)
}

/// On macOS: an executable under a Homebrew prefix means a system package.
pub fn install_method_macos(exe: Option<&str>) -> (r: InstallMethod)
    ensures
        r == (if exe matches Some(e) && homebrew_path(e@) { InstallMethod::SystemPackage } else { InstallMethod::Standalone }),
{
    if let Some(e) = exe {
        let c = chars_of(e);
        if contains_str(&c, "/opt/homebrew") || contains_str(&c, "/usr/local/Cellar") || contains_str(&c, "/usr/local/opt") {
            return InstallMethod::SystemPackage;
        }
    }
    InstallMethod::Standalone
}

/// On Windows: an executable under "Program Files" with an uninstaller beside it
/// means an installer-managed package.
pub fn install_method_windows(exe: Option<&str>, has_uninstaller: bool) -> (r: InstallMethod)
    ensures
        r == (if exe matches Some(e) && has_substring(e@, "Program Files"@) && has_uninstaller {
            InstallMethod::SystemPackage
        } else {
            InstallMethod::Standalone
        }),
{
    if let Some(e) = exe {
        let c = chars_of(e);
        if contains_str(&c, "Program Files") || contains_str(&c, "Program Files (x86)") {
            proof {
                if has_substring(c@, "Program Files (x86)"@) {
                    lemma_longer_contains(c@);
                }
            }
            if has_uninstaller {
                return InstallMethod::SystemPackage;
            }
        }
    }
    InstallMethod::Standalone
}

/// A text holding "Program Files (x86)" holds "Program Files".
proof fn lemma_longer_contains(c: Seq<char>)
    requires
        has_substring(c, "Program Files (x86)"@),
    ensures
        has_substring(c, "Program Files"@),
{
    reveal_strlit("Program Files (x86)");
    reveal_strlit("Program Files");
    let i = choose|i: int| crate::text::occurs_at(c, "Program Files (x86)"@, i);
    assert(c.subrange(i, i + 13) =~= c.subrange(i, i + 19).subrange(0, 13));
    assert("Program Files (x86)"@.subrange(0, 13) =~= "Program Files"@);
    assert(crate::text::occurs_at(c, "Program Files"@, i));
}

/// The release asset for an operating system and architecture (as std names them).
pub open spec fn asset_for(os: Seq<char>, arch: Seq<char>) -> Seq<char> {
    if os == "macos"@ && arch == "aarch64"@ {
        "reclaim-macos-silicon.tar.gz"@
    } else if os == "macos"@ && arch == "x86_64"@ {
        "reclaim-macos-intel.tar.gz"@
    } else if os == "linux"@ && arch == "x86_64"@ {
        "reclaim-linux-x86_64.AppImage"@
    } else if os == "windows"@ && arch == "x86_64"@ {
        "reclaim-windows-x64.zip"@
    } else {
        "unknown-platform"@
    }
}

/// The release asset to download for a platform.
pub fn platform_asset_name(os: &str, arch: &str) -> (r: &'static str)
    ensures
        r@ == asset_for(os@, arch@),
{
    let o = chars_of(os);
    let a = chars_of(arch);
    if crate::text::is_str(&o, "macos") && crate::text::is_str(&a, "aarch64") {
        "reclaim-macos-silicon.tar.gz"
    } else if crate::text::is_str(&o, "macos") && crate::text::is_str(&a, "x86_64") {
        "reclaim-macos-intel.tar.gz"
    } else if crate::text::is_str(&o, "linux") && crate::text::is_str(&a, "x86_64") {
        "reclaim-linux-x86_64.AppImage"
    } else if crate::text::is_str(&o, "windows") && crate::text::is_str(&a, "x86_64") {
        "reclaim-windows-x64.zip"
    } else {
        "unknown-platform"
    }
}

/// A release available for download.
#[derive(Debug, Clone)]
pub struct UpdateInfo {
    pub version: String,
    pub download_url: String,
    pub release_notes: String,
    pub published_at: String,
}

/// Why an update check gave no update.
#[derive(Debug)]
pub enum UpdateCheckError {
    NetworkError(String),
    ParseError(String),
    NoNewVersion,
}

impl UpdateCheckError {
    /// The message shown for the error.
    pub open spec fn message_view(&self) -> Seq<char> {
        match self {
            UpdateCheckError::NetworkError(e) => "Network error: "@ + e@,
            UpdateCheckError::ParseError(e) => "Parse error: "@ + e@,
            UpdateCheckError::NoNewVersion => "No new version available"@,
        }
    }

    /// The message shown for the error.
    pub fn message(&self) -> (r: String)
        ensures
            r@ == self.message_view(),
    {
        let mut v: Vec<char> = Vec::new();
        match self {
            UpdateCheckError::NetworkError(e) => {
                crate::text::push_str(&mut v, "Network error: ");
                crate::text::push_str(&mut v, e.as_str());
            },
            UpdateCheckError::ParseError(e) => {
                crate::text::push_str(&mut v, "Parse error: ");
                crate::text::push_str(&mut v, e.as_str());
            },
            UpdateCheckError::NoNewVersion => {
                crate::text::push_str(&mut v, "No new version available");
            },
        }
        crate::text::string_from_chars(&v)
    }
}

/// The answer of an update check: no release service is queried yet, so there is
/// never a new version.
pub fn check_for_updates(current_version: &str, repo_owner: &str, repo_name: &str) -> (r: Result<Option<UpdateInfo>, UpdateCheckError>)
    ensures
        r matches Err(UpdateCheckError::NoNewVersion),
{
    Err(UpdateCheckError::NoNewVersion)
}

} // verus!
