use reclaim_core::archives::{detect_split_archive, extract_base_name};
use reclaim_core::candidate::{Action, Candidate, TargetKind};
use reclaim_core::disk_analyzer::{classify_path, DiskCategory, DiskSubcategory};
use reclaim_core::grouping::{extract_name_pattern, find_common_ancestor};
use reclaim_core::large_files::categorize_file;
use reclaim_core::priority::{ScanPhase, ScanPriority};
use reclaim_core::selection::{compute_group_state, CandidateState, SelectionMode, SelectionState};
use reclaim_core::targets::{browser_candidate, browsers, is_orphaned, workspace_folder_of};
use reclaim_core::time::Timestamp;
use reclaim_core::updater::{platform_asset_name, InstallMethod};

fn make_candidate(score: u32) -> Candidate {
    Candidate {
        path: "/test".to_string(),
        kind: TargetKind::Venv,
        size_bytes: 1000,
        last_modified: None,
        last_accessed: None,
        reproducibility: 1000,
        score,
        tags: vec![],
        action: Action::Skip,
        group: None,
    }
}

#[test]
fn test_classify_media() {
    let (cat, subcat) = classify_path("/home/user/photos/IMG_1234.jpg");
    assert_eq!(cat, DiskCategory::Media);
    assert_eq!(subcat, DiskSubcategory::Photos);
}

#[test]
fn test_classify_code() {
    let (cat, subcat) = classify_path("/home/user/repos/project/node_modules/package/index.js");
    assert_eq!(cat, DiskCategory::Reclaimable);
    assert_eq!(subcat, DiskSubcategory::Dependencies);
}

#[test]
fn test_reclaimable_detection() {
    assert!(DiskSubcategory::Caches.is_reclaimable());
    assert!(DiskSubcategory::Dependencies.is_reclaimable());
    assert!(!DiskSubcategory::Photos.is_reclaimable());
    assert!(!DiskSubcategory::SourceCode.is_reclaimable());
}

#[test]
fn test_extract_name_pattern() {
    assert_eq!(extract_name_pattern("log.2024-01-01.txt"), "log*txt");
    assert_eq!(extract_name_pattern("backup-20240101.tar"), "backup*tar");
    assert_eq!(extract_name_pattern("file.001.dat"), "file*dat");
}

#[test]
fn test_find_common_ancestor() {
    let paths = vec!["/Users/test/logs/app.log".to_string(), "/Users/test/logs/error.log".to_string()];
    let ancestor = find_common_ancestor(&paths);
    assert_eq!(ancestor, Some("/Users/test/logs".to_string()));
}

#[test]
fn test_first_scan_priorities() {
    let node_modules = ScanPriority::for_first_scan("/home/user/project/node_modules");
    let photos = ScanPriority::for_first_scan("/home/user/Photos");
    let venv = ScanPriority::for_first_scan("/home/user/repos/project/.venv");
    assert!(node_modules.score > photos.score);
    assert!(venv.score > photos.score);
}

#[test]
fn test_rescan_priorities() {
    let build = ScanPriority::for_rescan("/home/user/project/target/debug", 1);
    let media = ScanPriority::for_rescan("/home/user/Photos", 1);
    assert!(build.score > media.score);
}

#[test]
fn test_time_factor() {
    let recent = ScanPriority::for_rescan("/home/user/repos", 1);
    let old = ScanPriority::for_rescan("/home/user/repos", 60);
    assert!(old.score > recent.score);
}

#[test]
fn test_hot_path() {
    let hot = ScanPriority::hot_path("/any/path");
    let normal = ScanPriority::for_first_scan("/home/user/node_modules");
    assert!(hot.score > normal.score);
}

#[test]
fn test_scan_phases() {
    assert_eq!(ScanPhase::Quick.next(), Some(ScanPhase::Medium));
    assert_eq!(ScanPhase::Complete.next(), None);
}

#[test]
fn test_auto_selection_by_score() {
    let low_score = CandidateState::new(make_candidate(300));
    assert!(!low_score.is_selected());
    assert_eq!(low_score.selection_mode, SelectionMode::Auto);

    let high_score = CandidateState::new(make_candidate(900));
    assert!(high_score.is_selected());
    assert_eq!(high_score.selection_mode, SelectionMode::Auto);
}

#[test]
fn test_toggle_becomes_manual() {
    let mut state = CandidateState::new(make_candidate(300));
    assert!(!state.is_selected());

    state.toggle();
    assert!(state.is_selected());
    assert_eq!(state.selection_mode, SelectionMode::Manual);
}

#[test]
fn test_reset_to_auto() {
    let mut state = CandidateState::new(make_candidate(300));
    state.toggle();

    state.reset_to_auto();
    assert!(!state.is_selected());
    assert_eq!(state.selection_mode, SelectionMode::Auto);
}

#[test]
fn test_group_state_all_checked() {
    let children: Vec<CandidateState> = vec![
        CandidateState::new(make_candidate(900)),
        CandidateState::new(make_candidate(800)),
    ];
    let (state, mode) = compute_group_state(&children);
    assert_eq!(state, SelectionState::Checked);
    assert_eq!(mode, SelectionMode::Auto);
}

#[test]
fn test_group_state_mixed() {
    let child1 = CandidateState::new(make_candidate(900));
    let mut child2 = CandidateState::new(make_candidate(300));
    child2.toggle();

    let children = vec![child1, child2];
    let (state, mode) = compute_group_state(&children);
    assert_eq!(state, SelectionState::Checked);
    assert_eq!(mode, SelectionMode::Mixed);
}

#[test]
fn test_group_state_indeterminate() {
    let child1 = CandidateState::new(make_candidate(900));
    let child2 = CandidateState::new(make_candidate(300));

    let children = vec![child1, child2];
    let (state, mode) = compute_group_state(&children);
    assert_eq!(state, SelectionState::Indeterminate);
    assert_eq!(mode, SelectionMode::Auto);
}

#[test]
fn test_browser_detection() {
    let list = browsers();
    assert_eq!(list.len(), 6);
    assert_eq!(list[0], ("Google", "Chrome/Chromium"));
    let now = Timestamp { secs: 1_700_000_000, nanos: 0 };
    let old = Some(Timestamp { secs: 1_700_000_000 - 40 * 86400, nanos: 0 });
    let c = browser_candidate("/cache/Google".to_string(), "Microsoft Edge", 5000, old, &now, 30).unwrap();
    assert_eq!(c.tags, vec!["browser".to_string(), "web".to_string(), "microsoft-edge".to_string()]);
    assert_eq!(c.group, Some("Microsoft Edge Cache".to_string()));
    assert!(matches!(c.action, Action::Delete));
    let fresh = Some(Timestamp { secs: 1_700_000_000 - 3 * 86400, nanos: 0 });
    assert!(browser_candidate("/cache/Google".to_string(), "Brave", 5000, fresh, &now, 30).is_none());
}

#[test]
fn test_detect_split_archive() {
    assert_eq!(detect_split_archive("file.zip.part-000"), Some("file.zip".to_string()));
    assert_eq!(detect_split_archive("archive.tar.gz.part-001"), Some("archive.tar.gz".to_string()));
    assert_eq!(detect_split_archive("file.zip"), None);
}

#[test]
fn test_extract_base_name() {
    assert_eq!(extract_base_name("file-v1.2.3.zip"), "file-v");
    assert_eq!(extract_base_name("backup-2026-05-28.tar.gz"), "backup");
    assert_eq!(extract_base_name("file (1).zip"), "file");
    assert_eq!(extract_base_name("archive_copy.tgz"), "archive_copy");
}

#[test]
fn test_categorize_file() {
    let check = |p: &str, name: &str, score: f32| {
        let (cat, s) = categorize_file(p);
        assert_eq!(cat, name);
        assert_eq!(s as f32 / 1000.0, score);
    };
    check("video.mp4", "Video", 0.5);
    check("ubuntu.iso", "Disk Image", 0.7);
    check("data.csv", "Dataset", 0.3);
    check("backup.bak", "Backup", 0.7);
    check("unknown.xyz", "Unknown", 0.5);
}

#[test]
fn test_orphaned_check() {
    let folder = workspace_folder_of("{\"folder\": \"file:///home/user/project\"}");
    assert_eq!(folder, Some("/home/user/project".to_string()));
    assert!(!is_orphaned(folder.clone(), true));
    assert!(is_orphaned(folder, false));
    assert_eq!(workspace_folder_of("not json"), None);
    assert_eq!(workspace_folder_of("{\"configuration\": \"x\"}"), None);
    assert!(is_orphaned(None, true));
}

#[test]
fn test_platform_detection() {
    let asset_name = platform_asset_name("linux", "x86_64");
    println!("Platform asset name: {}", asset_name);
    assert!(!asset_name.is_empty());
    assert_ne!(asset_name, "unknown-platform");
}

#[test]
fn test_standalone_can_update() {
    assert!(InstallMethod::Standalone.can_auto_update());
    assert!(!InstallMethod::SystemPackage.can_auto_update());
}
