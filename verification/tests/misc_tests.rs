use reclaim_core::browse::toggle_action;
use reclaim_core::candidate::{Action, Candidate, TargetKind};
use reclaim_core::disk_analyzer::{analyze_entry, DiskCategory, DiskStats, DiskSubcategory};
use reclaim_core::grouping::{extract_name_pattern, group_candidates, is_date_like, is_time_like, GroupType};
use reclaim_core::priority::{ScanPhase, ScanPriority};
use reclaim_core::profile::{Profile, TargetConfig};
use reclaim_core::selection::{CacheStatus, CandidateState, SelectionMode, SelectionState};
use reclaim_core::strategy::{populate_tags, populate_tags_at};
use reclaim_core::targets::{vscode_extension_candidates, VsCodeEntry, VsCodeFind};
use reclaim_core::text::dec_string;
use reclaim_core::time::Timestamp;

fn plain(size: u64, repro: u32, action: Action) -> Candidate {
    Candidate {
        path: "/p/x".to_string(),
        kind: TargetKind::Venv,
        size_bytes: size,
        last_modified: None,
        last_accessed: None,
        reproducibility: repro,
        score: 0,
        tags: vec![],
        action,
        group: None,
    }
}

#[test]
fn date_and_time_shapes() {
    assert!(is_date_like("2024-01-15"));
    assert!(is_date_like("20240115"));
    assert!(is_date_like("2024-1-15"));
    assert!(!is_date_like("2024/01/15"));
    assert!(!is_date_like("v2024-01"));
    assert!(is_time_like("12:30:45"));
    assert!(is_time_like("123045"));
    assert!(!is_time_like("12:3"));
    assert!(!is_time_like("ab:cd:ef"));
}

#[test]
fn category_emoji_and_bytes() {
    assert_eq!(DiskCategory::Media.emoji(), "🎬");
    assert_eq!(DiskCategory::Other.emoji(), "📦");
    let mut stats = DiskStats::default();
    stats.record(DiskCategory::Media, DiskSubcategory::Photos, 100);
    stats.record(DiskCategory::Media, DiskSubcategory::Videos, 50);
    assert_eq!(stats.bytes_for(DiskCategory::Media), 150);
    assert_eq!(stats.bytes_for(DiskCategory::Code), 0);
    assert_eq!(stats.total_bytes, 150);
    assert_eq!(stats.reclaimable_bytes + stats.non_reclaimable_bytes, 150);
}

#[test]
fn analyzed_files_are_listed_directories_are_not() {
    let mut stats = DiskStats::default();
    let mut entries = Vec::new();
    analyze_entry(&mut stats, &mut entries, "/home/u/Pictures/cat.jpg", true, 2048);
    analyze_entry(&mut stats, &mut entries, "/home/u/Pictures", false, 4096);
    analyze_entry(&mut stats, &mut entries, "/home/u/empty.txt", true, 0);
    assert_eq!(entries.len(), 1);
    assert_eq!(entries[0].path, "/home/u/Pictures/cat.jpg");
    assert_eq!(entries[0].size_bytes, 2048);
    assert_eq!(stats.total_bytes, 2048);
}

#[test]
fn decimal_text() {
    assert_eq!(dec_string(0), "0");
    assert_eq!(dec_string(1234), "1234");
    assert_eq!(dec_string(u64::MAX), u64::MAX.to_string());
}

#[test]
fn tags_for_reproducible_and_large() {
    let profile = Profile::default_conservative();
    let now = Timestamp { secs: 1_700_000_000, nanos: 0 };
    let mut c = plain(2_000_000_000, 950, Action::Skip);
    c.last_modified = Some(Timestamp { secs: 1_700_000_000 - 100 * 86400, nanos: 0 });
    populate_tags_at(&mut c, &profile, &now);
    assert_eq!(c.tags, vec!["old", "reproducible", "large"]);
    let mut d = plain(10, 100, Action::Skip);
    populate_tags(&mut d, &profile);
    assert!(d.tags.is_empty());
}

#[test]
fn scan_order_by_priority() {
    let hot = ScanPriority::hot_path("/a");
    let cold = ScanPriority::for_first_scan("/home/user/Photos");
    assert_eq!(hot.priority_order(&cold), std::cmp::Ordering::Less);
    assert_eq!(cold.priority_order(&hot), std::cmp::Ordering::Greater);
    assert_eq!(hot.priority_order(&hot), std::cmp::Ordering::Equal);
}

#[test]
fn phase_item_thresholds() {
    assert_eq!(ScanPhase::Quick.threshold_items(), 50);
    assert_eq!(ScanPhase::Medium.threshold_items(), 200);
    assert_eq!(ScanPhase::Thorough.threshold_items(), 1000);
    assert_eq!(ScanPhase::Complete.threshold_items(), usize::MAX);
}

#[test]
fn cache_status_kinds() {
    assert!(CacheStatus::CachedVerified.is_verified());
    assert!(CacheStatus::New.is_verified());
    assert!(!CacheStatus::CachedUnverified.is_verified());
    assert!(CacheStatus::CachedUnverified.is_estimation());
    assert!(CacheStatus::Unknown.is_estimation());
    assert!(!CacheStatus::Changed.is_estimation());
}

#[test]
fn checking_by_hand_makes_selection_manual() {
    let mut s = CandidateState::new(plain(5, 0, Action::Skip));
    assert_eq!(s.selection_mode, SelectionMode::Auto);
    assert!(s.selection_state.is_unchecked());
    s.set_checked(true);
    assert_eq!(s.selection_mode, SelectionMode::Manual);
    assert_eq!(s.selection_state, SelectionState::Checked);
    assert!(!s.selection_state.is_indeterminate());
    s.set_checked(false);
    assert!(s.selection_state.is_unchecked());
}

#[test]
fn toggling_an_action() {
    let mut c = plain(1, 0, Action::Skip);
    toggle_action(&mut c);
    assert!(matches!(c.action, Action::Delete));
    toggle_action(&mut c);
    assert!(matches!(c.action, Action::Skip));
    let mut e = plain(1, 0, Action::Exec { cmd: "brew".to_string(), args: vec![], description: "brew".to_string() });
    toggle_action(&mut e);
    assert!(matches!(e.action, Action::Skip));
    let mut a = plain(1, 0, Action::Archive);
    toggle_action(&mut a);
    assert!(matches!(a.action, Action::Delete));
}

fn at_path(path: &str, size: u64) -> Candidate {
    let mut c = plain(size, 0, Action::Skip);
    c.path = path.to_string();
    c
}

#[test]
fn same_size_unrelated_names_are_not_duplicates() {
    let cs = vec![at_path("/a/x.bin", 100), at_path("/b/y.dat", 100)];
    let groups = group_candidates(&cs);
    assert!(groups.iter().all(|g| !matches!(g.group_type, GroupType::Duplicates)));
    assert_eq!(groups.len(), 2);
    assert!(groups.iter().all(|g| matches!(g.group_type, GroupType::Single) && g.total_size == 100));
}

#[test]
fn same_size_similar_names_are_duplicates() {
    let cs = vec![at_path("/a/report-2024-01-01.pdf", 100), at_path("/b/report-2024-02-03.pdf", 100)];
    let groups = group_candidates(&cs);
    assert_eq!(groups.len(), 1);
    assert!(matches!(groups[0].group_type, GroupType::Duplicates));
    assert_eq!(groups[0].candidates, vec![0, 1]);
    assert_eq!(groups[0].total_size, 200);
}

#[test]
fn dashed_dates_are_masked_whole() {
    assert_eq!(extract_name_pattern("2024-01-01.log"), "*.log");
    assert_eq!(extract_name_pattern("app2024-05-28.log"), "app*.log");
    assert_eq!(extract_name_pattern("backup20240528.tar"), "backup*.tar");
}

#[test]
fn conservative_profile_is_keyed_by_kind_labels() {
    let p = Profile::default_conservative();
    let labels = [
        TargetKind::NpmModules,
        TargetKind::NpmCache,
        TargetKind::DockerImage,
        TargetKind::LargeArchive,
        TargetKind::LargeFile,
        TargetKind::BrowserCache,
        TargetKind::Venv,
    ];
    for k in labels.iter() {
        let cfg = p.target_config(k.label());
        assert!(cfg.enabled, "{} not enabled", k.label());
        assert_eq!(cfg.min_age_days, Some(30));
    }
    assert!(!p.target_config("npm").enabled);
    let mut keys: Vec<&str> = p.targets.iter().map(|t| t.0.as_str()).collect();
    keys.sort();
    keys.dedup();
    assert_eq!(keys.len(), p.targets.len());
}

#[test]
fn profile_parts_keep_first_of_each_label() {
    let on = TargetConfig { enabled: true, min_age_days: Some(5), default_action: None };
    let off = TargetConfig { enabled: false, min_age_days: Some(9), default_action: None };
    let p = Profile::from_parts(
        "p".to_string(),
        "d".to_string(),
        30,
        None,
        vec![("venv".to_string(), on.clone()), ("venv".to_string(), off), ("build".to_string(), on)],
        vec![],
    );
    assert_eq!(p.targets.len(), 2);
    assert!(p.target_config("venv").enabled);
    assert_eq!(p.min_age_for("venv"), 5);
    assert!(p.target_config("build").enabled);
}

#[test]
fn hot_path_beats_every_heuristic() {
    let hot = ScanPriority::hot_path("/x");
    let busy = ScanPriority::for_first_scan("/dev/downloads/xcode/cache/node_modules");
    assert!(busy.score > 3000);
    assert!(hot.score > busy.score);
    let rescan = ScanPriority::for_rescan("/home/u/repos/target/debug/node_modules/cache/desktop", 90);
    assert!(hot.score >= rescan.score);
}

#[test]
fn selection_changes_keep_tracking() {
    let mut s = CandidateState::new(plain(5, 0, Action::Skip));
    let before = s.clone();
    s.toggle();
    s.set_checked(false);
    s.reset_to_auto();
    assert_eq!(s.first_seen, before.first_seen);
    assert_eq!(s.last_seen, before.last_seen);
    assert_eq!(s.last_verified, before.last_verified);
    assert_eq!(s.size_cached, before.size_cached);
    assert_eq!(s.size_current, before.size_current);
    assert_eq!(s.selection_mode, SelectionMode::Auto);
}

#[test]
fn vscode_data_kept_from_minimum_size() {
    let mut p = Profile::default_conservative();
    p.min_size_bytes = Some(100);
    let found = vec![
        VsCodeEntry { find: VsCodeFind::ExtensionData, path: "/c/globalStorage/ext.a".to_string(), size: 150, modified: None },
        VsCodeEntry { find: VsCodeFind::History, path: "/c/History".to_string(), size: 99, modified: None },
        VsCodeEntry { find: VsCodeFind::Vsix, path: "/c/x.vsix".to_string(), size: 100, modified: None },
        VsCodeEntry { find: VsCodeFind::Logs, path: "/c/logs".to_string(), size: 1000, modified: None },
    ];
    let out = vscode_extension_candidates(&found, &p);
    let paths: Vec<&str> = out.iter().map(|c| c.path.as_str()).collect();
    assert_eq!(paths, vec!["/c/globalStorage/ext.a", "/c/x.vsix", "/c/logs"]);
    assert_eq!(out[0].tags, vec!["extension-data", "ext.a", "review"]);
    assert_eq!(out[1].score, 800);
    let none = Profile::from_parts("n".to_string(), "n".to_string(), 30, None, vec![], vec![]);
    assert!(vscode_extension_candidates(&found, &none).is_empty());
}
