use reclaim_core::archives;
use reclaim_core::browse::{move_cursor, sort_order, GroupBy, SortBy};
use reclaim_core::cache::{fingerprint_of, merge_candidate, purge_cutoff, selections_to_save, ScanStats};
use reclaim_core::candidate::{human_bytes, Action, Candidate, FileEntry, TargetKind};
use reclaim_core::discovery::{hot_paths, new_states, DiscoveryStats};
use reclaim_core::disk_analyzer::{categories_by_size, DiskCategory, DiskStats, DiskSubcategory};
use reclaim_core::duplicates::{
    duplicate_candidates, file_content_hash, folder_structure_hash, size_name_classes, total_size, FolderFile,
};
use reclaim_core::grouping::{get_directory_context, group_candidates, GroupType};
use reclaim_core::large_files;
use reclaim_core::overview::{passes_filters, Filters, ScanStage, ViewMode};
use reclaim_core::plugins::{baloo_line_path, changed_dirs, output_lines};
use reclaim_core::profile::Profile;
use reclaim_core::quick_scan::{quick_candidate, trimmed};
use reclaim_core::recheck::{apply_check, quick_size, ChildKind, VerificationStats};
use reclaim_core::report::Report;
use reclaim_core::scanning::dedup_by_path;
use reclaim_core::selection::{CacheStatus, CandidateState, SelectionMode};
use reclaim_core::strategy::apply;
use reclaim_core::time::Timestamp;
use reclaim_core::updater::{
    check_for_updates, install_method_linux, install_method_macos, install_method_windows, InstallMethod,
    UpdateCheckError,
};

fn cand(path: &str, size: u64, score: u32) -> Candidate {
    Candidate {
        path: path.to_string(),
        kind: TargetKind::Venv,
        size_bytes: size,
        last_modified: None,
        last_accessed: None,
        reproducibility: 1000,
        score,
        tags: vec![],
        action: Action::Skip,
        group: None,
    }
}

fn now() -> Timestamp {
    Timestamp { secs: 1_700_000_000, nanos: 0 }
}

// ----- cache merge, as the scan cache runs it -----

#[test]
fn test_merge_new_items() {
    let mut stats = ScanStats::default();
    let (state, entry) = merge_candidate(cand("/test/venv1", 1000, 800), "abc".to_string(), None, None, now(), &mut stats);
    assert_eq!(stats.items_found, 1);
    assert_eq!(stats.new_items, 1);
    assert_eq!(stats.changed_items, 0);
    assert!(state.is_new);
    assert!(state.is_selected());
    assert_eq!(state.cache_status, CacheStatus::New);
    assert_eq!(entry.path, "/test/venv1");
    assert_eq!(entry.first_seen, now());
}

#[test]
fn test_persist_manual_selection() {
    let mut stats = ScanStats::default();
    let (mut state, entry) = merge_candidate(cand("/test/venv1", 1000, 300), "h1".to_string(), None, None, now(), &mut stats);
    state.toggle();
    assert!(state.is_selected());
    assert_eq!(state.selection_mode, SelectionMode::Manual);

    let saved = selections_to_save(&[state], now());
    assert_eq!(saved.len(), 1);

    let mut stats2 = ScanStats::default();
    let (state2, _) = merge_candidate(
        cand("/test/venv1", 1000, 300),
        "h1".to_string(),
        Some(entry),
        Some(saved[0].clone()),
        now(),
        &mut stats2,
    );
    assert_eq!(stats2.new_items, 0);
    assert!(state2.is_selected());
    assert_eq!(state2.selection_mode, SelectionMode::Manual);
    assert_eq!(state2.cache_status, CacheStatus::CachedUnverified);
}

#[test]
fn changed_fingerprint_marks_changed() {
    let mut stats = ScanStats::default();
    let (_, entry) = merge_candidate(cand("/p", 10, 0), "old".to_string(), None, None, now(), &mut stats);
    let (state, _) = merge_candidate(cand("/p", 10, 0), "new".to_string(), Some(entry), None, now(), &mut stats);
    assert!(state.is_changed);
    assert_eq!(state.cache_status, CacheStatus::Changed);
    assert_eq!(stats.changed_items, 1);
    assert_eq!(stats.items_found, 2);
}

#[test]
fn only_manual_selections_are_saved() {
    let auto = CandidateState::new(cand("/a", 1, 900));
    let mut manual = CandidateState::new(cand("/b", 1, 900));
    manual.toggle();
    let saved = selections_to_save(&[auto, manual], now());
    assert_eq!(saved.len(), 1);
    assert_eq!(saved[0].path, "/b");
    assert!(!saved[0].is_checked);
}

#[test]
fn fingerprint_is_sixteen_hex_digits() {
    let a = fingerprint_of(1_700_000_000, 4096);
    assert_eq!(a.len(), 16);
    assert!(a.chars().all(|c| c.is_ascii_hexdigit() && !c.is_ascii_uppercase()));
    assert_eq!(a, fingerprint_of(1_700_000_000, 4096));
    assert_ne!(a, fingerprint_of(4096, 1_700_000_000));
}

#[test]
fn purge_cutoff_goes_back_whole_days() {
    assert_eq!(purge_cutoff(Timestamp { secs: 1_000_000, nanos: 5 }, 2), 1_000_000 - 172_800);
}

// ----- re-verification -----

#[test]
fn test_get_quick_size_file() {
    assert_eq!(quick_size(&vec![ChildKind::File(1234)]), Some(1234));
}

#[test]
fn test_get_quick_size_dir() {
    assert_eq!(quick_size(&vec![ChildKind::File(10), ChildKind::Dir, ChildKind::Other, ChildKind::File(5)]), Some(4111));
}

#[test]
fn verification_outcomes() {
    let mut stats = VerificationStats::default();
    let mut s = CandidateState::new(cand("/v", 1000, 0));
    apply_check(&mut s, Some(1000), &mut stats);
    assert_eq!(s.cache_status, CacheStatus::CachedVerified);
    apply_check(&mut s, Some(2000), &mut stats);
    assert_eq!(s.cache_status, CacheStatus::Changed);
    assert!(s.is_changed);
    assert_eq!(s.size_current, Some(2000));
    apply_check(&mut s, None, &mut stats);
    assert_eq!(s.cache_status, CacheStatus::Unknown);
    assert_eq!((stats.verified_unchanged, stats.changed, stats.unavailable), (1, 1, 1));
}

// ----- discovery -----

#[test]
fn test_get_hot_paths() {
    let names = hot_paths();
    assert!(!names.is_empty());
    assert_eq!(names[0], "Downloads");
    assert_eq!(names.len(), 11);
}

#[test]
fn only_unknown_paths_are_new() {
    let mut stats = DiscoveryStats::default();
    let states = new_states(vec![cand("/a", 1, 0), cand("/b", 1, 800)], &vec!["/a/".to_string()], &mut stats);
    assert_eq!(states.len(), 1);
    assert_eq!(states[0].candidate.path, "/b");
    assert!(states[0].is_changed);
    assert!(states[0].is_selected());
    assert_eq!(stats.new_items, 1);
}

// ----- grouping -----

#[test]
fn grouping_scenario() {
    let cs = vec![
        cand("/data/a/x.iso", 1000, 0),
        cand("/data/b/x.iso", 1000, 0),
        cand("/logs/app.2024-01-01.log", 10, 0),
        cand("/logs/app.2024-01-02.log", 20, 0),
        cand("/home/u/one.txt", 5, 0),
        cand("/home/u/two.txt", 7, 0),
        cand("/solo/z.bin", 3, 0),
    ];
    let groups = group_candidates(&cs);
    assert_eq!(groups.len(), 4);
    assert_eq!(groups[0].id, "dup_0");
    assert_eq!(groups[0].name, "Duplicates: x.iso (2 files)");
    assert!(matches!(groups[0].group_type, GroupType::Duplicates));
    assert_eq!(groups[0].candidates, vec![0, 1]);
    assert_eq!(groups[0].total_size, 2000);
    assert_eq!(groups[0].parent_path, Some("/data/a".to_string()));
    assert_eq!(groups[0].common_ancestor, Some("/data".to_string()));

    assert_eq!(groups[1].id, "similar_app*log");
    assert_eq!(groups[1].name, "app*log (2 files)");
    assert_eq!(groups[1].total_size, 30);
    assert_eq!(groups[1].common_ancestor, Some("/logs".to_string()));

    assert_eq!(groups[2].id, "dir_/home/u");
    assert_eq!(groups[2].name, "u (2 items)");
    assert_eq!(groups[2].parent_path, Some("/home".to_string()));
    assert_eq!(groups[2].common_ancestor, Some("/home/u".to_string()));

    assert_eq!(groups[3].id, "single_6");
    assert_eq!(groups[3].name, "z.bin");
    assert!(matches!(groups[3].group_type, GroupType::Single));
    assert_eq!(groups[3].parent_path, Some("/solo".to_string()));
}

#[test]
fn every_candidate_in_one_group() {
    let cs = vec![cand("/a/1", 5, 0), cand("/b/2", 5, 0), cand("/a/3", 6, 0), cand("/c/4", 9, 0)];
    let groups = group_candidates(&cs);
    let mut seen = vec![0; cs.len()];
    for g in &groups {
        for &i in &g.candidates {
            seen[i] += 1;
        }
    }
    assert!(seen.iter().all(|&n| n == 1));
    assert!(groups.windows(2).all(|w| w[0].total_size >= w[1].total_size));
}

#[test]
fn directory_context() {
    let cs = vec![cand("/d/a.txt", 10, 0), cand("/d//b.txt", 20, 0), cand("/e/c.txt", 5, 0)];
    let ctx = get_directory_context("/d/a.txt", &cs);
    assert_eq!(ctx.parent, Some("/d".to_string()));
    assert_eq!(ctx.siblings, vec!["/d//b.txt".to_string()]);
    assert_eq!(ctx.total_size_in_parent, 30);
    assert_eq!(ctx.sibling_count, 1);
}

// ----- report -----

#[test]
fn report_totals_and_groups() {
    let mut a = cand("/a", 100, 0);
    a.action = Action::Delete;
    a.group = Some("g1".to_string());
    let mut b = cand("/b", 300, 0);
    b.group = Some("g2".to_string());
    let mut c = cand("/c", 50, 0);
    c.action = Action::Delete;
    c.group = Some("g1".to_string());
    let r = Report::build(&[a, b, c]);
    assert_eq!(r.total_candidates, 3);
    assert_eq!(r.total_size_bytes, 450);
    assert_eq!(r.selected_size_bytes, 150);
    assert_eq!(r.groups.len(), 2);
    assert_eq!(r.groups[0].key, "g2");
    assert_eq!(r.groups[1].key, "g1");
    assert_eq!(r.groups[1].indices, vec![0, 2]);
    assert_eq!(r.summary_line(), "3 candidates  |  450.0 B total  |  150.0 B selected");
}

#[test]
fn human_readable_sizes() {
    assert_eq!(human_bytes(0), "0.0 B");
    assert_eq!(human_bytes(1536), "1.5 KB");
    assert_eq!(human_bytes(1_500_000_000), "1.4 GB");
    assert_eq!(reclaim_core::disk_analyzer::human_bytes(500), "500 B");
    assert_eq!(reclaim_core::disk_analyzer::human_bytes(1536), "1.50 KB");
}

// ----- strategy -----

#[test]
fn strategy_selects_high_scores() {
    let mut cs = vec![cand("/a", 2_000_000_000, 0), cand("/b", 10, 0)];
    cs[1].reproducibility = 100;
    let profile = Profile::default_conservative();
    apply(&mut cs, &profile, &vec![800, 200]);
    assert!(matches!(cs[0].action, Action::Delete));
    assert!(matches!(cs[1].action, Action::Skip));
    assert_eq!(cs[0].score, 800);
    assert_eq!(cs[0].tags, vec!["reproducible".to_string(), "large".to_string()]);
    assert!(cs[1].tags.is_empty());
}

// ----- archives -----

fn entry(path: &str, size: u64, secs: Option<i64>) -> FileEntry {
    FileEntry { path: path.to_string(), size, modified: secs.map(|s| Timestamp { secs: s, nanos: 0 }) }
}

#[test]
fn archive_scan_scenario() {
    let mb = 1_000_000u64;
    let files = vec![
        entry("/x/big.zip.part-000", 50 * mb, Some(100)),
        entry("/x/big.zip.part-001", 60 * mb, Some(50)),
        entry("/y/data-1.0.zip", 100 * mb, Some(1000)),
        entry("/z/data-2.0.zip", 100 * mb, Some(2000)),
        entry("/w/small.zip", 5, Some(10)),
        entry("/w/readme.txt", 500 * mb, None),
    ];
    assert!(archives::split_parts_fit(&files, &Profile::default_conservative()));
    let out = archives::scan_files(&files, &Profile::default_conservative());
    // "big.zip.part-000" does not end in an archive suffix, so the parts are not
    // archives to the scan; only the two copies of "data" remain.
    assert_eq!(out.len(), 2);
    assert_eq!(out[0].path, "/z/data-2.0.zip");
    assert!(matches!(out[0].action, Action::Skip));
    assert_eq!(out[0].score, 400);
    assert_eq!(out[1].path, "/y/data-1.0.zip");
    assert!(matches!(out[1].action, Action::Delete));
    assert_eq!(out[1].group, Some("Duplicate Archive: data".to_string()));
}

#[test]
fn large_file_scan_scenario() {
    let mib = 1024 * 1024u64;
    let files = vec![
        entry("/m/movie.mp4", 200 * mib, None),
        entry("/m/a.zip", 200 * mib, None),
        entry("/m/small.iso", mib, None),
        entry("/m/disk.ISO", 300 * mib, None),
    ];
    let out = large_files::scan_files(&files, &Profile::default_conservative());
    assert_eq!(out.len(), 2);
    assert_eq!(out[0].tags, vec!["large-file".to_string(), "video".to_string(), "review".to_string()]);
    assert_eq!(out[1].score, 700);
    assert_eq!(out[1].group, Some("Large File: Disk Image".to_string()));
    assert_eq!(out[1].tags[1], "disk-image");
    assert!(large_files::is_skipped_dir("node_modules"));
    assert!(!large_files::is_skipped_dir("src"));
    assert!(large_files::skipped_extension("ZIP"));
}

// ----- duplicates -----

#[test]
fn duplicate_scenario() {
    let files = vec![
        entry("/d1/f.bin", 100, Some(10)),
        entry("/d2/f.bin", 100, Some(20)),
        entry("/d3/f.bin", 100, Some(30)),
    ];
    let classes = size_name_classes(&files, 10);
    assert_eq!(classes, vec![vec![0, 1, 2]]);
    let out = duplicate_candidates(&files, &vec![Some(7), Some(7), Some(8)], 10, false);
    assert_eq!(out.len(), 2);
    assert_eq!(out[0].path, "/d2/f.bin");
    assert!(matches!(out[0].action, Action::Skip));
    assert_eq!(out[0].tags, vec!["duplicate".to_string(), "newest".to_string(), "keep".to_string()]);
    assert_eq!(out[1].path, "/d1/f.bin");
    assert!(matches!(out[1].action, Action::Delete));
    assert_eq!(out[1].score, 900);
    assert_eq!(out[1].group, Some("Duplicate File: hash-7".to_string()));
}

#[test]
fn test_compute_file_hash() {
    let bytes = b"hello world".to_vec();
    assert_eq!(file_content_hash(&bytes, 11), file_content_hash(&bytes, 11));
    assert_ne!(file_content_hash(&bytes, 11), file_content_hash(&bytes, 12));
}

#[test]
fn folder_hash_ignores_listing_order() {
    let f = |p: &str, s: u64| FolderFile { relative_path: p.to_string(), size: s };
    let a = folder_structure_hash(&vec![f("a", 1), f("b/c", 2)]);
    let b = folder_structure_hash(&vec![f("b/c", 2), f("a", 1)]);
    let c = folder_structure_hash(&vec![f("a", 1), f("b/c", 3)]);
    assert_eq!(a, b);
    assert_ne!(a, c);
    assert_eq!(total_size(&vec![1, 2, 3]), 6);
}

// ----- scan results -----

#[test]
fn dedup_keeps_first_of_each_path() {
    let cs = vec![cand("/b", 1, 0), cand("/a", 2, 0), cand("/b", 3, 0), cand("/a/c", 4, 0)];
    let out = dedup_by_path(&cs);
    let paths: Vec<&str> = out.iter().map(|c| c.path.as_str()).collect();
    assert_eq!(paths, vec!["/a", "/a/c", "/b"]);
    assert_eq!(out[2].size_bytes, 1);
}

#[test]
fn test_detect_changed_dirs() {
    let files = vec!["/root/a/b/f.txt".to_string(), "/root/a/g.txt".to_string(), "/other/x".to_string()];
    let dirs = changed_dirs(&files, "/root");
    assert_eq!(dirs, vec!["/root/a".to_string(), "/root/a/b".to_string()]);
}

#[test]
fn indexer_output_parsing() {
    assert_eq!(output_lines("a\r\nb\n\nc"), vec!["a", "b", "", "c"]);
    assert_eq!(output_lines("x\n"), vec!["x"]);
    assert_eq!(baloo_line_path("file:///home/u"), "/home/u");
    assert_eq!(baloo_line_path("/plain"), "/plain");
    assert_eq!(trimmed("  /a b \t"), "/a b");
}

#[test]
fn quick_scan_candidates() {
    let profile = Profile::default_conservative();
    assert!(quick_candidate("/h/p/node_modules".to_string(), TargetKind::NpmModules, 5, None, None, &profile).is_none());
    let c = quick_candidate("/h/proj/node_modules".to_string(), TargetKind::NpmModules, 20 * 1024 * 1024, None, None, &profile).unwrap();
    assert_eq!(c.group, Some("proj".to_string()));
    assert_eq!(c.reproducibility, 900);
    assert_eq!(c.tags, vec!["quick-scan".to_string(), "reproducible".to_string()]);
}

// ----- browsing -----

#[test]
fn cursor_wraps_around() {
    assert_eq!(move_cursor(0, -1, 5), 4);
    assert_eq!(move_cursor(4, 1, 5), 0);
    assert_eq!(move_cursor(2, 7, 5), 4);
    assert_eq!(move_cursor(1, -12, 5), 4);
    assert_eq!(move_cursor(3, 1, 0), 3);
}

#[test]
fn modes_cycle() {
    assert_eq!(SortBy::Score.next().next().next(), SortBy::Score);
    assert_eq!(SortBy::Size.label(), "size");
    assert_eq!(GroupBy::Ungrouped.next(), GroupBy::Kind);
    assert_eq!(GroupBy::Ungrouped.label(), "none");
    assert_eq!(ViewMode::DiskOverview.label(), "Disk Overview");
    assert_eq!(ScanStage::QuickVerify.estimated_duration(), "1-5s");
}

#[test]
fn sorting_by_score() {
    let cs = vec![cand("/a", 1, 300), cand("/b", 3, 900), cand("/c", 2, 500)];
    assert_eq!(sort_order(&cs, SortBy::Score, &now()), vec![1, 2, 0]);
    assert_eq!(sort_order(&cs, SortBy::Size, &now()), vec![1, 2, 0]);
}

#[test]
fn filters_select_candidates() {
    let s = CandidateState::new(cand("/a", 1000, 800));
    let mut f = Filters {
        enabled_kinds: vec!["venv".to_string()],
        enabled_actions: vec!["skip".to_string()],
        enabled_groups: vec![],
        min_score: 500,
        only_selected: false,
        min_bytes: Some(500),
        max_bytes: None,
        min_age_days: 0,
        max_age_days: 0,
    };
    assert!(passes_filters(&s, &f, &now()));
    f.min_bytes = Some(2000);
    assert!(!passes_filters(&s, &f, &now()));
}

// ----- disk analysis -----

#[test]
fn categories_largest_first() {
    let mut stats = DiskStats::default();
    stats.record(DiskCategory::Media, DiskSubcategory::Photos, 100);
    stats.record(DiskCategory::Code, DiskSubcategory::SourceCode, 300);
    let order = categories_by_size(&stats);
    assert_eq!(order[0], (DiskCategory::Code, 300));
    assert_eq!(order[1], (DiskCategory::Media, 100));
}

// ----- updates -----

#[test]
fn test_install_detection() {
    assert_eq!(install_method_linux(false, false, false, false), InstallMethod::Standalone);
    assert_eq!(install_method_linux(false, false, true, true), InstallMethod::SystemPackage);
    assert_eq!(install_method_macos(Some("/opt/homebrew/bin/reclaim")), InstallMethod::SystemPackage);
    assert_eq!(install_method_macos(None), InstallMethod::Standalone);
    assert_eq!(install_method_windows(Some("C:\\Program Files (x86)\\reclaim.exe"), true), InstallMethod::SystemPackage);
    assert_eq!(install_method_windows(Some("C:\\Program Files\\reclaim.exe"), false), InstallMethod::Standalone);
}

#[test]
fn update_messages() {
    assert_eq!(UpdateCheckError::NetworkError("timeout".to_string()).message(), "Network error: timeout");
    assert_eq!(UpdateCheckError::NoNewVersion.message(), "No new version available");
    assert!(matches!(check_for_updates("0.1.0", "o", "r"), Err(UpdateCheckError::NoNewVersion)));
    assert_eq!(InstallMethod::SystemPackage.update_instructions(), "Use your system package manager to update");
}
