use reclaim_core::cache::{dir_shallow_hash, file_shallow_hash, fingerprint_of, ShallowChild};
use reclaim_core::candidate::{Action, Candidate, TargetKind};
use reclaim_core::listing::{by_kind, by_parent, group_size};
use reclaim_core::overview::{
    available_actions, available_groups, available_kinds, extract_filter_values, sorted_distinct, Filters,
};
use reclaim_core::recheck::{quick_size, ChildKind};
use reclaim_core::selection::CandidateState;
use reclaim_core::browse::GroupBy;
use reclaim_core::browse::{after_cleanup, selected_size};
use reclaim_core::cache::CachedEntry;
use reclaim_core::grouping::{expanded_ids, shown_groups, GroupType};
use reclaim_core::overview::{cached_state, checked_size, filtered_candidates};
use reclaim_core::overview::{scan_stages, ScanStage};
use reclaim_core::selection::{CacheStatus, SelectionState};
use reclaim_core::time::Timestamp;

fn item(path: &str, kind: TargetKind, size: u64, action: Action, group: Option<&str>) -> Candidate {
    Candidate {
        path: path.to_string(),
        kind,
        size_bytes: size,
        last_modified: None,
        last_accessed: None,
        reproducibility: 0,
        score: 0,
        tags: vec![],
        action,
        group: group.map(|g| g.to_string()),
    }
}

fn sample() -> Vec<Candidate> {
    vec![
        item("/r/b/node_modules", TargetKind::NpmModules, 10, Action::Skip, Some("b")),
        item("/r/a/.venv", TargetKind::Venv, 20, Action::Delete, Some("a")),
        item("/r/a/target", TargetKind::BuildDir, 30, Action::Skip, None),
        item("/r/b/.venv", TargetKind::Venv, 40, Action::Delete, Some("b")),
    ]
}

fn no_filters() -> Filters {
    Filters {
        enabled_kinds: vec![],
        enabled_actions: vec![],
        enabled_groups: vec![],
        min_score: 0,
        only_selected: false,
        min_bytes: None,
        max_bytes: None,
        min_age_days: 0,
        max_age_days: 0,
    }
}

#[test]
fn kind_listing_sorted_with_positions() {
    let cs = sample();
    let groups = by_kind(&cs);
    let keys: Vec<&str> = groups.iter().map(|g| g.0.as_str()).collect();
    assert_eq!(keys, vec!["build", "node_modules", "venv"]);
    assert_eq!(groups[0].1, vec![2]);
    assert_eq!(groups[1].1, vec![0]);
    assert_eq!(groups[2].1, vec![1, 3]);
    assert_eq!(group_size(&cs, &groups[2].1), Some(60));
}

#[test]
fn parent_listing_sorted_with_positions() {
    let cs = sample();
    let groups = by_parent(&cs);
    assert_eq!(groups.len(), 2);
    assert_eq!(groups[0].0, "/r/a");
    assert_eq!(groups[0].1, vec![1, 2]);
    assert_eq!(groups[1].0, "/r/b");
    assert_eq!(groups[1].1, vec![0, 3]);
    assert_eq!(group_size(&cs, &groups[1].1), Some(50));
}

#[test]
fn parent_listing_of_root_is_empty_key() {
    let cs = vec![item("/", TargetKind::Venv, 1, Action::Skip, None)];
    let groups = by_parent(&cs);
    assert_eq!(groups.len(), 1);
    assert_eq!(groups[0].0, "");
}

#[test]
fn group_size_overflow_is_none() {
    let cs = vec![
        item("/x", TargetKind::Venv, u64::MAX, Action::Skip, None),
        item("/y", TargetKind::Venv, 1, Action::Skip, None),
    ];
    assert_eq!(group_size(&cs, &vec![0, 1]), None);
    assert_eq!(group_size(&cs, &vec![0]), Some(u64::MAX));
    assert_eq!(group_size(&cs, &vec![]), Some(0));
}

#[test]
fn sorted_distinct_drops_repeats() {
    let v: Vec<Vec<char>> = ["b", "a", "b", "c", "a"].iter().map(|s| s.chars().collect()).collect();
    assert_eq!(sorted_distinct(v), vec!["a".to_string(), "b".to_string(), "c".to_string()]);
    assert!(sorted_distinct(vec![]).is_empty());
}

#[test]
fn available_filter_values() {
    let states: Vec<CandidateState> = sample().into_iter().map(CandidateState::new).collect();
    assert_eq!(available_kinds(&states), vec!["build", "node_modules", "venv"]);
    assert_eq!(available_actions(&states), vec!["delete", "skip"]);
    assert_eq!(available_groups(&states), vec!["a", "b"]);
}

#[test]
fn extract_filter_values_enables_all_when_empty() {
    let states: Vec<CandidateState> = sample().into_iter().map(CandidateState::new).collect();
    let mut f = no_filters();
    f.enabled_actions = vec!["skip".to_string()];
    let values = extract_filter_values(&states, &mut f);
    assert_eq!(values.kinds, vec!["build", "node_modules", "venv"]);
    assert_eq!(f.enabled_kinds, vec!["build", "node_modules", "venv"]);
    assert_eq!(f.enabled_actions, vec!["skip"]);
    assert_eq!(f.enabled_groups, vec!["a", "b"]);
}

#[test]
fn file_shallow_hash_is_length_then_time() {
    let expected = format!("{:016x}", seahash::hash(b"10-20"));
    assert_eq!(file_shallow_hash(10, Some(20)), expected);
    assert_eq!(file_shallow_hash(10, Some(20)), fingerprint_of(10, 20));
    assert_eq!(file_shallow_hash(7, None), format!("{:016x}", seahash::hash(b"7-0")));
}

#[test]
fn dir_shallow_hash_orders_entries_by_path() {
    let children = vec![
        ShallowChild { path: "/d/b".to_string(), name: "b".to_string(), len: None, mtime_secs: None },
        ShallowChild { path: "/d/a".to_string(), name: "a".to_string(), len: Some(5), mtime_secs: Some(100) },
        ShallowChild { path: "/d/c".to_string(), name: "c".to_string(), len: Some(3), mtime_secs: None },
    ];
    let text = "a|5|100\nb|\nc|3|\n";
    assert_eq!(dir_shallow_hash(&children), format!("{:016x}", seahash::hash(text.as_bytes())));
    assert_eq!(dir_shallow_hash(&vec![]), format!("{:016x}", seahash::hash(b"")));
}

#[test]
fn quick_size_overflow_is_none() {
    assert_eq!(quick_size(&vec![ChildKind::File(u64::MAX), ChildKind::Dir]), None);
    assert_eq!(quick_size(&vec![]), Some(0));
}

#[test]
fn cleanup_keeps_inactive_in_order() {
    let exec = Action::Exec { cmd: "go".to_string(), args: vec![], description: "go clean".to_string() };
    let cs = vec![
        item("/a", TargetKind::Venv, 1, Action::Delete, None),
        item("/b", TargetKind::Venv, 2, Action::Skip, None),
        item("/c", TargetKind::Venv, 3, exec, None),
        item("/d", TargetKind::Venv, 4, Action::Archive, None),
        item("/e", TargetKind::Venv, 5, Action::Skip, None),
    ];
    let left: Vec<String> = after_cleanup(cs).into_iter().map(|c| c.path).collect();
    assert_eq!(left, vec!["/b", "/d", "/e"]);
}

#[test]
fn group_mode_cycles_back() {
    let g = GroupBy::Ungrouped;
    assert!(matches!(g.next().next().next(), GroupBy::Ungrouped));
    assert!(matches!(GroupBy::Kind.next(), GroupBy::Path));
}

fn group(id: &str, t: reclaim_core::grouping::GroupType) -> reclaim_core::grouping::CandidateGroup {
    reclaim_core::grouping::CandidateGroup {
        id: id.to_string(),
        name: id.to_string(),
        group_type: t,
        candidates: vec![0],
        total_size: 1,
        parent_path: None,
        common_ancestor: None,
    }
}

#[test]
fn single_groups_are_hidden_and_duplicates_expanded() {
    let gs = vec![
        group("g1", GroupType::Single),
        group("g2", GroupType::Duplicates),
        group("g3", GroupType::SameDirectory),
        group("g4", GroupType::Single),
        group("g5", GroupType::Duplicates),
    ];
    let shown = shown_groups(gs);
    let ids: Vec<&str> = shown.iter().map(|g| g.id.as_str()).collect();
    assert_eq!(ids, vec!["g2", "g3", "g5"]);
    assert_eq!(expanded_ids(&shown), vec!["g2", "g5"]);
}

#[test]
fn scan_stages_follow_cache_and_overview() {
    assert_eq!(
        scan_stages(true, true),
        vec![ScanStage::CacheLoad, ScanStage::QuickVerify, ScanStage::FullScan, ScanStage::DiskAnalysis]
    );
    assert_eq!(scan_stages(false, false), vec![ScanStage::CacheLoad, ScanStage::FullScan]);
    assert_eq!(scan_stages(false, true), vec![ScanStage::CacheLoad, ScanStage::FullScan, ScanStage::DiskAnalysis]);
}

#[test]
fn cached_entry_shown_unverified() {
    let entry = CachedEntry {
        path: "/home/u/.venv".to_string(),
        content_hash: "abc".to_string(),
        size_bytes: 42,
        mtime: 0,
        first_seen: Timestamp { secs: 100, nanos: 0 },
        last_seen: Timestamp { secs: 200, nanos: 0 },
    };
    let s = cached_state(&entry);
    assert_eq!(s.candidate.path, "/home/u/.venv");
    assert!(matches!(&s.candidate.kind, TargetKind::Other(k) if k == "cached"));
    assert_eq!(s.candidate.size_bytes, 42);
    assert_eq!(s.candidate.last_modified, Some(Timestamp { secs: 200, nanos: 0 }));
    assert_eq!(s.candidate.score, 500);
    assert_eq!(s.candidate.reproducibility, 800);
    assert_eq!(s.candidate.tags, vec!["cached"]);
    assert_eq!(s.cache_status, CacheStatus::CachedUnverified);
    assert_eq!(s.selection_state, SelectionState::Unchecked);
    assert_eq!(s.first_seen, Timestamp { secs: 100, nanos: 0 });
    assert_eq!(s.last_seen, Timestamp { secs: 200, nanos: 0 });
}

#[test]
fn nothing_selected_after_cleanup() {
    let cs = sample();
    let total: u64 = cs.iter().map(|c| c.size_bytes).sum();
    let cleaned = selected_size(&cs);
    assert_eq!(cleaned, 60);
    let left = after_cleanup(cs);
    assert_eq!(selected_size(&left), 0);
    let left_total: u64 = left.iter().map(|c| c.size_bytes).sum();
    assert_eq!(left_total + cleaned, total);
}

#[test]
fn table_view_filters_let_empty_sets_through() {
    let states: Vec<CandidateState> = sample().into_iter().map(CandidateState::new).collect();
    let now = Timestamp { secs: 1_000_000, nanos: 0 };
    let f = no_filters();
    assert_eq!(filtered_candidates(&states, &f, &now), vec![0, 1, 2, 3]);
    let mut f = no_filters();
    f.enabled_kinds = vec!["venv".to_string()];
    assert_eq!(filtered_candidates(&states, &f, &now), vec![1, 3]);
    let mut f = no_filters();
    f.min_bytes = Some(25);
    assert_eq!(filtered_candidates(&states, &f, &now), vec![2, 3]);
    let mut f = no_filters();
    f.enabled_actions = vec!["delete".to_string()];
    f.max_bytes = Some(30);
    assert_eq!(filtered_candidates(&states, &f, &now), vec![1]);
}

#[test]
fn checked_size_counts_checked_states() {
    let mut states: Vec<CandidateState> = sample().into_iter().map(CandidateState::new).collect();
    assert_eq!(checked_size(&states), 0);
    states[1].set_checked(true);
    states[2].set_checked(true);
    assert_eq!(checked_size(&states), 50);
    states[2].toggle();
    assert_eq!(checked_size(&states), 20);
}
