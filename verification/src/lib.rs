//! Core logic of the reclaim disk-space analyzer: candidate model, scoring
//! decisions, selection state, grouping, classification and reports.
pub mod text;
pub mod time;
pub mod size;
pub mod candidate;
pub mod selection;
pub mod paths;
pub mod disk_analyzer;
pub mod priority;
pub mod profile;
pub mod order;
pub mod report;
pub mod strategy;
pub mod grouping;
pub mod archives;
pub mod large_files;
pub mod cache;
pub mod updater;
pub mod recheck;
pub mod discovery;
pub mod duplicates;
pub mod path_order;
pub mod scanning;
pub mod plugins;
pub mod quick_scan;
pub mod targets;
pub mod browse;
pub mod overview;
pub mod listing;
