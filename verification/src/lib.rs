//! Decision logic of a disk usage visualizer: cache classification, change-history
//! tokens, incremental rescan planning, index trust and scan bookkeeping.
pub mod text;
pub mod paths;
pub mod windows_path;
pub mod index_trust;
pub mod change_history;
pub mod cache_activity;
pub mod macos_fsevents;
pub mod fsevents_callback;
pub mod incremental_rescan;
pub mod fsevents_history;
pub mod index_checkpoint;
pub mod incremental_trust;
pub mod cache_catalog;
pub mod scanner;
pub mod storage;
pub mod scan_jobs;
pub mod cache_query;
pub mod file_metrics;
pub mod incremental_storage;
pub mod windows_usn;
