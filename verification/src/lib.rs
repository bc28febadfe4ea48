//! Verified core of the rhei command line: path arithmetic, report
//! rendering, template composition checks and settings merging.
pub mod text;
pub mod paths;
pub mod session_report;
pub mod report;
pub mod task_exports;
pub mod summary;
pub mod blocks;
pub mod yaml;
pub mod instants;
pub mod provider_limits;
pub mod complete_result;
pub mod exclusions;
pub mod migration;
pub mod inventory;
pub mod compat;
pub mod machine_compat;
pub mod provenance;
pub mod json;
pub mod settings;
pub mod commands;
pub mod agents;
pub mod snapshot_settings;
pub mod session_files;
pub mod session_render;
pub mod registry;
pub mod roster;
pub mod staging;
pub mod supervision;
pub mod snapshots;
pub mod references;
