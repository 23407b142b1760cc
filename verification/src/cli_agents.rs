//! CLI-agent integration: detecting agents (the bundled coding agent first) running
//! in terminal panes, parsing their launch flags, mapping their hook
//! events and output onto a session state, and reading their git
//! diff statistics.

pub mod agent;
pub mod session;
pub mod hook_events;
pub mod detection;
pub mod code_agent;
pub mod diff_stats;
pub mod child_process_watcher;
pub mod map_order;
pub mod session_core;
pub mod registry;
pub mod plugin_installer;
