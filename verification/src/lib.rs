//! Carrot's command-line surface and CLI-agent session model, verified.
//!
//! The crate holds the semantic command AST and everything that reads
//! or produces it (fallback parser, highlight projection, validation,
//! narration, completion plumbing), the prompt-lifecycle and mount
//! state machines, the OSC 133 / OSC 7777 shell-integration codecs,
//! and the pure parts of the CLI-agent integration.

pub mod text;
pub mod ast;
pub mod parse;
pub mod mount;
pub mod prompt_state;
pub mod handoff_mode;
pub mod pty_route;
pub mod motion;
pub mod shell;
pub mod keymap;
pub mod completion;
pub mod osc133;
pub mod phase2;
pub mod session;
pub mod history;
pub mod history_search;
pub mod highlight;
pub mod highlight_apply;
pub mod accessibility;
pub mod cli_agents;
pub mod validation;
pub mod osc7777;
pub mod osc7777_roundtrip;
pub mod shell_event;
pub mod syntax;
pub mod completion_sources;
pub mod completion_driver;
pub mod schema_typing;
