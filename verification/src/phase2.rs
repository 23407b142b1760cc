//! AI, agent and MCP surface of the cmdline: ghost-text suggestions,
//! the engines that produce them, agent hand-off chips and edits, the
//! agent host, and MCP completion providers.

pub mod ai;
pub mod agent;
pub mod agent_host;
pub mod mcp_completion;
pub mod ai_engine;
