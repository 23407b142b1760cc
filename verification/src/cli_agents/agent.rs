//! Core agent types: process snapshots, classification matches,
//! capability flags, and the `CliAgent` trait every agent implements.

use vstd::prelude::*;
use crate::cli_agents::hook_events::CliAgentHookEvent;
use crate::cli_agents::session::CliAgentSessionState;

verus! {

/// Capability bits an agent advertises; the UI shows an affordance
/// only when its bit is set.
#[derive(Debug, Clone, Copy, PartialEq, Eq, Structural)]
pub struct CliAgentCapabilities {
    pub bits: u32,
}

impl CliAgentCapabilities {
    pub const HOOKS: u32 = 1;
    pub const RICH_INPUT: u32 = 2;
    pub const NOTIFICATIONS: u32 = 4;
    pub const DIFF_REVIEW: u32 = 8;
    pub const VOICE: u32 = 16;
    pub const IMAGES: u32 = 32;
    pub const TASK_PANEL: u32 = 64;
    pub const RESUME_SESSIONS: u32 = 128;
    pub const MCP_TOOLS: u32 = 256;
    pub const WORKTREES: u32 = 512;
    pub const SUBAGENTS: u32 = 1024;
    pub const ELICITATION: u32 = 2048;
    pub const PERMISSION_MODES: u32 = 4096;
    pub const CONTEXT_WINDOW: u32 = 8192;
    pub const RULES: u32 = 16384;

    /// The set with exactly the given bits.
    pub fn from_bits(bits: u32) -> (c: Self)
        ensures
            c.bits == bits,
    {
        CliAgentCapabilities { bits }
    }

    /// Every bit of `flags` is set.
    pub fn contains(self, flags: u32) -> (r: bool)
        ensures
            r == (self.bits & flags == flags),
    {
        self.bits & flags == flags
    }
}

/// Cross-platform snapshot of one process in a PTY's descendant tree.
/// `exe` may be empty (sandboxed macOS, unreadable `/proc/<pid>/exe`);
/// matching then falls back to `name`.
#[derive(Debug, Clone)]
pub struct ProcessInfo {
    pub pid: u32,
    pub ppid: u32,
    pub name: String,
    /// Executable path, empty when unknown.
    pub exe: String,
    pub cmdline: Vec<String>,
    /// Environment block as `(key, value)` pairs, when readable.
    pub env: Option<Vec<(String, String)>>,
}

/// The output currently visible in an agent's block.
#[derive(Debug, Clone)]
pub struct BlockOutputSnapshot {
    pub text: String,
}

/// Launch flags extracted from a matched agent process.
#[derive(Debug, Clone, Default)]
pub struct CliAgentMatch {
    pub pid: u32,
    pub cmdline: Vec<String>,
    pub name: Option<String>,
    pub resume_session_name: Option<String>,
    pub continue_latest: bool,
    pub worktree: Option<String>,
    pub from_pr: Option<u64>,
    pub permission_mode: Option<PermissionModeFlag>,
    pub model: Option<String>,
}

/// Permission-mode tag as written on the command line.
#[derive(Debug, Clone, PartialEq, Eq)]
pub struct PermissionModeFlag(pub String);

/// Bundled plugin assets for an agent.
#[derive(Debug, Clone, Copy)]
pub struct PluginAssets {
    pub bundle_dir: &'static str,
    pub version: &'static str,
}

/// What every CLI agent provides.
pub trait CliAgent {
    fn id(&self) -> &str;

    fn display_name(&self) -> &str;

    fn binary_names(&self) -> &[String];

    fn icon_path(&self) -> &str;

    /// Brand colour pair `(background, foreground)` as hex strings.
    fn brand_colors(&self) -> Option<(&str, &str)>;

    fn capabilities(&self) -> CliAgentCapabilities;

    /// Whether a discovered process belongs to this agent, with its
    /// launch flags.
    fn classify(&self, process: &ProcessInfo) -> Option<CliAgentMatch>;

    /// `r` is this agent's reading of hook `event`. An agent that says
    /// nothing of its readings leaves every reading possible.
    open spec fn hook_reading(&self, event: CliAgentHookEvent, r: Option<CliAgentSessionState>) -> bool {
        true
    }

    /// Session-state transition for a hook event; `None` leaves the
    /// state unchanged.
    fn state_from_hook(&self, event: &CliAgentHookEvent) -> (r: Option<CliAgentSessionState>)
        ensures
            self.hook_reading(*event, r);

    /// Heuristic state from terminal output when no plugin is installed;
    /// `None` when inconclusive.
    fn state_from_output(&self, snapshot: &BlockOutputSnapshot) -> Option<CliAgentSessionState>;
}

/// An agent as the registry and sessions share it.
pub type SharedCliAgent = std::sync::Arc<Box<dyn CliAgent>>;

} // verus!
