//! Session state model of a CLI agent: the lifecycle state machine,
//! notification kinds, session sources, permission modes, context
//! usage, and the semantic events the session manager emits.

use vstd::prelude::*;
use std::time::Instant;
use crate::cli_agents::agent::{CliAgent, PermissionModeFlag};
use std::sync::Arc;
use crate::text::str_eq;

verus! {

#[verifier::external_type_specification]
#[verifier::external_body]
pub struct ExInstant(Instant);

/// `Instant` is `Copy`: its `clone` returns the same instant.
pub assume_specification[ <Instant as Clone>::clone ](i: &Instant) -> (r: Instant)
    ensures
        r == *i,
;

/// `Instant::now()`: the current monotonic time. Nothing is stated of
/// the value; it depends on the clock.
#[verifier::external_body]
pub fn now() -> Instant {
    Instant::now()
}

/// Logical state of one agent session. `Completed` and `Errored` are
/// terminal.
#[derive(Debug, Clone, PartialEq, Eq)]
pub enum CliAgentSessionState {
    Starting,
    Idle,
    Working { since: Instant },
    WaitingForInput { notification_type: NotificationType },
    Compacting,
    Completed { exit_code: Option<i32> },
    Errored { reason: String },
}

impl CliAgentSessionState {
    /// No further transitions happen from a terminal state.
    pub fn is_terminal(&self) -> (r: bool)
        ensures
            r == (*self is Completed || *self is Errored),
    {
        matches!(self, CliAgentSessionState::Completed { .. } | CliAgentSessionState::Errored { .. })
    }
}

/// What kind of attention a waiting agent needs.
#[derive(Debug, Clone, Copy, PartialEq, Eq, Hash, Structural)]
pub enum NotificationType {
    /// Waiting for the next prompt.
    IdlePrompt,
    /// Blocking on a tool-permission decision.
    PermissionPrompt,
    /// An MCP server requested input.
    Elicitation,
    /// A custom notification from the plugin.
    Custom,
}

/// Source of a session start.
#[derive(Debug, Clone, Copy, PartialEq, Eq, Hash, Structural)]
pub enum SessionSource {
    Startup,
    Resume,
    Clear,
    Compact,
}

/// Permission mode of a session; `Unknown` for modes added later.
#[derive(Debug, Clone, Copy, PartialEq, Eq, Hash, Structural)]
pub enum PermissionMode {
    Default,
    Plan,
    AcceptEdits,
    Auto,
    DontAsk,
    BypassPermissions,
    Unknown,
}

/// The mode a command-line tag names.
pub open spec fn mode_of_tag(tag: Seq<char>) -> PermissionMode {
    if tag == "default"@ {
        PermissionMode::Default
    } else if tag == "plan"@ {
        PermissionMode::Plan
    } else if tag == "acceptEdits"@ {
        PermissionMode::AcceptEdits
    } else if tag == "auto"@ {
        PermissionMode::Auto
    } else if tag == "dontAsk"@ {
        PermissionMode::DontAsk
    } else if tag == "bypassPermissions"@ {
        PermissionMode::BypassPermissions
    } else {
        PermissionMode::Unknown
    }
}

impl<'a> From<&'a PermissionModeFlag> for PermissionMode {
    fn from(flag: &'a PermissionModeFlag) -> (m: Self) {
        let tag = flag.0.as_str();
        if str_eq(tag, "default") {
            PermissionMode::Default
        } else if str_eq(tag, "plan") {
            PermissionMode::Plan
        } else if str_eq(tag, "acceptEdits") {
            PermissionMode::AcceptEdits
        } else if str_eq(tag, "auto") {
            PermissionMode::Auto
        } else if str_eq(tag, "dontAsk") {
            PermissionMode::DontAsk
        } else if str_eq(tag, "bypassPermissions") {
            PermissionMode::BypassPermissions
        } else {
            PermissionMode::Unknown
        }
    }
}

impl<'a> vstd::std_specs::convert::FromSpecImpl<&'a PermissionModeFlag> for PermissionMode {
    open spec fn obeys_from_spec() -> bool {
        true
    }

    open spec fn from_spec(flag: &'a PermissionModeFlag) -> PermissionMode {
        mode_of_tag(flag.0@)
    }
}

/// Token usage carried on compaction events.
#[derive(Debug, Clone, Copy, PartialEq, Eq, Structural)]
pub struct ContextUsage {
    pub tokens_used: u64,
    pub tokens_max: u64,
}

/// One live agent session.
pub struct CliAgentSession {
    pub agent: Arc<Box<dyn CliAgent>>,
    pub state: CliAgentSessionState,
    pub pid: u32,
    pub started_at: Instant,
    pub cmdline: Vec<String>,
    /// Id handed out by the agent's first `SessionStart` hook.
    pub session_id: Option<String>,
    /// The agent's own transcript file, if any.
    pub transcript_path: Option<String>,
    /// Name set with `--name` or taken from `--resume`.
    pub name: Option<String>,
    /// Name or id given to `--resume`.
    pub resume_session_name: Option<String>,
    pub permission_mode: Option<PermissionMode>,
    pub model: Option<String>,
    pub worktree: Option<String>,
    pub from_pr: Option<u64>,
    /// Rule files the agent loaded.
    pub rules_loaded: Vec<String>,
    pub context_usage: Option<ContextUsage>,
    /// Events since the pane last had focus.
    pub unread_events_since_focus: u32,
}

impl CliAgentSession {
    /// A session that is just starting: no id, no metadata yet.
    pub fn new(agent: Arc<Box<dyn CliAgent>>, pid: u32, cmdline: Vec<String>) -> (s: Self)
        ensures
            s.agent == agent,
            s.state is Starting,
            s.pid == pid,
            s.cmdline == cmdline,
            s.session_id is None,
            s.transcript_path is None,
            s.name is None,
            s.resume_session_name is None,
            s.permission_mode is None,
            s.model is None,
            s.worktree is None,
            s.from_pr is None,
            s.rules_loaded@ == Seq::<String>::empty(),
            s.context_usage is None,
            s.unread_events_since_focus == 0,
    {
        CliAgentSession {
            agent,
            state: CliAgentSessionState::Starting,
            pid,
            started_at: now(),
            cmdline,
            session_id: None,
            transcript_path: None,
            name: None,
            resume_session_name: None,
            permission_mode: None,
            model: None,
            worktree: None,
            from_pr: None,
            rules_loaded: Vec::new(),
            context_usage: None,
            unread_events_since_focus: 0,
        }
    }
}

/// High-level events the session manager emits to subscribers.
#[derive(Debug, Clone)]
pub enum CliAgentEvent {
    SessionStarted,
    SessionEnded { exit_code: Option<i32> },
    StateChanged { old: CliAgentSessionState, new: CliAgentSessionState },
    FileChanged { path: String },
    PermissionRequested { tool_name: String },
    TaskCreated { task_id: String, content: String },
    TaskCompleted { task_id: String },
    ContextUsageUpdated { usage: ContextUsage },
    RulesLoaded { paths: Vec<String> },
    WorktreeCreated { path: String, branch: String },
    WorktreeRemoved { path: String },
    SubagentStarted { agent_id: String, agent_type: String },
    SubagentStopped { agent_id: String },
    ElicitationRequested { mcp_server: String },
    PromptSubmitted { prompt: String },
    AssistantResponded { message: String },
}

} // verus!
