//! Hook events an agent's plugin reports (transported hex-encoded in
//! OSC 7777 envelopes). Paths are carried as strings; tool inputs and
//! responses stay opaque JSON values.

use vstd::prelude::*;
use serde_json::Value as JsonValue;
use crate::cli_agents::session::{NotificationType, PermissionMode, SessionSource};

verus! {

#[verifier::external_type_specification]
#[verifier::external_body]
pub struct ExJsonValue(JsonValue);

/// `serde_json::Value::clone`; nothing is stated of the copy.
pub assume_specification[ <JsonValue as Clone>::clone ](v: &JsonValue) -> JsonValue;

/// Protocol version this build speaks.
pub const CARROT_PROTOCOL_VERSION: u32 = 1;

/// Task-list item status.
#[derive(Debug, Clone, Copy, PartialEq, Eq, Hash, Structural)]
pub enum TaskStatus {
    Pending,
    InProgress,
    Completed,
    Blocked,
}

/// File-change kind.
#[derive(Debug, Clone, Copy, PartialEq, Eq, Hash, Structural)]
pub enum ChangeType {
    Created,
    Modified,
    Deleted,
    Renamed,
}

/// One permission-suggestion option shown next to a permission prompt.
#[derive(Debug, Clone, PartialEq, Eq)]
pub struct PermissionSuggestion {
    pub label: String,
    pub value: Option<String>,
    pub description: Option<String>,
}

/// Every hook event Carrot understands.
#[derive(Debug, Clone)]
pub enum CliAgentHookEvent {
    SessionStart {
        session_id: String,
        transcript_path: String,
        cwd: String,
        source: SessionSource,
        model: String,
        permission_mode: PermissionMode,
        agent_id: String,
        plugin_version: String,
    },
    SessionEnd { session_id: String, exit_code: Option<i32> },
    UserPromptSubmit { session_id: String, prompt: String },
    Stop { session_id: String, last_assistant_message: String },
    Notification { session_id: String, title: String, message: String, notification_type: NotificationType },
    PermissionRequest {
        session_id: String,
        tool_name: String,
        tool_input: JsonValue,
        permission_suggestions: Vec<PermissionSuggestion>,
    },
    PreToolUse { session_id: String, tool_name: String, tool_input: JsonValue, tool_use_id: String },
    PostToolUse {
        session_id: String,
        tool_name: String,
        tool_input: JsonValue,
        tool_response: JsonValue,
        tool_use_id: String,
    },
    TaskCreated { session_id: String, task_id: String, content: String, status: TaskStatus },
    TaskCompleted { session_id: String, task_id: String },
    FileChanged { session_id: String, path: String, change_type: ChangeType },
    CwdChanged { session_id: String, cwd: String },
    PreCompact { session_id: String, tokens_used: u64, tokens_max: u64 },
    PostCompact { session_id: String, tokens_used: u64, tokens_max: u64 },
    InstructionsLoaded { session_id: String, paths: Vec<String> },
    SubagentStart { session_id: String, agent_id: String, agent_type: String, prompt: String },
    SubagentStop { session_id: String, agent_id: String },
    WorktreeCreate { session_id: String, path: String, branch: String },
    WorktreeRemove { session_id: String, path: String },
    Elicitation { session_id: String, mcp_server: String, schema: JsonValue },
    ElicitationResult { session_id: String, response: JsonValue },
}

/// The session id every event carries.
pub open spec fn spec_session_id(e: CliAgentHookEvent) -> String {
    match e {
        CliAgentHookEvent::SessionStart { session_id, .. } => session_id,
        CliAgentHookEvent::SessionEnd { session_id, .. } => session_id,
        CliAgentHookEvent::UserPromptSubmit { session_id, .. } => session_id,
        CliAgentHookEvent::Stop { session_id, .. } => session_id,
        CliAgentHookEvent::Notification { session_id, .. } => session_id,
        CliAgentHookEvent::PermissionRequest { session_id, .. } => session_id,
        CliAgentHookEvent::PreToolUse { session_id, .. } => session_id,
        CliAgentHookEvent::PostToolUse { session_id, .. } => session_id,
        CliAgentHookEvent::TaskCreated { session_id, .. } => session_id,
        CliAgentHookEvent::TaskCompleted { session_id, .. } => session_id,
        CliAgentHookEvent::FileChanged { session_id, .. } => session_id,
        CliAgentHookEvent::CwdChanged { session_id, .. } => session_id,
        CliAgentHookEvent::PreCompact { session_id, .. } => session_id,
        CliAgentHookEvent::PostCompact { session_id, .. } => session_id,
        CliAgentHookEvent::InstructionsLoaded { session_id, .. } => session_id,
        CliAgentHookEvent::SubagentStart { session_id, .. } => session_id,
        CliAgentHookEvent::SubagentStop { session_id, .. } => session_id,
        CliAgentHookEvent::WorktreeCreate { session_id, .. } => session_id,
        CliAgentHookEvent::WorktreeRemove { session_id, .. } => session_id,
        CliAgentHookEvent::Elicitation { session_id, .. } => session_id,
        CliAgentHookEvent::ElicitationResult { session_id, .. } => session_id,
    }
}

/// A decoded hook envelope: the sending agent's id, the negotiated
/// protocol version, and the typed event.
#[derive(Debug, Clone)]
pub struct ParsedHookEvent {
    pub agent: String,
    pub protocol_version: u32,
    pub event: CliAgentHookEvent,
}

impl CliAgentHookEvent {
    /// The session id shared by every variant.
    pub fn session_id(&self) -> (r: &str)
        ensures
            r@ == spec_session_id(*self)@,
    {
        match self {
            CliAgentHookEvent::SessionStart { session_id, .. } => session_id.as_str(),
            CliAgentHookEvent::SessionEnd { session_id, .. } => session_id.as_str(),
            CliAgentHookEvent::UserPromptSubmit { session_id, .. } => session_id.as_str(),
            CliAgentHookEvent::Stop { session_id, .. } => session_id.as_str(),
            CliAgentHookEvent::Notification { session_id, .. } => session_id.as_str(),
            CliAgentHookEvent::PermissionRequest { session_id, .. } => session_id.as_str(),
            CliAgentHookEvent::PreToolUse { session_id, .. } => session_id.as_str(),
            CliAgentHookEvent::PostToolUse { session_id, .. } => session_id.as_str(),
            CliAgentHookEvent::TaskCreated { session_id, .. } => session_id.as_str(),
            CliAgentHookEvent::TaskCompleted { session_id, .. } => session_id.as_str(),
            CliAgentHookEvent::FileChanged { session_id, .. } => session_id.as_str(),
            CliAgentHookEvent::CwdChanged { session_id, .. } => session_id.as_str(),
            CliAgentHookEvent::PreCompact { session_id, .. } => session_id.as_str(),
            CliAgentHookEvent::PostCompact { session_id, .. } => session_id.as_str(),
            CliAgentHookEvent::InstructionsLoaded { session_id, .. } => session_id.as_str(),
            CliAgentHookEvent::SubagentStart { session_id, .. } => session_id.as_str(),
            CliAgentHookEvent::SubagentStop { session_id, .. } => session_id.as_str(),
            CliAgentHookEvent::WorktreeCreate { session_id, .. } => session_id.as_str(),
            CliAgentHookEvent::WorktreeRemove { session_id, .. } => session_id.as_str(),
            CliAgentHookEvent::Elicitation { session_id, .. } => session_id.as_str(),
            CliAgentHookEvent::ElicitationResult { session_id, .. } => session_id.as_str(),
        }
    }
}

/// Why an envelope is not for this build: its `type` is another
/// sub-schema of OSC 7777.
#[derive(Debug, Clone, PartialEq, Eq)]
pub enum EnvelopeCheck {
    /// A CLI-agent event at the negotiated protocol version.
    Accepted { protocol_version: u32 },
    /// Another sub-schema; the event type it carried.
    WrongType(String),
}

/// Checks an envelope's `type` and negotiates the protocol version as
/// `min(plugin, ours)`.
pub fn check_envelope(event_type: &str, protocol_version: u32) -> (r: EnvelopeCheck)
    ensures
        event_type@ == "cli_agent_event"@ ==> r == (EnvelopeCheck::Accepted {
            protocol_version: if protocol_version < CARROT_PROTOCOL_VERSION { protocol_version } else { CARROT_PROTOCOL_VERSION },
        }),
        event_type@ != "cli_agent_event"@ ==> (r matches EnvelopeCheck::WrongType(t) && t@ == event_type@),
{
    if crate::text::str_eq(event_type, "cli_agent_event") {
        let v = if protocol_version < CARROT_PROTOCOL_VERSION { protocol_version } else { CARROT_PROTOCOL_VERSION };
        EnvelopeCheck::Accepted { protocol_version: v }
    } else {
        EnvelopeCheck::WrongType(event_type.to_owned())
    }
}

} // verus!
