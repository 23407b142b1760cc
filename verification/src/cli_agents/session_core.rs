//! The agent-session lifecycle as a pure state machine.
//!
//! The core holds which terminals and sessions exist and how they
//! relate. Every change goes through [`SessionCore::handle`], which
//! takes one [`SessionInput`] and returns the [`SessionEffect`]s the
//! host must carry out (start or stop a process watcher, change its
//! cadence, emit an event, arm or fire the drop timer). Timers and
//! event delivery live in the host; the core only decides.
//!
//! Time is a monotonic clock reading in milliseconds, chosen by the
//! host. A finished session lingers for [`SESSION_DROP_TTL_MS`]
//! before it is dropped.

use vstd::prelude::*;
use std::collections::BTreeMap;
use std::time::Instant;
use vstd::std_specs::btree::{spec_btree_map_iter, increasing_seq};
use vstd::std_specs::iter::IteratorSpec;
use crate::cli_agents::agent::{CliAgentMatch, ProcessInfo, SharedCliAgent};
use crate::cli_agents::child_process_watcher::WatcherMode;
use crate::cli_agents::hook_events::{CliAgentHookEvent, ParsedHookEvent, spec_session_id};
use crate::cli_agents::session::{
    mode_of_tag, CliAgentEvent, CliAgentSession, CliAgentSessionState, ContextUsage, NotificationType, PermissionMode,
};
use crate::text::str_eq;

verus! {

/// Pane identifier chosen by the host.
pub type PaneId = u64;

/// Pid of the shell a terminal's PTY runs.
pub type PtyPid = u32;

/// Session key issued by the core; never reused.
pub type SessionKey = u64;

/// How long a finished session lingers before it is dropped, in ms.
pub const SESSION_DROP_TTL_MS: u64 = 30000;

// ---- views --------------------------------------------------------

pub open spec fn opt_str(o: Option<String>) -> Option<Seq<char>> {
    match o {
        Some(s) => Some(s@),
        None => None,
    }
}

pub open spec fn strings_view(v: Seq<String>) -> Seq<Seq<char>> {
    v.map_values(|s: String| s@)
}

/// A session state as plain values.
pub enum StateView {
    Starting,
    Idle,
    Working(Instant),
    WaitingForInput(NotificationType),
    Compacting,
    Completed(Option<i32>),
    Errored(Seq<char>),
}

pub open spec fn state_view(s: CliAgentSessionState) -> StateView {
    match s {
        CliAgentSessionState::Starting => StateView::Starting,
        CliAgentSessionState::Idle => StateView::Idle,
        CliAgentSessionState::Working { since } => StateView::Working(since),
        CliAgentSessionState::WaitingForInput { notification_type } => StateView::WaitingForInput(notification_type),
        CliAgentSessionState::Compacting => StateView::Compacting,
        CliAgentSessionState::Completed { exit_code } => StateView::Completed(exit_code),
        CliAgentSessionState::Errored { reason } => StateView::Errored(reason@),
    }
}

pub open spec fn opt_state_view(s: Option<CliAgentSessionState>) -> Option<StateView> {
    match s {
        Some(x) => Some(state_view(x)),
        None => None,
    }
}

/// `Instant == Instant` (std's `PartialEq`): the two clock readings are
/// the same instant.
#[verifier::external_body]
fn same_instant(a: &Instant, b: &Instant) -> (r: bool)
    ensures
        r == (*a == *b),
{
    *a == *b
}

fn clone_state(s: &CliAgentSessionState) -> (r: CliAgentSessionState)
    ensures
        state_view(r) == state_view(*s),
{
    match s {
        CliAgentSessionState::Starting => CliAgentSessionState::Starting,
        CliAgentSessionState::Idle => CliAgentSessionState::Idle,
        CliAgentSessionState::Working { since } => CliAgentSessionState::Working { since: since.clone() },
        CliAgentSessionState::WaitingForInput { notification_type } => CliAgentSessionState::WaitingForInput {
            notification_type: *notification_type,
        },
        CliAgentSessionState::Compacting => CliAgentSessionState::Compacting,
        CliAgentSessionState::Completed { exit_code } => CliAgentSessionState::Completed { exit_code: *exit_code },
        CliAgentSessionState::Errored { reason } => CliAgentSessionState::Errored { reason: reason.clone() },
    }
}

/// Whether two states are equal.
fn states_equal(a: &CliAgentSessionState, b: &CliAgentSessionState) -> (r: bool)
    ensures
        r == (state_view(*a) == state_view(*b)),
{
    match (a, b) {
        (CliAgentSessionState::Starting, CliAgentSessionState::Starting) => true,
        (CliAgentSessionState::Idle, CliAgentSessionState::Idle) => true,
        (CliAgentSessionState::Working { since: x }, CliAgentSessionState::Working { since: y }) => same_instant(x, y),
        (
            CliAgentSessionState::WaitingForInput { notification_type: x },
            CliAgentSessionState::WaitingForInput { notification_type: y },
        ) => *x == *y,
        (CliAgentSessionState::Compacting, CliAgentSessionState::Compacting) => true,
        (CliAgentSessionState::Completed { exit_code: x }, CliAgentSessionState::Completed { exit_code: y }) => *x == *y,
        (CliAgentSessionState::Errored { reason: x }, CliAgentSessionState::Errored { reason: y }) => str_eq(
            x.as_str(),
            y.as_str(),
        ),
        _ => false,
    }
}

fn clone_strings(v: &Vec<String>) -> (r: Vec<String>)
    ensures
        strings_view(r@) == strings_view(v@),
{
    let mut out: Vec<String> = Vec::new();
    let mut i: usize = 0;
    while i < v.len()
        invariant
            i <= v@.len(),
            strings_view(out@) == strings_view(v@.take(i as int)),
        decreases v@.len() - i,
    {
        let ghost before = out@;
        out.push(v[i].clone());
        proof {
            assert(v@.take(i + 1) =~= v@.take(i as int).push(v@[i as int]));
            assert(out@ =~= before.push(v@[i as int]));
            assert(strings_view(out@) =~= strings_view(before).push(v@[i as int]@));
            assert(strings_view(v@.take(i + 1)) =~= strings_view(v@.take(i as int)).push(v@[i as int]@));
        }
        i += 1;
    }
    assert(v@.take(v@.len() as int) =~= v@);
    out
}

// ---- events -------------------------------------------------------

/// An emitted event as plain values.
pub enum EventView {
    SessionStarted,
    SessionEnded(Option<i32>),
    StateChanged(StateView, StateView),
    FileChanged(Seq<char>),
    PermissionRequested(Seq<char>),
    TaskCreated(Seq<char>, Seq<char>),
    TaskCompleted(Seq<char>),
    ContextUsageUpdated(ContextUsage),
    RulesLoaded(Seq<Seq<char>>),
    WorktreeCreated(Seq<char>, Seq<char>),
    WorktreeRemoved(Seq<char>),
    SubagentStarted(Seq<char>, Seq<char>),
    SubagentStopped(Seq<char>),
    ElicitationRequested(Seq<char>),
    PromptSubmitted(Seq<char>),
    AssistantResponded(Seq<char>),
    UnreadReset,
}

/// Semantic events the manager emits for its subscribers.
#[derive(Debug, Clone)]
pub enum ManagerEvent {
    SessionStarted,
    SessionEnded { exit_code: Option<i32> },
    StateChanged { old: CliAgentSessionState, new: CliAgentSessionState },
    FileChanged { path: String },
    PermissionRequested { tool_name: String },
    TaskCreated { task_id: String, content: String },
    TaskCompleted { task_id: String },
    ContextUsageUpdated { usage: ContextUsage },
    RulesLoaded { paths: Vec<String> },
    WorktreeCreated { path: String, branch: String },
    WorktreeRemoved { path: String },
    SubagentStarted { agent_id: String, agent_type: String },
    SubagentStopped { agent_id: String },
    ElicitationRequested { mcp_server: String },
    PromptSubmitted { prompt: String },
    AssistantResponded { message: String },
    UnreadReset,
}

pub open spec fn manager_event_view(e: ManagerEvent) -> EventView {
    match e {
        ManagerEvent::SessionStarted => EventView::SessionStarted,
        ManagerEvent::SessionEnded { exit_code } => EventView::SessionEnded(exit_code),
        ManagerEvent::StateChanged { old, new } => EventView::StateChanged(state_view(old), state_view(new)),
        ManagerEvent::FileChanged { path } => EventView::FileChanged(path@),
        ManagerEvent::PermissionRequested { tool_name } => EventView::PermissionRequested(tool_name@),
        ManagerEvent::TaskCreated { task_id, content } => EventView::TaskCreated(task_id@, content@),
        ManagerEvent::TaskCompleted { task_id } => EventView::TaskCompleted(task_id@),
        ManagerEvent::ContextUsageUpdated { usage } => EventView::ContextUsageUpdated(usage),
        ManagerEvent::RulesLoaded { paths } => EventView::RulesLoaded(strings_view(paths@)),
        ManagerEvent::WorktreeCreated { path, branch } => EventView::WorktreeCreated(path@, branch@),
        ManagerEvent::WorktreeRemoved { path } => EventView::WorktreeRemoved(path@),
        ManagerEvent::SubagentStarted { agent_id, agent_type } => EventView::SubagentStarted(agent_id@, agent_type@),
        ManagerEvent::SubagentStopped { agent_id } => EventView::SubagentStopped(agent_id@),
        ManagerEvent::ElicitationRequested { mcp_server } => EventView::ElicitationRequested(mcp_server@),
        ManagerEvent::PromptSubmitted { prompt } => EventView::PromptSubmitted(prompt@),
        ManagerEvent::AssistantResponded { message } => EventView::AssistantResponded(message@),
        ManagerEvent::UnreadReset => EventView::UnreadReset,
    }
}

pub open spec fn cli_event_view(e: CliAgentEvent) -> EventView {
    match e {
        CliAgentEvent::SessionStarted => EventView::SessionStarted,
        CliAgentEvent::SessionEnded { exit_code } => EventView::SessionEnded(exit_code),
        CliAgentEvent::StateChanged { old, new } => EventView::StateChanged(state_view(old), state_view(new)),
        CliAgentEvent::FileChanged { path } => EventView::FileChanged(path@),
        CliAgentEvent::PermissionRequested { tool_name } => EventView::PermissionRequested(tool_name@),
        CliAgentEvent::TaskCreated { task_id, content } => EventView::TaskCreated(task_id@, content@),
        CliAgentEvent::TaskCompleted { task_id } => EventView::TaskCompleted(task_id@),
        CliAgentEvent::ContextUsageUpdated { usage } => EventView::ContextUsageUpdated(usage),
        CliAgentEvent::RulesLoaded { paths } => EventView::RulesLoaded(strings_view(paths@)),
        CliAgentEvent::WorktreeCreated { path, branch } => EventView::WorktreeCreated(path@, branch@),
        CliAgentEvent::WorktreeRemoved { path } => EventView::WorktreeRemoved(path@),
        CliAgentEvent::SubagentStarted { agent_id, agent_type } => EventView::SubagentStarted(agent_id@, agent_type@),
        CliAgentEvent::SubagentStopped { agent_id } => EventView::SubagentStopped(agent_id@),
        CliAgentEvent::ElicitationRequested { mcp_server } => EventView::ElicitationRequested(mcp_server@),
        CliAgentEvent::PromptSubmitted { prompt } => EventView::PromptSubmitted(prompt@),
        CliAgentEvent::AssistantResponded { message } => EventView::AssistantResponded(message@),
    }
}

impl ManagerEvent {
    /// The same event as a [`CliAgentEvent`]; `UnreadReset` has none.
    pub fn to_cli_agent_event(&self) -> (r: Option<CliAgentEvent>)
        ensures
            match *self {
                ManagerEvent::UnreadReset => r is None,
                _ => r matches Some(c) && cli_event_view(c) == manager_event_view(*self),
            },
    {
        match self {
            ManagerEvent::SessionStarted => Some(CliAgentEvent::SessionStarted),
            ManagerEvent::SessionEnded { exit_code } => Some(CliAgentEvent::SessionEnded { exit_code: *exit_code }),
            ManagerEvent::StateChanged { old, new } => Some(
                CliAgentEvent::StateChanged { old: clone_state(old), new: clone_state(new) },
            ),
            ManagerEvent::FileChanged { path } => Some(CliAgentEvent::FileChanged { path: path.clone() }),
            ManagerEvent::PermissionRequested { tool_name } => Some(
                CliAgentEvent::PermissionRequested { tool_name: tool_name.clone() },
            ),
            ManagerEvent::TaskCreated { task_id, content } => Some(
                CliAgentEvent::TaskCreated { task_id: task_id.clone(), content: content.clone() },
            ),
            ManagerEvent::TaskCompleted { task_id } => Some(CliAgentEvent::TaskCompleted { task_id: task_id.clone() }),
            ManagerEvent::ContextUsageUpdated { usage } => Some(CliAgentEvent::ContextUsageUpdated { usage: *usage }),
            ManagerEvent::RulesLoaded { paths } => Some(CliAgentEvent::RulesLoaded { paths: clone_strings(paths) }),
            ManagerEvent::WorktreeCreated { path, branch } => Some(
                CliAgentEvent::WorktreeCreated { path: path.clone(), branch: branch.clone() },
            ),
            ManagerEvent::WorktreeRemoved { path } => Some(CliAgentEvent::WorktreeRemoved { path: path.clone() }),
            ManagerEvent::SubagentStarted { agent_id, agent_type } => Some(
                CliAgentEvent::SubagentStarted { agent_id: agent_id.clone(), agent_type: agent_type.clone() },
            ),
            ManagerEvent::SubagentStopped { agent_id } => Some(
                CliAgentEvent::SubagentStopped { agent_id: agent_id.clone() },
            ),
            ManagerEvent::ElicitationRequested { mcp_server } => Some(
                CliAgentEvent::ElicitationRequested { mcp_server: mcp_server.clone() },
            ),
            ManagerEvent::PromptSubmitted { prompt } => Some(CliAgentEvent::PromptSubmitted { prompt: prompt.clone() }),
            ManagerEvent::AssistantResponded { message } => Some(
                CliAgentEvent::AssistantResponded { message: message.clone() },
            ),
            ManagerEvent::UnreadReset => None,
        }
    }
}

/// The semantic events a hook event raises, in order.
#[verifier::opaque]
pub open spec fn hook_events_view(e: CliAgentHookEvent) -> Seq<EventView> {
    match e {
        CliAgentHookEvent::FileChanged { path, .. } => seq![EventView::FileChanged(path@)],
        CliAgentHookEvent::PermissionRequest { tool_name, .. } => seq![EventView::PermissionRequested(tool_name@)],
        CliAgentHookEvent::TaskCreated { task_id, content, .. } => seq![EventView::TaskCreated(task_id@, content@)],
        CliAgentHookEvent::TaskCompleted { task_id, .. } => seq![EventView::TaskCompleted(task_id@)],
        CliAgentHookEvent::PreCompact { tokens_used, tokens_max, .. } => seq![
            EventView::ContextUsageUpdated(ContextUsage { tokens_used, tokens_max }),
        ],
        CliAgentHookEvent::PostCompact { tokens_used, tokens_max, .. } => seq![
            EventView::ContextUsageUpdated(ContextUsage { tokens_used, tokens_max }),
        ],
        CliAgentHookEvent::InstructionsLoaded { paths, .. } => seq![EventView::RulesLoaded(strings_view(paths@))],
        CliAgentHookEvent::WorktreeCreate { path, branch, .. } => seq![EventView::WorktreeCreated(path@, branch@)],
        CliAgentHookEvent::WorktreeRemove { path, .. } => seq![EventView::WorktreeRemoved(path@)],
        CliAgentHookEvent::SubagentStart { agent_id, agent_type, .. } => seq![
            EventView::SubagentStarted(agent_id@, agent_type@),
        ],
        CliAgentHookEvent::SubagentStop { agent_id, .. } => seq![EventView::SubagentStopped(agent_id@)],
        CliAgentHookEvent::Elicitation { mcp_server, .. } => seq![EventView::ElicitationRequested(mcp_server@)],
        CliAgentHookEvent::UserPromptSubmit { prompt, .. } => seq![EventView::PromptSubmitted(prompt@)],
        CliAgentHookEvent::Stop { last_assistant_message, .. } => seq![
            EventView::AssistantResponded(last_assistant_message@),
        ],
        _ => Seq::empty(),
    }
}

pub open spec fn events_view(v: Seq<ManagerEvent>) -> Seq<EventView> {
    v.map_values(|e: ManagerEvent| manager_event_view(e))
}

fn one_event(e: ManagerEvent) -> (r: Vec<ManagerEvent>)
    ensures
        events_view(r@) == seq![manager_event_view(e)],
{
    let mut v: Vec<ManagerEvent> = Vec::new();
    v.push(e);
    assert(events_view(v@) =~= seq![manager_event_view(e)]);
    v
}

/// The semantic events a hook event raises.
pub fn semantic_events_for(event: &CliAgentHookEvent) -> (r: Vec<ManagerEvent>)
    ensures
        events_view(r@) == hook_events_view(*event),
{
    reveal(hook_events_view);
    match event {
        CliAgentHookEvent::FileChanged { path, .. } => one_event(ManagerEvent::FileChanged { path: path.clone() }),
        CliAgentHookEvent::PermissionRequest { tool_name, .. } => one_event(
            ManagerEvent::PermissionRequested { tool_name: tool_name.clone() },
        ),
        CliAgentHookEvent::TaskCreated { task_id, content, .. } => one_event(
            ManagerEvent::TaskCreated { task_id: task_id.clone(), content: content.clone() },
        ),
        CliAgentHookEvent::TaskCompleted { task_id, .. } => one_event(
            ManagerEvent::TaskCompleted { task_id: task_id.clone() },
        ),
        CliAgentHookEvent::PreCompact { tokens_used, tokens_max, .. } => one_event(
            ManagerEvent::ContextUsageUpdated {
                usage: ContextUsage { tokens_used: *tokens_used, tokens_max: *tokens_max },
            },
        ),
        CliAgentHookEvent::PostCompact { tokens_used, tokens_max, .. } => one_event(
            ManagerEvent::ContextUsageUpdated {
                usage: ContextUsage { tokens_used: *tokens_used, tokens_max: *tokens_max },
            },
        ),
        CliAgentHookEvent::InstructionsLoaded { paths, .. } => one_event(
            ManagerEvent::RulesLoaded { paths: clone_strings(paths) },
        ),
        CliAgentHookEvent::WorktreeCreate { path, branch, .. } => one_event(
            ManagerEvent::WorktreeCreated { path: path.clone(), branch: branch.clone() },
        ),
        CliAgentHookEvent::WorktreeRemove { path, .. } => one_event(
            ManagerEvent::WorktreeRemoved { path: path.clone() },
        ),
        CliAgentHookEvent::SubagentStart { agent_id, agent_type, .. } => one_event(
            ManagerEvent::SubagentStarted { agent_id: agent_id.clone(), agent_type: agent_type.clone() },
        ),
        CliAgentHookEvent::SubagentStop { agent_id, .. } => one_event(
            ManagerEvent::SubagentStopped { agent_id: agent_id.clone() },
        ),
        CliAgentHookEvent::Elicitation { mcp_server, .. } => one_event(
            ManagerEvent::ElicitationRequested { mcp_server: mcp_server.clone() },
        ),
        CliAgentHookEvent::UserPromptSubmit { prompt, .. } => one_event(
            ManagerEvent::PromptSubmitted { prompt: prompt.clone() },
        ),
        CliAgentHookEvent::Stop { last_assistant_message, .. } => one_event(
            ManagerEvent::AssistantResponded { message: last_assistant_message.clone() },
        ),
        _ => {
            let v: Vec<ManagerEvent> = Vec::new();
            assert(events_view(v@) =~= Seq::<EventView>::empty());
            v
        },
    }
}

// ---- sessions -----------------------------------------------------

/// A session as plain values.
pub struct SessionView {
    pub agent: SharedCliAgent,
    pub state: StateView,
    pub pid: u32,
    pub started_at: Instant,
    pub cmdline: Seq<Seq<char>>,
    pub session_id: Option<Seq<char>>,
    pub transcript_path: Option<Seq<char>>,
    pub name: Option<Seq<char>>,
    pub resume_session_name: Option<Seq<char>>,
    pub permission_mode: Option<PermissionMode>,
    pub model: Option<Seq<char>>,
    pub worktree: Option<Seq<char>>,
    pub from_pr: Option<u64>,
    pub rules_loaded: Seq<Seq<char>>,
    pub context_usage: Option<ContextUsage>,
    pub unread: u32,
}

pub open spec fn session_view(s: CliAgentSession) -> SessionView {
    SessionView {
        agent: s.agent,
        state: state_view(s.state),
        pid: s.pid,
        started_at: s.started_at,
        cmdline: strings_view(s.cmdline@),
        session_id: opt_str(s.session_id),
        transcript_path: opt_str(s.transcript_path),
        name: opt_str(s.name),
        resume_session_name: opt_str(s.resume_session_name),
        permission_mode: s.permission_mode,
        model: opt_str(s.model),
        worktree: opt_str(s.worktree),
        from_pr: s.from_pr,
        rules_loaded: strings_view(s.rules_loaded@),
        context_usage: s.context_usage,
        unread: s.unread_events_since_focus,
    }
}

/// What a hook event records on a session besides its state.
#[verifier::opaque]
pub open spec fn metadata_applied(v: SessionView, e: CliAgentHookEvent) -> SessionView {
    match e {
        CliAgentHookEvent::SessionStart { transcript_path, permission_mode, model, .. } => SessionView {
            transcript_path: Some(transcript_path@),
            permission_mode: Some(permission_mode),
            model: Some(model@),
            ..v
        },
        CliAgentHookEvent::InstructionsLoaded { paths, .. } => SessionView { rules_loaded: strings_view(paths@), ..v },
        CliAgentHookEvent::PreCompact { tokens_used, tokens_max, .. } => SessionView {
            context_usage: Some(ContextUsage { tokens_used, tokens_max }),
            ..v
        },
        CliAgentHookEvent::PostCompact { tokens_used, tokens_max, .. } => SessionView {
            context_usage: Some(ContextUsage { tokens_used, tokens_max }),
            ..v
        },
        CliAgentHookEvent::WorktreeCreate { path, .. } => SessionView { worktree: Some(path@), ..v },
        _ => v,
    }
}

proof fn lemma_metadata_keeps(v: SessionView, e: CliAgentHookEvent)
    ensures
        metadata_applied(v, e).session_id == v.session_id,
        metadata_applied(v, e).state == v.state,
        metadata_applied(v, e).unread == v.unread,
{
    reveal(metadata_applied);
}

/// Records a hook event's metadata on the session.
pub fn apply_event_metadata(session: &mut CliAgentSession, event: &CliAgentHookEvent)
    ensures
        session_view(*final(session)) == metadata_applied(session_view(*old(session)), *event),
{
    reveal(metadata_applied);
    match event {
        CliAgentHookEvent::SessionStart { transcript_path, permission_mode, model, .. } => {
            session.transcript_path = Some(transcript_path.clone());
            session.permission_mode = Some(*permission_mode);
            session.model = Some(model.clone());
        },
        CliAgentHookEvent::InstructionsLoaded { paths, .. } => {
            session.rules_loaded = clone_strings(paths);
        },
        CliAgentHookEvent::PreCompact { tokens_used, tokens_max, .. } => {
            session.context_usage = Some(ContextUsage { tokens_used: *tokens_used, tokens_max: *tokens_max });
        },
        CliAgentHookEvent::PostCompact { tokens_used, tokens_max, .. } => {
            session.context_usage = Some(ContextUsage { tokens_used: *tokens_used, tokens_max: *tokens_max });
        },
        CliAgentHookEvent::WorktreeCreate { path, .. } => {
            session.worktree = Some(path.clone());
        },
        _ => {},
    }
}

// ---- the core's data ----------------------------------------------

/// One tracked terminal.
#[derive(Debug, Clone)]
pub struct TerminalRecord {
    pub pty_pid: PtyPid,
    pub pane_id: PaneId,
    pub cwd: String,
    pub session: Option<SessionKey>,
}

pub struct TerminalView {
    pub pty_pid: PtyPid,
    pub pane_id: PaneId,
    pub cwd: Seq<char>,
    pub session: Option<SessionKey>,
}

pub open spec fn terminal_view(t: TerminalRecord) -> TerminalView {
    TerminalView { pty_pid: t.pty_pid, pane_id: t.pane_id, cwd: t.cwd@, session: t.session }
}

/// One session with its drop deadline bookkeeping: `terminated_at` is
/// set when the session reached a finished state.
pub struct SessionEntry {
    pub session: CliAgentSession,
    pub terminated_at: Option<u64>,
}

pub struct EntryView {
    pub session: SessionView,
    pub terminated_at: Option<u64>,
}

pub open spec fn entry_view(e: SessionEntry) -> EntryView {
    EntryView { session: session_view(e.session), terminated_at: e.terminated_at }
}

/// The core as plain values.
#[verifier::ext_equal]
pub struct CoreView {
    pub terminals: Map<PtyPid, TerminalView>,
    pub sessions: Map<SessionKey, EntryView>,
    pub panes: Map<PaneId, PtyPid>,
    pub next_key: u64,
}

/// What the host found when it classified a PTY's children: the agent,
/// its process, the parsed launch flags, and the agent's transcript
/// file for that process (looked up by the host, which owns the file
/// system).
pub struct Classification {
    pub agent: SharedCliAgent,
    pub process: ProcessInfo,
    pub cmdline_match: CliAgentMatch,
    pub transcript_path: Option<String>,
}

pub open spec fn flag_mode(m: CliAgentMatch) -> Option<PermissionMode> {
    match m.permission_mode {
        Some(f) => Some(mode_of_tag(f.0@)),
        None => None,
    }
}

/// The session a classification starts, begun at `started`.
pub open spec fn built_view(c: Classification, started: Instant) -> SessionView {
    SessionView {
        agent: c.agent,
        state: StateView::Starting,
        pid: c.process.pid,
        started_at: started,
        cmdline: strings_view(c.process.cmdline@),
        session_id: None,
        transcript_path: opt_str(c.transcript_path),
        name: opt_str(c.cmdline_match.name),
        resume_session_name: opt_str(c.cmdline_match.resume_session_name),
        permission_mode: flag_mode(c.cmdline_match),
        model: opt_str(c.cmdline_match.model),
        worktree: opt_str(c.cmdline_match.worktree),
        from_pr: c.cmdline_match.from_pr,
        rules_loaded: Seq::empty(),
        context_usage: None,
        unread: 0,
    }
}

/// Every change the core accepts.
pub enum SessionInput {
    RegisterTerminal { pty_pid: PtyPid, pane_id: PaneId, cwd: String },
    UnregisterTerminal { pty_pid: PtyPid },
    /// `None`: no agent runs under this PTY any more.
    ChildProcessesDetected { pty_pid: PtyPid, classification: Option<Classification> },
    HookEnvelopeParsed { envelope: ParsedHookEvent },
    DropTtlExpired { key: SessionKey },
    PaneFocused { pane_id: PaneId },
}

/// What the host must carry out.
#[derive(Debug, Clone)]
pub enum SessionEffect {
    StartWatcher { pty_pid: PtyPid },
    StopWatcher { pty_pid: PtyPid },
    SetWatcherMode { pty_pid: PtyPid, mode: WatcherMode },
    EmitEvent { key: SessionKey, event: ManagerEvent },
    /// Arm the drop timer: feed `DropTtlExpired` back at time `at`.
    ScheduleDropTtl { key: SessionKey, at: u64 },
    /// The session is gone from the core; release what was kept for it.
    DropSession { key: SessionKey },
}

pub enum EffectView {
    StartWatcher(PtyPid),
    StopWatcher(PtyPid),
    SetWatcherMode(PtyPid, WatcherMode),
    Emit(SessionKey, EventView),
    ScheduleDropTtl(SessionKey, u64),
    DropSession(SessionKey),
}

pub open spec fn effect_view(e: SessionEffect) -> EffectView {
    match e {
        SessionEffect::StartWatcher { pty_pid } => EffectView::StartWatcher(pty_pid),
        SessionEffect::StopWatcher { pty_pid } => EffectView::StopWatcher(pty_pid),
        SessionEffect::SetWatcherMode { pty_pid, mode } => EffectView::SetWatcherMode(pty_pid, mode),
        SessionEffect::EmitEvent { key, event } => EffectView::Emit(key, manager_event_view(event)),
        SessionEffect::ScheduleDropTtl { key, at } => EffectView::ScheduleDropTtl(key, at),
        SessionEffect::DropSession { key } => EffectView::DropSession(key),
    }
}

pub open spec fn effects_view(v: Seq<SessionEffect>) -> Seq<EffectView> {
    v.map_values(|e: SessionEffect| effect_view(e))
}

// ---- invariants and steps -----------------------------------------

/// What holds of the core between any two inputs.
pub open spec fn core_invariants(c: CoreView) -> bool {
    &&& forall|p: PtyPid| #[trigger] c.terminals.contains_key(p) ==> c.terminals[p].pty_pid == p
    &&& forall|p: PtyPid| #[trigger] c.terminals.contains_key(p) ==> (c.terminals[p].session matches Some(k)
        ==> c.sessions.contains_key(k))
    &&& forall|p: PtyPid| #[trigger] c.terminals.contains_key(p) ==> c.panes.contains_key(c.terminals[p].pane_id)
        && c.panes[c.terminals[p].pane_id] == p
    &&& forall|pane: PaneId| #[trigger] c.panes.contains_key(pane) ==> c.terminals.contains_key(c.panes[pane])
        && c.terminals[c.panes[pane]].pane_id == pane
    &&& forall|p1: PtyPid, p2: PtyPid|
        #[trigger] c.terminals.contains_key(p1) && #[trigger] c.terminals.contains_key(p2) && c.terminals[p1].session
            is Some && c.terminals[p1].session == c.terminals[p2].session ==> p1 == p2
    &&& forall|k1: SessionKey, k2: SessionKey|
        #[trigger] c.sessions.contains_key(k1) && #[trigger] c.sessions.contains_key(k2)
            && c.sessions[k1].session.session_id is Some && c.sessions[k1].session.session_id
            == c.sessions[k2].session.session_id ==> k1 == k2
    &&& forall|k: SessionKey| #[trigger] c.sessions.contains_key(k) ==> 1 <= k < c.next_key
    &&& 1 <= c.next_key
}

/// Inputs the core accepts in state `c` at time `now`: a new terminal
/// brings a pane not yet in use, a new session needs a fresh key, and
/// drop deadlines must fit the clock.
pub open spec fn input_ok(c: CoreView, input: SessionInput, now: u64) -> bool {
    &&& now <= u64::MAX - SESSION_DROP_TTL_MS
    &&& c.next_key < u64::MAX
    &&& match input {
        SessionInput::RegisterTerminal { pty_pid, pane_id, .. } => c.terminals.contains_key(pty_pid)
            || !c.panes.contains_key(pane_id),
        _ => true,
    }
}

pub open spec fn no_change(c: CoreView, n: CoreView, fx: Seq<EffectView>) -> bool {
    n == c && fx == Seq::<EffectView>::empty()
}

pub open spec fn register_step(c: CoreView, pty: PtyPid, pane: PaneId, cwd: Seq<char>, n: CoreView, fx: Seq<EffectView>) -> bool {
    if c.terminals.contains_key(pty) {
        &&& n == CoreView { terminals: c.terminals.insert(pty, TerminalView { cwd, ..c.terminals[pty] }), ..c }
        &&& fx == Seq::<EffectView>::empty()
    } else {
        &&& n == CoreView {
            terminals: c.terminals.insert(pty, TerminalView { pty_pid: pty, pane_id: pane, cwd, session: None }),
            panes: c.panes.insert(pane, pty),
            ..c
        }
        &&& fx == seq![EffectView::StartWatcher(pty)]
    }
}

pub open spec fn unregister_step(c: CoreView, pty: PtyPid, n: CoreView, fx: Seq<EffectView>) -> bool {
    if !c.terminals.contains_key(pty) {
        no_change(c, n, fx)
    } else {
        let t = c.terminals[pty];
        let base = CoreView { terminals: c.terminals.remove(pty), panes: c.panes.remove(t.pane_id), ..c };
        match t.session {
            Some(k) => {
                &&& n == CoreView { sessions: c.sessions.remove(k), ..base }
                &&& fx == seq![
                    EffectView::StopWatcher(pty),
                    EffectView::Emit(k, EventView::SessionEnded(None)),
                    EffectView::DropSession(k),
                ]
            },
            None => n == base && fx == seq![EffectView::StopWatcher(pty)],
        }
    }
}

pub open spec fn is_finished(s: StateView) -> bool {
    s is Completed || s is Errored
}

pub open spec fn children_step(
    c: CoreView,
    pty: PtyPid,
    class: Option<Classification>,
    now: u64,
    n: CoreView,
    fx: Seq<EffectView>,
) -> bool {
    if !c.terminals.contains_key(pty) {
        no_change(c, n, fx)
    } else {
        let t = c.terminals[pty];
        match (class, t.session) {
            (Some(cl), None) => {
                let k = c.next_key;
                &&& exists|started: Instant|
                    n == CoreView {
                        terminals: c.terminals.insert(pty, TerminalView { session: Some(k), ..t }),
                        sessions: c.sessions.insert(k, EntryView { session: built_view(cl, started), terminated_at: None }),
                        next_key: (k + 1) as u64,
                        ..c
                    }
                &&& fx == seq![
                    EffectView::SetWatcherMode(pty, WatcherMode::Warm),
                    EffectView::Emit(k, EventView::SessionStarted),
                ]
            },
            (None, Some(k)) => {
                let e = c.sessions[k];
                if !is_finished(e.session.state) {
                    &&& n == CoreView {
                        sessions: c.sessions.insert(
                            k,
                            EntryView {
                                session: SessionView { state: StateView::Completed(None), ..e.session },
                                terminated_at: Some(now),
                            },
                        ),
                        ..c
                    }
                    &&& fx == seq![
                        EffectView::Emit(k, EventView::StateChanged(e.session.state, StateView::Completed(None))),
                        EffectView::Emit(k, EventView::SessionEnded(None)),
                        EffectView::ScheduleDropTtl(k, (now + SESSION_DROP_TTL_MS) as u64),
                        EffectView::SetWatcherMode(pty, WatcherMode::Hot),
                    ]
                } else {
                    no_change(c, n, fx)
                }
            },
            _ => no_change(c, n, fx),
        }
    }
}

/// The terminal a session is attached to.
pub open spec fn terminal_of(t: Map<PtyPid, TerminalView>, k: SessionKey) -> Option<PtyPid> {
    if exists|p: PtyPid| t.contains_key(p) && t[p].session == Some(k) {
        Some(choose|p: PtyPid| t.contains_key(p) && t[p].session == Some(k))
    } else {
        None
    }
}

pub open spec fn cwd_matches(t: Map<PtyPid, TerminalView>, p: PtyPid, cwd: Seq<char>) -> bool {
    t.contains_key(p) && t[p].cwd == cwd && t[p].session is Some
}

/// The session of the lowest-numbered terminal in `cwd` that has one.
pub open spec fn first_cwd_session(t: Map<PtyPid, TerminalView>, cwd: Seq<char>) -> Option<SessionKey> {
    if exists|p: PtyPid| cwd_matches(t, p, cwd) {
        let p = choose|p: PtyPid| cwd_matches(t, p, cwd) && forall|q: PtyPid| cwd_matches(t, q, cwd) ==> p <= q;
        t[p].session
    } else {
        None
    }
}

/// The working directory an event carries, for the events that do.
pub open spec fn event_cwd(e: CliAgentHookEvent) -> Option<Seq<char>> {
    match e {
        CliAgentHookEvent::SessionStart { cwd, .. } => Some(cwd@),
        CliAgentHookEvent::CwdChanged { cwd, .. } => Some(cwd@),
        _ => None,
    }
}

/// The session that already carries `sid`.
pub open spec fn session_with_id(s: Map<SessionKey, EntryView>, sid: Seq<char>) -> Option<SessionKey> {
    if exists|k: SessionKey| s.contains_key(k) && s[k].session.session_id == Some(sid) {
        Some(choose|k: SessionKey| s.contains_key(k) && s[k].session.session_id == Some(sid))
    } else {
        None
    }
}

/// The session a hook event is routed to: by its session id, else (for
/// events that carry a cwd) by the cwd of a terminal with a session.
pub open spec fn hook_key(c: CoreView, e: CliAgentHookEvent) -> Option<SessionKey> {
    match session_with_id(c.sessions, spec_session_id(e)@) {
        Some(k) => Some(k),
        None => match event_cwd(e) {
            Some(cwd) => first_cwd_session(c.terminals, cwd),
            None => None,
        },
    }
}

pub open spec fn sat_inc(x: u32) -> u32 {
    if x == u32::MAX { x } else { (x + 1) as u32 }
}

/// A routed hook event with the agent's reading `hs` of it.
pub open spec fn hook_step(
    c: CoreView,
    e: CliAgentHookEvent,
    hs: Option<StateView>,
    now: u64,
    n: CoreView,
    fx: Seq<EffectView>,
) -> bool {
    match hook_key(c, e) {
        None => no_change(c, n, fx),
        Some(k) => {
            let terms = match e {
                CliAgentHookEvent::CwdChanged { cwd, .. } => match terminal_of(c.terminals, k) {
                    Some(p) => c.terminals.insert(p, TerminalView { cwd: cwd@, ..c.terminals[p] }),
                    None => c.terminals,
                },
                _ => c.terminals,
            };
            let e0 = c.sessions[k];
            let s1 = SessionView {
                session_id: if e0.session.session_id is None {
                    Some(spec_session_id(e)@)
                } else {
                    e0.session.session_id
                },
                unread: sat_inc(e0.session.unread),
                ..e0.session
            };
            let s2 = metadata_applied(s1, e);
            let emitted = hook_events_view(e).map_values(|ev: EventView| EffectView::Emit(k, ev));
            if hs is Some && hs->0 != s2.state && !is_finished(s2.state) {
                let ns = hs->0;
                let ended = match ns {
                    StateView::Completed(x) => seq![
                        EffectView::Emit(k, EventView::SessionEnded(x)),
                        EffectView::ScheduleDropTtl(k, (now + SESSION_DROP_TTL_MS) as u64),
                    ],
                    _ => Seq::empty(),
                };
                &&& n == CoreView {
                    terminals: terms,
                    sessions: c.sessions.insert(
                        k,
                        EntryView {
                            session: SessionView { state: ns, ..s2 },
                            terminated_at: if ns is Completed { Some(now) } else { e0.terminated_at },
                        },
                    ),
                    ..c
                }
                &&& fx == seq![EffectView::Emit(k, EventView::StateChanged(s2.state, ns))] + ended + emitted
            } else {
                &&& n == CoreView {
                    terminals: terms,
                    sessions: c.sessions.insert(k, EntryView { session: s2, terminated_at: e0.terminated_at }),
                    ..c
                }
                &&& fx == emitted
            }
        },
    }
}

pub open spec fn drop_step(c: CoreView, key: SessionKey, now: u64, n: CoreView, fx: Seq<EffectView>) -> bool {
    if c.sessions.contains_key(key) && c.sessions[key].terminated_at is Some && now
        >= c.sessions[key].terminated_at->0 + SESSION_DROP_TTL_MS {
        let terms = match terminal_of(c.terminals, key) {
            Some(p) => c.terminals.insert(p, TerminalView { session: None, ..c.terminals[p] }),
            None => c.terminals,
        };
        &&& n == CoreView { terminals: terms, sessions: c.sessions.remove(key), ..c }
        &&& fx == seq![EffectView::DropSession(key)]
    } else {
        no_change(c, n, fx)
    }
}

pub open spec fn focus_step(c: CoreView, pane: PaneId, n: CoreView, fx: Seq<EffectView>) -> bool {
    if c.panes.contains_key(pane) && c.terminals.contains_key(c.panes[pane])
        && c.terminals[c.panes[pane]].session is Some && c.sessions.contains_key(
        c.terminals[c.panes[pane]].session->0,
    ) && c.sessions[c.terminals[c.panes[pane]].session->0].session.unread > 0 {
        let k = c.terminals[c.panes[pane]].session->0;
        let e = c.sessions[k];
        &&& n == CoreView {
            sessions: c.sessions.insert(k, EntryView { session: SessionView { unread: 0, ..e.session }, ..e }),
            ..c
        }
        &&& fx == seq![EffectView::Emit(k, EventView::UnreadReset)]
    } else {
        no_change(c, n, fx)
    }
}

/// What one input does to the core and which effects it returns.
/// `r` is the reading of hook `e` by the agent of the session `e` routes
/// to in `c`; `None` where it routes nowhere.
pub open spec fn agent_reading(c: CoreView, e: CliAgentHookEvent, r: Option<CliAgentSessionState>) -> bool {
    match hook_key(c, e) {
        Some(k) => c.sessions[k].session.agent.hook_reading(e, r),
        None => r is None,
    }
}

pub open spec fn handle_step(c: CoreView, input: SessionInput, now: u64, n: CoreView, fx: Seq<EffectView>) -> bool {
    match input {
        SessionInput::RegisterTerminal { pty_pid, pane_id, cwd } => register_step(c, pty_pid, pane_id, cwd@, n, fx),
        SessionInput::UnregisterTerminal { pty_pid } => unregister_step(c, pty_pid, n, fx),
        SessionInput::ChildProcessesDetected { pty_pid, classification } => children_step(
            c,
            pty_pid,
            classification,
            now,
            n,
            fx,
        ),
        SessionInput::HookEnvelopeParsed { envelope } => exists|r: Option<CliAgentSessionState>|
            agent_reading(c, envelope.event, r) && hook_step(c, envelope.event, opt_state_view(r), now, n, fx),
        SessionInput::DropTtlExpired { key } => drop_step(c, key, now, n, fx),
        SessionInput::PaneFocused { pane_id } => focus_step(c, pane_id, n, fx),
    }
}

proof fn lemma_min_cwd_terminal(t: Map<PtyPid, TerminalView>, cwd: Seq<char>, p0: PtyPid)
    requires
        cwd_matches(t, p0, cwd),
    ensures
        exists|p: PtyPid| cwd_matches(t, p, cwd) && forall|q: PtyPid| cwd_matches(t, q, cwd) ==> p <= q,
    decreases p0,
{
    if exists|q: PtyPid| cwd_matches(t, q, cwd) && q < p0 {
        let q = choose|q: PtyPid| cwd_matches(t, q, cwd) && q < p0;
        lemma_min_cwd_terminal(t, cwd, q);
    } else {
        assert(forall|q: PtyPid| cwd_matches(t, q, cwd) ==> p0 <= q);
    }
}

#[verifier::spinoff_prover]
proof fn lemma_hook_key_in_sessions(c: CoreView, e: CliAgentHookEvent)
    requires
        core_invariants(c),
    ensures
        hook_key(c, e) matches Some(k) ==> c.sessions.contains_key(k),
{
    if session_with_id(c.sessions, spec_session_id(e)@) is None && event_cwd(e) is Some {
        let cwd = event_cwd(e)->0;
        if exists|p: PtyPid| cwd_matches(c.terminals, p, cwd) {
            let p0 = choose|p: PtyPid| cwd_matches(c.terminals, p, cwd);
            lemma_min_cwd_terminal(c.terminals, cwd, p0);
            let p = choose|p: PtyPid|
                cwd_matches(c.terminals, p, cwd) && forall|q: PtyPid| cwd_matches(c.terminals, q, cwd) ==> p <= q;
            assert(c.terminals.contains_key(p));
            assert(first_cwd_session(c.terminals, cwd) == c.terminals[p].session);
        }
    }
}

#[verifier::spinoff_prover]
proof fn lemma_hook_step_keeps_keys(c: CoreView, e: CliAgentHookEvent, hs: Option<StateView>, now: u64, n: CoreView, fx: Seq<EffectView>)
    requires
        core_invariants(c),
        hook_step(c, e, hs, now, n, fx),
    ensures
        n.next_key == c.next_key,
        forall|k: SessionKey| #[trigger] n.sessions.contains_key(k) ==> c.sessions.contains_key(k),
{
    lemma_hook_key_in_sessions(c, e);
}

/// Session keys are never reused: a step never lowers the next key,
/// and every session it adds carries a key at or above the previous
/// next key, so none of the keys issued before.
pub proof fn lemma_session_keys_never_reused(
    c: CoreView,
    input: SessionInput,
    now: u64,
    n: CoreView,
    fx: Seq<EffectView>,
)
    requires
        core_invariants(c),
        input_ok(c, input, now),
        handle_step(c, input, now, n, fx),
    ensures
        n.next_key >= c.next_key,
        forall|k: SessionKey|
            #[trigger] n.sessions.contains_key(k) && !c.sessions.contains_key(k) ==> c.next_key <= k < n.next_key,
{
    match input {
        SessionInput::HookEnvelopeParsed { envelope } => {
            let hs = choose|hs: Option<StateView>| hook_step(c, envelope.event, hs, now, n, fx);
            lemma_hook_step_keeps_keys(c, envelope.event, hs, now, n, fx);
        },
        SessionInput::RegisterTerminal { pty_pid, pane_id, cwd } => {
            assert(n.sessions == c.sessions && n.next_key == c.next_key);
        },
        SessionInput::UnregisterTerminal { pty_pid } => {
            assert(n.next_key == c.next_key);
            assert(forall|k: SessionKey| #[trigger] n.sessions.contains_key(k) ==> c.sessions.contains_key(k));
        },
        SessionInput::ChildProcessesDetected { pty_pid, classification } => {
            if c.terminals.contains_key(pty_pid) && classification is Some && c.terminals[pty_pid].session is None {
                let k = c.next_key;
                let started = choose|started: Instant|
                    n == CoreView {
                        terminals: c.terminals.insert(pty_pid, TerminalView { session: Some(k), ..c.terminals[pty_pid] }),
                        sessions: c.sessions.insert(
                            k,
                            EntryView { session: built_view(classification->0, started), terminated_at: None },
                        ),
                        next_key: (k + 1) as u64,
                        ..c
                    };
                assert(n.next_key == k + 1);
            } else {
                assert(n.next_key == c.next_key);
                assert(forall|k: SessionKey| #[trigger] n.sessions.contains_key(k) ==> c.sessions.contains_key(k));
            }
        },
        SessionInput::DropTtlExpired { key } => {
            assert(n.next_key == c.next_key);
            assert(forall|k: SessionKey| #[trigger] n.sessions.contains_key(k) ==> c.sessions.contains_key(k));
        },
        SessionInput::PaneFocused { pane_id } => {
            assert(n.next_key == c.next_key);
            assert(forall|k: SessionKey| #[trigger] n.sessions.contains_key(k) ==> c.sessions.contains_key(k));
        },
    }
}

/// A hook event never raises a state change on its own.
proof fn lemma_hook_events_no_state_change(e: CliAgentHookEvent)
    ensures
        forall|i: int| 0 <= i < hook_events_view(e).len() ==> !(#[trigger] hook_events_view(e)[i] is StateChanged),
{
    reveal(hook_events_view);
    assert forall|i: int| 0 <= i < hook_events_view(e).len() implies !(#[trigger] hook_events_view(e)[i] is StateChanged) by {
        assert(hook_events_view(e).len() <= 1);
        assert(i == 0);
    }
}

/// A session that reached `Completed` or `Errored` stays there until it
/// is dropped: a hook event routed to it, whatever the agent reads
/// from it, leaves its state alone and emits no state change.
pub proof fn lemma_finished_session_ignores_hooks(
    c: CoreView,
    e: CliAgentHookEvent,
    hs: Option<StateView>,
    now: u64,
    n: CoreView,
    fx: Seq<EffectView>,
)
    requires
        core_invariants(c),
        hook_step(c, e, hs, now, n, fx),
        hook_key(c, e) matches Some(k) && is_finished(c.sessions[k].session.state),
    ensures
        n.sessions[hook_key(c, e)->0].session.state == c.sessions[hook_key(c, e)->0].session.state,
        forall|i: int| 0 <= i < fx.len() ==> !(#[trigger] fx[i] matches EffectView::Emit(_, EventView::StateChanged(_, _))),
{
    let k = hook_key(c, e)->0;
    let e0 = c.sessions[k];
    let s1 = SessionView {
        session_id: if e0.session.session_id is None { Some(spec_session_id(e)@) } else { e0.session.session_id },
        unread: sat_inc(e0.session.unread),
        ..e0.session
    };
    lemma_metadata_keeps(s1, e);
    lemma_hook_events_no_state_change(e);
    let emitted = hook_events_view(e).map_values(|ev: EventView| EffectView::Emit(k, ev));
    assert(fx == emitted);
    assert forall|i: int| 0 <= i < fx.len() implies !(#[trigger] fx[i] matches EffectView::Emit(_, EventView::StateChanged(_, _))) by {
        assert(fx[i] == EffectView::Emit(k, hook_events_view(e)[i]));
    }
}

/// Whatever input the core handles, a finished session that is still
/// there afterwards keeps its state.
pub proof fn lemma_finished_sessions_stay(
    c: CoreView,
    input: SessionInput,
    now: u64,
    n: CoreView,
    fx: Seq<EffectView>,
)
    requires
        core_invariants(c),
        input_ok(c, input, now),
        handle_step(c, input, now, n, fx),
    ensures
        forall|k: SessionKey|
            #[trigger] c.sessions.contains_key(k) && is_finished(c.sessions[k].session.state) && n.sessions.contains_key(k)
                ==> n.sessions[k].session.state == c.sessions[k].session.state,
{
    match input {
        SessionInput::HookEnvelopeParsed { envelope } => {
            let e = envelope.event;
            let hs = choose|hs: Option<StateView>| hook_step(c, e, hs, now, n, fx);
            lemma_hook_key_in_sessions(c, e);
            if hook_key(c, e) is Some {
                let k = hook_key(c, e)->0;
                let e0 = c.sessions[k];
                let s1 = SessionView {
                    session_id: if e0.session.session_id is None { Some(spec_session_id(e)@) } else { e0.session.session_id },
                    unread: sat_inc(e0.session.unread),
                    ..e0.session
                };
                lemma_metadata_keeps(s1, e);
            }
        },
        SessionInput::ChildProcessesDetected { pty_pid, classification } => {
            lemma_session_keys_never_reused(c, input, now, n, fx);
        },
        _ => {},
    }
}

/// Registering a terminal that is already known only replaces its
/// working directory: no effect, the rest of the core unchanged.
pub proof fn lemma_register_known_terminal(
    c: CoreView,
    pty_pid: PtyPid,
    pane_id: PaneId,
    cwd: String,
    now: u64,
    n: CoreView,
    fx: Seq<EffectView>,
)
    requires
        handle_step(c, SessionInput::RegisterTerminal { pty_pid, pane_id, cwd }, now, n, fx),
        c.terminals.contains_key(pty_pid),
    ensures
        fx.len() == 0,
        n.terminals == c.terminals.insert(pty_pid, TerminalView { cwd: cwd@, ..c.terminals[pty_pid] }),
        n.sessions == c.sessions,
        n.panes == c.panes,
        n.next_key == c.next_key,
{
}

// ---- the core -----------------------------------------------------

/// The session manager's data: terminals, sessions, and two indexes
/// (session id to key, pane to terminal) kept consistent with them.
pub struct SessionCore {
    terminals: BTreeMap<PtyPid, TerminalRecord>,
    sessions: BTreeMap<SessionKey, SessionEntry>,
    session_id_index: Vec<(String, SessionKey)>,
    pane_index: BTreeMap<PaneId, PtyPid>,
    next_session_key: SessionKey,
}

pub open spec fn terminals_view(m: Map<PtyPid, TerminalRecord>) -> Map<PtyPid, TerminalView> {
    m.map_values(|t: TerminalRecord| terminal_view(t))
}

pub open spec fn sessions_view(m: Map<SessionKey, SessionEntry>) -> Map<SessionKey, EntryView> {
    m.map_values(|e: SessionEntry| entry_view(e))
}

proof fn lemma_terminals_insert(m: Map<PtyPid, TerminalRecord>, p: PtyPid, t: TerminalRecord)
    ensures
        terminals_view(m.insert(p, t)) == terminals_view(m).insert(p, terminal_view(t)),
{
    assert(terminals_view(m.insert(p, t)) =~= terminals_view(m).insert(p, terminal_view(t)));
}

proof fn lemma_terminals_remove(m: Map<PtyPid, TerminalRecord>, p: PtyPid)
    ensures
        terminals_view(m.remove(p)) == terminals_view(m).remove(p),
{
    assert(terminals_view(m.remove(p)) =~= terminals_view(m).remove(p));
}

proof fn lemma_sessions_insert(m: Map<SessionKey, SessionEntry>, k: SessionKey, e: SessionEntry)
    ensures
        sessions_view(m.insert(k, e)) == sessions_view(m).insert(k, entry_view(e)),
{
    assert(sessions_view(m.insert(k, e)) =~= sessions_view(m).insert(k, entry_view(e)));
}

proof fn lemma_sessions_remove(m: Map<SessionKey, SessionEntry>, k: SessionKey)
    ensures
        sessions_view(m.remove(k)) == sessions_view(m).remove(k),
{
    assert(sessions_view(m.remove(k)) =~= sessions_view(m).remove(k));
}

impl View for SessionCore {
    type V = CoreView;

    closed spec fn view(&self) -> CoreView {
        CoreView {
            terminals: terminals_view(self.terminals@),
            sessions: sessions_view(self.sessions@),
            panes: self.pane_index@,
            next_key: self.next_session_key,
        }
    }
}

impl SessionCore {
    /// The invariants, and the session-id index holds exactly one entry
    /// per session that has an id.
    pub closed spec fn wf(&self) -> bool {
        &&& core_invariants(self@)
        &&& index_ok(self.session_id_index@, self@.sessions)
    }

    /// An empty core; the first session key is 1.
    pub fn new() -> (r: Self)
        ensures
            r.wf(),
            r@.terminals == Map::<PtyPid, TerminalView>::empty(),
            r@.sessions == Map::<SessionKey, EntryView>::empty(),
            r@.panes == Map::<PaneId, PtyPid>::empty(),
            r@.next_key == 1,
    {
        let r = SessionCore {
            terminals: BTreeMap::new(),
            sessions: BTreeMap::new(),
            session_id_index: Vec::new(),
            pane_index: BTreeMap::new(),
            next_session_key: 1,
        };
        assert(r@.terminals =~= Map::<PtyPid, TerminalView>::empty());
        assert(r@.sessions =~= Map::<SessionKey, EntryView>::empty());
        r
    }

    pub fn terminal(&self, pty_pid: PtyPid) -> (r: Option<&TerminalRecord>)
        ensures
            match r {
                Some(t) => self@.terminals.contains_key(pty_pid) && terminal_view(*t) == self@.terminals[pty_pid],
                None => !self@.terminals.contains_key(pty_pid),
            },
    {
        self.terminals.get(&pty_pid)
    }

    pub fn terminal_for_pane(&self, pane_id: PaneId) -> (r: Option<&TerminalRecord>)
        requires
            self.wf(),
        ensures
            match r {
                Some(t) => self@.panes.contains_key(pane_id) && self@.terminals.contains_key(self@.panes[pane_id])
                    && terminal_view(*t) == self@.terminals[self@.panes[pane_id]],
                None => !self@.panes.contains_key(pane_id),
            },
    {
        match self.pane_index.get(&pane_id) {
            Some(pty) => self.terminals.get(pty),
            None => None,
        }
    }

    pub fn session(&self, key: SessionKey) -> (r: Option<&CliAgentSession>)
        ensures
            match r {
                Some(s) => self@.sessions.contains_key(key) && session_view(*s) == self@.sessions[key].session,
                None => !self@.sessions.contains_key(key),
            },
    {
        match self.sessions.get(&key) {
            Some(entry) => Some(&entry.session),
            None => None,
        }
    }

    pub fn session_for_pane(&self, pane_id: PaneId) -> (r: Option<&CliAgentSession>)
        requires
            self.wf(),
        ensures
            match r {
                Some(s) => self@.panes.contains_key(pane_id) && self@.terminals[self@.panes[pane_id]].session is Some
                    && self@.sessions.contains_key(self@.terminals[self@.panes[pane_id]].session->0) && session_view(*s)
                    == self@.sessions[self@.terminals[self@.panes[pane_id]].session->0].session,
                None => !(self@.panes.contains_key(pane_id) && self@.terminals[self@.panes[pane_id]].session is Some),
            },
    {
        match self.terminal_for_pane(pane_id) {
            Some(t) => match t.session {
                Some(key) => self.session(key),
                None => None,
            },
            None => None,
        }
    }

    /// The index position holding `sid`.
    fn index_position(&self, sid: &str) -> (r: Option<usize>)
        ensures
            match r {
                Some(i) => i < self.session_id_index@.len() && self.session_id_index@[i as int].0@ == sid@,
                None => forall|i: int|
                    0 <= i < self.session_id_index@.len() ==> (#[trigger] self.session_id_index@[i]).0@ != sid@,
            },
    {
        let mut i: usize = 0;
        while i < self.session_id_index.len()
            invariant
                i <= self.session_id_index@.len(),
                forall|j: int| 0 <= j < i ==> (#[trigger] self.session_id_index@[j]).0@ != sid@,
            decreases self.session_id_index@.len() - i,
        {
            if str_eq(self.session_id_index[i].0.as_str(), sid) {
                return Some(i);
            }
            i += 1;
        }
        None
    }

    /// The session whose id is `session_id`.
    pub fn session_by_session_id(&self, session_id: &str) -> (r: Option<&CliAgentSession>)
        requires
            self.wf(),
        ensures
            match r {
                Some(s) => session_with_id(self@.sessions, session_id@) matches Some(k)
                    && session_view(*s) == self@.sessions[k].session,
                None => session_with_id(self@.sessions, session_id@) is None,
            },
    {
        match self.index_position(session_id) {
            Some(i) => {
                let key = self.session_id_index[i].1;
                proof {
                    let ix = self.session_id_index@;
                    assert(self@.sessions.contains_key(ix[i as int].1));
                    let k = choose|k: SessionKey|
                        self@.sessions.contains_key(k) && self@.sessions[k].session.session_id == Some(session_id@);
                    assert(k == key);
                }
                self.session(key)
            },
            None => {
                proof {
                    if exists|k: SessionKey|
                        self@.sessions.contains_key(k) && self@.sessions[k].session.session_id == Some(session_id@) {
                        let k = choose|k: SessionKey|
                            self@.sessions.contains_key(k) && self@.sessions[k].session.session_id == Some(session_id@);
                        let i = choose|i: int|
                            0 <= i < self.session_id_index@.len() && self.session_id_index@[i].1 == k;
                        assert(self.session_id_index@[i].0@ == session_id@);
                    }
                }
                None
            },
        }
    }

    pub fn terminals_count(&self) -> (r: usize)
        ensures
            r == self@.terminals.len(),
    {
        assert(self@.terminals.dom() =~= self.terminals@.dom());
        self.terminals.len()
    }

    pub fn sessions_count(&self) -> (r: usize)
        ensures
            r == self@.sessions.len(),
    {
        assert(self@.sessions.dom() =~= self.sessions@.dom());
        self.sessions.len()
    }
}

impl SessionCore {
    /// Hands out the next session key.
    pub fn allocate_session_key(&mut self) -> (key: SessionKey)
        ensures
            key == old(self)@.next_key,
            final(self)@ == (CoreView {
                next_key: if old(self)@.next_key == u64::MAX { u64::MAX } else { (old(self)@.next_key + 1) as u64 },
                ..old(self)@
            }),
            old(self).wf() ==> final(self).wf(),
    {
        let key = self.next_session_key;
        self.next_session_key = self.next_session_key.saturating_add(1);
        assert(self@ =~= (CoreView {
            next_key: if old(self)@.next_key == u64::MAX { u64::MAX } else { (old(self)@.next_key + 1) as u64 },
            ..old(self)@
        }));
        key
    }

    fn on_register_terminal(&mut self, pty_pid: PtyPid, pane_id: PaneId, cwd: String) -> (fx: Vec<SessionEffect>)
        requires
            old(self).wf(),
            old(self)@.terminals.contains_key(pty_pid) || !old(self)@.panes.contains_key(pane_id),
        ensures
            final(self).wf(),
            register_step(old(self)@, pty_pid, pane_id, cwd@, final(self)@, effects_view(fx@)),
    {
        let ghost c = self@;
        let ghost raw = self.terminals@;
        let mut effects: Vec<SessionEffect> = Vec::new();
        assert(effects_view(effects@) =~= Seq::<EffectView>::empty());
        match self.terminals.remove(&pty_pid) {
            Some(mut t) => {
                t.cwd = cwd;
                self.terminals.insert(pty_pid, t);
                proof {
                    assert(raw.remove(pty_pid).insert(pty_pid, t) =~= raw.insert(pty_pid, t));
                    lemma_terminals_insert(raw, pty_pid, t);
                    assert(self@ =~= CoreView {
                        terminals: c.terminals.insert(pty_pid, TerminalView { cwd: cwd@, ..c.terminals[pty_pid] }),
                        ..c
                    });
                }
            },
            None => {
                let rec = TerminalRecord { pty_pid, pane_id, cwd, session: None };
                self.terminals.insert(pty_pid, rec);
                self.pane_index.insert(pane_id, pty_pid);
                effects.push(SessionEffect::StartWatcher { pty_pid });
                proof {
                    lemma_terminals_insert(raw, pty_pid, rec);
                    assert(self@ =~= CoreView {
                        terminals: c.terminals.insert(
                            pty_pid,
                            TerminalView { pty_pid, pane_id, cwd: cwd@, session: None },
                        ),
                        panes: c.panes.insert(pane_id, pty_pid),
                        ..c
                    });
                    assert(effects_view(effects@) =~= seq![EffectView::StartWatcher(pty_pid)]);
                }
            },
        }
        proof {
            assert(effects_view(effects@).len() == effects@.len());
            let n = self@;
            assert forall|p1: PtyPid, p2: PtyPid|
                #[trigger] n.terminals.contains_key(p1) && #[trigger] n.terminals.contains_key(p2)
                    && n.terminals[p1].session is Some && n.terminals[p1].session == n.terminals[p2].session implies p1
                == p2 by {
                assert(c.terminals.contains_key(p1) && c.terminals.contains_key(p2));
            }
        }
        effects
    }

    fn on_pane_focused(&mut self, pane_id: PaneId) -> (fx: Vec<SessionEffect>)
        requires
            old(self).wf(),
        ensures
            final(self).wf(),
            focus_step(old(self)@, pane_id, final(self)@, effects_view(fx@)),
    {
        let ghost c = self@;
        let ghost raw = self.sessions@;
        let mut effects: Vec<SessionEffect> = Vec::new();
        assert(effects_view(effects@) =~= Seq::<EffectView>::empty());
        let pty = match self.pane_index.get(&pane_id) {
            Some(p) => *p,
            None => {
                return effects;
            },
        };
        let key = match self.terminals.get(&pty) {
            Some(t) => match t.session {
                Some(k) => k,
                None => {
                    return effects;
                },
            },
            None => {
                return effects;
            },
        };
        let mut entry = match self.sessions.remove(&key) {
            Some(e) => e,
            None => {
                return effects;
            },
        };
        proof {
            lemma_sessions_remove(raw, key);
        }
        if entry.session.unread_events_since_focus > 0 {
            entry.session.unread_events_since_focus = 0;
            effects.push(SessionEffect::EmitEvent { key, event: ManagerEvent::UnreadReset });
            self.sessions.insert(key, entry);
            proof {
                lemma_sessions_insert(raw.remove(key), key, entry);
                assert(sessions_view(raw.remove(key)).insert(key, entry_view(entry)) =~= c.sessions.insert(
                    key,
                    EntryView {
                        session: SessionView { unread: 0, ..c.sessions[key].session },
                        ..c.sessions[key]
                    },
                ));
                assert(self@ =~= CoreView {
                    sessions: c.sessions.insert(
                        key,
                        EntryView {
                            session: SessionView { unread: 0, ..c.sessions[key].session },
                            ..c.sessions[key]
                        },
                    ),
                    ..c
                });
                assert(effects_view(effects@) =~= seq![EffectView::Emit(key, EventView::UnreadReset)]);
                assert forall|i: int|
                    0 <= i < self.session_id_index@.len() implies self@.sessions.contains_key(
                    #[trigger] self.session_id_index@[i].1,
                ) && self@.sessions[self.session_id_index@[i].1].session.session_id == Some(
                    self.session_id_index@[i].0@,
                ) by {
                    assert(c.sessions.contains_key(self.session_id_index@[i].1));
                }
                assert forall|k: SessionKey|
                    #[trigger] self@.sessions.contains_key(k) && self@.sessions[k].session.session_id
                        is Some implies exists|i: int|
                    0 <= i < self.session_id_index@.len() && self.session_id_index@[i].1 == k by {
                    assert(c.sessions.contains_key(k));
                }
            }
        } else {
            self.sessions.insert(key, entry);
            proof {
                lemma_sessions_insert(raw.remove(key), key, entry);
                assert(raw.remove(key).insert(key, entry) =~= raw);
                assert(self@ =~= c);
            }
        }
        effects
    }
}

impl SessionCore {
    /// The terminal session `key` is attached to.
    fn find_pty_for_session(&self, key: SessionKey) -> (r: Option<PtyPid>)
        requires
            self.wf(),
        ensures
            r == terminal_of(self@.terminals, key),
    {
        let ghost full = spec_btree_map_iter(&self.terminals).remaining();
        let ghost m = self.terminals@;
        let mut result: Option<PtyPid> = None;
        let iter = self.terminals.iter();
        assert(iter == spec_btree_map_iter(&self.terminals));
        for kv in it: iter
            invariant_except_break
                result is None,
                forall|i: int| 0 <= i < it.index() ==> (*it.seq()[i].1).session != Some(key),
            invariant
                it.seq() == full,
                full == spec_btree_map_iter(&self.terminals).remaining(),
                m == self.terminals@,
            ensures
                match result {
                    Some(p) => m.contains_key(p) && m[p].session == Some(key),
                    None => forall|i: int| 0 <= i < full.len() ==> (*full[i].1).session != Some(key),
                },
        {
            let (p, t) = kv;
            if t.session == Some(key) {
                assert(*it.seq()[it.index()].0 == *p);
                result = Some(*p);
                break;
            }
        }
        proof {
            let tv = self@.terminals;
            match result {
                Some(p) => {
                    assert(tv.contains_key(p) && tv[p].session == Some(key));
                    let q = choose|q: PtyPid| tv.contains_key(q) && tv[q].session == Some(key);
                    assert(tv.contains_key(q) && tv.contains_key(p));
                },
                None => {
                    assert forall|q: PtyPid| tv.contains_key(q) implies tv[q].session != Some(key) by {
                        assert(full.contains((&q, &m[q])));
                        let t = choose|t: int| 0 <= t < full.len() && full[t] == (&q, &m[q]);
                        assert((*full[t].1).session != Some(key));
                    }
                },
            }
        }
        result
    }

    /// For events that carry a cwd: the session of the lowest-numbered
    /// terminal in that cwd that has a session.
    fn match_session_by_cwd(&self, event: &CliAgentHookEvent) -> (r: Option<SessionKey>)
        requires
            self.wf(),
        ensures
            r == match event_cwd(*event) {
                Some(cwd) => first_cwd_session(self@.terminals, cwd),
                None => None,
            },
    {
        let event_cwd: &String = match event {
            CliAgentHookEvent::SessionStart { cwd, .. } => cwd,
            CliAgentHookEvent::CwdChanged { cwd, .. } => cwd,
            _ => {
                return None;
            },
        };
        let ghost want = event_cwd@;
        let ghost full = spec_btree_map_iter(&self.terminals).remaining();
        let ghost m = self.terminals@;
        let mut found: Option<PtyPid> = None;
        let iter = self.terminals.iter();
        assert(iter == spec_btree_map_iter(&self.terminals));
        for kv in it: iter
            invariant_except_break
                found is None,
                forall|i: int|
                    0 <= i < it.index() ==> !((*it.seq()[i].1).cwd@ == want && (*it.seq()[i].1).session is Some),
            invariant
                it.seq() == full,
                full == spec_btree_map_iter(&self.terminals).remaining(),
                m == self.terminals@,
                want == event_cwd@,
            ensures
                match found {
                    Some(p) => exists|i: int|
                        0 <= i < full.len() && *full[i].0 == p && (*full[i].1).cwd@ == want && (*full[i].1).session
                            is Some && forall|t: int|
                            0 <= t < i ==> !((*full[t].1).cwd@ == want && (*full[t].1).session is Some),
                    None => forall|i: int|
                        0 <= i < full.len() ==> !((*full[i].1).cwd@ == want && (*full[i].1).session is Some),
                },
        {
            let (p, t) = kv;
            if str_eq(t.cwd.as_str(), event_cwd.as_str()) && t.session.is_some() {
                assert(*it.seq()[it.index()].0 == *p);
                found = Some(*p);
                break;
            }
        }
        let ghost tv = self@.terminals;
        proof {
            let keys = full.map_values(|kv: (&PtyPid, &TerminalRecord)| *kv.0);
            assert(increasing_seq(keys));
            match found {
                Some(p) => {
                    let i = choose|i: int|
                        0 <= i < full.len() && *full[i].0 == p && (*full[i].1).cwd@ == want && (*full[i].1).session
                            is Some && forall|t: int|
                            0 <= t < i ==> !((*full[t].1).cwd@ == want && (*full[t].1).session is Some);
                    assert(m.contains_key(p) && m[p] == *full[i].1);
                    assert(cwd_matches(tv, p, want));
                    assert forall|q: PtyPid| cwd_matches(tv, q, want) implies p <= q by {
                        assert(full.contains((&q, &m[q])));
                        let t = choose|t: int| 0 <= t < full.len() && full[t] == (&q, &m[q]);
                        assert(keys[t] == q);
                        assert(keys[i] == p);
                        if t < i {
                            assert(!((*full[t].1).cwd@ == want && (*full[t].1).session is Some));
                        } else if t > i {
                            crate::cli_agents::map_order::lemma_increasing_u32(keys, i, t);
                        }
                    }
                    let c = choose|c: PtyPid| cwd_matches(tv, c, want) && forall|q: PtyPid| cwd_matches(tv, q, want) ==> c <= q;
                    assert(c <= p && p <= c);
                },
                None => {
                    assert forall|q: PtyPid| !cwd_matches(tv, q, want) by {
                        if tv.contains_key(q) {
                            assert(full.contains((&q, &m[q])));
                            let t = choose|t: int| 0 <= t < full.len() && full[t] == (&q, &m[q]);
                            assert(!((*full[t].1).cwd@ == want && (*full[t].1).session is Some));
                        }
                    }
                },
            }
        }
        match found {
            Some(p) => match self.terminals.get(&p) {
                Some(t) => t.session,
                None => None,
            },
            None => None,
        }
    }
}

pub open spec fn index_distinct(ix: Seq<(String, SessionKey)>) -> bool {
    forall|i: int, j: int| 0 <= i < j < ix.len() ==> (#[trigger] ix[i]).0@ != (#[trigger] ix[j]).0@
}

/// The session-id index holds exactly one entry per session with an id.
pub open spec fn index_ok(ix: Seq<(String, SessionKey)>, s: Map<SessionKey, EntryView>) -> bool {
    &&& forall|i: int|
        0 <= i < ix.len() ==> s.contains_key(#[trigger] ix[i].1) && s[ix[i].1].session.session_id == Some(ix[i].0@)
    &&& index_distinct(ix)
    &&& forall|k: SessionKey|
        #[trigger] s.contains_key(k) && s[k].session.session_id is Some ==> exists|i: int|
            0 <= i < ix.len() && ix[i].1 == k
}

pub open spec fn ids_unique(s: Map<SessionKey, EntryView>) -> bool {
    forall|k1: SessionKey, k2: SessionKey|
        #[trigger] s.contains_key(k1) && #[trigger] s.contains_key(k2) && s[k1].session.session_id is Some
            && s[k1].session.session_id == s[k2].session.session_id ==> k1 == k2
}

proof fn lemma_remove_distinct(o: Seq<(String, SessionKey)>, i: int)
    requires
        index_distinct(o),
        0 <= i < o.len(),
    ensures
        index_distinct(o.remove(i)),
{
    let n = o.remove(i);
    assert forall|a: int, b: int| 0 <= a < b < n.len() implies (#[trigger] n[a]).0@ != (#[trigger] n[b]).0@ by {
        let a2 = if a < i { a } else { a + 1 };
        let b2 = if b < i { b } else { b + 1 };
        assert(n[a] == o[a2] && n[b] == o[b2]);
        assert(o[a2].0@ != o[b2].0@);
    }
}

/// Dropping session `k` and its index entry (at `pos`, when it has an
/// id) keeps the index exact.
proof fn lemma_index_drop(
    ix: Seq<(String, SessionKey)>,
    s: Map<SessionKey, EntryView>,
    k: SessionKey,
    pos: Option<int>,
    n_ix: Seq<(String, SessionKey)>,
)
    requires
        index_ok(ix, s),
        ids_unique(s),
        s.contains_key(k),
        match pos {
            Some(i) => 0 <= i < ix.len() && s[k].session.session_id == Some(ix[i].0@) && n_ix == ix.remove(i),
            None => s[k].session.session_id is None && n_ix == ix,
        },
    ensures
        index_ok(n_ix, s.remove(k)),
{
    let s2 = s.remove(k);
    match pos {
        Some(i0) => {
            lemma_remove_distinct(ix, i0);
            assert forall|j: int| 0 <= j < n_ix.len() implies s2.contains_key(#[trigger] n_ix[j].1)
                && s2[n_ix[j].1].session.session_id == Some(n_ix[j].0@) by {
                let t = if j < i0 { j } else { j + 1 };
                assert(n_ix[j] == ix[t]);
                assert(ix[t].0@ != ix[i0].0@);
                assert(s.contains_key(ix[t].1));
                if ix[t].1 == k {
                    assert(s[k].session.session_id == Some(ix[t].0@));
                }
            }
            assert forall|k2: SessionKey|
                #[trigger] s2.contains_key(k2) && s2[k2].session.session_id is Some implies exists|j: int|
                0 <= j < n_ix.len() && n_ix[j].1 == k2 by {
                assert(s.contains_key(k2));
                let t = choose|t: int| 0 <= t < ix.len() && ix[t].1 == k2;
                if t == i0 {
                    assert(s[k2].session.session_id == Some(ix[t].0@));
                    assert(s[k].session.session_id == s[k2].session.session_id);
                }
                if t < i0 {
                    assert(n_ix[t] == ix[t]);
                } else {
                    assert(n_ix[t - 1] == ix[t]);
                }
            }
        },
        None => {
            assert forall|j: int| 0 <= j < n_ix.len() implies s2.contains_key(#[trigger] n_ix[j].1)
                && s2[n_ix[j].1].session.session_id == Some(n_ix[j].0@) by {
                assert(s.contains_key(ix[j].1));
            }
            assert forall|k2: SessionKey|
                #[trigger] s2.contains_key(k2) && s2[k2].session.session_id is Some implies exists|j: int|
                0 <= j < n_ix.len() && n_ix[j].1 == k2 by {
                assert(s.contains_key(k2));
            }
        },
    }
}

/// Changes to sessions that keep their keys and ids keep the index
/// exact.
proof fn lemma_index_same(ix: Seq<(String, SessionKey)>, s: Map<SessionKey, EntryView>, s2: Map<SessionKey, EntryView>)
    requires
        index_ok(ix, s),
        s2.dom() == s.dom(),
        forall|k: SessionKey| #[trigger] s.contains_key(k) ==> s2[k].session.session_id == s[k].session.session_id,
    ensures
        index_ok(ix, s2),
{
    assert forall|i: int| 0 <= i < ix.len() implies s2.contains_key(#[trigger] ix[i].1)
        && s2[ix[i].1].session.session_id == Some(ix[i].0@) by {
        assert(s.contains_key(ix[i].1));
    }
    assert forall|k: SessionKey|
        #[trigger] s2.contains_key(k) && s2[k].session.session_id is Some implies exists|i: int|
        0 <= i < ix.len() && ix[i].1 == k by {
        assert(s.contains_key(k));
    }
}

/// Removes the entry for `sid`, if any, and says where it was.
fn index_remove(ix: &mut Vec<(String, SessionKey)>, sid: &str) -> (pos: Option<usize>)
    ensures
        match pos {
            Some(i) => i < old(ix)@.len() && old(ix)@[i as int].0@ == sid@ && final(ix)@ == old(ix)@.remove(i as int),
            None => final(ix)@ == old(ix)@ && forall|j: int| 0 <= j < old(ix)@.len() ==> (#[trigger] old(ix)@[j]).0@ != sid@,
        },
{
    let mut i: usize = 0;
    while i < ix.len()
        invariant
            i <= ix@.len(),
            ix@ == old(ix)@,
            forall|j: int| 0 <= j < i ==> (#[trigger] ix@[j]).0@ != sid@,
        decreases ix@.len() - i,
    {
        if str_eq(ix[i].0.as_str(), sid) {
            ix.remove(i);
            return Some(i);
        }
        i += 1;
    }
    None
}

impl SessionCore {
    fn on_unregister_terminal(&mut self, pty_pid: PtyPid) -> (fx: Vec<SessionEffect>)
        requires
            old(self).wf(),
        ensures
            final(self).wf(),
            unregister_step(old(self)@, pty_pid, final(self)@, effects_view(fx@)),
    {
        let ghost c = self@;
        let ghost raw_t = self.terminals@;
        let ghost raw_s = self.sessions@;
        let ghost ix0 = self.session_id_index@;
        let mut effects: Vec<SessionEffect> = Vec::new();
        assert(effects_view(effects@) =~= Seq::<EffectView>::empty());
        let t = match self.terminals.remove(&pty_pid) {
            Some(t) => t,
            None => {
                proof {
                    assert(self.terminals@ =~= raw_t);
                    assert(self@ =~= c);
                }
                return effects;
            },
        };
        proof {
            assert(raw_t.contains_key(pty_pid) && raw_t[pty_pid] == t);
            assert(c.terminals.contains_key(pty_pid));
            assert(c.panes.contains_key(t.pane_id) && c.panes[t.pane_id] == pty_pid);
        }
        self.pane_index.remove(&t.pane_id);
        effects.push(SessionEffect::StopWatcher { pty_pid });
        proof {
            lemma_terminals_remove(raw_t, pty_pid);
            assert(terminal_view(t) == c.terminals[pty_pid]);
        }
        let ghost base = CoreView { terminals: c.terminals.remove(pty_pid), panes: c.panes.remove(t.pane_id), ..c };
        match t.session {
            Some(key) => {
                let removed = self.sessions.remove(&key);
                proof {
                    lemma_sessions_remove(raw_s, key);
                    assert(c.sessions.contains_key(key));
                }
                match removed {
                    Some(entry) => {
                        let ghost ix_before = self.session_id_index@;
                        let mut pos: Option<usize> = None;
                        match &entry.session.session_id {
                            Some(sid) => {
                                pos = index_remove(&mut self.session_id_index, sid.as_str());
                            },
                            None => {},
                        }
                        effects.push(SessionEffect::EmitEvent { key, event: ManagerEvent::SessionEnded { exit_code: None } });
                        effects.push(SessionEffect::DropSession { key });
                        proof {
                            assert(effects_view(effects@) =~= seq![
                                EffectView::StopWatcher(pty_pid),
                                EffectView::Emit(key, EventView::SessionEnded(None)),
                                EffectView::DropSession(key),
                            ]);
                            assert(self@ =~= CoreView { sessions: c.sessions.remove(key), ..base });
                            assert(entry_view(entry) == c.sessions[key]);
                            match pos {
                                Some(i) => {},
                                None => {
                                    if entry.session.session_id is Some {
                                        let j = choose|j: int| 0 <= j < ix0.len() && ix0[j].1 == key;
                                        assert(ix0[j].0@ != opt_str(entry.session.session_id)->0);
                                    }
                                },
                            }
                            let gpos: Option<int> = match pos { Some(i) => Some(i as int), None => None };
                            lemma_index_drop(ix0, c.sessions, key, gpos, self.session_id_index@);
                            let n = self@;
                            assert forall|p: PtyPid| #[trigger] n.terminals.contains_key(p) implies (n.terminals[p].session
                                matches Some(k) ==> n.sessions.contains_key(k)) by {
                                assert(c.terminals.contains_key(p) && c.terminals.contains_key(pty_pid));
                            }
                        }
                    },
                    None => {
                        proof {
                            assert(false);
                        }
                    },
                }
            },
            None => {
                proof {
                    assert(effects_view(effects@) =~= seq![EffectView::StopWatcher(pty_pid)]);
                    assert(self@ =~= base);
                }
            },
        }
        proof {
            let n = self@;
            assert(c.panes[c.terminals[pty_pid].pane_id] == pty_pid);
            assert forall|pane: PaneId| #[trigger] n.panes.contains_key(pane) implies n.terminals.contains_key(n.panes[pane])
                && n.terminals[n.panes[pane]].pane_id == pane by {
                assert(c.panes.contains_key(pane));
            }
            assert forall|p: PtyPid| #[trigger] n.terminals.contains_key(p) implies n.panes.contains_key(n.terminals[p].pane_id)
                && n.panes[n.terminals[p].pane_id] == p by {
                assert(c.terminals.contains_key(p));
            }
            assert forall|p1: PtyPid, p2: PtyPid|
                #[trigger] n.terminals.contains_key(p1) && #[trigger] n.terminals.contains_key(p2)
                    && n.terminals[p1].session is Some && n.terminals[p1].session == n.terminals[p2].session implies p1
                == p2 by {
                assert(c.terminals.contains_key(p1) && c.terminals.contains_key(p2));
            }
        }
        effects
    }
}

/// Among the terminals in `cwd` with a session there is a lowest one.
proof fn lemma_lowest_exists(t: Map<PtyPid, TerminalView>, cwd: Seq<char>, p0: PtyPid)
    requires
        cwd_matches(t, p0, cwd),
    ensures
        exists|p: PtyPid| cwd_matches(t, p, cwd) && forall|q: PtyPid| cwd_matches(t, q, cwd) ==> p <= q,
    decreases p0,
{
    if exists|q: PtyPid| cwd_matches(t, q, cwd) && q < p0 {
        let q = choose|q: PtyPid| cwd_matches(t, q, cwd) && q < p0;
        lemma_lowest_exists(t, cwd, q);
    } else {
        assert(forall|q: PtyPid| cwd_matches(t, q, cwd) ==> p0 <= q);
    }
}

/// A routed event always names a live session.
proof fn lemma_hook_key_live(c: CoreView, e: CliAgentHookEvent)
    requires
        core_invariants(c),
    ensures
        hook_key(c, e) matches Some(k) ==> c.sessions.contains_key(k),
{
    if session_with_id(c.sessions, spec_session_id(e)@) is None {
        if let Some(cwd) = event_cwd(e) {
            if exists|p: PtyPid| cwd_matches(c.terminals, p, cwd) {
                let p0 = choose|p: PtyPid| cwd_matches(c.terminals, p, cwd);
                lemma_lowest_exists(c.terminals, cwd, p0);
                let p = choose|p: PtyPid| cwd_matches(c.terminals, p, cwd) && forall|q: PtyPid|
                    cwd_matches(c.terminals, q, cwd) ==> p <= q;
                assert(c.terminals.contains_key(p));
            }
        }
    }
}

/// A fresh key with an id-less session keeps the index exact.
proof fn lemma_index_fresh(ix: Seq<(String, SessionKey)>, s: Map<SessionKey, EntryView>, k: SessionKey, e: EntryView)
    requires
        index_ok(ix, s),
        !s.contains_key(k),
        e.session.session_id is None,
    ensures
        index_ok(ix, s.insert(k, e)),
{
    let s2 = s.insert(k, e);
    assert forall|i: int| 0 <= i < ix.len() implies s2.contains_key(#[trigger] ix[i].1)
        && s2[ix[i].1].session.session_id == Some(ix[i].0@) by {
        assert(s.contains_key(ix[i].1));
    }
    assert forall|k2: SessionKey|
        #[trigger] s2.contains_key(k2) && s2[k2].session.session_id is Some implies exists|i: int|
        0 <= i < ix.len() && ix[i].1 == k2 by {
        assert(s.contains_key(k2));
    }
}

/// The session a classification starts.
fn build_session(class: Classification) -> (s: CliAgentSession)
    ensures
        session_view(s) == built_view(class, s.started_at),
{
    let Classification { agent, process, cmdline_match, transcript_path } = class;
    let mut session = CliAgentSession::new(agent, process.pid, process.cmdline);
    let CliAgentMatch { name, resume_session_name, worktree, from_pr, permission_mode, model, .. } = cmdline_match;
    session.name = name;
    session.resume_session_name = resume_session_name;
    session.worktree = worktree;
    session.from_pr = from_pr;
    session.permission_mode = match &permission_mode {
        Some(flag) => Some(PermissionMode::from(flag)),
        None => None,
    };
    session.model = model;
    session.transcript_path = transcript_path;
    assert(session_view(session).rules_loaded =~= Seq::<Seq<char>>::empty());
    session
}

impl SessionCore {
    fn on_drop_ttl_expired(&mut self, key: SessionKey, now: u64) -> (fx: Vec<SessionEffect>)
        requires
            old(self).wf(),
        ensures
            final(self).wf(),
            drop_step(old(self)@, key, now, final(self)@, effects_view(fx@)),
    {
        let ghost c = self@;
        let ghost raw_t = self.terminals@;
        let ghost raw_s = self.sessions@;
        let ghost ix0 = self.session_id_index@;
        let mut effects: Vec<SessionEffect> = Vec::new();
        assert(effects_view(effects@) =~= Seq::<EffectView>::empty());
        let terminated = match self.sessions.get(&key) {
            Some(entry) => entry.terminated_at,
            None => {
                return effects;
            },
        };
        let t = match terminated {
            Some(t) => t,
            None => {
                return effects;
            },
        };
        if now < t || now - t < SESSION_DROP_TTL_MS {
            return effects;
        }
        let pty = self.find_pty_for_session(key);
        let removed = self.sessions.remove(&key);
        proof {
            lemma_sessions_remove(raw_s, key);
        }
        let entry = match removed {
            Some(e) => e,
            None => {
                proof {
                    assert(false);
                }
                return effects;
            },
        };
        assert(self.session_id_index@ == ix0);
        let mut pos: Option<usize> = None;
        match &entry.session.session_id {
            Some(sid) => {
                pos = index_remove(&mut self.session_id_index, sid.as_str());
                assert(pos matches Some(i) ==> ix0[i as int].0@ == sid@);
            },
            None => {},
        }
        proof {
            assert(raw_s.contains_key(key) && raw_s[key] == entry);
            assert(c.sessions.contains_key(key));
            assert(entry_view(entry) == c.sessions[key]);
            match pos {
                Some(i) => {},
                None => {
                    if entry.session.session_id is Some {
                        let j = choose|j: int| 0 <= j < ix0.len() && ix0[j].1 == key;
                        assert(ix0[j].0@ != opt_str(entry.session.session_id)->0);
                    }
                },
            }
            let gpos: Option<int> = match pos { Some(i) => Some(i as int), None => None };
            lemma_index_drop(ix0, c.sessions, key, gpos, self.session_id_index@);
        }
        match pty {
            Some(p) => {
                let taken = self.terminals.remove(&p);
                match taken {
                    Some(mut term) => {
                        term.session = None;
                        self.terminals.insert(p, term);
                        proof {
                            assert(raw_t.remove(p).insert(p, term) =~= raw_t.insert(p, term));
                            lemma_terminals_insert(raw_t, p, term);
                            assert(self@.terminals =~= c.terminals.insert(p, TerminalView { session: None, ..c.terminals[p] }));
                        }
                    },
                    None => {
                        proof {
                            assert(false);
                        }
                    },
                }
            },
            None => {},
        }
        effects.push(SessionEffect::DropSession { key });
        proof {
            assert(effects_view(effects@) =~= seq![EffectView::DropSession(key)]);
            let terms = match terminal_of(c.terminals, key) {
                Some(p) => c.terminals.insert(p, TerminalView { session: None, ..c.terminals[p] }),
                None => c.terminals,
            };
            assert(self@ =~= CoreView { terminals: terms, sessions: c.sessions.remove(key), ..c });
            let n = self@;
            assert forall|q: PtyPid| #[trigger] n.terminals.contains_key(q) implies (n.terminals[q].session
                matches Some(k) ==> n.sessions.contains_key(k)) by {
                assert(c.terminals.contains_key(q));
                if c.terminals[q].session == Some(key) {
                    assert(pty == Some(q)) by {
                        let p0 = choose|p0: PtyPid| c.terminals.contains_key(p0) && c.terminals[p0].session == Some(key);
                        assert(c.terminals.contains_key(p0) && c.terminals.contains_key(q));
                    }
                }
            }
            assert forall|q1: PtyPid, q2: PtyPid|
                #[trigger] n.terminals.contains_key(q1) && #[trigger] n.terminals.contains_key(q2)
                    && n.terminals[q1].session is Some && n.terminals[q1].session == n.terminals[q2].session implies q1
                == q2 by {
                assert(c.terminals.contains_key(q1) && c.terminals.contains_key(q2));
            }
        }
        effects
    }

    fn on_child_processes(
        &mut self,
        pty_pid: PtyPid,
        classification: Option<Classification>,
        now: u64,
    ) -> (fx: Vec<SessionEffect>)
        requires
            old(self).wf(),
            old(self)@.next_key < u64::MAX,
            now <= u64::MAX - SESSION_DROP_TTL_MS,
        ensures
            final(self).wf(),
            children_step(old(self)@, pty_pid, classification, now, final(self)@, effects_view(fx@)),
    {
        let ghost c = self@;
        let ghost raw_t = self.terminals@;
        let ghost raw_s = self.sessions@;
        let ghost ix0 = self.session_id_index@;
        let ghost cl = classification;
        let mut effects: Vec<SessionEffect> = Vec::new();
        assert(effects_view(effects@) =~= Seq::<EffectView>::empty());
        let current = match self.terminals.get(&pty_pid) {
            Some(t) => t.session,
            None => {
                return effects;
            },
        };
        proof {
            assert(c.terminals.contains_key(pty_pid) && c.terminals[pty_pid].session == current);
        }
        match classification {
            Some(class) => match current {
                None => {
                    let key = self.allocate_session_key();
                    let session = build_session(class);
                    let entry = SessionEntry { session, terminated_at: None };
                    self.sessions.insert(key, entry);
                    proof {
                        lemma_sessions_insert(raw_s, key, entry);
                        assert(!c.sessions.contains_key(key));
                        lemma_index_fresh(ix0, c.sessions, key, entry_view(entry));
                    }
                    let taken = self.terminals.remove(&pty_pid);
                    match taken {
                        Some(mut t) => {
                            t.session = Some(key);
                            self.terminals.insert(pty_pid, t);
                            proof {
                                assert(raw_t.remove(pty_pid).insert(pty_pid, t) =~= raw_t.insert(pty_pid, t));
                                lemma_terminals_insert(raw_t, pty_pid, t);
                            }
                        },
                        None => {
                            proof {
                                assert(false);
                            }
                        },
                    }
                    effects.push(SessionEffect::SetWatcherMode { pty_pid, mode: WatcherMode::Warm });
                    effects.push(SessionEffect::EmitEvent { key, event: ManagerEvent::SessionStarted });
                    proof {
                        assert(effects_view(effects@) =~= seq![
                            EffectView::SetWatcherMode(pty_pid, WatcherMode::Warm),
                            EffectView::Emit(key, EventView::SessionStarted),
                        ]);
                        let started = entry.session.started_at;
                        assert(self@ =~= CoreView {
                            terminals: c.terminals.insert(pty_pid, TerminalView { session: Some(key), ..c.terminals[pty_pid] }),
                            sessions: c.sessions.insert(key, EntryView { session: built_view(cl->0, started), terminated_at: None }),
                            next_key: (key + 1) as u64,
                            ..c
                        });
                        let n = self@;
                        assert forall|q: PtyPid| #[trigger] n.terminals.contains_key(q) implies (n.terminals[q].session
                            matches Some(k) ==> n.sessions.contains_key(k)) by {
                            assert(c.terminals.contains_key(q) || q == pty_pid);
                        }
                        assert forall|q1: PtyPid, q2: PtyPid|
                            #[trigger] n.terminals.contains_key(q1) && #[trigger] n.terminals.contains_key(q2)
                                && n.terminals[q1].session is Some && n.terminals[q1].session == n.terminals[q2].session
                                implies q1 == q2 by {
                            if q1 != pty_pid && q2 != pty_pid {
                                assert(c.terminals.contains_key(q1) && c.terminals.contains_key(q2));
                            } else if q1 != pty_pid {
                                assert(c.terminals.contains_key(q1));
                                assert(c.sessions.contains_key(key));
                            } else if q2 != pty_pid {
                                assert(c.terminals.contains_key(q2));
                                assert(c.sessions.contains_key(key));
                            }
                        }
                        assert forall|k1: SessionKey, k2: SessionKey|
                            #[trigger] n.sessions.contains_key(k1) && #[trigger] n.sessions.contains_key(k2)
                                && n.sessions[k1].session.session_id is Some && n.sessions[k1].session.session_id
                                == n.sessions[k2].session.session_id implies k1 == k2 by {
                            if k1 != key && k2 != key {
                                assert(c.sessions.contains_key(k1) && c.sessions.contains_key(k2));
                            }
                        }
                        assert forall|pane: PaneId| #[trigger] n.panes.contains_key(pane) implies n.terminals.contains_key(
                            n.panes[pane],
                        ) && n.terminals[n.panes[pane]].pane_id == pane by {
                            assert(c.panes.contains_key(pane));
                        }
                        assert forall|q: PtyPid| #[trigger] n.terminals.contains_key(q) implies n.panes.contains_key(
                            n.terminals[q].pane_id,
                        ) && n.panes[n.terminals[q].pane_id] == q by {
                            assert(c.terminals.contains_key(q));
                        }
                    }
                },
                Some(_) => {
                    proof {
                        assert(self@ =~= c);
                    }
                },
            },
            None => match current {
                Some(key) => {
                    let removed = self.sessions.remove(&key);
                    proof {
                        lemma_sessions_remove(raw_s, key);
                        assert(c.sessions.contains_key(key));
                    }
                    match removed {
                        Some(mut entry) => {
                            let ghost e0 = entry_view(entry);
                            if !entry.session.state.is_terminal() {
                                let old_state = clone_state(&entry.session.state);
                                entry.session.state = CliAgentSessionState::Completed { exit_code: None };
                                entry.terminated_at = Some(now);
                                let new_state = clone_state(&entry.session.state);
                                effects.push(SessionEffect::EmitEvent {
                                    key,
                                    event: ManagerEvent::StateChanged { old: old_state, new: new_state },
                                });
                                effects.push(SessionEffect::EmitEvent { key, event: ManagerEvent::SessionEnded { exit_code: None } });
                                effects.push(SessionEffect::ScheduleDropTtl { key, at: now + SESSION_DROP_TTL_MS });
                                effects.push(SessionEffect::SetWatcherMode { pty_pid, mode: WatcherMode::Hot });
                                proof {
                                    assert(effects_view(effects@) =~= seq![
                                        EffectView::Emit(key, EventView::StateChanged(e0.session.state, StateView::Completed(None))),
                                        EffectView::Emit(key, EventView::SessionEnded(None)),
                                        EffectView::ScheduleDropTtl(key, (now + SESSION_DROP_TTL_MS) as u64),
                                        EffectView::SetWatcherMode(pty_pid, WatcherMode::Hot),
                                    ]);
                                }
                            }
                            self.sessions.insert(key, entry);
                            proof {
                                lemma_sessions_insert(raw_s.remove(key), key, entry);
                                assert(e0 == c.sessions[key]);
                                if !is_finished(e0.session.state) {
                                    assert(self@ =~= CoreView {
                                        sessions: c.sessions.insert(
                                            key,
                                            EntryView {
                                                session: SessionView { state: StateView::Completed(None), ..e0.session },
                                                terminated_at: Some(now),
                                            },
                                        ),
                                        ..c
                                    });
                                } else {
                                    assert(raw_s.remove(key).insert(key, entry) =~= raw_s);
                                    assert(self@ =~= c);
                                }
                                lemma_index_same(ix0, c.sessions, self@.sessions);
                                let n = self@;
                                assert forall|k1: SessionKey, k2: SessionKey|
                                    #[trigger] n.sessions.contains_key(k1) && #[trigger] n.sessions.contains_key(k2)
                                        && n.sessions[k1].session.session_id is Some && n.sessions[k1].session.session_id
                                        == n.sessions[k2].session.session_id implies k1 == k2 by {
                                    assert(c.sessions.contains_key(k1) && c.sessions.contains_key(k2));
                                }
                            }
                        },
                        None => {
                            proof {
                                assert(false);
                            }
                        },
                    }
                },
                None => {
                    proof {
                        assert(self@ =~= c);
                    }
                },
            },
        }
        effects
    }
}

/// Giving an id-less session its first id, one not yet indexed, and
/// indexing it keeps the index exact.
proof fn lemma_index_add(
    ix: Seq<(String, SessionKey)>,
    s: Map<SessionKey, EntryView>,
    k: SessionKey,
    sid: String,
    s2: Map<SessionKey, EntryView>,
)
    requires
        index_ok(ix, s),
        s.contains_key(k),
        s[k].session.session_id is None,
        forall|j: int| 0 <= j < ix.len() ==> (#[trigger] ix[j]).0@ != sid@,
        s2.dom() == s.dom(),
        s2[k].session.session_id == Some(sid@),
        forall|k2: SessionKey| #[trigger] s.contains_key(k2) && k2 != k ==> s2[k2].session.session_id
            == s[k2].session.session_id,
    ensures
        index_ok(ix.push((sid, k)), s2),
{
    let n = ix.push((sid, k));
    assert forall|i: int| 0 <= i < n.len() implies s2.contains_key(#[trigger] n[i].1)
        && s2[n[i].1].session.session_id == Some(n[i].0@) by {
        if i < ix.len() {
            assert(n[i] == ix[i]);
            assert(s.contains_key(ix[i].1));
            assert(ix[i].1 != k);
        }
    }
    assert forall|a: int, b: int| 0 <= a < b < n.len() implies (#[trigger] n[a]).0@ != (#[trigger] n[b]).0@ by {
        if b == ix.len() {
            assert(n[a] == ix[a]);
        } else {
            assert(n[a] == ix[a] && n[b] == ix[b]);
        }
    }
    assert forall|k2: SessionKey|
        #[trigger] s2.contains_key(k2) && s2[k2].session.session_id is Some implies exists|i: int|
        0 <= i < n.len() && n[i].1 == k2 by {
        if k2 == k {
            assert(n[ix.len() as int].1 == k);
        } else {
            assert(s.contains_key(k2));
            let i = choose|i: int| 0 <= i < ix.len() && ix[i].1 == k2;
            assert(n[i] == ix[i]);
        }
    }
}

pub open spec fn emits(k: SessionKey, evs: Seq<EventView>) -> Seq<EffectView> {
    evs.map_values(|ev: EventView| EffectView::Emit(k, ev))
}

/// Appends one `EmitEvent` per event, in order.
fn push_emits(effects: &mut Vec<SessionEffect>, key: SessionKey, evs: Vec<ManagerEvent>)
    ensures
        effects_view(final(effects)@) == effects_view(old(effects)@) + emits(key, events_view(evs@)),
{
    let ghost all = evs@;
    let ghost start = effects_view(effects@);
    let mut rest = evs;
    let total = rest.len();
    let mut done: usize = 0;
    while rest.len() > 0
        invariant
            done <= all.len(),
            all.len() <= usize::MAX,
            done + rest@.len() == all.len(),
            rest@ == all.skip(done as int),
            effects_view(effects@) == start + emits(key, events_view(all.take(done as int))),
        decreases rest@.len(),
    {
        let ev = rest.remove(0);
        let ghost before = effects@;
        effects.push(SessionEffect::EmitEvent { key, event: ev });
        proof {
            assert(all.skip(done as int)[0] == all[done as int]);
            assert(all.take(done + 1) =~= all.take(done as int).push(all[done as int]));
            assert(effects@ =~= before.push(SessionEffect::EmitEvent { key, event: ev }));
            assert(effects_view(effects@) =~= effects_view(before).push(EffectView::Emit(key, manager_event_view(ev))));
            assert(emits(key, events_view(all.take(done + 1))) =~= emits(key, events_view(all.take(done as int))).push(
                EffectView::Emit(key, manager_event_view(ev)),
            ));
            assert(rest@ =~= all.skip(done + 1));
        }
        done = done + 1;
    }
    proof {
        assert(done == all.len());
        assert(all.take(done as int) =~= all);
    }
}

impl SessionCore {
    /// The session that carries id `sid`, found through the index.
    fn route_by_id(&self, sid: &str) -> (r: Option<SessionKey>)
        requires
            self.wf(),
        ensures
            r == session_with_id(self@.sessions, sid@),
    {
        let ghost c = self@;
        let ghost ix0 = self.session_id_index@;
        let found = self.index_position(sid);
        match found {
            Some(i) => {
                let k = self.session_id_index[i].1;
                proof {
                    assert(c.sessions.contains_key(k) && c.sessions[k].session.session_id == Some(sid@));
                    let k2 = choose|k2: SessionKey|
                        c.sessions.contains_key(k2) && c.sessions[k2].session.session_id == Some(sid@);
                    assert(c.sessions.contains_key(k2) && c.sessions.contains_key(k));
                }
                Some(k)
            },
            None => {
                proof {
                    if exists|k2: SessionKey|
                        c.sessions.contains_key(k2) && c.sessions[k2].session.session_id == Some(sid@) {
                        let k2 = choose|k2: SessionKey|
                            c.sessions.contains_key(k2) && c.sessions[k2].session.session_id == Some(sid@);
                        let j = choose|j: int| 0 <= j < ix0.len() && ix0[j].1 == k2;
                        assert(ix0[j].0@ != sid@);
                    }
                }
                None
            },
        }
    }

    /// The session a hook event is routed to.
    fn route_hook(&self, event: &CliAgentHookEvent) -> (r: Option<SessionKey>)
        requires
            self.wf(),
        ensures
            r == hook_key(self@, *event),
    {
        let by_id = self.route_by_id(event.session_id());
        match by_id {
            Some(k) => Some(k),
            None => self.match_session_by_cwd(event),
        }
    }

    /// Moves the terminal that holds session `key` to `cwd`.
    fn move_terminal_of(&mut self, key: SessionKey, cwd: &String)
        requires
            old(self).wf(),
        ensures
            final(self).wf(),
            final(self).session_id_index@ == old(self).session_id_index@,
            final(self)@ == (CoreView {
                terminals: match terminal_of(old(self)@.terminals, key) {
                    Some(p) => old(self)@.terminals.insert(p, TerminalView { cwd: cwd@, ..old(self)@.terminals[p] }),
                    None => old(self)@.terminals,
                },
                ..old(self)@
            }),
    {
        let ghost c = self@;
        let ghost raw_t = self.terminals@;
        match self.find_pty_for_session(key) {
            Some(p) => {
                let taken = self.terminals.remove(&p);
                match taken {
                    Some(mut term) => {
                        term.cwd = cwd.clone();
                        self.terminals.insert(p, term);
                        proof {
                            assert(raw_t.remove(p).insert(p, term) =~= raw_t.insert(p, term));
                            lemma_terminals_insert(raw_t, p, term);
                            assert(self@ =~= CoreView {
                                terminals: c.terminals.insert(p, TerminalView { cwd: cwd@, ..c.terminals[p] }),
                                ..c
                            });
                            let n = self@;
                            assert forall|q1: PtyPid, q2: PtyPid|
                                #[trigger] n.terminals.contains_key(q1) && #[trigger] n.terminals.contains_key(q2)
                                    && n.terminals[q1].session is Some && n.terminals[q1].session
                                    == n.terminals[q2].session implies q1 == q2 by {
                                assert(c.terminals.contains_key(q1) && c.terminals.contains_key(q2));
                            }
                        }
                    },
                    None => {
                        proof {
                            assert(false);
                        }
                    },
                }
            },
            None => {
                proof {
                    assert(self@ =~= c);
                }
            },
        }
    }

    /// Records hook event `event` (id `sid`) on session `key`, with the
    /// agent's reading `new_state` of it; returns the state effects.
    fn record_hook(
        &mut self,
        key: SessionKey,
        event: &CliAgentHookEvent,
        sid: &String,
        new_state: &Option<CliAgentSessionState>,
        now: u64,
    ) -> (fx: Vec<SessionEffect>)
        requires
            old(self).wf(),
            old(self)@.sessions.contains_key(key),
            sid@ == spec_session_id(*event)@,
            now <= u64::MAX - SESSION_DROP_TTL_MS,
            old(self)@.sessions[key].session.session_id is None ==> forall|j: int|
                0 <= j < old(self).session_id_index@.len() ==> (#[trigger] old(self).session_id_index@[j]).0@ != sid@,
        ensures
            final(self).wf(),
            ({
                let c = old(self)@;
                let e0 = c.sessions[key];
                let s1 = SessionView {
                    session_id: if e0.session.session_id is None { Some(sid@) } else { e0.session.session_id },
                    unread: sat_inc(e0.session.unread),
                    ..e0.session
                };
                let s2 = metadata_applied(s1, *event);
                let hs = opt_state_view(*new_state);
                if hs is Some && hs->0 != s2.state && !is_finished(s2.state) {
                    let ns = hs->0;
                    let ended = match ns {
                        StateView::Completed(x) => seq![
                            EffectView::Emit(key, EventView::SessionEnded(x)),
                            EffectView::ScheduleDropTtl(key, (now + SESSION_DROP_TTL_MS) as u64),
                        ],
                        _ => Seq::empty(),
                    };
                    &&& final(self)@ == CoreView {
                        sessions: c.sessions.insert(
                            key,
                            EntryView {
                                session: SessionView { state: ns, ..s2 },
                                terminated_at: if ns is Completed { Some(now) } else { e0.terminated_at },
                            },
                        ),
                        ..c
                    }
                    &&& effects_view(fx@) == seq![EffectView::Emit(key, EventView::StateChanged(s2.state, ns))] + ended
                } else {
                    &&& final(self)@ == CoreView {
                        sessions: c.sessions.insert(key, EntryView { session: s2, terminated_at: e0.terminated_at }),
                        ..c
                    }
                    &&& effects_view(fx@) == Seq::<EffectView>::empty()
                }
            }),
    {
        let ghost c = self@;
        let ghost raw_s = self.sessions@;
        let ghost ix0 = self.session_id_index@;
        let mut effects: Vec<SessionEffect> = Vec::new();
        let removed = self.sessions.remove(&key);
        proof {
            lemma_sessions_remove(raw_s, key);
        }
        let mut entry = match removed {
            Some(e) => e,
            None => {
                proof {
                    assert(false);
                }
                return effects;
            },
        };
        let ghost e0 = entry_view(entry);
        proof {
            assert(raw_s.contains_key(key) && raw_s[key] == entry);
            assert(e0 == c.sessions[key]);
        }
        let had_id = entry.session.session_id.is_some();
        if !had_id {
            entry.session.session_id = Some(sid.clone());
            self.session_id_index.push((sid.clone(), key));
        }
        entry.session.unread_events_since_focus = entry.session.unread_events_since_focus.saturating_add(1);
        apply_event_metadata(&mut entry.session, event);
        match new_state {
            Some(ns) => {
                // A finished session keeps its state until it is dropped.
                if !entry.session.state.is_terminal() && !states_equal(&entry.session.state, ns) {
                    let old_state = clone_state(&entry.session.state);
                    entry.session.state = clone_state(ns);
                    effects.push(SessionEffect::EmitEvent {
                        key,
                        event: ManagerEvent::StateChanged { old: old_state, new: clone_state(ns) },
                    });
                    match ns {
                        CliAgentSessionState::Completed { exit_code } => {
                            entry.terminated_at = Some(now);
                            effects.push(SessionEffect::EmitEvent {
                                key,
                                event: ManagerEvent::SessionEnded { exit_code: *exit_code },
                            });
                            effects.push(SessionEffect::ScheduleDropTtl { key, at: now + SESSION_DROP_TTL_MS });
                        },
                        _ => {},
                    }
                }
            },
            None => {},
        }
        let ghost entry_v = entry_view(entry);
        self.sessions.insert(key, entry);
        proof {
            let s1 = SessionView {
                session_id: if e0.session.session_id is None { Some(sid@) } else { e0.session.session_id },
                unread: sat_inc(e0.session.unread),
                ..e0.session
            };
            lemma_metadata_keeps(s1, *event);
            lemma_sessions_insert(raw_s.remove(key), key, entry);
            assert(self@ =~= CoreView { sessions: c.sessions.insert(key, entry_v), ..c });
            let s_new = self@.sessions;
            if had_id {
                lemma_index_same(ix0, c.sessions, s_new);
            } else {
                lemma_index_add(ix0, c.sessions, key, *sid, s_new);
            }
            let n = self@;
            assert forall|q: PtyPid| #[trigger] n.terminals.contains_key(q) implies (n.terminals[q].session
                matches Some(k) ==> n.sessions.contains_key(k)) by {
                assert(c.terminals.contains_key(q));
            }
            assert forall|k1: SessionKey, k2: SessionKey|
                #[trigger] n.sessions.contains_key(k1) && #[trigger] n.sessions.contains_key(k2)
                    && n.sessions[k1].session.session_id is Some && n.sessions[k1].session.session_id
                    == n.sessions[k2].session.session_id implies k1 == k2 by {
                assert(c.sessions.contains_key(k1) && c.sessions.contains_key(k2));
                if (k1 == key || k2 == key) && !had_id {
                    let other = if k1 == key { k2 } else { k1 };
                    if other != key {
                        assert(c.sessions[other].session.session_id == Some(sid@));
                        let j = choose|j: int| 0 <= j < ix0.len() && ix0[j].1 == other;
                        assert(ix0[j].0@ != sid@);
                    }
                }
            }
            assert(effects_view(effects@) =~= effects_view(effects@));
        }
        effects
    }

    #[verifier::rlimit(40)]
    fn apply_routed_hook(
        &mut self,
        key: SessionKey,
        envelope: ParsedHookEvent,
        new_state: Option<CliAgentSessionState>,
        now: u64,
    ) -> (fx: Vec<SessionEffect>)
        requires
            old(self).wf(),
            hook_key(old(self)@, envelope.event) == Some(key),
            old(self)@.sessions.contains_key(key),
            now <= u64::MAX - SESSION_DROP_TTL_MS,
        ensures
            final(self).wf(),
            hook_step(old(self)@, envelope.event, opt_state_view(new_state), now, final(self)@, effects_view(fx@)),
    {
        let ghost c = self@;
        let ghost ix0 = self.session_id_index@;
        let sid: String = envelope.event.session_id().to_owned();
        proof {
            if c.sessions[key].session.session_id is None {
                assert(session_with_id(c.sessions, sid@) is None) by {
                    if exists|k2: SessionKey|
                        c.sessions.contains_key(k2) && c.sessions[k2].session.session_id == Some(sid@) {
                        let k2 = choose|k2: SessionKey|
                            c.sessions.contains_key(k2) && c.sessions[k2].session.session_id == Some(sid@);
                        assert(k2 == key);
                    }
                }
                assert forall|j: int| 0 <= j < ix0.len() implies (#[trigger] ix0[j]).0@ != sid@ by {
                    assert(c.sessions.contains_key(ix0[j].1));
                }
            }
        }
        match &envelope.event {
            CliAgentHookEvent::CwdChanged { cwd, .. } => {
                self.move_terminal_of(key, cwd);
            },
            _ => {
                proof {
                    assert(self@ == c);
                }
            },
        }
        let ghost mid = self@;
        let mut effects = self.record_hook(key, &envelope.event, &sid, &new_state, now);
        let evs = semantic_events_for(&envelope.event);
        push_emits(&mut effects, key, evs);
        proof {
            assert(mid.sessions == c.sessions);
            assert(emits(key, events_view(evs@)) == hook_events_view(envelope.event).map_values(
                |ev: EventView| EffectView::Emit(key, ev),
            ));
            let n = self@;
            assert(n.terminals == mid.terminals);
        }
        effects
    }

    /// Records hook event `envelope` with `state_from_hook`, the session's
    /// agent reading of it, standing in for asking the agent.
    pub fn handle_hook_with_state(
        &mut self,
        envelope: ParsedHookEvent,
        state_from_hook: Option<CliAgentSessionState>,
        now: u64,
    ) -> (fx: Vec<SessionEffect>)
        requires
            old(self).wf(),
            now <= u64::MAX - SESSION_DROP_TTL_MS,
        ensures
            final(self).wf(),
            hook_step(old(self)@, envelope.event, opt_state_view(state_from_hook), now, final(self)@, effects_view(fx@)),
    {
        proof {
            lemma_hook_key_live(self@, envelope.event);
        }
        match self.route_hook(&envelope.event) {
            Some(key) => self.apply_routed_hook(key, envelope, state_from_hook, now),
            None => {
                let v: Vec<SessionEffect> = Vec::new();
                assert(effects_view(v@) =~= Seq::<EffectView>::empty());
                v
            },
        }
    }

    fn on_hook_envelope(&mut self, envelope: ParsedHookEvent, now: u64) -> (fx: Vec<SessionEffect>)
        requires
            old(self).wf(),
            now <= u64::MAX - SESSION_DROP_TTL_MS,
        ensures
            final(self).wf(),
            exists|r: Option<CliAgentSessionState>|
                agent_reading(old(self)@, envelope.event, r) && hook_step(
                    old(self)@,
                    envelope.event,
                    opt_state_view(r),
                    now,
                    final(self)@,
                    effects_view(fx@),
                ),
    {
        proof {
            lemma_hook_key_live(self@, envelope.event);
        }
        match self.route_hook(&envelope.event) {
            Some(key) => {
                let agent = match self.sessions.get(&key) {
                    Some(entry) => entry.session.agent.clone(),
                    None => {
                        proof {
                            assert(false);
                        }
                        let v: Vec<SessionEffect> = Vec::new();
                        return v;
                    },
                };
                let new_state = agent.state_from_hook(&envelope.event);
                assert(agent_reading(old(self)@, envelope.event, new_state));
                let fx = self.apply_routed_hook(key, envelope, new_state, now);
                assert(hook_step(old(self)@, envelope.event, opt_state_view(new_state), now, self@, effects_view(fx@)));
                fx
            },
            None => {
                let v: Vec<SessionEffect> = Vec::new();
                assert(effects_view(v@) =~= Seq::<EffectView>::empty());
                assert(hook_step(old(self)@, envelope.event, opt_state_view(None), now, self@, effects_view(v@)));
                assert(agent_reading(old(self)@, envelope.event, None));
                v
            },
        }
    }

    /// Drives one input through the core and returns the effects the
    /// host must carry out, in order. Every input keeps the invariants.
    pub fn handle(&mut self, input: SessionInput, now: u64) -> (effects: Vec<SessionEffect>)
        requires
            old(self).wf(),
            input_ok(old(self)@, input, now),
        ensures
            final(self).wf(),
            core_invariants(final(self)@),
            handle_step(old(self)@, input, now, final(self)@, effects_view(effects@)),
    {
        match input {
            SessionInput::RegisterTerminal { pty_pid, pane_id, cwd } => self.on_register_terminal(pty_pid, pane_id, cwd),
            SessionInput::UnregisterTerminal { pty_pid } => self.on_unregister_terminal(pty_pid),
            SessionInput::ChildProcessesDetected { pty_pid, classification } => self.on_child_processes(
                pty_pid,
                classification,
                now,
            ),
            SessionInput::HookEnvelopeParsed { envelope } => self.on_hook_envelope(envelope, now),
            SessionInput::DropTtlExpired { key } => self.on_drop_ttl_expired(key, now),
            SessionInput::PaneFocused { pane_id } => self.on_pane_focused(pane_id),
        }
    }
}

impl SessionCore {
    /// The keys of all sessions, ascending.
    pub fn active_session_keys(&self) -> (r: Vec<SessionKey>)
        ensures
            r@.to_set() == self@.sessions.dom(),
            forall|i: int, j: int| 0 <= i < j < r@.len() ==> r@[i] < r@[j],
    {
        let ghost full = spec_btree_map_iter(&self.sessions).remaining();
        let ghost m = self.sessions@;
        let mut keys: Vec<SessionKey> = Vec::new();
        let iter = self.sessions.iter();
        assert(iter == spec_btree_map_iter(&self.sessions));
        for kv in it: iter
            invariant
                it.seq() == full,
                full == spec_btree_map_iter(&self.sessions).remaining(),
                m == self.sessions@,
                keys@.len() == it.index(),
                forall|i: int| 0 <= i < it.index() ==> keys@[i] == *full[i].0,
        {
            let (k, _) = kv;
            keys.push(*k);
        }
        proof {
            let ks = full.map_values(|kv: (&SessionKey, &SessionEntry)| *kv.0);
            assert(increasing_seq(ks));
            assert(keys@.len() == full.len());
            assert forall|i: int, j: int| 0 <= i < j < keys@.len() implies keys@[i] < keys@[j] by {
                assert(ks[i] == keys@[i] && ks[j] == keys@[j]);
                crate::cli_agents::map_order::lemma_increasing_u64(ks, i, j);
            }
            assert forall|k: SessionKey| keys@.to_set().contains(k) == self@.sessions.dom().contains(k) by {
                if keys@.to_set().contains(k) {
                    let i = choose|i: int| 0 <= i < keys@.len() && keys@[i] == k;
                    assert(m.contains_key(*full[i].0));
                }
                if self@.sessions.dom().contains(k) {
                    assert(full.contains((&k, &m[k])));
                    let t = choose|t: int| 0 <= t < full.len() && full[t] == (&k, &m[k]);
                    assert(keys@[t] == k);
                }
            }
            assert(keys@.to_set() =~= self@.sessions.dom());
        }
        keys
    }
}

impl Default for SessionCore {
    fn default() -> (r: Self)
        ensures
            r.wf(),
            r@.terminals == Map::<PtyPid, TerminalView>::empty(),
            r@.sessions == Map::<SessionKey, EntryView>::empty(),
            r@.panes == Map::<PaneId, PtyPid>::empty(),
            r@.next_key == 1,
    {
        SessionCore::new()
    }
}

/// A compaction hook reports the context usage it carries: the one
/// event it raises is a usage update with the hook's `tokens_used` as
/// tokens used and its `tokens_max` as the maximum, the same usage the
/// hook records on the session.
pub proof fn lemma_compaction_reports_usage(e: CliAgentHookEvent, v: SessionView)
    requires
        e is PreCompact || e is PostCompact,
    ensures
        match e {
            CliAgentHookEvent::PreCompact { tokens_used, tokens_max, .. } => hook_events_view(e) == seq![
                EventView::ContextUsageUpdated(ContextUsage { tokens_used, tokens_max }),
            ],
            CliAgentHookEvent::PostCompact { tokens_used, tokens_max, .. } => hook_events_view(e) == seq![
                EventView::ContextUsageUpdated(ContextUsage { tokens_used, tokens_max }),
            ],
            _ => false,
        },
        metadata_applied(v, e).context_usage matches Some(u) && hook_events_view(e) == seq![
            EventView::ContextUsageUpdated(u),
        ],
{
    reveal(hook_events_view);
    reveal(metadata_applied);
}

} // verus!
