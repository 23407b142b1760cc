use carrot::cli_agents::agent::{BlockOutputSnapshot, CliAgent, CliAgentCapabilities, ProcessInfo};
use carrot::cli_agents::code_agent::{encode_cwd, CodeAgent, CodeAgentIdentity};
use carrot::cli_agents::hook_events::{CliAgentHookEvent, TaskStatus};
use carrot::cli_agents::session::{CliAgentSessionState, NotificationType, PermissionMode, SessionSource};

fn agent() -> CodeAgent {
    CodeAgent::new(CodeAgentIdentity {
        id: "code_agent".to_string(),
        display_name: "Code Agent".to_string(),
        icon_path: "icons/agents/code_agent.svg".to_string(),
        binary_names: vec!["agentcli".to_string(), "agentcli.exe".to_string()],
        brand_colors: Some(("#C15F3C".to_string(), "#FFFFFF".to_string())),
    })
}

#[test]
fn capabilities_cover_all_documented_flags() {
    let caps = agent().capabilities();
    assert!(caps.contains(CliAgentCapabilities::HOOKS));
    assert!(caps.contains(CliAgentCapabilities::RICH_INPUT));
    assert!(caps.contains(CliAgentCapabilities::NOTIFICATIONS));
    assert!(caps.contains(CliAgentCapabilities::DIFF_REVIEW));
    assert!(caps.contains(CliAgentCapabilities::VOICE));
    assert!(caps.contains(CliAgentCapabilities::IMAGES));
    assert!(caps.contains(CliAgentCapabilities::TASK_PANEL));
    assert!(caps.contains(CliAgentCapabilities::RESUME_SESSIONS));
    assert!(caps.contains(CliAgentCapabilities::MCP_TOOLS));
    assert!(caps.contains(CliAgentCapabilities::WORKTREES));
    assert!(caps.contains(CliAgentCapabilities::SUBAGENTS));
    assert!(caps.contains(CliAgentCapabilities::ELICITATION));
    assert!(caps.contains(CliAgentCapabilities::PERMISSION_MODES));
    assert!(caps.contains(CliAgentCapabilities::CONTEXT_WINDOW));
    assert!(caps.contains(CliAgentCapabilities::RULES));
}

#[test]
fn classify_matches_binary_and_parses_flags() {
    let process = ProcessInfo {
        pid: 7,
        ppid: 1,
        name: "agentcli.exe".to_string(),
        exe: String::new(),
        cmdline: vec!["agentcli".to_string(), "--name".to_string(), "demo".to_string()],
        env: None,
    };
    let m = agent().classify(&process).expect("binary name matches");
    assert_eq!(m.pid, 7);
    assert_eq!(m.name.as_deref(), Some("demo"));
    let other = ProcessInfo { name: "vim".to_string(), ..process };
    assert!(agent().classify(&other).is_none());
}

#[test]
fn state_from_hook_session_start() {
    let agent = agent();
    let event = CliAgentHookEvent::SessionStart {
        session_id: "s1".into(),
        transcript_path: "/t.jsonl".into(),
        cwd: "/repo".into(),
        source: SessionSource::Startup,
        model: "x".into(),
        permission_mode: PermissionMode::Default,
        agent_id: "code_agent".into(),
        plugin_version: "1.0.0".into(),
    };
    assert_eq!(
        agent.state_from_hook(&event),
        Some(CliAgentSessionState::Starting)
    );
}

#[test]
fn state_from_hook_user_prompt_submit_goes_working() {
    let agent = agent();
    let event = CliAgentHookEvent::UserPromptSubmit {
        session_id: "s1".into(),
        prompt: "hello".into(),
    };
    let state = agent.state_from_hook(&event).unwrap();
    assert!(matches!(state, CliAgentSessionState::Working { .. }));
}

#[test]
fn state_from_hook_stop_goes_idle() {
    let agent = agent();
    let event = CliAgentHookEvent::Stop {
        session_id: "s1".into(),
        last_assistant_message: String::new(),
    };
    assert_eq!(
        agent.state_from_hook(&event),
        Some(CliAgentSessionState::Idle)
    );
}

#[test]
fn state_from_hook_permission_request_goes_waiting_with_permission_type() {
    let agent = agent();
    let event = CliAgentHookEvent::PermissionRequest {
        session_id: "s1".into(),
        tool_name: "Bash".into(),
        tool_input: serde_json::Value::Null,
        permission_suggestions: vec![],
    };
    let state = agent.state_from_hook(&event).unwrap();
    assert!(matches!(
        state,
        CliAgentSessionState::WaitingForInput {
            notification_type: NotificationType::PermissionPrompt,
        }
    ));
}

#[test]
fn state_from_hook_notification_preserves_notification_type() {
    let agent = agent();
    let event = CliAgentHookEvent::Notification {
        session_id: "s1".into(),
        title: String::new(),
        message: String::new(),
        notification_type: NotificationType::IdlePrompt,
    };
    assert_eq!(
        agent.state_from_hook(&event),
        Some(CliAgentSessionState::WaitingForInput {
            notification_type: NotificationType::IdlePrompt,
        })
    );
}

#[test]
fn state_from_hook_elicitation_goes_waiting() {
    let agent = agent();
    let event = CliAgentHookEvent::Elicitation {
        session_id: "s1".into(),
        mcp_server: "x".into(),
        schema: serde_json::Value::Null,
    };
    let state = agent.state_from_hook(&event).unwrap();
    assert!(matches!(
        state,
        CliAgentSessionState::WaitingForInput {
            notification_type: NotificationType::Elicitation,
        }
    ));
}

#[test]
fn state_from_hook_pre_compact_goes_compacting() {
    let agent = agent();
    let event = CliAgentHookEvent::PreCompact {
        session_id: "s1".into(),
        tokens_used: 0,
        tokens_max: 0,
    };
    assert_eq!(
        agent.state_from_hook(&event),
        Some(CliAgentSessionState::Compacting)
    );
}

#[test]
fn state_from_hook_session_end_preserves_exit_code() {
    let agent = agent();
    let event = CliAgentHookEvent::SessionEnd {
        session_id: "s1".into(),
        exit_code: Some(42),
    };
    assert_eq!(
        agent.state_from_hook(&event),
        Some(CliAgentSessionState::Completed {
            exit_code: Some(42),
        })
    );
}

#[test]
fn state_from_hook_task_events_do_not_change_state() {
    let agent = agent();
    let created = CliAgentHookEvent::TaskCreated {
        session_id: "s1".into(),
        task_id: "t1".into(),
        content: "x".into(),
        status: TaskStatus::Pending,
    };
    let completed = CliAgentHookEvent::TaskCompleted {
        session_id: "s1".into(),
        task_id: "t1".into(),
    };
    assert!(agent.state_from_hook(&created).is_none());
    assert!(agent.state_from_hook(&completed).is_none());
}

#[test]
fn state_from_output_working_on_thinking_marker() {
    let agent = agent();
    let snapshot = BlockOutputSnapshot {
        text: "✻ Baked for 5s".into(),
    };
    assert!(matches!(
        agent.state_from_output(&snapshot),
        Some(CliAgentSessionState::Working { .. })
    ));
}

#[test]
fn state_from_output_working_on_spinner_glyph() {
    let agent = agent();
    let snapshot = BlockOutputSnapshot {
        text: "running tool ⠋".into(),
    };
    assert!(matches!(
        agent.state_from_output(&snapshot),
        Some(CliAgentSessionState::Working { .. })
    ));
}

#[test]
fn state_from_output_waiting_on_proceed_prompt() {
    let agent = agent();
    let snapshot = BlockOutputSnapshot {
        text: "Do you want to proceed?\n❯ 1. Yes\n  2. No".into(),
    };
    let state = agent.state_from_output(&snapshot).unwrap();
    assert!(matches!(
        state,
        CliAgentSessionState::WaitingForInput { .. }
    ));
}

#[test]
fn state_from_output_waiting_beats_working() {
    // If both signals are present (thinking log above a prompt),
    // the prompt wins because it is the more recent signal.
    let agent = agent();
    let snapshot = BlockOutputSnapshot {
        text: "✻ Baked for 5s\n\nDo you want to proceed?".into(),
    };
    let state = agent.state_from_output(&snapshot).unwrap();
    assert!(matches!(
        state,
        CliAgentSessionState::WaitingForInput { .. }
    ));
}

#[test]
fn state_from_output_none_for_plain_text() {
    let agent = agent();
    let snapshot = BlockOutputSnapshot {
        text: "hello world".into(),
    };
    assert!(agent.state_from_output(&snapshot).is_none());
}

#[test]
fn state_from_output_none_for_empty_text() {
    let agent = agent();
    let snapshot = BlockOutputSnapshot {
        text: String::new(),
    };
    assert!(agent.state_from_output(&snapshot).is_none());
}

#[test]
fn encode_cwd_strips_path_separators() {
    let s = encode_cwd("/Users/nyxb/Projects/carrot");
    assert!(!s.contains('/'));
    assert!(s.starts_with("-Users-nyxb-Projects-carrot") || s.contains("nyxb"));
    assert!(s.chars().all(|c| c.is_ascii_alphanumeric() || c == '-'));
}

#[test]
fn encode_cwd_normalises_dots() {
    let s = encode_cwd("/tmp/my.project");
    assert!(!s.contains('.'));
}
