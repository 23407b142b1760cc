use std::sync::Arc;

use carrot::cli_agents::agent::{
    BlockOutputSnapshot, CliAgent, CliAgentCapabilities, CliAgentMatch, PermissionModeFlag, ProcessInfo, SharedCliAgent,
};
use carrot::cli_agents::child_process_watcher::WatcherMode;
use carrot::cli_agents::hook_events::{CliAgentHookEvent, ParsedHookEvent};
use carrot::cli_agents::session::{CliAgentSessionState, NotificationType, PermissionMode, SessionSource};
use carrot::cli_agents::session_core::{
    Classification, ManagerEvent, SessionCore, SessionEffect, SessionInput, SESSION_DROP_TTL_MS,
};

struct TestAgent {
    binaries: Vec<String>,
}

impl CliAgent for TestAgent {
    fn id(&self) -> &str {
        "test"
    }
    fn display_name(&self) -> &str {
        "Test"
    }
    fn binary_names(&self) -> &[String] {
        &self.binaries
    }
    fn icon_path(&self) -> &str {
        "icons/test.svg"
    }
    fn brand_colors(&self) -> Option<(&str, &str)> {
        None
    }
    fn capabilities(&self) -> CliAgentCapabilities {
        CliAgentCapabilities::from_bits(CliAgentCapabilities::HOOKS)
    }
    fn classify(&self, _process: &ProcessInfo) -> Option<CliAgentMatch> {
        None
    }
    fn state_from_hook(&self, event: &CliAgentHookEvent) -> Option<CliAgentSessionState> {
        match event {
            CliAgentHookEvent::SessionStart { .. } => Some(CliAgentSessionState::Starting),
            CliAgentHookEvent::UserPromptSubmit { .. } => Some(CliAgentSessionState::Working {
                since: std::time::Instant::now(),
            }),
            CliAgentHookEvent::Stop { .. } => Some(CliAgentSessionState::Idle),
            CliAgentHookEvent::SessionEnd { exit_code, .. } => Some(CliAgentSessionState::Completed {
                exit_code: *exit_code,
            }),
            CliAgentHookEvent::PermissionRequest { .. } => Some(CliAgentSessionState::WaitingForInput {
                notification_type: NotificationType::PermissionPrompt,
            }),
            _ => None,
        }
    }
    fn state_from_output(&self, _snapshot: &BlockOutputSnapshot) -> Option<CliAgentSessionState> {
        None
    }
}

fn test_agent() -> SharedCliAgent {
    Arc::new(Box::new(TestAgent { binaries: vec!["testagent".to_string()] }))
}

fn test_classification(pid: u32, cwd: &str) -> Classification {
    Classification {
        agent: test_agent(),
        process: ProcessInfo {
            pid,
            ppid: 1,
            name: "testagent".into(),
            exe: format!("{}/testagent", cwd),
            cmdline: vec!["testagent".into()],
            env: None,
        },
        cmdline_match: CliAgentMatch {
            pid,
            cmdline: vec!["testagent".into()],
            name: Some("demo".into()),
            ..CliAgentMatch::default()
        },
        transcript_path: None,
    }
}

fn envelope(event: CliAgentHookEvent) -> ParsedHookEvent {
    ParsedHookEvent { agent: "test".into(), protocol_version: 1, event }
}

fn session_start(session_id: &str, model: &str) -> ParsedHookEvent {
    envelope(CliAgentHookEvent::SessionStart {
        session_id: session_id.into(),
        transcript_path: "/t.jsonl".into(),
        cwd: "/repo".into(),
        source: SessionSource::Startup,
        model: model.into(),
        permission_mode: PermissionMode::Default,
        agent_id: "test".into(),
        plugin_version: "1.0.0".into(),
    })
}

fn register(core: &mut SessionCore, now: u64) {
    core.handle(
        SessionInput::RegisterTerminal { pty_pid: 100, pane_id: 1, cwd: "/repo".into() },
        now,
    );
}

fn classify(core: &mut SessionCore, now: u64) {
    core.handle(
        SessionInput::ChildProcessesDetected {
            pty_pid: 100,
            classification: Some(test_classification(42, "/repo")),
        },
        now,
    );
}

#[test]
fn register_terminal_emits_start_watcher() {
    let mut core = SessionCore::new();
    let effects = core.handle(
        SessionInput::RegisterTerminal { pty_pid: 100, pane_id: 1, cwd: "/repo".into() },
        1_000,
    );
    assert_eq!(effects.len(), 1);
    assert!(matches!(effects[0], SessionEffect::StartWatcher { pty_pid: 100 }));
    assert_eq!(core.terminals_count(), 1);
    assert_eq!(core.sessions_count(), 0);
}

#[test]
fn register_terminal_idempotent() {
    let mut core = SessionCore::new();
    core.handle(SessionInput::RegisterTerminal { pty_pid: 100, pane_id: 1, cwd: "/a".into() }, 1_000);
    let effects = core.handle(
        SessionInput::RegisterTerminal { pty_pid: 100, pane_id: 1, cwd: "/b".into() },
        1_000,
    );
    assert!(effects.is_empty(), "re-register must produce no effects");
    assert_eq!(core.terminal(100).unwrap().cwd, "/b", "cwd update should still apply");
}

#[test]
fn classification_creates_session() {
    let mut core = SessionCore::new();
    register(&mut core, 1_000);
    let effects = core.handle(
        SessionInput::ChildProcessesDetected {
            pty_pid: 100,
            classification: Some(test_classification(42, "/repo")),
        },
        1_000,
    );
    assert_eq!(core.sessions_count(), 1);
    assert!(effects
        .iter()
        .any(|e| matches!(e, SessionEffect::SetWatcherMode { mode: WatcherMode::Warm, .. })));
    assert!(effects
        .iter()
        .any(|e| matches!(e, SessionEffect::EmitEvent { event: ManagerEvent::SessionStarted, .. })));
    let session = core.session_for_pane(1).expect("session reachable by pane");
    assert_eq!(session.pid, 42);
    assert_eq!(session.name.as_deref(), Some("demo"));
}

#[test]
fn classification_gone_moves_session_to_completed_and_schedules_drop() {
    let mut core = SessionCore::new();
    let t0 = 1_000;
    register(&mut core, t0);
    classify(&mut core, t0);
    let t1 = t0 + 10_000;
    let effects = core.handle(
        SessionInput::ChildProcessesDetected { pty_pid: 100, classification: None },
        t1,
    );
    let completed = effects.iter().any(|e| {
        matches!(
            e,
            SessionEffect::EmitEvent {
                event: ManagerEvent::StateChanged { new: CliAgentSessionState::Completed { .. }, .. },
                ..
            }
        )
    });
    assert!(completed, "state must transition to Completed");
    let scheduled_at = effects.iter().find_map(|e| match e {
        SessionEffect::ScheduleDropTtl { at, .. } => Some(*at),
        _ => None,
    });
    assert_eq!(scheduled_at, Some(t1 + SESSION_DROP_TTL_MS));
}

#[test]
fn hook_envelope_updates_session_state() {
    let mut core = SessionCore::new();
    let t0 = 1_000;
    register(&mut core, t0);
    classify(&mut core, t0);
    core.handle(SessionInput::HookEnvelopeParsed { envelope: session_start("sess-1", "opus-4-7") }, t0);
    let session = core.session_by_session_id("sess-1").unwrap();
    assert_eq!(session.session_id.as_deref(), Some("sess-1"));
    assert_eq!(session.state, CliAgentSessionState::Starting);
    assert_eq!(session.transcript_path.as_deref(), Some("/t.jsonl"));
    assert_eq!(session.model.as_deref(), Some("opus-4-7"));
    let ups = envelope(CliAgentHookEvent::UserPromptSubmit { session_id: "sess-1".into(), prompt: "hello".into() });
    let effects = core.handle(SessionInput::HookEnvelopeParsed { envelope: ups }, t0);
    assert!(effects.iter().any(|e| matches!(
        e,
        SessionEffect::EmitEvent {
            event: ManagerEvent::StateChanged {
                old: CliAgentSessionState::Starting,
                new: CliAgentSessionState::Working { .. },
            },
            ..
        }
    )));
}

#[test]
fn hook_cwd_match_routes_pre_session_id_events() {
    let mut core = SessionCore::new();
    let t0 = 1_000;
    register(&mut core, t0);
    classify(&mut core, t0);
    let new_cwd = envelope(CliAgentHookEvent::CwdChanged { session_id: "first-hook".into(), cwd: "/repo".into() });
    core.handle(SessionInput::HookEnvelopeParsed { envelope: new_cwd }, t0);
    let session = core
        .session_by_session_id("first-hook")
        .expect("session_id now mapped by cwd-matcher");
    assert_eq!(session.session_id.as_deref(), Some("first-hook"));
}

#[test]
fn hook_envelope_without_routable_session_is_dropped() {
    let mut core = SessionCore::new();
    let unroutable = envelope(CliAgentHookEvent::Stop {
        session_id: "nowhere".into(),
        last_assistant_message: "".into(),
    });
    let effects = core.handle(SessionInput::HookEnvelopeParsed { envelope: unroutable }, 1_000);
    assert!(effects.is_empty(), "unroutable hook must not produce effects");
}

#[test]
fn drop_ttl_expired_removes_session_and_cleans_indexes() {
    let mut core = SessionCore::new();
    let t0 = 1_000;
    register(&mut core, t0);
    classify(&mut core, t0);
    core.handle(SessionInput::HookEnvelopeParsed { envelope: session_start("sess-1", "m") }, t0);
    let t1 = t0 + 10_000;
    core.handle(SessionInput::ChildProcessesDetected { pty_pid: 100, classification: None }, t1);
    assert!(core.session_by_session_id("sess-1").is_some(), "session still present during TTL window");
    let key = core.active_session_keys()[0];
    let t2 = t1 + SESSION_DROP_TTL_MS + 1_000;
    let effects = core.handle(SessionInput::DropTtlExpired { key }, t2);
    assert!(matches!(effects.last(), Some(SessionEffect::DropSession { .. })));
    assert!(core.session_by_session_id("sess-1").is_none());
    assert_eq!(core.sessions_count(), 0);
    assert!(core.terminal(100).unwrap().session.is_none());
}

#[test]
fn drop_ttl_expired_before_ttl_is_noop() {
    let mut core = SessionCore::new();
    let t0 = 1_000;
    register(&mut core, t0);
    classify(&mut core, t0);
    core.handle(SessionInput::ChildProcessesDetected { pty_pid: 100, classification: None }, t0);
    let key = core.active_session_keys()[0];
    let effects = core.handle(SessionInput::DropTtlExpired { key }, t0 + 1_000);
    assert!(effects.is_empty(), "early TTL must not drop the session");
    assert!(core.session(key).is_some());
}

#[test]
fn unregister_terminal_drops_session_immediately() {
    let mut core = SessionCore::new();
    let t0 = 1_000;
    register(&mut core, t0);
    classify(&mut core, t0);
    let key_before = core.active_session_keys()[0];
    let effects = core.handle(SessionInput::UnregisterTerminal { pty_pid: 100 }, t0);
    assert!(effects
        .iter()
        .any(|e| matches!(e, SessionEffect::EmitEvent { event: ManagerEvent::SessionEnded { .. }, .. })));
    assert!(effects
        .iter()
        .any(|e| matches!(e, SessionEffect::DropSession { key } if *key == key_before)));
    assert_eq!(core.sessions_count(), 0);
    assert_eq!(core.terminals_count(), 0);
}

#[test]
fn pane_focused_resets_unread_counter() {
    let mut core = SessionCore::new();
    let t0 = 1_000;
    register(&mut core, t0);
    classify(&mut core, t0);
    core.handle(SessionInput::HookEnvelopeParsed { envelope: session_start("sess", "m") }, t0);
    let ups = envelope(CliAgentHookEvent::UserPromptSubmit { session_id: "sess".into(), prompt: "hi".into() });
    core.handle(SessionInput::HookEnvelopeParsed { envelope: ups }, t0);
    assert!(core.session_for_pane(1).unwrap().unread_events_since_focus >= 1);
    let effects = core.handle(SessionInput::PaneFocused { pane_id: 1 }, t0);
    assert!(effects
        .iter()
        .any(|e| matches!(e, SessionEffect::EmitEvent { event: ManagerEvent::UnreadReset, .. })));
    assert_eq!(core.session_for_pane(1).unwrap().unread_events_since_focus, 0);
}

#[test]
fn pane_focused_without_session_is_noop() {
    let mut core = SessionCore::new();
    register(&mut core, 1_000);
    let effects = core.handle(SessionInput::PaneFocused { pane_id: 1 }, 1_000);
    assert!(effects.is_empty());
}

#[test]
fn session_end_hook_schedules_drop() {
    let mut core = SessionCore::new();
    let t0 = 1_000;
    register(&mut core, t0);
    classify(&mut core, t0);
    core.handle(SessionInput::HookEnvelopeParsed { envelope: session_start("sess-1", "m") }, t0);
    let se = envelope(CliAgentHookEvent::SessionEnd { session_id: "sess-1".into(), exit_code: Some(0) });
    let effects = core.handle(SessionInput::HookEnvelopeParsed { envelope: se }, t0);
    assert!(effects.iter().any(|e| matches!(
        e,
        SessionEffect::EmitEvent { event: ManagerEvent::SessionEnded { exit_code: Some(0) }, .. }
    )));
    assert!(effects.iter().any(|e| matches!(e, SessionEffect::ScheduleDropTtl { .. })));
}

#[test]
fn hook_increments_unread_counter() {
    let mut core = SessionCore::new();
    let t0 = 1_000;
    register(&mut core, t0);
    classify(&mut core, t0);
    core.handle(SessionInput::HookEnvelopeParsed { envelope: session_start("s", "m") }, t0);
    let before_ups = core.session_for_pane(1).unwrap().unread_events_since_focus;
    let e1 = envelope(CliAgentHookEvent::UserPromptSubmit { session_id: "s".into(), prompt: "a".into() });
    let e2 = envelope(CliAgentHookEvent::UserPromptSubmit { session_id: "s".into(), prompt: "b".into() });
    core.handle(SessionInput::HookEnvelopeParsed { envelope: e1 }, t0);
    core.handle(SessionInput::HookEnvelopeParsed { envelope: e2 }, t0);
    assert_eq!(core.session_for_pane(1).unwrap().unread_events_since_focus, before_ups + 2);
}

#[test]
fn allocate_session_key_is_monotonic() {
    let mut core = SessionCore::new();
    assert_eq!(core.allocate_session_key(), 1);
    assert_eq!(core.allocate_session_key(), 2);
    assert_eq!(core.allocate_session_key(), 3);
}

#[test]
fn permission_mode_from_flag_matches_session_mirror() {
    let flag = PermissionModeFlag("acceptEdits".into());
    assert_eq!(PermissionMode::from(&flag), PermissionMode::AcceptEdits);
}

#[test]
fn manager_event_round_trips_to_cli_agent_event_except_unread() {
    assert!(ManagerEvent::UnreadReset.to_cli_agent_event().is_none());
    assert!(ManagerEvent::SessionStarted.to_cli_agent_event().is_some());
}

// ---- further cases ----

#[test]
fn hook_with_explicit_state_reading() {
    let mut core = SessionCore::new();
    register(&mut core, 1_000);
    classify(&mut core, 1_000);
    core.handle(SessionInput::HookEnvelopeParsed { envelope: session_start("x", "m") }, 1_000);
    let ev = envelope(CliAgentHookEvent::FileChanged {
        session_id: "x".into(),
        path: "/repo/a.rs".into(),
        change_type: carrot::cli_agents::hook_events::ChangeType::Modified,
    });
    let effects = core.handle_hook_with_state(ev, Some(CliAgentSessionState::Idle), 2_000);
    assert_eq!(effects.len(), 2);
    assert!(matches!(
        &effects[0],
        SessionEffect::EmitEvent { event: ManagerEvent::StateChanged { new: CliAgentSessionState::Idle, .. }, .. }
    ));
    assert!(matches!(&effects[1], SessionEffect::EmitEvent { event: ManagerEvent::FileChanged { path }, .. } if path == "/repo/a.rs"));
}

#[test]
fn cwd_routing_prefers_lowest_pty() {
    let mut core = SessionCore::new();
    core.handle(SessionInput::RegisterTerminal { pty_pid: 300, pane_id: 3, cwd: "/w".into() }, 1_000);
    core.handle(SessionInput::RegisterTerminal { pty_pid: 200, pane_id: 2, cwd: "/w".into() }, 1_000);
    core.handle(
        SessionInput::ChildProcessesDetected { pty_pid: 300, classification: Some(test_classification(7, "/w")) },
        1_000,
    );
    core.handle(
        SessionInput::ChildProcessesDetected { pty_pid: 200, classification: Some(test_classification(8, "/w")) },
        1_000,
    );
    let ev = envelope(CliAgentHookEvent::CwdChanged { session_id: "new".into(), cwd: "/w".into() });
    core.handle(SessionInput::HookEnvelopeParsed { envelope: ev }, 1_000);
    assert_eq!(core.session_by_session_id("new").unwrap().pid, 8);
    assert_eq!(core.active_session_keys(), vec![1, 2]);
}

#[test]
fn session_keys_are_not_reused_after_a_session_ends() {
    let mut core = SessionCore::new();
    register(&mut core, 10);
    classify(&mut core, 10);
    let first = core.active_session_keys()[0];
    core.handle(SessionInput::UnregisterTerminal { pty_pid: 100 }, 10);
    assert_eq!(core.sessions_count(), 0);
    register(&mut core, 20);
    classify(&mut core, 20);
    let second = core.active_session_keys()[0];
    assert!(second > first);
}

#[test]
fn finished_session_ignores_later_hooks() {
    let mut core = SessionCore::new();
    let t0 = 1_000;
    register(&mut core, t0);
    classify(&mut core, t0);
    core.handle(SessionInput::HookEnvelopeParsed { envelope: session_start("done", "m") }, t0);
    let se = envelope(CliAgentHookEvent::SessionEnd { session_id: "done".into(), exit_code: Some(0) });
    core.handle(SessionInput::HookEnvelopeParsed { envelope: se }, t0);
    assert_eq!(core.session_by_session_id("done").unwrap().state, CliAgentSessionState::Completed { exit_code: Some(0) });
    let ups = envelope(CliAgentHookEvent::UserPromptSubmit { session_id: "done".into(), prompt: "again".into() });
    let effects = core.handle(SessionInput::HookEnvelopeParsed { envelope: ups }, t0 + 10);
    assert_eq!(core.session_by_session_id("done").unwrap().state, CliAgentSessionState::Completed { exit_code: Some(0) });
    assert!(!effects.iter().any(|e| matches!(
        e,
        SessionEffect::EmitEvent { event: ManagerEvent::StateChanged { .. }, .. }
    )));
    let forced = envelope(CliAgentHookEvent::UserPromptSubmit { session_id: "done".into(), prompt: "x".into() });
    let effects = core.handle_hook_with_state(forced, Some(CliAgentSessionState::Idle), t0 + 20);
    assert_eq!(core.session_by_session_id("done").unwrap().state, CliAgentSessionState::Completed { exit_code: Some(0) });
    assert!(!effects.iter().any(|e| matches!(
        e,
        SessionEffect::EmitEvent { event: ManagerEvent::StateChanged { .. }, .. }
    )));
}

#[test]
fn registering_a_known_terminal_only_moves_its_cwd() {
    let mut core = SessionCore::new();
    let t0 = 1_000;
    register(&mut core, t0);
    classify(&mut core, t0);
    let session_before = core.terminal(100).unwrap().session;
    assert!(session_before.is_some());
    let effects = core.handle(
        SessionInput::RegisterTerminal { pty_pid: 100, pane_id: 1, cwd: "/elsewhere".into() },
        t0 + 5,
    );
    assert!(effects.is_empty());
    let record = core.terminal(100).unwrap();
    assert_eq!(record.cwd, "/elsewhere");
    assert_eq!(record.pane_id, 1);
    assert_eq!(record.session, session_before);
    assert!(core.session_for_pane(1).is_some());
}
