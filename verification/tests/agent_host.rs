use std::sync::Arc;
use std::sync::atomic::{AtomicUsize, Ordering};
use carrot::phase2::agent_host::{AgentPermission, CmdlineAgentHost, InMemoryAgentHost};

#[test]
fn default_permission_is_denied() {
    let mut h = InMemoryAgentHost::new();
    assert_eq!(h.permission(), AgentPermission::Denied);
    assert!(!AgentPermission::Denied.allows_read());
    assert!(!AgentPermission::Denied.allows_write());
}

#[test]
fn read_permission_allows_read_only() {
    assert!(AgentPermission::ReadOnly.allows_read());
    assert!(!AgentPermission::ReadOnly.allows_write());
}

#[test]
fn readwrite_permission_allows_both() {
    assert!(AgentPermission::ReadWrite.allows_read());
    assert!(AgentPermission::ReadWrite.allows_write());
}

#[test]
fn denied_host_hides_current_text() {
    let mut h = InMemoryAgentHost::new();
    h.set_buffer("super secret password");
    // Permission is default-denied.
    assert_eq!(h.current_text(), "");
    assert!(!h.current_ast().has_command());
}

#[test]
fn readonly_host_returns_text() {
    let mut h = InMemoryAgentHost::new();
    h.set_permission(AgentPermission::ReadOnly);
    h.set_buffer("git status");
    assert_eq!(h.current_text(), "git status");
    assert!(h.current_ast().has_command());
}

#[test]
fn propose_ignored_without_write_permission() {
    let mut h = InMemoryAgentHost::new();
    h.set_permission(AgentPermission::ReadOnly);
    h.propose("git checkout main", Some("switch branch"));
    assert!(h.pending_proposal().is_none());
}

#[test]
fn propose_stored_under_readwrite() {
    let mut h = InMemoryAgentHost::new();
    h.set_permission(AgentPermission::ReadWrite);
    h.propose("git checkout main", Some("switch branch"));
    let pending = h.pending_proposal().unwrap();
    assert_eq!(pending.text, "git checkout main");
    assert_eq!(pending.reason.as_deref(), Some("switch branch"));
}

#[test]
fn clear_pending_drops_the_proposal() {
    let mut h = InMemoryAgentHost::new();
    h.set_permission(AgentPermission::ReadWrite);
    h.propose("ls", None);
    assert!(h.pending_proposal().is_some());
    h.clear_pending();
    assert!(h.pending_proposal().is_none());
}

#[test]
fn watch_ignored_when_denied() {
    let mut h = InMemoryAgentHost::new();
    // Default Denied.
    let counter = Arc::new(AtomicUsize::new(0));
    let c = counter.clone();
    h.watch(Box::new(move |_: &str| {
        c.fetch_add(1, Ordering::Relaxed);
    }));
    h.set_buffer("hello");
    // Denied → watcher was never registered → counter stays 0.
    assert_eq!(counter.load(Ordering::Relaxed), 0);
}

#[test]
fn watch_fires_on_buffer_change_when_readonly() {
    let mut h = InMemoryAgentHost::new();
    h.set_permission(AgentPermission::ReadOnly);
    let counter = Arc::new(AtomicUsize::new(0));
    let c = counter.clone();
    h.watch(Box::new(move |_: &str| {
        c.fetch_add(1, Ordering::Relaxed);
    }));
    h.set_buffer("a");
    h.set_buffer("ab");
    assert_eq!(counter.load(Ordering::Relaxed), 2);
}

#[test]
fn propose_carries_optional_reason() {
    let mut h = InMemoryAgentHost::new();
    h.set_permission(AgentPermission::ReadWrite);
    h.propose("ls", None);
    assert!(h.pending_proposal().unwrap().reason.is_none());
}

#[test]
fn set_permission_is_reversible() {
    let mut h = InMemoryAgentHost::new();
    h.set_permission(AgentPermission::ReadWrite);
    h.set_buffer("visible");
    assert_eq!(h.current_text(), "visible");
    h.set_permission(AgentPermission::Denied);
    assert_eq!(h.current_text(), "");
}

#[test]
fn agent_reads_last_buffer_under_last_permission() {
    let mut h = InMemoryAgentHost::new();
    assert_eq!(h.current_text(), "");
    h.set_buffer("ls");
    assert_eq!(h.current_text(), "");
    assert!(!h.current_ast().has_command());
    h.set_permission(AgentPermission::ReadOnly);
    assert_eq!(h.current_text(), "ls");
    h.set_buffer("git status");
    h.set_permission(AgentPermission::ReadWrite);
    assert_eq!(h.current_text(), "git status");
    assert_eq!(h.current_ast().first().unwrap().command.as_ref().unwrap().name, "git");
    h.set_permission(AgentPermission::Denied);
    assert_eq!(h.current_text(), "");
    assert!(!h.current_ast().has_command());
}
