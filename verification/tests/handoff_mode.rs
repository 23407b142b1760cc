use carrot::handoff_mode::{cancel_to_shell, detect_mode, strip_sigil, HandoffMode, HandoffTransition};
#[test]
fn detect_agent_on_hash_first_char() {
    assert_eq!(detect_mode("# why"), HandoffMode::Agent);
    assert_eq!(detect_mode("#why"), HandoffMode::Agent);
    assert_eq!(detect_mode("   # why"), HandoffMode::Agent);
}

#[test]
fn detect_shell_otherwise() {
    assert_eq!(detect_mode(""), HandoffMode::Shell);
    assert_eq!(detect_mode("ls"), HandoffMode::Shell);
    assert_eq!(detect_mode("echo #"), HandoffMode::Shell);
}

#[test]
fn transition_flags_entry_and_exit() {
    let t_in = HandoffTransition {
        before: HandoffMode::Shell,
        after: HandoffMode::Agent,
    };
    assert!(t_in.entered());
    assert!(!t_in.exited());
    assert!(t_in.changed());

    let t_out = HandoffTransition {
        before: HandoffMode::Agent,
        after: HandoffMode::Shell,
    };
    assert!(!t_out.entered());
    assert!(t_out.exited());
    assert!(t_out.changed());

    let t_none = HandoffTransition {
        before: HandoffMode::Shell,
        after: HandoffMode::Shell,
    };
    assert!(!t_none.changed());
}

#[test]
fn strip_sigil_removes_hash_and_one_space() {
    assert_eq!(strip_sigil("# explain"), Some("explain"));
    assert_eq!(strip_sigil("#explain"), Some("explain"));
    assert_eq!(
        strip_sigil("  # explain this please"),
        Some("explain this please")
    );
}

#[test]
fn strip_sigil_returns_none_when_no_sigil() {
    assert!(strip_sigil("explain").is_none());
    assert!(strip_sigil("").is_none());
}

#[test]
fn strip_preserves_inner_whitespace() {
    assert_eq!(
        strip_sigil("#  two leading spaces"),
        Some(" two leading spaces"),
    );
}

#[test]
fn cancel_to_shell_drops_sigil_in_agent_mode() {
    assert_eq!(cancel_to_shell("# explain"), "explain");
    assert_eq!(cancel_to_shell("#explain"), "explain");
}

#[test]
fn cancel_to_shell_noop_in_shell_mode() {
    assert_eq!(cancel_to_shell("ls -la"), "ls -la");
    assert_eq!(cancel_to_shell(""), "");
}

#[test]
fn handoff_mode_is_agent_flag() {
    assert!(HandoffMode::Agent.is_agent());
    assert!(!HandoffMode::Agent.is_shell());
    assert!(HandoffMode::Shell.is_shell());
    assert!(!HandoffMode::Shell.is_agent());
}

#[test]
fn default_is_shell() {
    assert_eq!(HandoffMode::default(), HandoffMode::Shell);
}
