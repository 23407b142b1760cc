use carrot::mount::BlockHandle;
use carrot::handoff_mode::HandoffMode;
use carrot::pty_route::{agent_consumes, pty_consumes, route_keystroke, route_with_buffer, KeystrokeRoute};
use carrot::prompt_state::{InteractivePromptState, PromptState};
use carrot::prompt_state::InteractionKind;

fn block(n: u64) -> BlockHandle {
    BlockHandle::new(n).expect("non-zero")
}

#[test]
fn active_shell_routes_to_cmdline() {
    assert_eq!(
        route_keystroke(&PromptState::Active, HandoffMode::Shell),
        KeystrokeRoute::Cmdline
    );
}

#[test]
fn active_agent_routes_to_agent() {
    assert_eq!(
        route_keystroke(&PromptState::Active, HandoffMode::Agent),
        KeystrokeRoute::Agent
    );
}

#[test]
fn executing_hidden_routes_to_pty() {
    let state = PromptState::Executing {
        block: block(1),
        inner: InteractivePromptState::Hidden,
    };
    // HandoffMode is ignored in Executing.
    assert_eq!(
        route_keystroke(&state, HandoffMode::Shell),
        KeystrokeRoute::Pty
    );
    assert_eq!(
        route_keystroke(&state, HandoffMode::Agent),
        KeystrokeRoute::Pty
    );
}

#[test]
fn executing_transient_routes_to_transient_input() {
    let state = PromptState::Executing {
        block: block(1),
        inner: InteractivePromptState::Transient {
            detected: InteractionKind::Password,
            buffer: String::new(),
            masked: true,
        },
    };
    assert_eq!(
        route_keystroke(&state, HandoffMode::Shell),
        KeystrokeRoute::TransientInput
    );
}

#[test]
fn route_with_buffer_detects_hash_prefix() {
    let r = route_with_buffer(&PromptState::Active, "# why did this fail");
    assert_eq!(r, KeystrokeRoute::Agent);
    let r = route_with_buffer(&PromptState::Active, "ls -la");
    assert_eq!(r, KeystrokeRoute::Cmdline);
}

#[test]
fn agent_consumes_flag() {
    assert!(agent_consumes(KeystrokeRoute::Agent));
    assert!(!agent_consumes(KeystrokeRoute::Cmdline));
    assert!(!agent_consumes(KeystrokeRoute::Pty));
    assert!(!agent_consumes(KeystrokeRoute::TransientInput));
}

#[test]
fn pty_consumes_flag() {
    assert!(pty_consumes(KeystrokeRoute::Pty));
    assert!(pty_consumes(KeystrokeRoute::TransientInput));
    assert!(!pty_consumes(KeystrokeRoute::Cmdline));
    assert!(!pty_consumes(KeystrokeRoute::Agent));
}

#[test]
fn route_is_stable_across_executing_regardless_of_buffer() {
    // The buffer's leading `#` means nothing when a command is
    // running — keystrokes go to the PTY.
    let state = PromptState::Executing {
        block: block(1),
        inner: InteractivePromptState::Hidden,
    };
    assert_eq!(
        route_with_buffer(&state, "# this should not matter"),
        KeystrokeRoute::Pty
    );
}
