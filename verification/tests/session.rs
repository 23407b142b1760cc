use carrot::mount::BlockHandle;
use carrot::osc133::ShellEvent;
use carrot::phase2::ai::{Suggestion, SuggestionSet, SuggestionSource};
use carrot::prompt_state::{InteractionKind, InteractivePromptState, PromptState};
use carrot::session::CmdlineSession;
use carrot::shell::ShellKind;

fn block(n: u64) -> BlockHandle {
    BlockHandle::new(n).expect("non-zero")
}

#[test]
fn new_session_starts_active_and_empty() {
    let s = CmdlineSession::new(ShellKind::Nushell);
    assert_eq!(s.shell(), ShellKind::Nushell);
    assert!(s.state().is_active());
    assert_eq!(s.buffer(), "");
    assert_eq!(s.cursor(), 0);
    assert!(!s.ast().has_command());
}

#[test]
fn set_buffer_reparses_ast() {
    let mut s = CmdlineSession::new(ShellKind::Bash);
    s.set_buffer("git checkout main");
    assert_eq!(s.cursor(), 17);
    assert!(s.ast().has_command());
    let first = s.ast().first().expect("stage");
    assert_eq!(first.positionals.len(), 1);
}

#[test]
fn insert_advances_cursor_and_updates_ast() {
    let mut s = CmdlineSession::new(ShellKind::Zsh);
    s.insert("ls");
    assert_eq!(s.buffer(), "ls");
    assert_eq!(s.cursor(), 2);
    assert_eq!(
        s.ast().first().unwrap().command.as_ref().unwrap().name,
        "ls",
    );

    s.insert(" -la");
    assert_eq!(s.buffer(), "ls -la");
    assert_eq!(s.cursor(), 6);
    assert_eq!(s.ast().first().unwrap().flags.len(), 1);
}

#[test]
fn delete_left_clamps_at_zero() {
    let mut s = CmdlineSession::new(ShellKind::Nushell);
    s.set_buffer("abc");
    s.delete_left(10);
    assert_eq!(s.buffer(), "");
    assert_eq!(s.cursor(), 0);
}

#[test]
fn clear_resets_everything() {
    let mut s = CmdlineSession::new(ShellKind::Fish);
    s.set_buffer("ls -la");
    s.clear_buffer();
    assert_eq!(s.buffer(), "");
    assert_eq!(s.cursor(), 0);
    assert!(!s.ast().has_command());
}

#[test]
fn set_cursor_clamps_to_buffer_length() {
    let mut s = CmdlineSession::new(ShellKind::Nushell);
    s.set_buffer("abc");
    s.set_cursor(99);
    assert_eq!(s.cursor(), 3);
}

#[test]
fn full_command_lifecycle_with_scheduled_block() {
    let mut s = CmdlineSession::new(ShellKind::Nushell);
    s.schedule_block(block(1));
    // Active → Active on PromptStart / InputStart (no-op).
    s.apply_shell_event(ShellEvent::PromptStart);
    assert!(s.state().is_active());
    // Active → Executing::Hidden on CommandStart.
    assert!(s.apply_shell_event(ShellEvent::CommandStart));
    assert_eq!(s.state().block(), Some(block(1)));
    // Executing → Active on CommandEnd.
    assert!(s.apply_shell_event(ShellEvent::CommandEnd { exit_code: 0 }));
    assert!(s.state().is_active());
    assert!(s.next_block().is_none());
}

#[test]
fn command_start_without_scheduled_block_is_noop() {
    let mut s = CmdlineSession::new(ShellKind::Nushell);
    assert!(!s.apply_shell_event(ShellEvent::CommandStart));
    assert!(s.state().is_active());
}

#[test]
fn promote_to_transient_preserves_block() {
    let mut s = CmdlineSession::new(ShellKind::Bash);
    s.schedule_block(block(7));
    s.apply_shell_event(ShellEvent::CommandStart);
    assert!(s.promote_to_transient(InteractionKind::Password));
    assert_eq!(s.state().block(), Some(block(7)));
    assert_eq!(
        s.state().interaction_kind(),
        Some(InteractionKind::Password)
    );
}

#[test]
fn promote_from_active_rejected() {
    let mut s = CmdlineSession::new(ShellKind::Bash);
    assert!(!s.promote_to_transient(InteractionKind::FreeText));
}

#[test]
fn transient_append_and_commit_round_trips() {
    let mut s = CmdlineSession::new(ShellKind::Bash);
    s.schedule_block(block(1));
    s.apply_shell_event(ShellEvent::CommandStart);
    s.promote_to_transient(InteractionKind::FreeText);
    assert!(s.transient_append("hello"));
    assert!(s.transient_append(" world"));
    let bytes = s.commit_transient().unwrap();
    assert_eq!(bytes, "hello world");
    // Back in Hidden.
    assert!(matches!(
        s.state(),
        PromptState::Executing {
            inner: InteractivePromptState::Hidden,
            ..
        }
    ));
}

#[test]
fn transient_password_buffer_is_masked() {
    let mut s = CmdlineSession::new(ShellKind::Bash);
    s.schedule_block(block(1));
    s.apply_shell_event(ShellEvent::CommandStart);
    s.promote_to_transient(InteractionKind::Password);
    s.transient_append("correct horse battery staple");
    // Public buffer() returns None when masked.
    assert!(s.state().buffer().is_none());
    // But the PTY write path still sees the bytes.
    assert_eq!(
        s.state().masked_buffer().unwrap(),
        "correct horse battery staple"
    );
}

#[test]
fn active_suggestion_follows_set() {
    let mut s = CmdlineSession::new(ShellKind::Nushell);
    assert!(s.active_suggestion().is_none());
    let mut set = SuggestionSet::new();
    set.candidates
        .push(Suggestion::new("ls", SuggestionSource::History));
    s.set_suggestions(set);
    assert_eq!(s.active_suggestion().unwrap().completion, "ls");
}

#[test]
fn full_replacement_works() {
    let mut s = CmdlineSession::new(ShellKind::Zsh);
    s.set_buffer("git cehckout main");
    s.set_buffer("git checkout main");
    assert!(s.ast().has_command());
    let first = s.ast().first().expect("stage");
    assert_eq!(first.subcommand.as_ref().unwrap().name, "checkout");
}

#[test]
fn transient_commit_joins_every_append_once() {
    let mut s = CmdlineSession::new(ShellKind::Fish);
    s.schedule_block(block(4));
    s.apply_shell_event(ShellEvent::CommandStart);
    assert!(s.promote_to_transient(InteractionKind::FreeText));
    for part in ["a", "", "bé", " ✓"] {
        assert!(s.transient_append(part));
    }
    assert_eq!(s.commit_transient().as_deref(), Some("abé ✓"));
    assert!(matches!(
        s.state(),
        PromptState::Executing { block: b, inner: InteractivePromptState::Hidden } if *b == block(4)
    ));
    assert_eq!(s.commit_transient(), None);
    assert!(!s.transient_append("late"));
}

#[test]
fn insert_then_delete_left_restores_buffer_and_cursor() {
    let mut s = CmdlineSession::new(ShellKind::Bash);
    s.set_buffer("git commit");
    s.set_cursor(4);
    let ast_before = s.ast().clone();
    s.insert("-C dir ✓ ");
    assert_eq!(s.buffer(), "git -C dir ✓ commit");
    s.delete_left("-C dir ✓ ".len());
    assert_eq!(s.buffer(), "git commit");
    assert_eq!(s.cursor(), 4);
    assert_eq!(s.ast(), &ast_before);
}
