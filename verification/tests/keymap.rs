use carrot::keymap::{default_bindings, CmdlineAction};
use carrot::shell::ShellKind;
#[test]
fn every_shell_has_submit_binding() {
    for shell in [
        ShellKind::Nushell,
        ShellKind::Bash,
        ShellKind::Zsh,
        ShellKind::Fish,
    ] {
        let has_submit = default_bindings(shell)
            .iter()
            .any(|(_, a)| *a == CmdlineAction::SubmitCommand);
        assert!(has_submit, "{shell:?} lacks SubmitCommand");
    }
}

#[test]
fn every_shell_has_cancel_binding() {
    for shell in [
        ShellKind::Nushell,
        ShellKind::Bash,
        ShellKind::Zsh,
        ShellKind::Fish,
    ] {
        let has_cancel = default_bindings(shell)
            .iter()
            .any(|(_, a)| *a == CmdlineAction::CancelCommand);
        assert!(has_cancel, "{shell:?} lacks CancelCommand");
    }
}

#[test]
fn every_shell_has_history_walking() {
    for shell in [
        ShellKind::Nushell,
        ShellKind::Bash,
        ShellKind::Zsh,
        ShellKind::Fish,
    ] {
        let table = default_bindings(shell);
        assert!(
            table.iter().any(|(_, a)| *a == CmdlineAction::HistoryPrev),
            "{shell:?} lacks HistoryPrev"
        );
        assert!(
            table.iter().any(|(_, a)| *a == CmdlineAction::HistoryNext),
            "{shell:?} lacks HistoryNext"
        );
    }
}

#[test]
fn fish_has_ghost_text_word_accept() {
    let table = default_bindings(ShellKind::Fish);
    assert!(
        table
            .iter()
            .any(|(_, a)| *a == CmdlineAction::AcceptGhostTextWord),
    );
}

#[test]
fn bash_and_zsh_expose_external_editor_shortcut() {
    for shell in [ShellKind::Bash, ShellKind::Zsh] {
        let table = default_bindings(shell);
        assert!(
            table
                .iter()
                .any(|(_, a)| *a == CmdlineAction::EditInExternalEditor),
            "{shell:?} missing EditInExternalEditor"
        );
    }
}

#[test]
fn requires_completion_classification() {
    assert!(CmdlineAction::AcceptCompletion.requires_completion());
    assert!(CmdlineAction::CycleNextCompletion.requires_completion());
    assert!(!CmdlineAction::SubmitCommand.requires_completion());
    assert!(!CmdlineAction::HistoryPrev.requires_completion());
}

#[test]
fn destructive_actions_flagged() {
    assert!(CmdlineAction::ClearLine.is_destructive());
    assert!(CmdlineAction::CancelCommand.is_destructive());
    assert!(!CmdlineAction::MoveLeft.is_destructive());
}

#[test]
fn no_shell_has_duplicate_keystroke_mappings() {
    for shell in [
        ShellKind::Nushell,
        ShellKind::Bash,
        ShellKind::Zsh,
        ShellKind::Fish,
    ] {
        let table = default_bindings(shell);
        for i in 0..table.len() {
            for j in (i + 1)..table.len() {
                assert_ne!(
                    table[i].0, table[j].0,
                    "{shell:?} has duplicate binding for {}",
                    table[i].0
                );
            }
        }
    }
}
