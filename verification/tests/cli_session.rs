use carrot::cli_agents::agent::PermissionModeFlag;
use carrot::cli_agents::session::{now, CliAgentSessionState, NotificationType, PermissionMode};
#[test]
fn terminal_states_are_terminal() {
    assert!(
        CliAgentSessionState::Completed { exit_code: Some(0) }.is_terminal(),
        "Completed{{0}} should be terminal"
    );
    assert!(
        CliAgentSessionState::Completed { exit_code: Some(1) }.is_terminal(),
        "Completed{{nonzero}} should be terminal"
    );
    assert!(
        CliAgentSessionState::Errored { reason: "x".into() }.is_terminal(),
        "Errored should be terminal"
    );
}

#[test]
fn working_states_are_not_terminal() {
    assert!(!CliAgentSessionState::Starting.is_terminal());
    assert!(!CliAgentSessionState::Idle.is_terminal());
    assert!(
        !CliAgentSessionState::Working {
            since: now()
        }
        .is_terminal()
    );
    assert!(
        !CliAgentSessionState::WaitingForInput {
            notification_type: NotificationType::IdlePrompt,
        }
        .is_terminal()
    );
    assert!(!CliAgentSessionState::Compacting.is_terminal());
}

#[test]
fn permission_mode_parses_known_variants() {
    assert_eq!(
        PermissionMode::from(&PermissionModeFlag("default".into())),
        PermissionMode::Default
    );
    assert_eq!(
        PermissionMode::from(&PermissionModeFlag("plan".into())),
        PermissionMode::Plan
    );
    assert_eq!(
        PermissionMode::from(&PermissionModeFlag("acceptEdits".into())),
        PermissionMode::AcceptEdits
    );
    assert_eq!(
        PermissionMode::from(&PermissionModeFlag("auto".into())),
        PermissionMode::Auto
    );
    assert_eq!(
        PermissionMode::from(&PermissionModeFlag("dontAsk".into())),
        PermissionMode::DontAsk
    );
    assert_eq!(
        PermissionMode::from(&PermissionModeFlag("bypassPermissions".into())),
        PermissionMode::BypassPermissions
    );
}

#[test]
fn permission_mode_falls_back_to_unknown() {
    assert_eq!(
        PermissionMode::from(&PermissionModeFlag("future-mode".into())),
        PermissionMode::Unknown
    );
    assert_eq!(
        PermissionMode::from(&PermissionModeFlag(String::new())),
        PermissionMode::Unknown
    );
}
