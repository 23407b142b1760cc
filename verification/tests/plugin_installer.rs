use carrot::cli_agents::plugin_installer::{
    install_step, is_shell_script, plugin_install_dir, status_from, uninstall_step, InstallError,
    InstallStatus, InstallStep, INSTALL_MARKER,
};

#[test]
fn install_dir_sits_under_home() {
    assert_eq!(plugin_install_dir(Some("/home/u/.agent")).unwrap(), "/home/u/.agent/plugins/carrot");
    assert_eq!(plugin_install_dir(Some("/home/u/.agent/")).unwrap(), "/home/u/.agent/plugins/carrot");
    assert!(plugin_install_dir(None).is_none());
    assert_eq!(INSTALL_MARKER, ".installed-by-carrot");
}

#[test]
fn status_reads_marker_trimmed() {
    assert_eq!(status_from(false, None, "1.0.0"), InstallStatus::Missing);
    assert_eq!(status_from(true, None, "1.0.0"), InstallStatus::ManagedByMarketplace);
    assert_eq!(
        status_from(true, Some("1.0.0\n"), "1.0.0"),
        InstallStatus::InstalledByCarrot { version: "1.0.0".to_string() }
    );
    assert_eq!(
        status_from(true, Some(" 0.9.0 "), "1.0.0"),
        InstallStatus::InstalledByCarrotMismatch {
            installed_version: "0.9.0".to_string(),
            bundled_version: "1.0.0".to_string(),
        }
    );
}

#[test]
fn marketplace_install_is_refused_unless_forced() {
    assert_eq!(
        install_step("/p", InstallStatus::ManagedByMarketplace, false),
        InstallStep::Refuse(InstallError::MarketplaceManaged("/p".to_string()))
    );
    assert_eq!(install_step("/p", InstallStatus::ManagedByMarketplace, true), InstallStep::Write);
    assert_eq!(install_step("/p", InstallStatus::Missing, false), InstallStep::Write);
    let current = InstallStatus::InstalledByCarrot { version: "1".to_string() };
    assert_eq!(install_step("/p", current.clone(), true), InstallStep::Done(current));
}

#[test]
fn uninstall_only_removes_marked_installs() {
    assert_eq!(uninstall_step("/p", false, false, false), Ok(false));
    assert_eq!(
        uninstall_step("/p", true, false, false),
        Err(InstallError::MarketplaceManaged("/p".to_string()))
    );
    assert_eq!(uninstall_step("/p", true, true, false), Ok(true));
    assert_eq!(uninstall_step("/p", true, false, true), Ok(true));
}

#[test]
fn shell_scripts_are_recognised_by_extension() {
    assert!(is_shell_script("/x/scripts/emit-event.sh"));
    assert!(is_shell_script("on-stop.sh"));
    assert!(!is_shell_script("/x/scripts/emit-event.ps1"));
    assert!(!is_shell_script("/x/.sh"));
    assert!(!is_shell_script("/x.sh/readme"));
    assert!(is_shell_script("/x/run.sh/"));
    assert!(!is_shell_script("shell.shx"));
}
