use carrot::shell::{carrot_default_shell, display_name, shell_kind_from_path, ShellKind};
#[test]
fn shell_kind_from_path_detects_bash_and_zsh_distinctly() {
    assert_eq!(
        shell_kind_from_path("/bin/bash"),
        ShellKind::Bash,
    );
    assert_eq!(
        shell_kind_from_path("/usr/local/bin/zsh"),
        ShellKind::Zsh,
    );
    assert_eq!(
        shell_kind_from_path("/usr/local/bin/fish"),
        ShellKind::Fish,
    );
    assert_eq!(
        shell_kind_from_path("/opt/homebrew/bin/nu"),
        ShellKind::Nushell,
    );
}

#[test]
fn real_posix_shells_stay_posix() {
    assert_eq!(shell_kind_from_path("/bin/sh"), ShellKind::Posix,);
    assert_eq!(
        shell_kind_from_path("/bin/dash"),
        ShellKind::Posix,
    );
}

#[test]
fn unknown_program_falls_back_to_carrot_default() {
    assert_eq!(
        shell_kind_from_path("/usr/local/bin/totally-unknown"),
        ShellKind::Nushell,
    );
}

#[test]
fn display_name_uses_product_name_for_nushell() {
    assert_eq!(display_name(ShellKind::Nushell), "nushell");
    assert_eq!(display_name(ShellKind::Bash), "bash");
}

#[test]
fn carrot_default_is_nushell() {
    assert_eq!(carrot_default_shell(), ShellKind::Nushell);
}
