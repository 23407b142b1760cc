//! Cmdline action vocabulary and per-shell default key bindings.

use vstd::prelude::*;
use crate::shell::ShellKind;

verus! {

/// An action the cmdline can perform in response to a keystroke.
#[derive(Debug, Clone, Copy, PartialEq, Eq, Hash, Structural)]
pub enum CmdlineAction {
    SubmitCommand,
    CancelCommand,
    MoveLeft,
    MoveRight,
    MoveWordLeft,
    MoveWordRight,
    MoveStart,
    MoveEnd,
    DeleteLeft,
    DeleteRight,
    DeleteWordLeft,
    DeleteWordRight,
    ClearLine,
    AcceptCompletion,
    CycleNextCompletion,
    CyclePrevCompletion,
    DismissCompletion,
    /// Accept only the common prefix among current candidates.
    AcceptCommonPrefix,
    HistoryPrev,
    HistoryNext,
    HistorySearchIncremental,
    /// `#` prefix hand-off.
    AgentHandoff,
    /// Accept the visible ghost-text suggestion.
    AcceptGhostText,
    /// Accept one word of the ghost-text.
    AcceptGhostTextWord,
    /// Re-run the last command.
    RerunLast,
    /// Open the input in `$EDITOR`.
    EditInExternalEditor,
}

impl CmdlineAction {
    /// Whether the action needs an active completion set.
    pub fn requires_completion(self) -> (r: bool)
        ensures
            r == (self == CmdlineAction::AcceptCompletion || self
                == CmdlineAction::CycleNextCompletion || self == CmdlineAction::CyclePrevCompletion
                || self == CmdlineAction::DismissCompletion || self
                == CmdlineAction::AcceptCommonPrefix),
    {
        matches!(
            self,
            CmdlineAction::AcceptCompletion | CmdlineAction::CycleNextCompletion
                | CmdlineAction::CyclePrevCompletion | CmdlineAction::DismissCompletion
                | CmdlineAction::AcceptCommonPrefix
        )
    }

    /// Whether the action discards unsaved buffer text.
    pub fn is_destructive(self) -> (r: bool)
        ensures
            r == (self == CmdlineAction::CancelCommand || self == CmdlineAction::ClearLine || self
                == CmdlineAction::DeleteWordLeft || self == CmdlineAction::DeleteWordRight),
    {
        matches!(
            self,
            CmdlineAction::CancelCommand | CmdlineAction::ClearLine | CmdlineAction::DeleteWordLeft
                | CmdlineAction::DeleteWordRight
        )
    }
}

/// A binding table as key labels and actions.
pub open spec fn table_view(t: Seq<(&'static str, CmdlineAction)>) -> Seq<(Seq<char>, CmdlineAction)> {
    t.map_values(|e: (&'static str, CmdlineAction)| (e.0@, e.1))
}

pub open spec fn nushell_table() -> Seq<(Seq<char>, CmdlineAction)> {
    seq![
        ("Enter"@, CmdlineAction::SubmitCommand),
        ("Ctrl+C"@, CmdlineAction::CancelCommand),
        ("Tab"@, CmdlineAction::AcceptCompletion),
        ("Shift+Tab"@, CmdlineAction::CyclePrevCompletion),
        ("Ctrl+R"@, CmdlineAction::HistorySearchIncremental),
        ("Up"@, CmdlineAction::HistoryPrev),
        ("Down"@, CmdlineAction::HistoryNext),
        ("Ctrl+A"@, CmdlineAction::MoveStart),
        ("Ctrl+E"@, CmdlineAction::MoveEnd),
        ("Alt+Left"@, CmdlineAction::MoveWordLeft),
        ("Alt+Right"@, CmdlineAction::MoveWordRight),
        ("Right"@, CmdlineAction::AcceptGhostText),
    ]
}

pub open spec fn bash_table() -> Seq<(Seq<char>, CmdlineAction)> {
    seq![
        ("Enter"@, CmdlineAction::SubmitCommand),
        ("Ctrl+C"@, CmdlineAction::CancelCommand),
        ("Tab"@, CmdlineAction::AcceptCommonPrefix),
        ("Ctrl+R"@, CmdlineAction::HistorySearchIncremental),
        ("Up"@, CmdlineAction::HistoryPrev),
        ("Down"@, CmdlineAction::HistoryNext),
        ("Ctrl+A"@, CmdlineAction::MoveStart),
        ("Ctrl+E"@, CmdlineAction::MoveEnd),
        ("Ctrl+W"@, CmdlineAction::DeleteWordLeft),
        ("Ctrl+U"@, CmdlineAction::ClearLine),
        ("Ctrl+X Ctrl+E"@, CmdlineAction::EditInExternalEditor),
    ]
}

pub open spec fn zsh_table() -> Seq<(Seq<char>, CmdlineAction)> {
    seq![
        ("Enter"@, CmdlineAction::SubmitCommand),
        ("Ctrl+C"@, CmdlineAction::CancelCommand),
        ("Tab"@, CmdlineAction::AcceptCommonPrefix),
        ("Shift+Tab"@, CmdlineAction::CyclePrevCompletion),
        ("Ctrl+R"@, CmdlineAction::HistorySearchIncremental),
        ("Up"@, CmdlineAction::HistoryPrev),
        ("Down"@, CmdlineAction::HistoryNext),
        ("Ctrl+A"@, CmdlineAction::MoveStart),
        ("Ctrl+E"@, CmdlineAction::MoveEnd),
        ("Ctrl+W"@, CmdlineAction::DeleteWordLeft),
        ("Ctrl+U"@, CmdlineAction::ClearLine),
        ("Ctrl+X Ctrl+E"@, CmdlineAction::EditInExternalEditor),
    ]
}

pub open spec fn fish_table() -> Seq<(Seq<char>, CmdlineAction)> {
    seq![
        ("Enter"@, CmdlineAction::SubmitCommand),
        ("Ctrl+C"@, CmdlineAction::CancelCommand),
        ("Tab"@, CmdlineAction::AcceptCompletion),
        ("Shift+Tab"@, CmdlineAction::CyclePrevCompletion),
        ("Ctrl+R"@, CmdlineAction::HistorySearchIncremental),
        ("Up"@, CmdlineAction::HistoryPrev),
        ("Down"@, CmdlineAction::HistoryNext),
        ("Ctrl+A"@, CmdlineAction::MoveStart),
        ("Ctrl+E"@, CmdlineAction::MoveEnd),
        ("Right"@, CmdlineAction::AcceptGhostText),
        ("Alt+Right"@, CmdlineAction::AcceptGhostTextWord),
    ]
}

/// The default table of a shell; shells without a table of their own
/// use bash's.
pub open spec fn spec_default_bindings(shell: ShellKind) -> Seq<(Seq<char>, CmdlineAction)> {
    match shell {
        ShellKind::Nushell => nushell_table(),
        ShellKind::Zsh => zsh_table(),
        ShellKind::Fish => fish_table(),
        _ => bash_table(),
    }
}

/// Default bindings baked into each shell.
pub fn default_bindings(shell: ShellKind) -> (r: &'static [(&'static str, CmdlineAction)])
    ensures
        table_view(r@) == spec_default_bindings(shell),
    decreases
            (if shell == ShellKind::Bash {
                0int
            } else {
                1int
            }),
{
    match shell {
        ShellKind::Nushell => {
            let t: &'static [(&'static str, CmdlineAction)] = &[
                ("Enter", CmdlineAction::SubmitCommand),
                ("Ctrl+C", CmdlineAction::CancelCommand),
                ("Tab", CmdlineAction::AcceptCompletion),
                ("Shift+Tab", CmdlineAction::CyclePrevCompletion),
                ("Ctrl+R", CmdlineAction::HistorySearchIncremental),
                ("Up", CmdlineAction::HistoryPrev),
                ("Down", CmdlineAction::HistoryNext),
                ("Ctrl+A", CmdlineAction::MoveStart),
                ("Ctrl+E", CmdlineAction::MoveEnd),
                ("Alt+Left", CmdlineAction::MoveWordLeft),
                ("Alt+Right", CmdlineAction::MoveWordRight),
                ("Right", CmdlineAction::AcceptGhostText),
            ];
            assert(table_view(t@) =~= nushell_table());
            t
        },
        ShellKind::Fish => {
            let t: &'static [(&'static str, CmdlineAction)] = &[
                ("Enter", CmdlineAction::SubmitCommand),
                ("Ctrl+C", CmdlineAction::CancelCommand),
                ("Tab", CmdlineAction::AcceptCompletion),
                ("Shift+Tab", CmdlineAction::CyclePrevCompletion),
                ("Ctrl+R", CmdlineAction::HistorySearchIncremental),
                ("Up", CmdlineAction::HistoryPrev),
                ("Down", CmdlineAction::HistoryNext),
                ("Ctrl+A", CmdlineAction::MoveStart),
                ("Ctrl+E", CmdlineAction::MoveEnd),
                ("Right", CmdlineAction::AcceptGhostText),
                ("Alt+Right", CmdlineAction::AcceptGhostTextWord),
            ];
            assert(table_view(t@) =~= fish_table());
            t
        },
        ShellKind::Zsh => {
            let t: &'static [(&'static str, CmdlineAction)] = &[
                ("Enter", CmdlineAction::SubmitCommand),
                ("Ctrl+C", CmdlineAction::CancelCommand),
                ("Tab", CmdlineAction::AcceptCommonPrefix),
                ("Shift+Tab", CmdlineAction::CyclePrevCompletion),
                ("Ctrl+R", CmdlineAction::HistorySearchIncremental),
                ("Up", CmdlineAction::HistoryPrev),
                ("Down", CmdlineAction::HistoryNext),
                ("Ctrl+A", CmdlineAction::MoveStart),
                ("Ctrl+E", CmdlineAction::MoveEnd),
                ("Ctrl+W", CmdlineAction::DeleteWordLeft),
                ("Ctrl+U", CmdlineAction::ClearLine),
                ("Ctrl+X Ctrl+E", CmdlineAction::EditInExternalEditor),
            ];
            assert(table_view(t@) =~= zsh_table());
            t
        },
        ShellKind::Bash => {
            let t: &'static [(&'static str, CmdlineAction)] = &[
                ("Enter", CmdlineAction::SubmitCommand),
                ("Ctrl+C", CmdlineAction::CancelCommand),
                ("Tab", CmdlineAction::AcceptCommonPrefix),
                ("Ctrl+R", CmdlineAction::HistorySearchIncremental),
                ("Up", CmdlineAction::HistoryPrev),
                ("Down", CmdlineAction::HistoryNext),
                ("Ctrl+A", CmdlineAction::MoveStart),
                ("Ctrl+E", CmdlineAction::MoveEnd),
                ("Ctrl+W", CmdlineAction::DeleteWordLeft),
                ("Ctrl+U", CmdlineAction::ClearLine),
                ("Ctrl+X Ctrl+E", CmdlineAction::EditInExternalEditor),
            ];
            assert(table_view(t@) =~= bash_table());
            t
        },
        // Every other shell gets the bash-style defaults.
        ShellKind::Posix | ShellKind::Csh | ShellKind::Tcsh | ShellKind::Rc
        | ShellKind::PowerShell | ShellKind::Pwsh | ShellKind::Cmd | ShellKind::Xonsh
        | ShellKind::Elvish => default_bindings(ShellKind::Bash),
    }
}

/// Whether `t` binds `a` somewhere.
pub open spec fn binds(t: Seq<(Seq<char>, CmdlineAction)>, a: CmdlineAction) -> bool {
    exists|i: int| 0 <= i < t.len() && t[i].1 == a
}

/// Every shell's default table submits, cancels, and walks history in
/// both directions, and no keystroke is bound twice in one table.
pub proof fn lemma_default_bindings_complete_and_unambiguous(shell: ShellKind)
    ensures
        binds(spec_default_bindings(shell), CmdlineAction::SubmitCommand),
        binds(spec_default_bindings(shell), CmdlineAction::CancelCommand),
        binds(spec_default_bindings(shell), CmdlineAction::HistoryPrev),
        binds(spec_default_bindings(shell), CmdlineAction::HistoryNext),
        forall|i: int, j: int|
            0 <= i < j < spec_default_bindings(shell).len() ==> spec_default_bindings(shell)[i].0
                != spec_default_bindings(shell)[j].0,
{
    reveal_strlit("Enter");
    reveal_strlit("Ctrl+C");
    reveal_strlit("Tab");
    reveal_strlit("Shift+Tab");
    reveal_strlit("Ctrl+R");
    reveal_strlit("Up");
    reveal_strlit("Down");
    reveal_strlit("Ctrl+A");
    reveal_strlit("Ctrl+E");
    reveal_strlit("Alt+Left");
    reveal_strlit("Alt+Right");
    reveal_strlit("Right");
    reveal_strlit("Ctrl+W");
    reveal_strlit("Ctrl+U");
    reveal_strlit("Ctrl+X Ctrl+E");
    let t = spec_default_bindings(shell);
    assert(t[0].1 == CmdlineAction::SubmitCommand);
    assert(t[1].1 == CmdlineAction::CancelCommand);
    assert forall|i: int, j: int| 0 <= i < j < t.len() implies t[i].0 != t[j].0 by {
        assert(t[i].0.len() != t[j].0.len() || t[i].0[0] != t[j].0[0] || t[i].0.last()
            != t[j].0.last());
    }
    if shell == ShellKind::Nushell || shell == ShellKind::Zsh || shell == ShellKind::Fish {
        assert(t[5].1 == CmdlineAction::HistoryPrev);
        assert(t[6].1 == CmdlineAction::HistoryNext);
    } else {
        assert(t[4].1 == CmdlineAction::HistoryPrev);
        assert(t[5].1 == CmdlineAction::HistoryNext);
    }
}

} // verus!
