//! Shell kinds and the helpers the cmdline needs on top of them.

use vstd::prelude::*;
use crate::text::{chars_of, seq_contains};

verus! {

/// The shells Carrot knows about.
#[derive(Debug, Clone, Copy, PartialEq, Eq, Hash, Structural)]
pub enum ShellKind {
    Posix,
    Bash,
    Zsh,
    Csh,
    Tcsh,
    Rc,
    Fish,
    PowerShell,
    Pwsh,
    Nushell,
    Cmd,
    Xonsh,
    Elvish,
}

/// Carrot's default shell: Nushell.
pub fn carrot_default_shell() -> (r: ShellKind)
    ensures
        r == ShellKind::Nushell,
{
    ShellKind::Nushell
}

/// The file name of a `/`- or `\\`-separated path, without its last
/// extension (`Path::file_stem`).
pub open spec fn file_stem(p: Seq<char>) -> Seq<char> {
    let name = p.skip(last_sep_end(p, p.len() as int));
    let dot = last_dot(name, name.len() as int);
    if dot > 0 {
        name.take(dot)
    } else {
        name
    }
}

/// Index just past the last `/` or `\\` among the first `n` characters.
pub open spec fn last_sep_end(p: Seq<char>, n: int) -> int
    decreases n,
{
    if n <= 0 {
        0
    } else if p[n - 1] == '/' {
        n
    } else {
        last_sep_end(p, n - 1)
    }
}

/// Index of the last `.` among the first `n` characters (`-1` if none).
pub open spec fn last_dot(p: Seq<char>, n: int) -> int
    decreases n,
{
    if n <= 0 {
        -1
    } else if p[n - 1] == '.' {
        n - 1
    } else {
        last_dot(p, n - 1)
    }
}

/// Shell kind for a program stem; unknown programs are `Posix`.
pub open spec fn kind_for_stem(stem: Seq<char>) -> ShellKind {
    if stem == "bash"@ {
        ShellKind::Bash
    } else if stem == "zsh"@ {
        ShellKind::Zsh
    } else if stem == "fish"@ {
        ShellKind::Fish
    } else if stem == "nu"@ {
        ShellKind::Nushell
    } else if stem == "csh"@ {
        ShellKind::Csh
    } else if stem == "tcsh"@ {
        ShellKind::Tcsh
    } else if stem == "rc"@ {
        ShellKind::Rc
    } else if stem == "powershell"@ {
        ShellKind::PowerShell
    } else if stem == "pwsh"@ {
        ShellKind::Pwsh
    } else if stem == "cmd"@ {
        ShellKind::Cmd
    } else if stem == "xonsh"@ {
        ShellKind::Xonsh
    } else if stem == "elvish"@ {
        ShellKind::Elvish
    } else {
        ShellKind::Posix
    }
}

/// Stems of real POSIX shells.
pub open spec fn is_posix_stem(stem: Seq<char>) -> bool {
    stem == "sh"@ || stem == "dash"@ || stem == "ksh"@ || stem == "ash"@
}

/// Shell for a `$SHELL` path: known programs by their stem, real POSIX
/// shells stay `Posix`, anything else is Carrot's default (Nushell).
pub open spec fn spec_shell_kind_from_path(p: Seq<char>) -> ShellKind {
    let stem = file_stem(p);
    let kind = kind_for_stem(stem);
    if kind == ShellKind::Posix && !is_posix_stem(stem) {
        ShellKind::Nushell
    } else {
        kind
    }
}

fn eq_lit(v: &Vec<char>, lit: &str) -> (r: bool)
    ensures
        r == (v@ == lit@),
{
    let l = chars_of(lit);
    if v.len() != l.len() {
        return false;
    }
    let mut i: usize = 0;
    while i < v.len()
        invariant
            l@ == lit@,
            v@.len() == l@.len(),
            i <= v@.len(),
            forall|j: int| 0 <= j < i ==> v@[j] == l@[j],
        decreases v.len() - i,
    {
        if v[i] != l[i] {
            return false;
        }
        i += 1;
    }
    assert(v@ =~= l@);
    true
}

/// Stem of a path, as characters.
fn stem_of(path: &str) -> (r: Vec<char>)
    ensures
        r@ == file_stem(path@),
{
    let p = chars_of(path);
    let mut n: usize = p.len();
    while n > 0 && p[n - 1] != '/'
        invariant
            n <= p@.len(),
            last_sep_end(p@, p@.len() as int) == last_sep_end(p@, n as int),
        decreases n,
    {
        n -= 1;
    }
    let mut name: Vec<char> = Vec::new();
    let mut i: usize = n;
    while i < p.len()
        invariant
            n <= i <= p@.len(),
            name@ == p@.subrange(n as int, i as int),
        decreases p.len() - i,
    {
        name.push(p[i]);
        i += 1;
    }
    assert(name@ =~= p@.skip(n as int));
    let mut d: usize = name.len();
    while d > 0 && name[d - 1] != '.'
        invariant
            d <= name@.len(),
            last_dot(name@, name@.len() as int) == last_dot(name@, d as int),
        decreases d,
    {
        d -= 1;
    }
    proof {
        if n > 0 {
            assert(last_sep_end(p@, n as int) == n);
        }
        if d > 0 {
            assert(last_dot(name@, d as int) == d - 1);
        }
    }
    if d > 1 {
        let mut out: Vec<char> = Vec::new();
        let mut j: usize = 0;
        while j < d - 1
            invariant
                d <= name@.len(),
                j <= d - 1,
                out@ == name@.take(j as int),
            decreases d - 1 - j,
        {
            out.push(name[j]);
            j += 1;
            assert(name@.take(j as int) =~= name@.take(j - 1).push(name@[j - 1]));
        }
        proof {
            assert(last_dot(name@, name@.len() as int) == d - 1);
        }
        out
    } else {
        name
    }
}

/// Detect the shell kind from a `$SHELL` path.
pub fn shell_kind_from_path(path: &str) -> (r: ShellKind)
    ensures
        r == spec_shell_kind_from_path(path@),
{
    let stem = stem_of(path);
    let kind = if eq_lit(&stem, "bash") {
        ShellKind::Bash
    } else if eq_lit(&stem, "zsh") {
        ShellKind::Zsh
    } else if eq_lit(&stem, "fish") {
        ShellKind::Fish
    } else if eq_lit(&stem, "nu") {
        ShellKind::Nushell
    } else if eq_lit(&stem, "csh") {
        ShellKind::Csh
    } else if eq_lit(&stem, "tcsh") {
        ShellKind::Tcsh
    } else if eq_lit(&stem, "rc") {
        ShellKind::Rc
    } else if eq_lit(&stem, "powershell") {
        ShellKind::PowerShell
    } else if eq_lit(&stem, "pwsh") {
        ShellKind::Pwsh
    } else if eq_lit(&stem, "cmd") {
        ShellKind::Cmd
    } else if eq_lit(&stem, "xonsh") {
        ShellKind::Xonsh
    } else if eq_lit(&stem, "elvish") {
        ShellKind::Elvish
    } else {
        ShellKind::Posix
    };
    let posix_stem = eq_lit(&stem, "sh") || eq_lit(&stem, "dash") || eq_lit(&stem, "ksh")
        || eq_lit(&stem, "ash");
    if kind == ShellKind::Posix && !posix_stem {
        carrot_default_shell()
    } else {
        kind
    }
}

/// Product-name label for chips / logs (`nushell`, not `nu`).
pub fn display_name(kind: ShellKind) -> (r: &'static str)
    ensures
        r@ == (match kind {
            ShellKind::Nushell => "nushell"@,
            ShellKind::Bash => "bash"@,
            ShellKind::Zsh => "zsh"@,
            ShellKind::Fish => "fish"@,
            ShellKind::Posix => "sh"@,
            ShellKind::Csh => "csh"@,
            ShellKind::Tcsh => "tcsh"@,
            ShellKind::Rc => "rc"@,
            ShellKind::PowerShell => "powershell"@,
            ShellKind::Pwsh => "pwsh"@,
            ShellKind::Cmd => "cmd"@,
            ShellKind::Xonsh => "xonsh"@,
            ShellKind::Elvish => "elvish"@,
        }),
{
    match kind {
        ShellKind::Nushell => "nushell",
        ShellKind::Bash => "bash",
        ShellKind::Zsh => "zsh",
        ShellKind::Fish => "fish",
        ShellKind::Posix => "sh",
        ShellKind::Csh => "csh",
        ShellKind::Tcsh => "tcsh",
        ShellKind::Rc => "rc",
        ShellKind::PowerShell => "powershell",
        ShellKind::Pwsh => "pwsh",
        ShellKind::Cmd => "cmd",
        ShellKind::Xonsh => "xonsh",
        ShellKind::Elvish => "elvish",
    }
}

} // verus!
