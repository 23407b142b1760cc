//! Decisions of the bundled agent-plugin installer.
//!
//! The plugin lives in `plugins/carrot/` under the agent's
//! configuration directory. A marker file
//! written by the installer tells an install made here from one made by
//! the agent's marketplace: only the former is upgraded or removed
//! without the user's explicit consent. Reading and writing the
//! directory is the caller's job; this module decides what to do with
//! what it found.

use vstd::prelude::*;
use crate::text::{chars_of, push_str, seq_trim, str_eq, trim_string};

verus! {

/// Name of the marker file the installer writes into the plugin
/// directory, holding the installed version.
pub const INSTALL_MARKER: &'static str = ".installed-by-carrot";

/// State of the plugin on disk.
#[derive(Debug, Clone, PartialEq, Eq)]
pub enum InstallStatus {
    /// No plugin directory.
    Missing,
    /// Installed here, at the bundled version.
    InstalledByCarrot { version: String },
    /// Installed here, at another version.
    InstalledByCarrotMismatch { installed_version: String, bundled_version: String },
    /// A directory without the marker: left alone unless forced.
    ManagedByMarketplace,
}

/// Why an install step was refused or failed.
#[derive(Debug, Clone, PartialEq, Eq)]
pub enum InstallError {
    /// The home directory cannot be resolved.
    NoHomeDir,
    /// A file operation failed at `path`.
    Io { path: String, message: String },
    /// The directory at this path came from the marketplace.
    MarketplaceManaged(String),
}

/// `dir` joined with `plugins/carrot` (no doubled `/`).
pub open spec fn spec_install_dir(dir: Seq<char>) -> Seq<char> {
    if dir.len() == 0 || dir.last() == '/' {
        dir + "plugins/carrot"@
    } else {
        dir + "/plugins/carrot"@
    }
}

/// The plugin directory under the agent's configuration directory
/// `config_dir` (a directory in the user's home); `None` when the
/// home directory cannot be resolved.
pub fn plugin_install_dir(config_dir: Option<&str>) -> (r: Option<String>)
    ensures
        match config_dir {
            Some(d) => (r matches Some(p) && p@ == spec_install_dir(d@)),
            None => r is None,
        },
{
    match config_dir {
        Some(d) => {
            let v = chars_of(d);
            let mut dir = d.to_owned();
            if v.len() == 0 || v[v.len() - 1] == '/' {
                push_str(&mut dir, "plugins/carrot");
            } else {
                push_str(&mut dir, "/plugins/carrot");
            }
            Some(dir)
        },
        None => None,
    }
}

/// The status for a plugin directory that exists (`dir_exists`) and
/// holds the marker text `marker` (`None`: no marker), when the bundle
/// carries version `bundled`. The marker text is compared trimmed.
pub fn status_from(dir_exists: bool, marker: Option<&str>, bundled: &str) -> (r: InstallStatus)
    ensures
        !dir_exists ==> r == InstallStatus::Missing,
        dir_exists ==> match marker {
            None => r == InstallStatus::ManagedByMarketplace,
            Some(m) => if seq_trim(m@) == bundled@ {
                r matches InstallStatus::InstalledByCarrot { version } && version@ == bundled@
            } else {
                r matches InstallStatus::InstalledByCarrotMismatch { installed_version, bundled_version }
                    && installed_version@ == seq_trim(m@) && bundled_version@ == bundled@
            },
        },
{
    if !dir_exists {
        return InstallStatus::Missing;
    }
    match marker {
        None => InstallStatus::ManagedByMarketplace,
        Some(m) => {
            let installed = trim_string(m);
            if str_eq(installed.as_str(), bundled) {
                InstallStatus::InstalledByCarrot { version: installed }
            } else {
                InstallStatus::InstalledByCarrotMismatch {
                    installed_version: installed,
                    bundled_version: bundled.to_owned(),
                }
            }
        },
    }
}

/// What installing does from a given status.
#[derive(Debug, Clone, PartialEq, Eq)]
pub enum InstallStep {
    /// Nothing to write; report this status.
    Done(InstallStatus),
    /// Refuse with this error.
    Refuse(InstallError),
    /// Replace the directory with the bundle, then report the plugin
    /// installed at the bundled version.
    Write,
}

/// The install step for the plugin directory `dir` in `status`: an
/// install at the bundled version stays; a marketplace install is
/// refused unless `force`; anything else is (re)written.
pub fn install_step(dir: &str, status: InstallStatus, force: bool) -> (r: InstallStep)
    ensures
        match status {
            InstallStatus::InstalledByCarrot { version } => r == InstallStep::Done(
                InstallStatus::InstalledByCarrot { version },
            ),
            InstallStatus::ManagedByMarketplace => if force {
                r == InstallStep::Write
            } else {
                r matches InstallStep::Refuse(InstallError::MarketplaceManaged(p)) && p@ == dir@
            },
            _ => r == InstallStep::Write,
        },
{
    match status {
        InstallStatus::InstalledByCarrot { version } => InstallStep::Done(InstallStatus::InstalledByCarrot { version }),
        InstallStatus::ManagedByMarketplace => {
            if force {
                InstallStep::Write
            } else {
                InstallStep::Refuse(InstallError::MarketplaceManaged(dir.to_owned()))
            }
        },
        _ => InstallStep::Write,
    }
}

/// Uninstalling the plugin directory `dir`: `Ok(false)` when there is
/// none, refused without the marker unless `force`, else `Ok(true)`:
/// remove it.
pub fn uninstall_step(dir: &str, dir_exists: bool, marker_exists: bool, force: bool) -> (r: Result<bool, InstallError>)
    ensures
        !dir_exists ==> r == Ok::<bool, InstallError>(false),
        dir_exists && !force && !marker_exists ==> (r matches Err(InstallError::MarketplaceManaged(p)) && p@ == dir@),
        dir_exists && (force || marker_exists) ==> r == Ok::<bool, InstallError>(true),
{
    if !dir_exists {
        return Ok(false);
    }
    if !force && !marker_exists {
        return Err(InstallError::MarketplaceManaged(dir.to_owned()));
    }
    Ok(true)
}

/// The last component of a path (trailing `/` ignored).
pub open spec fn file_name(p: Seq<char>) -> Seq<char>
    decreases p.len(),
{
    if p.len() > 0 && p.last() == '/' {
        file_name(p.drop_last())
    } else {
        last_component(p, p.len() as int)
    }
}

/// `p[k..]` where `k` follows the last `/` before `i` (all of `p`
/// without one).
pub open spec fn last_component(p: Seq<char>, i: int) -> Seq<char>
    decreases i,
{
    if i <= 0 || i > p.len() {
        p
    } else if p[i - 1] == '/' {
        p.skip(i)
    } else {
        last_component(p, i - 1)
    }
}

/// The extension of a file name: what follows its last `.`, when that
/// `.` is not the first character.
pub open spec fn extension(name: Seq<char>, i: int) -> Option<Seq<char>>
    decreases i,
{
    if i <= 1 || i > name.len() {
        None
    } else if name[i - 1] == '.' {
        Some(name.skip(i))
    } else {
        extension(name, i - 1)
    }
}

/// Whether `path` names a POSIX shell script (extension `sh`), which
/// the installer marks executable.
pub open spec fn spec_is_shell_script(path: Seq<char>) -> bool {
    let name = file_name(path);
    extension(name, name.len() as int) == Some(seq!['s', 'h'])
}

pub fn is_shell_script(path: &str) -> (r: bool)
    ensures
        r == spec_is_shell_script(path@),
{
    let v = chars_of(path);
    let mut end: usize = v.len();
    assert(v@.take(end as int) =~= v@);
    while end > 0 && v[end - 1] == '/'
        invariant
            end <= v@.len(),
            file_name(v@) == file_name(v@.take(end as int)),
        decreases end,
    {
        proof {
            assert(v@.take(end as int).drop_last() =~= v@.take(end - 1));
        }
        end -= 1;
    }
    let ghost t = v@.take(end as int);
    let mut start: usize = end;
    while start > 0 && v[start - 1] != '/'
        invariant
            start <= end <= v@.len(),
            t == v@.take(end as int),
            last_component(t, end as int) == last_component(t, start as int),
        decreases start,
    {
        start -= 1;
    }
    let ghost name = t.skip(start as int);
    assert(file_name(v@) == name) by {
        assert(v@.take(v@.len() as int) =~= v@);
        assert(t.skip(0) =~= t);
    }
    assert(name =~= v@.subrange(start as int, end as int));
    // The name is v[start..end]; find its last '.'.
    let mut dot: usize = end;
    while dot - start > 1 && v[dot - 1] != '.'
        invariant
            start <= end <= v@.len(),
            start <= dot <= end,
            name == v@.subrange(start as int, end as int),
            extension(name, (dot - start) as int) == extension(name, (end - start) as int),
        decreases dot,
    {
        dot -= 1;
    }
    if dot - start > 1 && v[dot - 1] == '.' {
        let is_sh = end - dot == 2 && v[dot] == 's' && v[dot + 1] == 'h';
        proof {
            let ext = name.skip((dot - start) as int);
            assert(ext =~= v@.subrange(dot as int, end as int));
            if is_sh {
                assert(ext =~= seq!['s', 'h']);
            } else if ext == seq!['s', 'h'] {
                assert(ext[0] == v@[dot as int] && ext[1] == v@[dot + 1]);
            }
        }
        is_sh
    } else {
        false
    }
}

} // verus!
