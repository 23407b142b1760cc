//! Process detection: which processes under a PTY are CLI agents, and
//! which launch flags they were started with.
//!
//! The process table is read from the operating system; the walk over
//! a PTY's descendants, binary-name matching (case-insensitive, `.exe`
//! stripped on both sides, falling back from `exe` to `name`), and the
//! launch-flag parser of the reference agent are verified here.

use vstd::prelude::*;
use sysinfo::{ProcessRefreshKind, RefreshKind, UpdateKind};
use crate::cli_agents::agent::{CliAgentMatch, PermissionModeFlag, ProcessInfo};
use crate::text::{
    chars_of, str_eq, seq_ends_with, chars_ends_with, string_from_chars, split_once, find_char, sub_chars,
    string_of, parse_unsigned, parse_unsigned_chars, lemma_first_index_of, first_index_of,
};

verus! {

/// `str::to_lowercase` (full Unicode lowercasing) of `s`.
pub uninterp spec fn unicode_lowercase(s: Seq<char>) -> Seq<char>;

/// `str::to_lowercase`.
#[verifier::external_body]
fn to_lowercase(s: &str) -> (r: String)
    ensures
        r@ == unicode_lowercase(s@),
{
    s.to_lowercase()
}

/// The last component `std::path::Path::file_name` gives for the path
/// `p`, if any.
pub uninterp spec fn path_file_name(p: Seq<char>) -> Option<Seq<char>>;

/// `Path::new(p).file_name()`, as text (a `&str` path has no invalid
/// UTF-8, so the conversion is lossless).
#[verifier::external_body]
fn file_name(p: &str) -> (r: Option<String>)
    ensures
        match path_file_name(p@) {
            Some(f) => r matches Some(s) && s@ == f,
            None => r is None,
        },
{
    std::path::Path::new(p).file_name().map(|n| n.to_string_lossy().into_owned())
}

/// A binary name with a trailing `.exe` removed, lowercased.
pub open spec fn normalised_binary(name: Seq<char>) -> Seq<char> {
    let stem = if seq_ends_with(name, ".exe"@) { name.take(name.len() - 4) } else { name };
    unicode_lowercase(stem)
}

fn normalise_binary(name: &str) -> (r: String)
    ensures
        r@ == normalised_binary(name@),
{
    let v = chars_of(name);
    let suffix = chars_of(".exe");
    proof {
        reveal_strlit(".exe");
    }
    if chars_ends_with(&v, &suffix) {
        let stem = string_from_chars(&v, 0, v.len() - 4);
        assert(stem@ =~= name@.take(name@.len() - 4));
        to_lowercase(stem.as_str())
    } else {
        to_lowercase(name)
    }
}

/// `candidate` names the process: by its name or by the file name of
/// its executable, both normalised.
pub open spec fn names_process(process: ProcessInfo, candidate: Seq<char>) -> bool {
    let c = normalised_binary(candidate);
    ||| normalised_binary(process.name@) == c
    ||| (path_file_name(process.exe@) matches Some(f) && normalised_binary(f) == c)
}

/// Whether any of `candidates` names the process.
pub fn binary_matches(process: &ProcessInfo, candidates: &[&str]) -> (r: bool)
    ensures
        r == exists|i: int| 0 <= i < candidates@.len() && names_process(*process, (#[trigger] candidates@[i])@),
{
    let name = normalise_binary(process.name.as_str());
    let exe_stem = match file_name(process.exe.as_str()) {
        Some(f) => Some(normalise_binary(f.as_str())),
        None => None,
    };
    let mut i: usize = 0;
    while i < candidates.len()
        invariant
            i <= candidates@.len(),
            name@ == normalised_binary(process.name@),
            match path_file_name(process.exe@) {
                Some(f) => exe_stem matches Some(s) && s@ == normalised_binary(f),
                None => exe_stem is None,
            },
            forall|k: int| 0 <= k < i ==> !names_process(*process, (#[trigger] candidates@[k])@),
        decreases candidates@.len() - i,
    {
        let c = normalise_binary(candidates[i]);
        let by_exe = match &exe_stem {
            Some(s) => str_eq(s.as_str(), c.as_str()),
            None => false,
        };
        if str_eq(name.as_str(), c.as_str()) || by_exe {
            assert(names_process(*process, candidates@[i as int]@));
            return true;
        }
        i += 1;
    }
    false
}

/// Launch flags read from an agent's command line.
pub struct LaunchFlags {
    pub name: Option<Seq<char>>,
    pub resume: Option<Seq<char>>,
    pub continue_latest: bool,
    pub worktree: Option<Seq<char>>,
    pub from_pr: Option<u64>,
    pub permission_mode: Option<Seq<char>>,
    pub model: Option<Seq<char>>,
}

pub open spec fn no_flags() -> LaunchFlags {
    LaunchFlags {
        name: None,
        resume: None,
        continue_latest: false,
        worktree: None,
        from_pr: None,
        permission_mode: None,
        model: None,
    }
}

/// `--flag=value` forms.
pub open spec fn apply_equal_form(f: LaunchFlags, arg: Seq<char>) -> LaunchFlags {
    match split_once(arg, '=') {
        Some((flag, value)) => {
            if flag == "--name"@ {
                LaunchFlags { name: Some(value), ..f }
            } else if flag == "--resume"@ {
                LaunchFlags { resume: Some(value), ..f }
            } else if flag == "--worktree"@ {
                LaunchFlags { worktree: Some(value), ..f }
            } else if flag == "--from-pr"@ {
                match parse_unsigned(value, u64::MAX as nat) {
                    Some(n) => LaunchFlags { from_pr: Some(n as u64), ..f },
                    None => f,
                }
            } else if flag == "--permission-mode"@ {
                LaunchFlags { permission_mode: Some(value), ..f }
            } else if flag == "--model"@ {
                LaunchFlags { model: Some(value), ..f }
            } else {
                f
            }
        },
        None => f,
    }
}

/// A flag that takes the next argument as its value.
pub open spec fn is_valued_flag(a: Seq<char>) -> bool {
    a == "--name"@ || a == "-n"@ || a == "--resume"@ || a == "-r"@ || a == "--worktree"@ || a == "-w"@
        || a == "--from-pr"@ || a == "--permission-mode"@ || a == "--model"@
}

/// Records the value `v` of the valued flag `a`.
pub open spec fn apply_valued(f: LaunchFlags, a: Seq<char>, v: Seq<char>) -> LaunchFlags {
    if a == "--name"@ || a == "-n"@ {
        LaunchFlags { name: Some(v), ..f }
    } else if a == "--resume"@ || a == "-r"@ {
        LaunchFlags { resume: Some(v), ..f }
    } else if a == "--worktree"@ || a == "-w"@ {
        LaunchFlags { worktree: Some(v), ..f }
    } else if a == "--from-pr"@ {
        match parse_unsigned(v, u64::MAX as nat) {
            Some(n) => LaunchFlags { from_pr: Some(n as u64), ..f },
            None => f,
        }
    } else if a == "--permission-mode"@ {
        LaunchFlags { permission_mode: Some(v), ..f }
    } else {
        LaunchFlags { model: Some(v), ..f }
    }
}

/// The flags read from `args[i..]` on top of `f`. A valued flag
/// consumes the next argument; a valued flag at the end has no value.
pub open spec fn flags_from(args: Seq<Seq<char>>, i: int, f: LaunchFlags) -> LaunchFlags
    decreases args.len() - i,
{
    if i < 0 || i >= args.len() {
        f
    } else {
        let a = args[i];
        if is_valued_flag(a) {
            if i + 1 < args.len() {
                flags_from(args, i + 2, apply_valued(f, a, args[i + 1]))
            } else {
                f
            }
        } else if a == "--continue"@ || a == "-c"@ {
            flags_from(args, i + 1, LaunchFlags { continue_latest: true, ..f })
        } else {
            flags_from(args, i + 1, apply_equal_form(f, a))
        }
    }
}

pub open spec fn string_views(v: Seq<String>) -> Seq<Seq<char>> {
    v.map_values(|s: String| s@)
}

pub open spec fn opt_view(o: Option<String>) -> Option<Seq<char>> {
    match o {
        Some(s) => Some(s@),
        None => None,
    }
}

/// The flags a match carries.
pub open spec fn flags_of(m: CliAgentMatch) -> LaunchFlags {
    LaunchFlags {
        name: opt_view(m.name),
        resume: opt_view(m.resume_session_name),
        continue_latest: m.continue_latest,
        worktree: opt_view(m.worktree),
        from_pr: m.from_pr,
        permission_mode: match m.permission_mode {
            Some(p) => Some(p.0@),
            None => None,
        },
        model: opt_view(m.model),
    }
}

fn is_one_of2(a: &str, x: &str, y: &str) -> (r: bool)
    ensures
        r == (a@ == x@ || a@ == y@),
{
    str_eq(a, x) || str_eq(a, y)
}

/// Sets the field a `--flag=value` argument names.
fn apply_equal_form_exec(m: &mut CliAgentMatch, arg: &str)
    ensures
        flags_of(*final(m)) == apply_equal_form(flags_of(*old(m)), arg@),
        final(m).pid == old(m).pid,
        final(m).cmdline == old(m).cmdline,
{
    let v = chars_of(arg);
    proof {
        lemma_first_index_of(v@, '=');
    }
    let found = find_char(&v, '=');
    if found.is_none() {
        return;
    }
    let eq = found.unwrap();
    let flag = string_from_chars(&v, 0, eq);
    let value = string_from_chars(&v, eq + 1, v.len());
    assert(flag@ =~= arg@.take(eq as int));
    assert(value@ =~= arg@.skip(eq + 1));
    let f = flag.as_str();
    if str_eq(f, "--name") {
        m.name = Some(value);
    } else if str_eq(f, "--resume") {
        m.resume_session_name = Some(value);
    } else if str_eq(f, "--worktree") {
        m.worktree = Some(value);
    } else if str_eq(f, "--from-pr") {
        let vv = chars_of(value.as_str());
        match parse_unsigned_chars(&vv, 18446744073709551615u64) {
            Some(n) => {
                m.from_pr = Some(n);
            },
            None => {},
        }
    } else if str_eq(f, "--permission-mode") {
        m.permission_mode = Some(PermissionModeFlag(value));
    } else if str_eq(f, "--model") {
        m.model = Some(value);
    }
}

/// Records the value of a valued flag.
fn apply_valued_exec(m: &mut CliAgentMatch, a: &str, value: &String)
    requires
        is_valued_flag(a@),
    ensures
        flags_of(*final(m)) == apply_valued(flags_of(*old(m)), a@, value@),
        final(m).pid == old(m).pid,
        final(m).cmdline == old(m).cmdline,
{
    if is_one_of2(a, "--name", "-n") {
        m.name = Some(value.clone());
    } else if is_one_of2(a, "--resume", "-r") {
        m.resume_session_name = Some(value.clone());
    } else if is_one_of2(a, "--worktree", "-w") {
        m.worktree = Some(value.clone());
    } else if str_eq(a, "--from-pr") {
        let vv = chars_of(value.as_str());
        match parse_unsigned_chars(&vv, 18446744073709551615u64) {
            Some(n) => {
                m.from_pr = Some(n);
            },
            None => {},
        }
    } else if str_eq(a, "--permission-mode") {
        m.permission_mode = Some(PermissionModeFlag(value.clone()));
    } else {
        m.model = Some(value.clone());
    }
}

fn is_valued_flag_exec(a: &str) -> (r: bool)
    ensures
        r == is_valued_flag(a@),
{
    is_one_of2(a, "--name", "-n") || is_one_of2(a, "--resume", "-r") || is_one_of2(a, "--worktree", "-w")
        || str_eq(a, "--from-pr") || str_eq(a, "--permission-mode") || str_eq(a, "--model")
}

pub(crate) fn copy_strings(v: &Vec<String>) -> (r: Vec<String>)
    ensures
        r@ == v@,
{
    let mut out: Vec<String> = Vec::new();
    let mut i: usize = 0;
    while i < v.len()
        invariant
            i <= v@.len(),
            out@ == v@.take(i as int),
        decreases v@.len() - i,
    {
        out.push(v[i].clone());
        assert(out@ =~= v@.take(i + 1));
        i += 1;
    }
    assert(v@.take(v@.len() as int) =~= v@);
    out
}

/// Launch flags of the reference agent from a process's command line (argument 0
/// is the binary). Recognises `--name/-n`, `--resume/-r`,
/// `--continue/-c`, `--worktree/-w`, `--from-pr` (numeric),
/// `--permission-mode`, `--model`, and the `--flag=value` forms;
/// unknown flags are skipped and a trailing flag without value is
/// ignored.
pub fn parse_agent_cmdline(process: &ProcessInfo) -> (m: CliAgentMatch)
    ensures
        m.pid == process.pid,
        m.cmdline@ == process.cmdline@,
        flags_of(m) == flags_from(string_views(process.cmdline@), 1, no_flags()),
{
    let mut m = CliAgentMatch {
        pid: process.pid,
        cmdline: copy_strings(&process.cmdline),
        name: None,
        resume_session_name: None,
        continue_latest: false,
        worktree: None,
        from_pr: None,
        permission_mode: None,
        model: None,
    };
    let ghost args = string_views(process.cmdline@);
    let args_v = &process.cmdline;
    let n = args_v.len();
    let mut i: usize = 1;
    assert(flags_of(m) == no_flags());
    while i < n
        invariant
            n == args_v@.len(),
            args == string_views(args_v@),
            1 <= i,
            m.pid == process.pid,
            m.cmdline@ == process.cmdline@,
            args_v == &process.cmdline,
            flags_from(args, i as int, flags_of(m)) == flags_from(args, 1, no_flags()),
        decreases n - i,
    {
        let a = args_v[i].as_str();
        assert(args[i as int] == a@);
        if is_valued_flag_exec(a) {
            if i + 1 < n {
                assert(args[i + 1] == args_v@[i + 1]@);
                apply_valued_exec(&mut m, a, &args_v[i + 1]);
                i = i + 2;
            } else {
                i = n;
            }
        } else if is_one_of2(a, "--continue", "-c") {
            m.continue_latest = true;
            i = i + 1;
        } else {
            apply_equal_form_exec(&mut m, a);
            i = i + 1;
        }
    }
    m
}

/// A copy of `p`, field by field.
pub fn copy_process(p: &ProcessInfo) -> (r: ProcessInfo)
    ensures
        same_process(r, *p),
{
    ProcessInfo {
        pid: p.pid,
        ppid: p.ppid,
        name: p.name.clone(),
        exe: p.exe.clone(),
        cmdline: copy_strings(&p.cmdline),
        env: copy_env(&p.env),
    }
}

/// Two snapshots describe the same process with the same details.
pub open spec fn same_process(a: ProcessInfo, b: ProcessInfo) -> bool {
    &&& a.pid == b.pid
    &&& a.ppid == b.ppid
    &&& a.name@ == b.name@
    &&& a.exe@ == b.exe@
    &&& a.cmdline@ == b.cmdline@
    &&& env_view(a.env) == env_view(b.env)
}

pub open spec fn env_view(e: Option<Vec<(String, String)>>) -> Option<Seq<(String, String)>> {
    match e {
        Some(v) => Some(v@),
        None => None,
    }
}

/// `out` lists processes of `table`, each pid once, each one a child
/// of `root` or of a process listed before it.
pub open spec fn is_descendant_listing(table: Seq<ProcessInfo>, root: u32, out: Seq<ProcessInfo>) -> bool {
    &&& forall|k: int| 0 <= k < out.len() ==> exists|t: int| 0 <= t < table.len() && same_process(#[trigger] out[k], table[t])
    &&& forall|j: int, k: int| 0 <= j < k < out.len() ==> (#[trigger] out[j]).pid != (#[trigger] out[k]).pid
    &&& forall|k: int| 0 <= k < out.len() ==> (#[trigger] out[k]).ppid == root || exists|j: int|
        0 <= j < k && out[j].pid == out[k].ppid
}

/// Some process of `out` has pid `pid`.
pub open spec fn listed(out: Seq<ProcessInfo>, pid: u32) -> bool {
    exists|k: int| 0 <= k < out.len() && out[k].pid == pid
}

/// Every row of `table[..upto]` whose parent is `parent` has its pid
/// listed in `out`.
pub open spec fn children_listed(table: Seq<ProcessInfo>, parent: u32, upto: int, out: Seq<ProcessInfo>) -> bool {
    forall|t: int| 0 <= t < upto && (#[trigger] table[t]).ppid == parent ==> listed(out, table[t].pid)
}

/// `out` is closed under the parent relation of `table`: every row
/// whose parent is `root` or a listed process is itself listed (by
/// pid).
pub open spec fn descendants_closed(table: Seq<ProcessInfo>, root: u32, out: Seq<ProcessInfo>) -> bool {
    &&& children_listed(table, root, table.len() as int, out)
    &&& forall|k: int| 0 <= k < out.len() ==> children_listed(table, (#[trigger] out[k]).pid, table.len() as int, out)
}

proof fn lemma_listed_push(out: Seq<ProcessInfo>, c: ProcessInfo, pid: u32)
    requires
        listed(out, pid),
    ensures
        listed(out.push(c), pid),
{
    let k = choose|k: int| 0 <= k < out.len() && out[k].pid == pid;
    assert(out.push(c)[k] == out[k]);
}

proof fn lemma_children_listed_push(table: Seq<ProcessInfo>, parent: u32, upto: int, out: Seq<ProcessInfo>, c: ProcessInfo)
    requires
        children_listed(table, parent, upto, out),
    ensures
        children_listed(table, parent, upto, out.push(c)),
{
    assert forall|t: int| 0 <= t < upto && (#[trigger] table[t]).ppid == parent implies listed(out.push(c), table[t].pid) by {
        lemma_listed_push(out, c, table[t].pid);
    }
}

/// A listing holds at most one process per row of the table.
proof fn lemma_listing_len(table: Seq<ProcessInfo>, root: u32, out: Seq<ProcessInfo>)
    requires
        is_descendant_listing(table, root, out),
    ensures
        out.len() <= table.len(),
{
    broadcast use vstd::seq_lib::seq_to_set_is_finite;
    let op = out.map_values(|p: ProcessInfo| p.pid);
    let tp = table.map_values(|p: ProcessInfo| p.pid);
    assert(op.no_duplicates()) by {
        assert forall|i: int, j: int| 0 <= i < op.len() && 0 <= j < op.len() && i != j implies op[i] != op[j] by {
            if i < j {
                assert(out[i].pid != out[j].pid);
            } else {
                assert(out[j].pid != out[i].pid);
            }
        }
    }
    op.unique_seq_to_set();
    tp.lemma_cardinality_of_set();
    assert(op.to_set().subset_of(tp.to_set())) by {
        assert forall|x: u32| op.to_set().contains(x) implies tp.to_set().contains(x) by {
            let i = choose|i: int| 0 <= i < op.len() && op[i] == x;
            let t = choose|t: int| 0 <= t < table.len() && same_process(out[i], table[t]);
            assert(tp[t] == x);
        }
    }
    vstd::set_lib::lemma_len_subset(op.to_set(), tp.to_set());
}

/// The processes under `pty_pid` in `table`, breadth-first from the
/// PTY's direct children; each pid at most once.
pub fn descendants_in(table: &Vec<ProcessInfo>, pty_pid: u32) -> (out: Vec<ProcessInfo>)
    ensures
        is_descendant_listing(table@, pty_pid, out@),
        descendants_closed(table@, pty_pid, out@),
{
    let mut out: Vec<ProcessInfo> = Vec::new();
    let mut queue: Vec<u32> = Vec::new();
    queue.push(pty_pid);
    let mut head: usize = 0;
    let n = table.len();
    while head < queue.len()
        invariant
            n == table@.len(),
            head <= queue@.len(),
            queue@.len() == out@.len() + 1,
            queue@.len() <= n + 1,
            queue@[0] == pty_pid,
            forall|q: int| 1 <= q < queue@.len() ==> #[trigger] queue@[q] == out@[q - 1].pid,
            is_descendant_listing(table@, pty_pid, out@),
            forall|q: int| 0 <= q < head ==> children_listed(table@, #[trigger] queue@[q], n as int, out@),
        decreases n + 1 - head,
    {
        let pid = queue[head];
        let ghost h = head as int;
        let mut t: usize = 0;
        while t < n
            invariant
                n == table@.len(),
                head < queue@.len(),
                0 <= h < queue@.len(),
                h == head,
                queue@[h] == pid,
                queue@.len() == out@.len() + 1,
                queue@.len() <= n + 1,
                queue@[0] == pty_pid,
                forall|q: int| 1 <= q < queue@.len() ==> #[trigger] queue@[q] == out@[q - 1].pid,
                t <= n,
                is_descendant_listing(table@, pty_pid, out@),
                forall|q: int| 0 <= q < head ==> children_listed(table@, #[trigger] queue@[q], n as int, out@),
                children_listed(table@, pid, t as int, out@),
            decreases n - t,
        {
            let p = &table[t];
            if p.ppid == pid {
                let mut seen = false;
                let mut k: usize = 0;
                while k < out.len()
                    invariant
                        k <= out@.len(),
                        seen == exists|j: int| 0 <= j < k && (#[trigger] out@[j]).pid == p.pid,
                    decreases out@.len() - k,
                {
                    if out[k].pid == p.pid {
                        seen = true;
                    }
                    k += 1;
                }
                if !seen {
                    let copy = ProcessInfo {
                        pid: p.pid,
                        ppid: p.ppid,
                        name: p.name.clone(),
                        exe: p.exe.clone(),
                        cmdline: copy_strings(&p.cmdline),
                        env: copy_env(&p.env),
                    };
                    assert(same_process(copy, table@[t as int]));
                    let ghost old_out = out@;
                    let ghost old_q = queue@;
                    proof {
                        lemma_listing_len(table@, pty_pid, old_out);
                        // A fresh pid: the listing cannot already hold every row.
                        if old_out.len() == n {
                            let op = old_out.map_values(|x: ProcessInfo| x.pid);
                            let tp = table@.map_values(|x: ProcessInfo| x.pid);
                            broadcast use vstd::seq_lib::seq_to_set_is_finite;
                            assert(op.no_duplicates()) by {
                                assert forall|i: int, j: int| 0 <= i < op.len() && 0 <= j < op.len() && i != j implies op[i] != op[j] by {
                                    if i < j {
                                        assert(old_out[i].pid != old_out[j].pid);
                                    } else {
                                        assert(old_out[j].pid != old_out[i].pid);
                                    }
                                }
                            }
                            op.unique_seq_to_set();
                            tp.lemma_cardinality_of_set();
                            let s1 = op.to_set().insert(p.pid);
                            assert(!op.to_set().contains(p.pid)) by {
                                if op.to_set().contains(p.pid) {
                                    let i = choose|i: int| 0 <= i < op.len() && op[i] == p.pid;
                                    assert(old_out[i].pid == p.pid);
                                }
                            }
                            assert(s1.subset_of(tp.to_set())) by {
                                assert forall|x: u32| s1.contains(x) implies tp.to_set().contains(x) by {
                                    if x == p.pid {
                                        assert(tp[t as int] == x);
                                    } else {
                                        let i = choose|i: int| 0 <= i < op.len() && op[i] == x;
                                        let t2 = choose|t2: int| 0 <= t2 < table@.len() && same_process(old_out[i], table@[t2]);
                                        assert(tp[t2] == x);
                                    }
                                }
                            }
                            vstd::set_lib::lemma_len_subset(s1, tp.to_set());
                            assert(false);
                        }
                    }
                    out.push(copy);
                    queue.push(p.pid);
                    proof {
                        assert(queue@[h] == old_q[h]);
                        assert(out@[out@.len() - 1].ppid == pid);
                        assert(same_process(out@[out@.len() - 1], table@[t as int]));
                        assert forall|k2: int| 0 <= k2 < out@.len() implies exists|t2: int|
                            0 <= t2 < table@.len() && same_process(#[trigger] out@[k2], table@[t2]) by {
                            if k2 < old_out.len() {
                                assert(out@[k2] == old_out[k2]);
                            } else {
                                assert(same_process(out@[k2], table@[t as int]));
                            }
                        }
                        if h > 0 {
                            assert(queue@[h] == old_out[h - 1].pid);
                            assert(out@[h - 1] == old_out[h - 1]);
                        }
                        assert forall|k2: int| 0 <= k2 < out@.len() implies (#[trigger] out@[k2]).ppid == pty_pid
                            || exists|j: int| 0 <= j < k2 && out@[j].pid == out@[k2].ppid by {
                            if k2 < old_out.len() {
                                assert(out@[k2] == old_out[k2]);
                                if old_out[k2].ppid != pty_pid {
                                    let j = choose|j: int| 0 <= j < k2 && old_out[j].pid == old_out[k2].ppid;
                                    assert(out@[j] == old_out[j]);
                                }
                            } else if h > 0 {
                                assert(old_q[h] == old_out[h - 1].pid);
                                assert(out@[h - 1].pid == out@[k2].ppid);
                            } else {
                                assert(old_q[0] == pty_pid);
                            }
                        }
                        assert forall|q: int| 1 <= q < queue@.len() implies #[trigger] queue@[q] == out@[q - 1].pid by {
                            if q < queue@.len() - 1 {
                                assert(out@[q - 1] == old_out[q - 1]);
                            }
                        }
                        assert forall|q: int| 0 <= q < head implies children_listed(table@, #[trigger] queue@[q], n as int, out@) by {
                            assert(queue@[q] == old_q[q]);
                            lemma_children_listed_push(table@, old_q[q], n as int, old_out, copy);
                        }
                        lemma_children_listed_push(table@, pid, t as int, old_out, copy);
                        assert(out@[out@.len() - 1].pid == table@[t as int].pid);
                        assert(listed(out@, table@[t as int].pid));
                    }
                } else {
                    proof {
                        let j = choose|j: int| 0 <= j < out@.len() && (#[trigger] out@[j]).pid == p.pid;
                        assert(listed(out@, table@[t as int].pid));
                    }
                }
            }
            t += 1;
        }
        head += 1;
    }
    proof {
        assert forall|k: int| 0 <= k < out@.len() implies children_listed(table@, (#[trigger] out@[k]).pid, n as int, out@) by {
            assert(queue@[k + 1] == out@[k].pid);
        }
        assert(queue@[0] == pty_pid);
    }
    out
}

pub(crate) fn copy_env(env: &Option<Vec<(String, String)>>) -> (r: Option<Vec<(String, String)>>)
    ensures
        env_view(r) == env_view(*env),
{
    match env {
        None => None,
        Some(pairs) => {
            let mut out: Vec<(String, String)> = Vec::new();
            let mut i: usize = 0;
            while i < pairs.len()
                invariant
                    i <= pairs@.len(),
                    out@ == pairs@.take(i as int),
                decreases pairs@.len() - i,
            {
                let (k, v) = &pairs[i];
                out.push((k.clone(), v.clone()));
                assert(out@ =~= pairs@.take(i + 1));
                i += 1;
            }
            assert(pairs@.take(pairs@.len() as int) =~= pairs@);
            Some(out)
        },
    }
}


#[verifier::external_type_specification]
#[verifier::external_body]
pub struct ExSystem(sysinfo::System);

/// One row of the operating system's process table, as read.
pub struct RawProcess {
    pub pid: u32,
    pub parent: Option<u32>,
    pub name: String,
    pub exe: Option<String>,
    pub cmd: Vec<String>,
    pub environ: Vec<String>,
}

/// `sysinfo::System::new_with_specifics`: a snapshot of the process
/// table with executables, command lines and environments refreshed
/// (tasks left out). Nothing is stated of it: it is the machine's
/// state at the moment of the call.
#[verifier::external_body]
fn snapshot_system() -> sysinfo::System {
    let kind = ProcessRefreshKind::nothing().without_tasks().with_exe(UpdateKind::Always);
    let kind = kind.with_cmd(UpdateKind::Always).with_environ(UpdateKind::Always);
    sysinfo::System::new_with_specifics(RefreshKind::nothing().with_processes(kind))
}

/// The processes of a snapshot (`System::processes`), each converted
/// one for one (OS strings lossily to UTF-8). Nothing is stated of the
/// rows.
#[verifier::external_body]
fn process_rows(system: &sysinfo::System) -> Vec<RawProcess> {
    system.processes().values().map(|p| RawProcess {
        pid: p.pid().as_u32(),
        parent: p.parent().map(|q| q.as_u32()),
        name: p.name().to_string_lossy().into_owned(),
        exe: p.exe().map(|e| e.to_string_lossy().into_owned()),
        cmd: p.cmd().iter().map(|s| s.to_string_lossy().into_owned()).collect(),
        environ: p.environ().iter().map(|s| s.to_string_lossy().into_owned()).collect(),
    }).collect()
}

/// Index of the pair with key `k` among the first `n` of `pairs` (the
/// last such), or -1 when there is none.
pub open spec fn key_index(pairs: Seq<(Seq<char>, Seq<char>)>, k: Seq<char>, n: int) -> int
    decreases n,
{
    if n <= 0 {
        -1
    } else if pairs[n - 1].0 == k {
        n - 1
    } else {
        key_index(pairs, k, n - 1)
    }
}

/// `pairs` with key `k` set to `v`: replaced in place where the key is
/// present, appended where it is not.
pub open spec fn set_env(pairs: Seq<(Seq<char>, Seq<char>)>, k: Seq<char>, v: Seq<char>) -> Seq<(Seq<char>, Seq<char>)> {
    let j = key_index(pairs, k, pairs.len() as int);
    if j >= 0 {
        pairs.update(j, (k, v))
    } else {
        pairs.push((k, v))
    }
}

/// The environment of `KEY=value` entries as pairs, split at the first
/// `=`: entries without `=` are skipped, and a key that occurs again
/// takes the later value, in the place where it first appeared.
pub open spec fn env_pairs(environ: Seq<String>, n: int) -> Seq<(Seq<char>, Seq<char>)>
    decreases n,
{
    if n <= 0 {
        Seq::empty()
    } else {
        let rest = env_pairs(environ, n - 1);
        match split_once(environ[n - 1]@, '=') {
            Some((k, v)) => set_env(rest, k, v),
            None => rest,
        }
    }
}

/// No key occurs twice in `pairs`.
pub open spec fn keys_distinct(pairs: Seq<(Seq<char>, Seq<char>)>) -> bool {
    forall|i: int, j: int| 0 <= i < j < pairs.len() ==> pairs[i].0 != pairs[j].0
}

proof fn lemma_key_index(pairs: Seq<(Seq<char>, Seq<char>)>, k: Seq<char>, n: int)
    requires
        0 <= n <= pairs.len(),
    ensures
        -1 <= key_index(pairs, k, n) < n,
        key_index(pairs, k, n) >= 0 ==> pairs[key_index(pairs, k, n)].0 == k,
        key_index(pairs, k, n) == -1 ==> forall|i: int| 0 <= i < n ==> pairs[i].0 != k,
    decreases n,
{
    if n > 0 {
        lemma_key_index(pairs, k, n - 1);
    }
}

/// Setting a key keeps the keys distinct.
proof fn lemma_set_env_distinct(pairs: Seq<(Seq<char>, Seq<char>)>, k: Seq<char>, v: Seq<char>)
    requires
        keys_distinct(pairs),
    ensures
        keys_distinct(set_env(pairs, k, v)),
        set_env(pairs, k, v).len() >= pairs.len(),
{
    lemma_key_index(pairs, k, pairs.len() as int);
    let r = set_env(pairs, k, v);
    assert forall|i: int, j: int| 0 <= i < j < r.len() implies r[i].0 != r[j].0 by {
        if key_index(pairs, k, pairs.len() as int) < 0 && j == pairs.len() {
            assert(r[i] == pairs[i]);
        }
    }
}

/// The environment keeps one pair per key.
proof fn lemma_env_pairs_distinct(environ: Seq<String>, n: int)
    ensures
        keys_distinct(env_pairs(environ, n)),
    decreases n,
{
    if n > 0 {
        lemma_env_pairs_distinct(environ, n - 1);
        match split_once(environ[n - 1]@, '=') {
            Some((k, v)) => lemma_set_env_distinct(env_pairs(environ, n - 1), k, v),
            None => {},
        }
    }
}

/// Sets key `k` to `v` in `pairs`, as `set_env` says.
fn set_pair(pairs: &mut Vec<(String, String)>, k: String, v: String)
    ensures
        pair_views(final(pairs)@) == set_env(pair_views(old(pairs)@), k@, v@),
{
    let ghost before = pair_views(pairs@);
    match find_key(pairs, k.as_str()) {
        Some(j) => {
            proof {
                lemma_key_index(before, k@, before.len() as int);
            }
            let ghost kv = k@;
            let ghost vv = v@;
            pairs.set(j, (k, v));
            assert(pair_views(pairs@) =~= before.update(j as int, (kv, vv)));
        },
        None => {
            let ghost kv = k@;
            let ghost vv = v@;
            pairs.push((k, v));
            assert(pair_views(pairs@) =~= before.push((kv, vv)));
        },
    }
}

/// Index of the pair with key `k` in `pairs`, as `key_index` finds it.
fn find_key(pairs: &Vec<(String, String)>, k: &str) -> (r: Option<usize>)
    ensures
        match r {
            Some(j) => j as int == key_index(pair_views(pairs@), k@, pairs@.len() as int),
            None => key_index(pair_views(pairs@), k@, pairs@.len() as int) == -1,
        },
{
    let ghost pv = pair_views(pairs@);
    let mut j: usize = pairs.len();
    while j > 0
        invariant
            j <= pairs@.len(),
            pv == pair_views(pairs@),
            key_index(pv, k@, pairs@.len() as int) == key_index(pv, k@, j as int),
        decreases j,
    {
        if str_eq(pairs[j - 1].0.as_str(), k) {
            return Some(j - 1);
        }
        j -= 1;
    }
    None
}

pub open spec fn pair_views(v: Seq<(String, String)>) -> Seq<(Seq<char>, Seq<char>)> {
    v.map_values(|p: (String, String)| (p.0@, p.1@))
}

/// `info` is the process-table row `raw` (which has a parent) as a
/// `ProcessInfo`: a missing executable becomes empty, and an environment
/// with no `KEY=value` entry becomes `None`.
pub open spec fn info_of(raw: RawProcess, info: ProcessInfo) -> bool {
    &&& raw.parent == Some(info.ppid)
    &&& info.pid == raw.pid
    &&& info.name@ == raw.name@
    &&& info.exe@ == match raw.exe {
        Some(e) => e@,
        None => Seq::<char>::empty(),
    }
    &&& info.cmdline@ == raw.cmd@
    &&& {
        let pairs = env_pairs(raw.environ@, raw.environ@.len() as int);
        match info.env {
            None => pairs.len() == 0,
            Some(e) => pairs.len() > 0 && pair_views(e@) == pairs && keys_distinct(pair_views(e@)),
        }
    }
}

/// `table` holds, in order, the rows of `rows` that have a parent, each
/// as a `ProcessInfo`.
pub open spec fn rows_table(rows: Seq<RawProcess>, table: Seq<ProcessInfo>) -> bool
    decreases rows.len(),
{
    if rows.len() == 0 {
        table.len() == 0
    } else if rows.last().parent is None {
        rows_table(rows.drop_last(), table)
    } else {
        &&& table.len() > 0
        &&& info_of(rows.last(), table.last())
        &&& rows_table(rows.drop_last(), table.drop_last())
    }
}

/// A process-table row as a `ProcessInfo`; `None` without a parent.
pub fn process_to_info(raw: &RawProcess) -> (r: Option<ProcessInfo>)
    ensures
        raw.parent is None ==> r is None,
        raw.parent is Some ==> (r matches Some(info) && info_of(*raw, info)),
{
    let ppid = match raw.parent {
        None => {
            return None;
        },
        Some(p) => p,
    };
    let mut pairs: Vec<(String, String)> = Vec::new();
    let mut i: usize = 0;
    while i < raw.environ.len()
        invariant
            i <= raw.environ@.len(),
            pair_views(pairs@) == env_pairs(raw.environ@, i as int),
        decreases raw.environ@.len() - i,
    {
        let v = chars_of(raw.environ[i].as_str());
        proof {
            lemma_first_index_of(v@, '=');
        }
        let found = find_char(&v, '=');
        if found.is_some() {
            let eq = found.unwrap();
            let k = string_from_chars(&v, 0, eq);
            let val = string_from_chars(&v, eq + 1, v.len());
            assert(k@ =~= v@.take(eq as int));
            assert(val@ =~= v@.skip(eq + 1));
            set_pair(&mut pairs, k, val);
            assert(pair_views(pairs@) =~= env_pairs(raw.environ@, i + 1));
        } else {
            assert(pair_views(pairs@) =~= env_pairs(raw.environ@, i + 1));
        }
        i += 1;
    }
    proof {
        lemma_env_pairs_distinct(raw.environ@, raw.environ@.len() as int);
    }
    let env = if pairs.len() == 0 { None } else { Some(pairs) };
    let exe = match &raw.exe {
        Some(e) => e.clone(),
        None => String::new(),
    };
    Some(ProcessInfo {
        pid: raw.pid,
        ppid,
        name: raw.name.clone(),
        exe,
        cmdline: copy_strings(&raw.cmd),
        env,
    })
}

/// The rows of `rows` that have a parent, in order, as `ProcessInfo`s.
pub fn table_from_rows(rows: &Vec<RawProcess>) -> (table: Vec<ProcessInfo>)
    ensures
        rows_table(rows@, table@),
{
    let mut table: Vec<ProcessInfo> = Vec::new();
    let mut i: usize = 0;
    while i < rows.len()
        invariant
            i <= rows@.len(),
            rows_table(rows@.take(i as int), table@),
        decreases rows@.len() - i,
    {
        let ghost before = table@;
        match process_to_info(&rows[i]) {
            Some(info) => table.push(info),
            None => {},
        }
        proof {
            assert(rows@.take(i + 1).drop_last() =~= rows@.take(i as int));
            assert(rows@.take(i + 1).last() == rows@[i as int]);
            if rows@[i as int].parent is Some {
                assert(table@.drop_last() =~= before);
            }
        }
        i += 1;
    }
    assert(rows@.take(rows@.len() as int) =~= rows@);
    table
}

/// The processes under `pty_pid` among the rows of a process table,
/// breadth-first, each pid once: the listing, closed under the parent
/// relation, of the rows that have a parent.
pub fn descendants_from_rows(rows: &Vec<RawProcess>, pty_pid: u32) -> (out: Vec<ProcessInfo>)
    ensures
        exists|table: Seq<ProcessInfo>|
            #![trigger rows_table(rows@, table)]
            rows_table(rows@, table) && is_descendant_listing(table, pty_pid, out@) && descendants_closed(
                table,
                pty_pid,
                out@,
            ),
{
    let table = table_from_rows(rows);
    let out = descendants_in(&table, pty_pid);
    assert(rows_table(rows@, table@));
    out
}

/// Every process under `pty_pid` in a fresh snapshot of the process
/// table, as `descendants_from_rows` lists them. The snapshot is the
/// machine's state at the time of the call, so which rows it holds is
/// left open.
pub fn scan_pty_descendants(pty_pid: u32) -> (out: Vec<ProcessInfo>)
    ensures
        exists|rows: Seq<RawProcess>, table: Seq<ProcessInfo>|
            #![trigger rows_table(rows, table), is_descendant_listing(table, pty_pid, out@)]
            rows_table(rows, table) && is_descendant_listing(table, pty_pid, out@) && descendants_closed(
                table,
                pty_pid,
                out@,
            ),
{
    let system = snapshot_system();
    let rows = process_rows(&system);
    let out = descendants_from_rows(&rows, pty_pid);
    proof {
        let table = choose|table: Seq<ProcessInfo>|
            rows_table(rows@, table) && is_descendant_listing(table, pty_pid, out@) && descendants_closed(
                table,
                pty_pid,
                out@,
            );
        assert(rows_table(rows@, table) && is_descendant_listing(table, pty_pid, out@));
    }
    out
}

// ---- launch-flag laws ----------------------------------------------

/// The spelled-out flag names, character by character.
proof fn lemma_flag_names()
    ensures
        "--name"@ =~= seq!['-', '-', 'n', 'a', 'm', 'e'],
        "-n"@ =~= seq!['-', 'n'],
        "--resume"@ =~= seq!['-', '-', 'r', 'e', 's', 'u', 'm', 'e'],
        "-r"@ =~= seq!['-', 'r'],
        "--worktree"@ =~= seq!['-', '-', 'w', 'o', 'r', 'k', 't', 'r', 'e', 'e'],
        "-w"@ =~= seq!['-', 'w'],
        "--from-pr"@ =~= seq!['-', '-', 'f', 'r', 'o', 'm', '-', 'p', 'r'],
        "--permission-mode"@ =~= seq![
            '-', '-', 'p', 'e', 'r', 'm', 'i', 's', 's', 'i', 'o', 'n', '-', 'm', 'o', 'd', 'e',
        ],
        "--model"@ =~= seq!['-', '-', 'm', 'o', 'd', 'e', 'l'],
{
    reveal_strlit("--name");
    reveal_strlit("-n");
    reveal_strlit("--resume");
    reveal_strlit("-r");
    reveal_strlit("--worktree");
    reveal_strlit("-w");
    reveal_strlit("--from-pr");
    reveal_strlit("--permission-mode");
    reveal_strlit("--model");
}

/// `flag=value` splits at the `=` after `flag` when `flag` holds none.
proof fn lemma_split_after(flag: Seq<char>, v: Seq<char>)
    requires
        forall|j: int| 0 <= j < flag.len() ==> flag[j] != '=',
    ensures
        split_once(flag + seq!['='] + v, '=') == Some((flag, v)),
{
    let s = flag + seq!['='] + v;
    lemma_first_index_of(s, '=');
    assert(s[flag.len() as int] == '=');
    match first_index_of(s, '=') {
        Some(i) => {
            if i < flag.len() {
                assert(s[i] == flag[i]);
            }
            assert(i == flag.len());
            assert(s.take(i) =~= flag);
            assert(s.skip(i + 1) =~= v);
        },
        None => {},
    }
}

/// A valued long flag written `--flag=value` reads exactly as the two
/// arguments `--flag value` do.
pub proof fn lemma_equal_form_matches_spaced(f: LaunchFlags, flag: Seq<char>, v: Seq<char>)
    requires
        flag == "--name"@ || flag == "--resume"@ || flag == "--worktree"@ || flag == "--from-pr"@
            || flag == "--permission-mode"@ || flag == "--model"@,
    ensures
        apply_equal_form(f, flag + seq!['='] + v) == apply_valued(f, flag, v),
{
    lemma_flag_names();
    lemma_split_after(flag, v);
}

/// `--resume V`, `-r V` and `--resume=V` each set the session to resume
/// to `V` and leave every other flag as it was.
pub proof fn lemma_resume_flag(f: LaunchFlags, v: Seq<char>)
    ensures
        apply_valued(f, "--resume"@, v) == (LaunchFlags { resume: Some(v), ..f }),
        apply_valued(f, "-r"@, v) == (LaunchFlags { resume: Some(v), ..f }),
        apply_equal_form(f, "--resume"@ + seq!['='] + v) == (LaunchFlags { resume: Some(v), ..f }),
{
    lemma_flag_names();
    lemma_equal_form_matches_spaced(f, "--resume"@, v);
}

/// `--name N`, `-n N` and `--name=N` each set the session name to `N`
/// and leave every other flag as it was.
pub proof fn lemma_name_flag(f: LaunchFlags, v: Seq<char>)
    ensures
        apply_valued(f, "--name"@, v) == (LaunchFlags { name: Some(v), ..f }),
        apply_valued(f, "-n"@, v) == (LaunchFlags { name: Some(v), ..f }),
        apply_equal_form(f, "--name"@ + seq!['='] + v) == (LaunchFlags { name: Some(v), ..f }),
{
    lemma_flag_names();
    lemma_equal_form_matches_spaced(f, "--name"@, v);
}

/// Each valued flag sets its own field to the value and leaves every
/// other flag as it was: `--name`/`-n` the session name, `--resume`/`-r`
/// the session to resume, `--worktree`/`-w` the worktree, `--model` the
/// model, `--permission-mode` the permission mode, and `--from-pr` the
/// pull request number when the value is one.
pub proof fn lemma_valued_flag_fields(f: LaunchFlags, v: Seq<char>)
    ensures
        apply_valued(f, "--worktree"@, v) == (LaunchFlags { worktree: Some(v), ..f }),
        apply_valued(f, "-w"@, v) == (LaunchFlags { worktree: Some(v), ..f }),
        apply_valued(f, "--model"@, v) == (LaunchFlags { model: Some(v), ..f }),
        apply_valued(f, "--permission-mode"@, v) == (LaunchFlags { permission_mode: Some(v), ..f }),
        apply_valued(f, "--from-pr"@, v) == match parse_unsigned(v, u64::MAX as nat) {
            Some(n) => LaunchFlags { from_pr: Some(n as u64), ..f },
            None => f,
        },
{
    lemma_flag_names();
}

} // verus!
