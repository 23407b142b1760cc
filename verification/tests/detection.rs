use carrot::cli_agents::agent::ProcessInfo;
use carrot::cli_agents::detection::{
    binary_matches, descendants_from_rows, descendants_in, parse_agent_cmdline, process_to_info, scan_pty_descendants,
    table_from_rows, RawProcess,
};
fn mk_proc(pid: u32, ppid: u32, name: &str, cmdline: &[&str]) -> ProcessInfo {
    ProcessInfo {
        pid,
        ppid,
        name: name.to_string(),
        exe: String::new(),
        cmdline: cmdline.iter().map(|s| s.to_string()).collect(),
        env: None,
    }
}

#[test]
fn binary_match_plain_name() {
    let proc = mk_proc(10, 1, "agentcli", &["agentcli"]);
    assert!(binary_matches(&proc, &["agentcli"]));
    assert!(!binary_matches(&proc, &["not-agentcli"]));
}

#[test]
fn binary_match_strips_exe_suffix_on_windows() {
    let proc = mk_proc(10, 1, "agentcli.exe", &["agentcli.exe"]);
    assert!(binary_matches(&proc, &["agentcli"]));
    assert!(binary_matches(&proc, &["agentcli.exe"]));
}

#[test]
fn binary_match_uses_exe_path_when_name_differs() {
    // macOS can leave `name` as a wrapper shim while the real
    // binary lives in `exe`. Stripping to the file-name and
    // comparing should still match.
    let mut proc = mk_proc(10, 1, "wrapper", &["agentcli"]);
    proc.exe = "/opt/agentcli/bin/agentcli".to_string();
    assert!(binary_matches(&proc, &["agentcli"]));
}

#[test]
fn binary_match_empty_exe_falls_back_to_name() {
    // macOS sandboxed case: `exe` is empty, but `name` carries the
    // real binary. Must still match.
    let proc = mk_proc(10, 1, "agentcli", &["agentcli"]);
    assert!(proc.exe.is_empty());
    assert!(binary_matches(&proc, &["agentcli"]));
}

#[test]
fn parse_name_flag_long_form() {
    let proc = mk_proc(10, 1, "agentcli", &["agentcli", "--name", "my-session"]);
    let m = parse_agent_cmdline(&proc);
    assert_eq!(m.name.as_deref(), Some("my-session"));
}

#[test]
fn parse_name_flag_short_form() {
    let proc = mk_proc(10, 1, "agentcli", &["agentcli", "-n", "short-name"]);
    let m = parse_agent_cmdline(&proc);
    assert_eq!(m.name.as_deref(), Some("short-name"));
}

#[test]
fn parse_resume_flag() {
    let proc = mk_proc(10, 1, "agentcli", &["agentcli", "--resume", "abc123"]);
    let m = parse_agent_cmdline(&proc);
    assert_eq!(m.resume_session_name.as_deref(), Some("abc123"));
    assert!(!m.continue_latest);
}

#[test]
fn parse_resume_short_flag() {
    let proc = mk_proc(10, 1, "agentcli", &["agentcli", "-r", "abc123"]);
    let m = parse_agent_cmdline(&proc);
    assert_eq!(m.resume_session_name.as_deref(), Some("abc123"));
}

#[test]
fn parse_continue_flag() {
    let proc = mk_proc(10, 1, "agentcli", &["agentcli", "--continue"]);
    let m = parse_agent_cmdline(&proc);
    assert!(m.continue_latest);
}

#[test]
fn parse_continue_short_flag() {
    let proc = mk_proc(10, 1, "agentcli", &["agentcli", "-c"]);
    let m = parse_agent_cmdline(&proc);
    assert!(m.continue_latest);
}

#[test]
fn parse_worktree_flag() {
    let proc = mk_proc(10, 1, "agentcli", &["agentcli", "--worktree", "/tmp/feature-x"]);
    let m = parse_agent_cmdline(&proc);
    assert_eq!(m.worktree, Some("/tmp/feature-x".to_string()));
}

#[test]
fn parse_from_pr_flag() {
    let proc = mk_proc(10, 1, "agentcli", &["agentcli", "--from-pr", "456"]);
    let m = parse_agent_cmdline(&proc);
    assert_eq!(m.from_pr, Some(456));
}

#[test]
fn parse_from_pr_rejects_non_numeric() {
    let proc = mk_proc(10, 1, "agentcli", &["agentcli", "--from-pr", "abc"]);
    let m = parse_agent_cmdline(&proc);
    assert_eq!(m.from_pr, None);
}

#[test]
fn parse_permission_mode_flag() {
    let proc = mk_proc(
        10,
        1,
        "agentcli",
        &["agentcli", "--permission-mode", "acceptEdits"],
    );
    let m = parse_agent_cmdline(&proc);
    assert_eq!(
        m.permission_mode.as_ref().map(|f| f.0.as_str()),
        Some("acceptEdits")
    );
}

#[test]
fn parse_model_flag() {
    let proc = mk_proc(10, 1, "agentcli", &["agentcli", "--model", "model-x-4-7"]);
    let m = parse_agent_cmdline(&proc);
    assert_eq!(m.model.as_deref(), Some("model-x-4-7"));
}

#[test]
fn parse_equal_form_flags() {
    let proc = mk_proc(
        10,
        1,
        "agentcli",
        &[
            "agentcli",
            "--name=foo",
            "--worktree=/wt",
            "--from-pr=99",
            "--permission-mode=plan",
            "--model=sonnet",
        ],
    );
    let m = parse_agent_cmdline(&proc);
    assert_eq!(m.name.as_deref(), Some("foo"));
    assert_eq!(m.worktree, Some("/wt".to_string()));
    assert_eq!(m.from_pr, Some(99));
    assert_eq!(
        m.permission_mode.as_ref().map(|f| f.0.as_str()),
        Some("plan")
    );
    assert_eq!(m.model.as_deref(), Some("sonnet"));
}

#[test]
fn parse_combines_multiple_flags() {
    let proc = mk_proc(
        10,
        1,
        "agentcli",
        &[
            "agentcli",
            "--name",
            "demo",
            "-r",
            "prev",
            "--worktree",
            "feature-x",
            "--from-pr",
            "42",
        ],
    );
    let m = parse_agent_cmdline(&proc);
    assert_eq!(m.name.as_deref(), Some("demo"));
    assert_eq!(m.resume_session_name.as_deref(), Some("prev"));
    assert_eq!(m.worktree, Some("feature-x".to_string()));
    assert_eq!(m.from_pr, Some(42));
    assert_eq!(m.pid, 10);
    assert_eq!(m.cmdline, proc.cmdline);
}

#[test]
fn parse_ignores_unknown_flags() {
    let proc = mk_proc(
        10,
        1,
        "agentcli",
        &["agentcli", "--future-flag", "bar", "--name", "foo"],
    );
    let m = parse_agent_cmdline(&proc);
    assert_eq!(m.name.as_deref(), Some("foo"));
}

#[test]
fn parse_tolerates_missing_values() {
    // Last arg is a flag with no following value. Must not panic.
    let proc = mk_proc(10, 1, "agentcli", &["agentcli", "--name"]);
    let m = parse_agent_cmdline(&proc);
    assert_eq!(m.name, None);
}

#[test]
fn scan_descendants_of_test_process_includes_self() {
    // The test binary is a live process on the host; its own PID
    // must not appear when we scan downward from it, but its
    // thread/child processes (test harness, rustc-driven helpers)
    // may appear. The only guarantee we check here is that the
    // scan does not panic and does not include the seed PID.
    let pid = sysinfo::get_current_pid().unwrap().as_u32();
    let descendants = scan_pty_descendants(pid);
    assert!(
        !descendants.iter().any(|p| p.pid == pid),
        "seed pid must not appear in descendants"
    );
}

#[test]
fn scan_descendants_of_unknown_pid_is_empty() {
    // PID 0 never has descendants in a user context.
    let descendants = scan_pty_descendants(0);
    assert!(
        descendants.is_empty(),
        "scanning pid 0 must yield no descendants, got {}",
        descendants.len()
    );
}

fn row(pid: u32, ppid: u32) -> ProcessInfo {
    ProcessInfo { pid, ppid, name: format!("p{pid}"), exe: String::new(), cmdline: vec![], env: None }
}

#[test]
fn descendants_in_lists_whole_subtree_breadth_first() {
    let table = vec![row(30, 20), row(20, 10), row(21, 10), row(99, 1), row(40, 30)];
    let out = descendants_in(&table, 10);
    let pids: Vec<u32> = out.iter().map(|p| p.pid).collect();
    assert_eq!(pids, vec![20, 21, 30, 40]);
    assert!(descendants_in(&table, 7).is_empty());
}

#[test]
fn descendants_in_lists_each_pid_once() {
    let table = vec![row(20, 10), row(20, 10), row(21, 20), row(21, 20)];
    let pids: Vec<u32> = descendants_in(&table, 10).iter().map(|p| p.pid).collect();
    assert_eq!(pids, vec![20, 21]);
}

#[test]
fn process_environment_keeps_last_value_per_key() {
    let raw = RawProcess {
        pid: 7,
        parent: Some(1),
        name: "sh".into(),
        exe: None,
        cmd: vec!["sh".into()],
        environ: vec![
            "A=1".into(),
            "NOEQ".into(),
            "B=x=y".into(),
            "A=2".into(),
            "C=".into(),
        ],
    };
    let info = process_to_info(&raw).unwrap();
    assert_eq!(info.ppid, 1);
    assert_eq!(info.exe, "");
    assert_eq!(
        info.env.unwrap(),
        vec![
            ("A".to_string(), "2".to_string()),
            ("B".to_string(), "x=y".to_string()),
            ("C".to_string(), String::new()),
        ]
    );
    let orphan = RawProcess { parent: None, ..raw };
    assert!(process_to_info(&orphan).is_none());
}

fn raw(pid: u32, parent: Option<u32>, name: &str) -> RawProcess {
    RawProcess {
        pid,
        parent,
        name: name.into(),
        exe: Some(format!("/bin/{name}")),
        cmd: vec![name.into()],
        environ: vec![],
    }
}

#[test]
fn descendants_from_rows_walks_the_rows_with_parents() {
    let rows = vec![
        raw(1, None, "init"),
        raw(100, Some(1), "zsh"),
        raw(200, Some(100), "agent"),
        raw(300, Some(200), "node"),
        raw(400, Some(1), "other"),
        raw(500, Some(300), "rg"),
    ];
    let table = table_from_rows(&rows);
    assert_eq!(table.iter().map(|p| p.pid).collect::<Vec<_>>(), vec![100, 200, 300, 400, 500]);
    assert_eq!(table[1].exe, "/bin/agent");
    assert!(table[1].env.is_none());
    let out = descendants_from_rows(&rows, 100);
    assert_eq!(out.iter().map(|p| p.pid).collect::<Vec<_>>(), vec![200, 300, 500]);
    assert!(descendants_from_rows(&rows, 999).is_empty());
}
