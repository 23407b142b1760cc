use std::time::Duration;

use carrot::cli_agents::agent::ProcessInfo;
use carrot::cli_agents::child_process_watcher::{
    ChildProcessWatcher, WatcherMode, COLD_POLL_MS, HOT_POLL_MS, HOT_TO_COLD_AFTER_MS, WARM_POLL_MS,
};

#[test]
fn mode_interval_matches_constants() {
    assert_eq!(WatcherMode::Hot.interval(), Duration::from_millis(HOT_POLL_MS));
    assert_eq!(WatcherMode::Warm.interval(), Duration::from_millis(WARM_POLL_MS));
    assert_eq!(WatcherMode::Cold.interval(), Duration::from_millis(COLD_POLL_MS));
}

#[test]
fn intervals_are_strictly_ordered() {
    assert!(HOT_POLL_MS < WARM_POLL_MS);
    assert!(WARM_POLL_MS < COLD_POLL_MS);
}

#[test]
fn hot_to_cold_timeout_is_meaningful() {
    assert!(HOT_TO_COLD_AFTER_MS >= HOT_POLL_MS * 10);
}

fn proc(pid: u32) -> ProcessInfo {
    ProcessInfo {
        pid,
        ppid: 1,
        name: "x".into(),
        exe: "/bin/x".into(),
        cmdline: vec!["x".into()],
        env: None,
    }
}

#[test]
fn observe_reports_only_changed_pid_sets() {
    let mut w = ChildProcessWatcher::new(7);
    assert_eq!(w.pty_pid(), 7);
    let (first, mode) = w.observe(vec![proc(10), proc(11)]);
    assert_eq!(first.unwrap().children.len(), 2);
    assert_eq!(mode, WatcherMode::Hot);
    assert_eq!(w.last_children_count(), 2);
    let (again, _) = w.observe(vec![proc(11), proc(10)]);
    assert!(again.is_none());
    let (changed, _) = w.observe(vec![proc(11)]);
    assert_eq!(changed.unwrap().children[0].pid, 11);
    assert_eq!(w.last_children_count(), 1);
}

#[test]
fn hot_demotes_to_cold_after_sixty_idle_polls() {
    let mut w = ChildProcessWatcher::new(1);
    for _ in 0..59 {
        let (_, mode) = w.observe(Vec::new());
        assert_eq!(mode, WatcherMode::Hot);
    }
    let (_, mode) = w.observe(Vec::new());
    assert_eq!(mode, WatcherMode::Cold);
    assert_eq!(w.mode(), WatcherMode::Cold);
}

#[test]
fn agent_notifications_switch_cadence() {
    let mut w = ChildProcessWatcher::new(1);
    w.notify_agent_active();
    assert_eq!(w.mode(), WatcherMode::Warm);
    for _ in 0..100 {
        w.observe(Vec::new());
    }
    assert_eq!(w.mode(), WatcherMode::Warm);
    w.notify_agent_gone();
    assert_eq!(w.mode(), WatcherMode::Hot);
}
