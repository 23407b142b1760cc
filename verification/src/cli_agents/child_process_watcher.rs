//! Polling cadence for a PTY's descendant process tree.
//!
//! One watcher per terminal PTY. Each tick reads the descendants of
//! the PTY's shell; when the set of pids changed since the last tick
//! the tick reports the new children. The cadence follows what was
//! last observed:
//!
//!   * **Hot (500 ms):** no agent classified yet: poll fast so a new
//!     launch shows up within half a second.
//!   * **Warm (2 s):** an agent is registered and its hooks drive the
//!     state; the poll is a safety net.
//!   * **Cold (5 s):** Hot for 30 s without an agent: mostly idle.
//!
//! The timer loop that sleeps between ticks belongs to the host.

use vstd::prelude::*;
use std::time::Duration;
use crate::cli_agents::agent::ProcessInfo;
use crate::cli_agents::detection::scan_pty_descendants;
use crate::phase2::ai::{duration_from_millis, millis};

verus! {

/// Hot polling interval in milliseconds.
pub const HOT_POLL_MS: u64 = 500;
/// Warm polling interval in milliseconds.
pub const WARM_POLL_MS: u64 = 2000;
/// Cold polling interval in milliseconds.
pub const COLD_POLL_MS: u64 = 5000;
/// How long a watcher stays Hot without an agent before it goes Cold.
pub const HOT_TO_COLD_AFTER_MS: u64 = 30000;

/// Polling mode of a watcher.
#[derive(Debug, Clone, Copy, PartialEq, Eq, Structural)]
pub enum WatcherMode {
    Hot,
    Warm,
    Cold,
}

pub open spec fn interval_ms_of(mode: WatcherMode) -> u64 {
    match mode {
        WatcherMode::Hot => HOT_POLL_MS,
        WatcherMode::Warm => WARM_POLL_MS,
        WatcherMode::Cold => COLD_POLL_MS,
    }
}

impl WatcherMode {
    /// The polling interval of this mode, in milliseconds.
    pub fn interval_ms(self) -> (r: u64)
        ensures
            r == interval_ms_of(self),
    {
        match self {
            WatcherMode::Hot => HOT_POLL_MS,
            WatcherMode::Warm => WARM_POLL_MS,
            WatcherMode::Cold => COLD_POLL_MS,
        }
    }

    /// The polling interval of this mode.
    pub fn interval(self) -> (r: Duration)
        ensures
            r == duration_from_millis(interval_ms_of(self)),
    {
        millis(self.interval_ms())
    }
}

/// The children of a PTY whenever their pid set changed.
#[derive(Debug, Clone)]
pub struct ChildProcessesDetected {
    pub children: Vec<ProcessInfo>,
}

pub open spec fn pids_of(children: Seq<ProcessInfo>) -> Seq<u32> {
    children.map_values(|c: ProcessInfo| c.pid)
}

/// The distinct pids of `children`.
pub open spec fn pid_set(children: Seq<ProcessInfo>) -> Set<u32> {
    pids_of(children).to_set()
}

/// Poll state of one PTY.
pub struct ChildProcessWatcher {
    pty_pid: u32,
    mode: WatcherMode,
    last_pids: Vec<u32>,
    polls_in_current_mode: u32,
}

/// The mode after one more poll: Hot falls to Cold once its polls have
/// covered the Hot-to-Cold span.
pub open spec fn mode_after_poll(mode: WatcherMode, polls: u32) -> WatcherMode {
    if mode == WatcherMode::Hot && HOT_POLL_MS * polls >= HOT_TO_COLD_AFTER_MS {
        WatcherMode::Cold
    } else {
        mode
    }
}

pub open spec fn sat_inc(x: u32) -> u32 {
    if x == u32::MAX { x } else { (x + 1) as u32 }
}

impl ChildProcessWatcher {
    pub closed spec fn pid_view(&self) -> u32 {
        self.pty_pid
    }

    pub closed spec fn mode_view(&self) -> WatcherMode {
        self.mode
    }

    pub closed spec fn last_pid_set(&self) -> Set<u32> {
        self.last_pids@.to_set()
    }

    pub closed spec fn polls_view(&self) -> u32 {
        self.polls_in_current_mode
    }

    /// The last pid set is held without repeats.
    pub closed spec fn wf(&self) -> bool {
        self.last_pids@.no_duplicates()
    }

    /// A watcher for `pty_pid`: Hot, no children seen yet.
    pub fn new(pty_pid: u32) -> (w: Self)
        ensures
            w.pid_view() == pty_pid,
            w.mode_view() == WatcherMode::Hot,
            w.last_pid_set() == Set::<u32>::empty(),
            w.polls_view() == 0,
            w.wf(),
    {
        let w = ChildProcessWatcher { pty_pid, mode: WatcherMode::Hot, last_pids: Vec::new(), polls_in_current_mode: 0 };
        assert(w.last_pids@.to_set() =~= Set::<u32>::empty());
        w
    }

    /// One poll over the PTY's current descendants `children`: reports
    /// them when their pid set differs from the last one seen, and
    /// returns the mode that sets the next sleep.
    pub fn observe(&mut self, children: Vec<ProcessInfo>) -> (r: (Option<ChildProcessesDetected>, WatcherMode))
        requires
            old(self).wf(),
        ensures
            final(self).wf(),
            final(self).pid_view() == old(self).pid_view(),
            final(self).last_pid_set() == pid_set(children@),
            match r.0 {
                Some(ev) => ev.children@ == children@ && pid_set(children@) != old(self).last_pid_set(),
                None => pid_set(children@) == old(self).last_pid_set(),
            },
            final(self).mode_view() == mode_after_poll(old(self).mode_view(), sat_inc(old(self).polls_view())),
            final(self).polls_view() == if final(self).mode_view() != old(self).mode_view() {
                0
            } else {
                sat_inc(old(self).polls_view())
            },
            r.1 == final(self).mode_view(),
    {
        let mut pids: Vec<u32> = Vec::new();
        let ghost all = pids_of(children@);
        let mut i: usize = 0;
        while i < children.len()
            invariant
                i <= children@.len(),
                all == pids_of(children@),
                forall|p: u32| pids@.contains(p) <==> all.take(i as int).contains(p),
                pids@.no_duplicates(),
            decreases children@.len() - i,
        {
            let ghost before = pids@;
            let pid = children[i].pid;
            assert(all[i as int] == pid);
            if !contains_pid(&pids, pid) {
                pids.push(pid);
            }
            proof {
                let cur = all.take(i as int);
                let nxt = all.take(i + 1);
                assert(nxt =~= cur.push(pid));
                assert forall|p: u32| pids@.contains(p) <==> nxt.contains(p) by {
                    if pids@.contains(p) {
                        let j = choose|j: int| 0 <= j < pids@.len() && pids@[j] == p;
                        if j < before.len() {
                            assert(before.contains(p));
                            assert(cur.contains(p));
                            let t = choose|t: int| 0 <= t < cur.len() && cur[t] == p;
                            assert(nxt[t] == p);
                        } else {
                            assert(nxt[i as int] == p);
                        }
                    }
                    if nxt.contains(p) {
                        let t = choose|t: int| 0 <= t < nxt.len() && nxt[t] == p;
                        if t < i {
                            assert(cur[t] == p);
                            assert(before.contains(p));
                            let j = choose|j: int| 0 <= j < before.len() && before[j] == p;
                            assert(pids@[j] == p);
                        } else if before.contains(p) {
                            let j = choose|j: int| 0 <= j < before.len() && before[j] == p;
                            assert(pids@[j] == p);
                        } else {
                            assert(pids@[before.len() as int] == p);
                        }
                    }
                }
            }
            i += 1;
        }
        assert(all.take(children@.len() as int) =~= all);
        assert(pids@.to_set() =~= pid_set(children@)) by {
            assert forall|p: u32| pids@.to_set().contains(p) == pid_set(children@).contains(p) by {
                assert(pids@.to_set().contains(p) == pids@.contains(p));
                assert(pid_set(children@).contains(p) == all.contains(p));
            }
        }
        let same = same_pid_set(&pids, &self.last_pids);
        let detected = if same {
            None
        } else {
            self.last_pids = pids;
            Some(ChildProcessesDetected { children })
        };
        self.polls_in_current_mode = self.polls_in_current_mode.saturating_add(1);
        if self.mode == WatcherMode::Hot {
            let elapsed: u64 = HOT_POLL_MS * (self.polls_in_current_mode as u64);
            if elapsed >= HOT_TO_COLD_AFTER_MS {
                self.mode = WatcherMode::Cold;
                self.polls_in_current_mode = 0;
            }
        }
        (detected, self.mode)
    }

    /// An agent was classified under this PTY: hooks lead from now on.
    pub fn notify_agent_active(&mut self)
        requires
            old(self).wf(),
        ensures
            final(self).wf(),
            final(self).pid_view() == old(self).pid_view(),
            final(self).last_pid_set() == old(self).last_pid_set(),
            final(self).mode_view() == WatcherMode::Warm,
            final(self).polls_view() == 0,
    {
        self.mode = WatcherMode::Warm;
        self.polls_in_current_mode = 0;
    }

    /// Every agent under this PTY exited: poll fast again.
    pub fn notify_agent_gone(&mut self)
        requires
            old(self).wf(),
        ensures
            final(self).wf(),
            final(self).pid_view() == old(self).pid_view(),
            final(self).last_pid_set() == old(self).last_pid_set(),
            final(self).mode_view() == WatcherMode::Hot,
            final(self).polls_view() == 0,
    {
        self.mode = WatcherMode::Hot;
        self.polls_in_current_mode = 0;
    }

    pub fn pty_pid(&self) -> (r: u32)
        ensures
            r == self.pid_view(),
    {
        self.pty_pid
    }

    pub fn mode(&self) -> (r: WatcherMode)
        ensures
            r == self.mode_view(),
    {
        self.mode
    }

    /// How many distinct pids the last reported set held.
    pub fn last_children_count(&self) -> (r: usize)
        requires
            self.wf(),
        ensures
            r == self.last_pid_set().len(),
    {
        proof {
            self.last_pids@.unique_seq_to_set();
        }
        self.last_pids.len()
    }
}

/// `a` and `b` hold the same pids.
fn same_pid_set(a: &Vec<u32>, b: &Vec<u32>) -> (r: bool)
    ensures
        r == (a@.to_set() == b@.to_set()),
{
    let mut i: usize = 0;
    while i < a.len()
        invariant
            i <= a@.len(),
            forall|k: int| 0 <= k < i ==> b@.contains(a@[k]),
        decreases a@.len() - i,
    {
        if !contains_pid(b, a[i]) {
            assert(a@.to_set().contains(a@[i as int]));
            assert(!b@.to_set().contains(a@[i as int]));
            return false;
        }
        i += 1;
    }
    let mut j: usize = 0;
    while j < b.len()
        invariant
            j <= b@.len(),
            forall|k: int| 0 <= k < a@.len() ==> b@.contains(a@[k]),
            forall|k: int| 0 <= k < j ==> a@.contains(b@[k]),
        decreases b@.len() - j,
    {
        if !contains_pid(a, b[j]) {
            assert(b@.to_set().contains(b@[j as int]));
            assert(!a@.to_set().contains(b@[j as int]));
            return false;
        }
        j += 1;
    }
    assert(a@.to_set() =~= b@.to_set()) by {
        assert forall|p: u32| a@.to_set().contains(p) implies b@.to_set().contains(p) by {
            let k = choose|k: int| 0 <= k < a@.len() && a@[k] == p;
        }
        assert forall|p: u32| b@.to_set().contains(p) implies a@.to_set().contains(p) by {
            let k = choose|k: int| 0 <= k < b@.len() && b@[k] == p;
        }
    }
    true
}

fn contains_pid(v: &Vec<u32>, p: u32) -> (r: bool)
    ensures
        r == v@.contains(p),
{
    let mut i: usize = 0;
    while i < v.len()
        invariant
            i <= v@.len(),
            forall|k: int| 0 <= k < i ==> v@[k] != p,
        decreases v@.len() - i,
    {
        if v[i] == p {
            return true;
        }
        i += 1;
    }
    false
}

/// One poll of the live process table for the watcher's PTY.
pub fn tick(watcher: &mut ChildProcessWatcher) -> (r: (Option<ChildProcessesDetected>, WatcherMode))
    requires
        old(watcher).wf(),
    ensures
        final(watcher).wf(),
        final(watcher).pid_view() == old(watcher).pid_view(),
        r.1 == final(watcher).mode_view(),
        final(watcher).mode_view() == mode_after_poll(old(watcher).mode_view(), sat_inc(old(watcher).polls_view())),
{
    let children = scan_pty_descendants(watcher.pty_pid());
    watcher.observe(children)
}

} // verus!
