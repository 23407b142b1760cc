use carrot::history::CommandHistory;
use carrot::phase2::ai::{Suggestion, SuggestionRequest, SuggestionSource};
use carrot::phase2::ai_engine::{
    merge_results, merge_within_budget, HistoryEngine, MockEngine, RacingEngine, SuggestionEngine,
};
use std::time::{Duration, Instant};

/// Backend that spins for `delay` inside `suggest`, to exercise the
/// budget path without real model latency.
struct SlowMockEngine {
    delay: Duration,
    canned: Vec<Suggestion>,
}

impl SuggestionEngine for SlowMockEngine {
    fn name(&self) -> &str {
        "slow-mock"
    }
    fn source(&self) -> SuggestionSource {
        SuggestionSource::Cloud
    }
    fn suggest(&self, request: &SuggestionRequest) -> Vec<Suggestion> {
        if !request.is_worth_dispatching() {
            return Vec::new();
        }
        let started = Instant::now();
        while started.elapsed() < self.delay {
            std::hint::spin_loop();
        }
        self.canned.clone()
    }
}

fn history_with(cmds: &[(&str, Option<i32>)]) -> CommandHistory {
    let mut h = CommandHistory::new();
    for (cmd, exit) in cmds {
        h.push_with_metadata((*cmd).to_string(), *exit, None);
    }
    h
}

#[test]
fn history_engine_returns_empty_for_trivial_prefix() {
    let h = history_with(&[("ls", Some(0))]);
    let engine = HistoryEngine::new(&h);
    let request = SuggestionRequest::from_prefix("l");
    assert!(engine.suggest(&request).is_empty());
}

#[test]
fn history_engine_returns_tail_of_matching_entry() {
    let h = history_with(&[("git checkout main", Some(0))]);
    let engine = HistoryEngine::new(&h);
    let request = SuggestionRequest::from_prefix("git chec");
    let out = engine.suggest(&request);
    assert_eq!(out.len(), 1);
    assert_eq!(out[0].completion, "kout main");
}

#[test]
fn history_engine_dedupes_identical_tails() {
    let h = history_with(&[("git pull", Some(0)), ("git pull", Some(0))]);
    let engine = HistoryEngine::new(&h);
    let request = SuggestionRequest::from_prefix("git");
    let out = engine.suggest(&request);
    assert_eq!(out.len(), 1);
}

#[test]
fn history_engine_lowers_confidence_on_failure() {
    let h = history_with(&[("rm -rf /", Some(1))]);
    let engine = HistoryEngine::new(&h);
    let request = SuggestionRequest::from_prefix("rm");
    let out = engine.suggest(&request);
    assert_eq!(out.len(), 1);
    assert_eq!(out[0].confidence, 40);
}

#[test]
fn history_engine_respects_max_results() {
    let h = history_with(&[("git a", Some(0)), ("git b", Some(0)), ("git c", Some(0))]);
    let engine = HistoryEngine::new(&h);
    let mut request = SuggestionRequest::from_prefix("git");
    request.max_results = 2;
    assert_eq!(engine.suggest(&request).len(), 2);
}

#[test]
fn mock_engine_returns_canned_suggestions() {
    let canned = vec![Suggestion::new(" explain", SuggestionSource::Local).with_confidence(70)];
    let engine = MockEngine::new("local", SuggestionSource::Local, canned);
    let request = SuggestionRequest::from_prefix("git");
    let out = engine.suggest(&request);
    assert_eq!(out.len(), 1);
    assert_eq!(out[0].completion, " explain");
    assert_eq!(engine.name(), "local");
    assert_eq!(engine.source(), SuggestionSource::Local);
}

#[test]
fn mock_engine_refuses_trivial_prefix() {
    let canned = vec![Suggestion::new("x", SuggestionSource::Local)];
    let engine = MockEngine::new("local", SuggestionSource::Local, canned);
    assert!(engine.suggest(&SuggestionRequest::from_prefix("g")).is_empty());
}

#[test]
fn racing_engine_merges_and_prunes() {
    let h = history_with(&[("git checkout main", Some(0))]);
    let mut racer = RacingEngine::new();
    racer.register(HistoryEngine::new(&h));
    racer.register(MockEngine::new(
        "local",
        SuggestionSource::Local,
        vec![Suggestion::new("kout main", SuggestionSource::Local)],
    ));
    let request = SuggestionRequest::from_prefix("git chec");
    let set = racer.run(&request);
    assert_eq!(set.len(), 1);
}

#[test]
fn racing_engine_best_prefers_history_over_local() {
    let h = history_with(&[("git checkout main", Some(0))]);
    let mut racer = RacingEngine::new();
    racer.register(HistoryEngine::new(&h));
    racer.register(MockEngine::new(
        "cloud",
        SuggestionSource::Cloud,
        vec![Suggestion::new("kout develop", SuggestionSource::Cloud).with_confidence(90)],
    ));
    let set = racer.run(&SuggestionRequest::from_prefix("git chec"));
    let best = set.best().unwrap();
    assert_eq!(best.source, SuggestionSource::History);
}

#[test]
fn racing_engine_empty_until_registered() {
    let racer = RacingEngine::new();
    assert!(racer.is_empty());
    assert_eq!(racer.len(), 0);
    assert!(racer.run(&SuggestionRequest::from_prefix("anything")).is_empty());
}

#[test]
fn trait_name_and_source_accessors() {
    let h = CommandHistory::new();
    let eng = HistoryEngine::new(&h);
    assert_eq!(eng.name(), "history");
    assert_eq!(eng.source(), SuggestionSource::History);
}

#[test]
fn budget_drops_slow_engine_silently() {
    let h = history_with(&[("git status", Some(0))]);
    let mut racer = RacingEngine::new();
    racer.register(HistoryEngine::new(&h));
    racer.register(SlowMockEngine {
        delay: Duration::from_millis(80),
        canned: vec![Suggestion::new("-sb", SuggestionSource::Cloud)],
    });
    let request = SuggestionRequest::from_prefix("git st").with_budget(Duration::from_millis(20));
    let set = racer.run_with_budget(&request);
    assert!(set.candidates.iter().all(|s| s.source == SuggestionSource::History));
}

#[test]
fn budget_attaches_latency_to_surviving_suggestions() {
    let h = history_with(&[("git status", Some(0))]);
    let mut racer = RacingEngine::new();
    racer.register(HistoryEngine::new(&h));
    let request = SuggestionRequest::from_prefix("git st").with_budget(Duration::from_secs(60));
    let set = racer.run_with_budget(&request);
    assert!(!set.is_empty());
    assert!(set.candidates.iter().all(|s| s.latency.is_some()));
}

#[test]
fn default_budget_is_200ms() {
    let req = SuggestionRequest::from_prefix("ls");
    assert_eq!(req.budget, Duration::from_millis(200));
}

#[test]
fn with_budget_overrides_default() {
    let req = SuggestionRequest::from_prefix("ls").with_budget(Duration::from_millis(50));
    assert_eq!(req.budget, Duration::from_millis(50));
}

#[test]
fn history_engine_walks_newest_first() {
    let h = history_with(&[("git add", Some(0)), ("git push", Some(1))]);
    let engine = HistoryEngine::new(&h);
    let out = engine.suggest(&SuggestionRequest::from_prefix("git "));
    assert_eq!(out.len(), 2);
    assert_eq!(out[0].completion, "push");
    assert_eq!(out[0].confidence, 40);
    assert_eq!(out[1].completion, "add");
    assert_eq!(out[1].confidence, 80);
    assert!(out.iter().all(|s| s.source == SuggestionSource::History && s.latency.is_none()));
}

#[test]
fn history_engine_skips_exact_matches() {
    let h = history_with(&[("git", Some(0))]);
    let engine = HistoryEngine::new(&h);
    assert!(engine.suggest(&SuggestionRequest::from_prefix("git")).is_empty());
}

#[test]
fn merge_results_keeps_order_then_prunes() {
    let a = vec![Suggestion::new("one", SuggestionSource::Local)];
    let b = vec![
        Suggestion::new("one", SuggestionSource::Cloud),
        Suggestion::new("two", SuggestionSource::Cloud),
    ];
    let set = merge_results(vec![a, b]);
    assert_eq!(set.len(), 2);
}

#[test]
fn merge_within_budget_drops_late_batches_and_stamps_latency() {
    let on_time = vec![Suggestion::new("fast", SuggestionSource::Local)];
    let late = vec![Suggestion::new("slow", SuggestionSource::Cloud)];
    let set = merge_within_budget(
        vec![(on_time, Duration::from_millis(5)), (late, Duration::from_millis(500))],
        Duration::from_millis(100),
    );
    assert_eq!(set.len(), 1);
    assert_eq!(set.candidates[0].completion, "fast");
    assert_eq!(set.candidates[0].latency, Some(Duration::from_millis(5)));
}
