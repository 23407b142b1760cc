use carrot::phase2::ai::{Suggestion, SuggestionRequest, SuggestionSet, SuggestionSource};
#[test]
fn source_priority_history_wins() {
    assert!(
        SuggestionSource::History.priority_bucket() < SuggestionSource::Local.priority_bucket()
    );
    assert!(
        SuggestionSource::Local.priority_bucket() < SuggestionSource::Cloud.priority_bucket()
    );
}

#[test]
fn offline_sources_classified() {
    assert!(SuggestionSource::History.is_offline());
    assert!(SuggestionSource::Local.is_offline());
    assert!(!SuggestionSource::Cloud.is_offline());
}

#[test]
fn suggestion_builder_clamps_confidence() {
    let s = Suggestion::new("in", SuggestionSource::History).with_confidence(200);
    assert_eq!(s.confidence, 100);
}

#[test]
fn trivial_suggestion_detected() {
    let blank = Suggestion::new("", SuggestionSource::History);
    let ws = Suggestion::new("   ", SuggestionSource::History);
    let real = Suggestion::new("in", SuggestionSource::History);
    assert!(blank.is_trivial());
    assert!(ws.is_trivial());
    assert!(!real.is_trivial());
}

#[test]
fn worth_dispatching_gates_short_prefixes() {
    assert!(!SuggestionRequest::from_prefix("").is_worth_dispatching());
    assert!(!SuggestionRequest::from_prefix("g").is_worth_dispatching());
    assert!(SuggestionRequest::from_prefix("gi").is_worth_dispatching());
    assert!(SuggestionRequest::from_prefix("git ").is_worth_dispatching());
}

#[test]
fn best_picks_history_over_cloud_at_equal_confidence() {
    let mut set = SuggestionSet::new();
    set.candidates
        .push(Suggestion::new("in", SuggestionSource::Cloud).with_confidence(90));
    set.candidates
        .push(Suggestion::new("in", SuggestionSource::History).with_confidence(90));
    let best = set.best().unwrap();
    assert_eq!(best.source, SuggestionSource::History);
}

#[test]
fn best_picks_higher_confidence_within_same_source() {
    let mut set = SuggestionSet::new();
    set.candidates
        .push(Suggestion::new("in", SuggestionSource::Local).with_confidence(40));
    set.candidates
        .push(Suggestion::new("ain", SuggestionSource::Local).with_confidence(90));
    let best = set.best().unwrap();
    assert_eq!(best.completion, "ain");
}

#[test]
fn prune_removes_trivial_and_dupes() {
    let mut set = SuggestionSet::new();
    set.candidates
        .push(Suggestion::new("in", SuggestionSource::History));
    set.candidates
        .push(Suggestion::new("", SuggestionSource::Local));
    set.candidates
        .push(Suggestion::new("in", SuggestionSource::Cloud));
    set.candidates
        .push(Suggestion::new("   ", SuggestionSource::Local));
    set.prune();
    assert_eq!(set.len(), 1);
    assert_eq!(set.candidates[0].completion, "in");
}
