use carrot::ast::Range;
use carrot::completion::{CompletionCandidate, CompletionSet, CompletionSource, InsertAction};
#[test]
fn default_bucket_prioritises_spec_over_ai() {
    assert!(CompletionSource::Spec.default_bucket() < CompletionSource::Ai.default_bucket());
}

#[test]
fn replace_constructor_sets_action_and_label() {
    let c = CompletionCandidate::replace(
        CompletionSource::Filesystem,
        "Cargo.toml",
        Range::new(0, 5),
    );
    assert_eq!(c.label, "Cargo.toml");
    match c.action {
        InsertAction::Replace { range, replacement } => {
            assert_eq!(range, Range::new(0, 5));
            assert_eq!(replacement, "Cargo.toml");
        }
        _ => panic!("expected Replace"),
    }
    assert_eq!(c.source, CompletionSource::Filesystem);
    assert_eq!(c.score, 0);
}

#[test]
fn builder_chain_sets_fields() {
    let c = CompletionCandidate::replace(CompletionSource::Git, "main", Range::new(13, 17))
        .with_detail("last updated 2 days ago")
        .with_score(42)
        .with_icon("git-branch");
    assert_eq!(c.detail.as_deref(), Some("last updated 2 days ago"));
    assert_eq!(c.score, 42);
    assert_eq!(c.icon, Some("git-branch"));
}

#[test]
fn insert_action_text_len_matches() {
    let r = InsertAction::Replace {
        range: Range::new(0, 0),
        replacement: "abc".into(),
    };
    assert_eq!(r.text_len(), 3);
    let s = InsertAction::Snippet {
        offset: 0,
        snippet: "fn $0()".into(),
    };
    assert_eq!(s.text_len(), 7);
}

#[test]
fn sort_orders_by_bucket_then_score_then_label() {
    let mut set = CompletionSet::new();
    set.candidates.push(
        CompletionCandidate::replace(CompletionSource::Ai, "b-low", Range::new(0, 0))
            .with_score(100),
    );
    set.candidates.push(
        CompletionCandidate::replace(CompletionSource::Spec, "z", Range::new(0, 0))
            .with_score(1),
    );
    set.candidates.push(
        CompletionCandidate::replace(CompletionSource::Spec, "a", Range::new(0, 0))
            .with_score(1),
    );
    set.candidates.push(
        CompletionCandidate::replace(CompletionSource::Spec, "m", Range::new(0, 0))
            .with_score(10),
    );
    set.sort();
    // Spec bucket first (0), then Ai (4). Within Spec, higher
    // score first: m(10), then a(1) < z(1) alphabetical.
    let labels: Vec<_> = set.candidates.iter().map(|c| c.label.as_str()).collect();
    assert_eq!(labels, vec!["m", "a", "z", "b-low"]);
}

#[test]
fn empty_completion_set_reports_correctly() {
    let set = CompletionSet::new();
    assert!(set.is_empty());
    assert_eq!(set.len(), 0);
    assert!(set.anchor.is_none());
}
