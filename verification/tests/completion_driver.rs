use carrot::ast::{ArgKind, CommandAst, GitScope, PipelineElement, PositionalNode, Range};
use carrot::completion::{CompletionCandidate, CompletionSource};
use carrot::completion_driver::{
    enum_candidates, finish_plan, plan_for_cursor, token_prefix, SourceRequest,
};
use carrot::history::CommandHistory;

fn ast_with(value: &str, kind: ArgKind, range: Range) -> CommandAst {
    let element = PipelineElement {
        positionals: vec![PositionalNode { value: value.to_string(), kind, range }],
        ..PipelineElement::default()
    };
    CommandAst::from_element(element)
}

#[test]
fn token_prefix_slices_up_to_cursor() {
    let input = "git checkout main";
    let range = Range::new(13, 17);
    assert_eq!(token_prefix(input, range, 15), "ma");
    assert_eq!(token_prefix(input, range, 17), "main");
    assert_eq!(token_prefix(input, range, 13), "");
}

#[test]
fn token_prefix_clamps_to_range_bounds() {
    let input = "git checkout main";
    let range = Range::new(13, 17);
    assert_eq!(token_prefix(input, range, 5), "");
    assert_eq!(token_prefix(input, range, 100), "main");
}

#[test]
fn enum_positional_filters_by_prefix() {
    let out = enum_candidates(&vec!["json", "yaml", "toml"], "y", Range::new(0, 0));
    assert_eq!(out.len(), 1);
    assert_eq!(out[0].label, "yaml");
    assert_eq!(out[0].source, CompletionSource::Spec);
}

#[test]
fn outside_any_positional_falls_back_to_history() {
    let mut h = CommandHistory::new();
    h.push("ls -la".to_string());
    let plan = plan_for_cursor("", &CommandAst::empty(), 0, false, Some(&h), 10);
    assert_eq!(plan.request, SourceRequest::Nothing);
    let set = finish_plan(plan, Vec::new());
    assert!(!set.is_empty());
    assert!(set.candidates.iter().all(|c| c.source == CompletionSource::History));
    assert_eq!(set.anchor, Some(Range::new(0, 0)));
}

#[test]
fn no_history_and_no_positional_gives_nothing() {
    let plan = plan_for_cursor("git checkout main", &CommandAst::empty(), 17, true, None, 0);
    assert_eq!(plan.limit, 1);
    let set = finish_plan(plan, Vec::new());
    assert!(set.is_empty());
    assert!(set.anchor.is_none());
}

#[test]
fn git_ref_needs_a_working_directory() {
    let ast = ast_with("m", ArgKind::GitRef { scope: GitScope::Branch }, Range::new(0, 1));
    let without = plan_for_cursor("m", &ast, 0, false, None, 5);
    assert_eq!(without.request, SourceRequest::Nothing);
    assert!(finish_plan(without, Vec::new()).is_empty());
    let with = plan_for_cursor("m", &ast, 0, true, None, 5);
    assert_eq!(with.request, SourceRequest::Git(GitScope::Branch));
}

#[test]
fn env_positional_asks_for_the_environment_with_its_prefix() {
    let input = "echo $CARROT_DRIVER";
    let ast = ast_with("$CARROT_DRIVER", ArgKind::EnvVar, Range::new(5, 19));
    let plan = plan_for_cursor(input, &ast, 11, false, None, 32);
    assert_eq!(plan.request, SourceRequest::EnvVar);
    assert_eq!(plan.prefix, "$CARRO");
    assert_eq!(plan.anchor, Some(Range::new(5, 19)));
}

#[test]
fn enum_plan_is_answered_and_sorted() {
    let input = "fmt tx";
    let ast = ast_with("tx", ArgKind::Enum(vec!["yaml", "toml", "txt"]), Range::new(4, 6));
    let plan = plan_for_cursor(input, &ast, 5, false, None, 8);
    assert_eq!(plan.request, SourceRequest::Nothing);
    assert_eq!(plan.prefix, "t");
    let set = finish_plan(plan, Vec::new());
    let labels: Vec<&str> = set.candidates.iter().map(|c| c.label.as_str()).collect();
    assert_eq!(labels, vec!["toml", "txt"]);
}

#[test]
fn finish_plan_ranks_listed_candidates() {
    let ast = ast_with("sr", ArgKind::Path { must_exist: false, kind: carrot::ast::PathKind::Any }, Range::new(4, 6));
    let plan = plan_for_cursor("cat sr", &ast, 5, true, None, 8);
    assert_eq!(plan.prefix, "s");
    assert_eq!(plan.request, SourceRequest::Filesystem);
    let listed = vec![
        CompletionCandidate::replace(CompletionSource::Filesystem, "src/", Range::new(4, 6)),
        CompletionCandidate::replace(CompletionSource::Filesystem, "scripts/", Range::new(4, 6)),
    ];
    let set = finish_plan(plan, listed);
    assert_eq!(set.candidates[0].label, "scripts/");
    assert_eq!(set.anchor, Some(Range::new(4, 6)));
}

#[test]
fn cursor_at_token_end_is_outside_the_token() {
    let ast = ast_with("ab", ArgKind::EnvVar, Range::new(0, 2));
    let plan = plan_for_cursor("ab", &ast, 2, false, None, 8);
    assert_eq!(plan.request, SourceRequest::Nothing);
    assert!(plan.anchor.is_none());
}
