use carrot::ast::Range;
use carrot::completion::{CompletionCandidate, CompletionSource};
use carrot::phase2::mcp_completion::{glob_matches, mcp_candidates_from_labels, merge_provider_answers, McpProvider, McpRegistry};
struct LiteralProvider {
    name: &'static str,
    labels: Vec<&'static str>,
}

impl McpProvider for LiteralProvider {
    fn name(&self) -> &str {
        self.name
    }
    fn complete(&self, _line: &str, anchor: Range) -> Vec<CompletionCandidate> {
        self.labels
            .iter()
            .map(|l| {
                CompletionCandidate::replace(CompletionSource::Mcp, *l, anchor).with_icon("mcp")
            })
            .collect()
    }
}

#[test]
fn glob_star_matches_word_boundary() {
    assert!(glob_matches("git *", "git status"));
    assert!(glob_matches("git *", "git"));
    assert!(!glob_matches("git *", "gitoxide"));
    assert!(glob_matches("kubectl *", "kubectl get pods"));
    assert!(!glob_matches("kubectl *", "kube"));
}

#[test]
fn glob_exact_match() {
    assert!(glob_matches("ls", "ls"));
    assert!(!glob_matches("ls", "ls -la"));
    assert!(!glob_matches("ls", "lsof"));
}

#[test]
fn glob_bare_star_matches_everything() {
    assert!(glob_matches("*", ""));
    assert!(glob_matches("*", "anything"));
}

#[test]
fn registry_starts_empty() {
    let r = McpRegistry::new();
    assert!(r.is_empty());
    assert_eq!(r.len(), 0);
}

#[test]
fn dispatch_invokes_matching_provider_only() {
    let mut r = McpRegistry::new();
    r.register(
        "git *",
        Box::new(LiteralProvider {
            name: "git-mcp",
            labels: vec!["status", "checkout"],
        }),
    );
    r.register(
        "kubectl *",
        Box::new(LiteralProvider {
            name: "k8s-mcp",
            labels: vec!["get", "apply"],
        }),
    );
    let out = r.dispatch("git ", Range::new(0, 0));
    let labels: Vec<_> = out.iter().map(|c| c.label.as_str()).collect();
    assert_eq!(labels, vec!["status", "checkout"]);
}

#[test]
fn dispatch_returns_empty_when_no_match() {
    let mut r = McpRegistry::new();
    r.register(
        "git *",
        Box::new(LiteralProvider {
            name: "git-mcp",
            labels: vec!["status"],
        }),
    );
    let out = r.dispatch("cargo build", Range::new(0, 0));
    assert!(out.is_empty());
}

#[test]
fn multiple_providers_on_same_pattern_concatenate() {
    let mut r = McpRegistry::new();
    r.register(
        "git *",
        Box::new(LiteralProvider {
            name: "a",
            labels: vec!["one"],
        }),
    );
    r.register(
        "git *",
        Box::new(LiteralProvider {
            name: "b",
            labels: vec!["two"],
        }),
    );
    let out = r.dispatch("git checkout", Range::new(0, 0));
    let labels: Vec<_> = out.iter().map(|c| c.label.as_str()).collect();
    assert_eq!(labels, vec!["one", "two"]);
}

#[test]
fn candidates_carry_mcp_source() {
    let mut r = McpRegistry::new();
    r.register(
        "git *",
        Box::new(LiteralProvider {
            name: "g",
            labels: vec!["status"],
        }),
    );
    let out = r.dispatch("git ", Range::new(0, 0));
    assert!(out.iter().all(|c| c.source == CompletionSource::Mcp));
}

#[test]
fn mcp_candidates_from_labels_builds_set() {
    let out = mcp_candidates_from_labels(&["a", "b", "c"], Range::new(0, 0));
    assert_eq!(out.len(), 3);
    assert!(out.iter().all(|c| c.source == CompletionSource::Mcp));
}

#[test]
fn merge_keeps_only_matching_answers_in_order() {
    let patterns = vec!["git *".to_string(), "kubectl *".to_string(), "git*".to_string()];
    let answers = vec![
        mcp_candidates_from_labels(&["status"], Range::new(0, 0)),
        mcp_candidates_from_labels(&["get"], Range::new(0, 0)),
        mcp_candidates_from_labels(&["push", "pull"], Range::new(0, 0)),
    ];
    let out = merge_provider_answers(&patterns, "git p", answers);
    let labels: Vec<&str> = out.iter().map(|c| c.label.as_str()).collect();
    assert_eq!(labels, vec!["status", "push", "pull"]);
}
