use carrot::accessibility::{narrate_ast, narrate_completion_summary, ImeComposition, NarrationRole};
use carrot::ast::{ArgKind, AstError, CommandAst, CommandNode, ErrorSeverity, GitScope, PathKind, PipelineElement, PositionalNode, Range, SubcommandNode};
use carrot::completion::{CompletionCandidate, CompletionSet, CompletionSource};
use carrot::parse::parse_simple;

fn git_checkout_main_ast() -> CommandAst {
    CommandAst::from_element(PipelineElement {
        command: Some(CommandNode {
            name: "git".into(),
            range: Range::new(0, 3),
        }),
        subcommand: Some(SubcommandNode {
            name: "checkout".into(),
            depth: 0,
            range: Range::new(4, 12),
        }),
        positionals: vec![PositionalNode {
            value: "ma".into(),
            kind: ArgKind::GitRef {
                scope: GitScope::Branch,
            },
            range: Range::new(13, 15),
        }],
        ..PipelineElement::empty()
    })
}

#[test]
fn narrate_ast_emits_command_then_subcommand_then_positional() {
    let ast = git_checkout_main_ast();
    let lines = narrate_ast(&ast);
    assert_eq!(lines.len(), 3);
    assert_eq!(lines[0].role, NarrationRole::Command);
    assert_eq!(lines[0].text, "git command");
    assert_eq!(lines[1].role, NarrationRole::Subcommand);
    assert_eq!(lines[1].text, "checkout subcommand");
    assert_eq!(lines[2].role, NarrationRole::Positional);
    assert_eq!(lines[2].text, "branch argument ma");
}

#[test]
fn narrate_ast_covers_flags_with_value() {
    let ast = parse_simple("ls -la --color=auto");
    let lines = narrate_ast(&ast);
    assert!(
        lines
            .iter()
            .any(|l| l.text == "short flag la" && l.role == NarrationRole::Flag)
    );
    assert!(
        lines
            .iter()
            .any(|l| l.text == "long flag color with value auto")
    );
}

#[test]
fn narrate_ast_covers_path_positional() {
    let ast = CommandAst::from_element(PipelineElement {
        command: Some(CommandNode {
            name: "cat".into(),
            range: Range::new(0, 3),
        }),
        positionals: vec![PositionalNode {
            value: "/etc/hosts".into(),
            kind: ArgKind::Path {
                must_exist: true,
                kind: PathKind::File,
            },
            range: Range::new(4, 14),
        }],
        ..PipelineElement::empty()
    });
    let lines = narrate_ast(&ast);
    assert!(lines.iter().any(|l| l.text == "path argument /etc/hosts"));
}

#[test]
fn pipeline_narration_includes_stage_boundaries() {
    let ast = parse_simple("ls | grep foo");
    let lines = narrate_ast(&ast);
    assert!(
        lines
            .iter()
            .any(|l| l.role == NarrationRole::PipelineSeparator && l.text == "pipe stage 2")
    );
    let command_count = lines
        .iter()
        .filter(|l| l.role == NarrationRole::Command)
        .count();
    assert_eq!(command_count, 2);
}

#[test]
fn narrate_ast_emits_error_for_severity_error_only() {
    let mut ast = git_checkout_main_ast();
    ast.errors.push(AstError {
        range: Range::new(13, 15),
        message: "no branch or tag named `ma`".into(),
        severity: ErrorSeverity::Error,
    });
    ast.errors.push(AstError {
        range: Range::new(0, 3),
        message: "deprecated command".into(),
        severity: ErrorSeverity::Warning,
    });
    let lines = narrate_ast(&ast);
    let errors: Vec<_> = lines
        .iter()
        .filter(|l| l.role == NarrationRole::Error)
        .collect();
    assert_eq!(errors.len(), 1);
    assert!(errors[0].text.contains("no branch or tag"));
}

#[test]
fn completion_summary_uses_word_for_small_counts() {
    let mut set = CompletionSet::new();
    for label in ["main", "master", "macos-fixes"] {
        set.candidates.push(CompletionCandidate::replace(
            CompletionSource::Git,
            label,
            Range::new(0, 0),
        ));
    }
    let line = narrate_completion_summary(&set, 5).unwrap();
    assert_eq!(line.role, NarrationRole::CompletionSummary);
    assert_eq!(line.text, "three suggestions: main, master, macos-fixes");
}

#[test]
fn completion_summary_summarises_large_set_by_count() {
    let mut set = CompletionSet::new();
    for i in 0..42 {
        set.candidates.push(CompletionCandidate::replace(
            CompletionSource::History,
            &format!("cmd{i}"),
            Range::new(0, 0),
        ));
    }
    let line = narrate_completion_summary(&set, 5).unwrap();
    assert!(line.text.starts_with("42 suggestions available"));
}

#[test]
fn completion_summary_one_suggestion_wording() {
    let mut set = CompletionSet::new();
    set.candidates.push(CompletionCandidate::replace(
        CompletionSource::Git,
        "main",
        Range::new(0, 0),
    ));
    let line = narrate_completion_summary(&set, 5).unwrap();
    assert_eq!(line.text, "one suggestion: main");
}

#[test]
fn completion_summary_empty_returns_none() {
    let set = CompletionSet::new();
    assert!(narrate_completion_summary(&set, 5).is_none());
}

#[test]
fn ime_composition_is_active_when_composing_present() {
    let comp = ImeComposition {
        composing: "ni".into(),
        candidates: Vec::new(),
        selected_candidate: None,
    };
    assert!(comp.is_active());
}

#[test]
fn ime_composition_narration_announces_composing() {
    let comp = ImeComposition {
        composing: "ni".into(),
        candidates: vec!["你".into(), "尼".into(), "妮".into()],
        selected_candidate: Some(0),
    };
    let lines = comp.narrate();
    assert_eq!(lines[0].text, "composing ni");
    assert_eq!(lines[1].text, "candidate 你, selected");
    assert_eq!(lines[2].text, "candidate 尼");
    assert_eq!(lines[3].text, "candidate 妮");
}

#[test]
fn ime_composition_is_inactive_when_empty() {
    let comp = ImeComposition::default();
    assert!(!comp.is_active());
    assert!(comp.narrate().is_empty());
}

#[test]
fn narrate_ast_on_empty_returns_empty() {
    let ast = CommandAst::empty();
    assert!(narrate_ast(&ast).is_empty());
}
