use carrot::ast::{ArgKind, AstError, CommandAst, CommandNode, ErrorSeverity, GitScope, PathKind, PipelineElement, PositionalNode, Range, SubcommandNode};
use carrot::highlight::{highlight_ast, HighlightRole};
use carrot::parse::parse_simple;

#[test]
fn command_and_subcommand_spans_emitted() {
    let ast = parse_simple("git checkout main");
    let spans = highlight_ast(&ast);
    assert!(spans.iter().any(|s| s.role == HighlightRole::Command));
    assert!(spans.iter().any(|s| s.role == HighlightRole::Subcommand));
}

#[test]
fn flags_classified_long_vs_short() {
    let ast = parse_simple("ls -la --color=auto");
    let spans = highlight_ast(&ast);
    assert!(spans.iter().any(|s| s.role == HighlightRole::ShortFlag));
    assert!(spans.iter().any(|s| s.role == HighlightRole::LongFlag));
}

#[test]
fn spans_ordered_by_range() {
    let ast = parse_simple("git checkout main");
    let spans = highlight_ast(&ast);
    for win in spans.windows(2) {
        assert!(win[0].range.start <= win[1].range.start);
    }
}

#[test]
fn error_severity_produces_error_span() {
    let mut ast = parse_simple("git checkout main");
    ast.errors.push(AstError {
        range: Range::new(13, 17),
        message: "no branch named main".into(),
        severity: ErrorSeverity::Error,
    });
    let spans = highlight_ast(&ast);
    assert!(spans.iter().any(|s| s.role == HighlightRole::Error));
}

#[test]
fn warning_severity_does_not_emit_error_span() {
    let mut ast = parse_simple("ls -la");
    ast.errors.push(AstError {
        range: Range::new(3, 6),
        message: "maybe a typo".into(),
        severity: ErrorSeverity::Warning,
    });
    let spans = highlight_ast(&ast);
    assert!(!spans.iter().any(|s| s.role == HighlightRole::Error));
}

#[test]
fn git_ref_arg_kind_produces_git_ref_role() {
    let ast = CommandAst::from_element(PipelineElement {
        command: Some(CommandNode {
            name: "git".into(),
            range: Range::new(0, 3),
        }),
        subcommand: Some(SubcommandNode {
            name: "checkout".into(),
            depth: 0,
            range: Range::new(4, 12),
        }),
        positionals: vec![PositionalNode {
            value: "main".into(),
            kind: ArgKind::GitRef {
                scope: GitScope::Branch,
            },
            range: Range::new(13, 17),
        }],
        ..PipelineElement::empty()
    });
    let spans = highlight_ast(&ast);
    assert!(spans.iter().any(|s| s.role == HighlightRole::GitRef));
}

#[test]
fn path_arg_kind_produces_path_role() {
    let ast = CommandAst::from_element(PipelineElement {
        command: Some(CommandNode {
            name: "cat".into(),
            range: Range::new(0, 3),
        }),
        positionals: vec![PositionalNode {
            value: "/etc/hosts".into(),
            kind: ArgKind::Path {
                must_exist: true,
                kind: PathKind::File,
            },
            range: Range::new(4, 14),
        }],
        ..PipelineElement::empty()
    });
    let spans = highlight_ast(&ast);
    assert!(spans.iter().any(|s| s.role == HighlightRole::Path));
}

#[test]
fn empty_ast_produces_no_spans() {
    let ast = CommandAst::empty();
    let spans = highlight_ast(&ast);
    assert!(spans.is_empty());
}

#[test]
fn is_error_classification() {
    assert!(HighlightRole::Error.is_error());
    assert!(!HighlightRole::Command.is_error());
    assert!(!HighlightRole::GitRef.is_error());
}

#[test]
fn flag_with_value_still_emits_single_span() {
    // Current parser produces a single FlagNode with value set;
    // highlighter emits one LongFlag span over the full range.
    let ast = parse_simple("ls --color=auto");
    let flag_spans: Vec<_> = highlight_ast(&ast)
        .into_iter()
        .filter(|s| s.role == HighlightRole::LongFlag)
        .collect();
    assert_eq!(flag_spans.len(), 1);
}

#[test]
fn unknown_positional_maps_to_positional_role() {
    let ast = parse_simple("git checkout main");
    let spans = highlight_ast(&ast);
    assert!(spans.iter().any(|s| s.role == HighlightRole::Positional));
}

#[test]
fn short_flag_use_uses_short_flag_role() {
    let ast = parse_simple("rm -f");
    let spans = highlight_ast(&ast);
    // -f is actually parsed as subcommand by simple parser
    // because rm is the command and -f follows. But the simple
    // parser classifies flags before subcommand assignment, so
    // -f should be in the flags list.
    let has_short_flag = spans.iter().any(|s| s.role == HighlightRole::ShortFlag);
    assert!(has_short_flag, "spans = {spans:?}");
}

#[test]
fn fn_fn_env_var_role_is_mapped() {
    let ast = CommandAst::from_element(PipelineElement {
        command: Some(CommandNode {
            name: "echo".into(),
            range: Range::new(0, 4),
        }),
        positionals: vec![PositionalNode {
            value: "$HOME".into(),
            kind: ArgKind::EnvVar,
            range: Range::new(5, 10),
        }],
        ..PipelineElement::empty()
    });
    let spans = highlight_ast(&ast);
    assert!(spans.iter().any(|s| s.role == HighlightRole::EnvVar));
}

#[test]
fn pipeline_emits_separator_spans() {
    let ast = parse_simple("ls | grep foo");
    let spans = highlight_ast(&ast);
    let sep_count = spans
        .iter()
        .filter(|s| s.role == HighlightRole::Separator)
        .count();
    assert_eq!(sep_count, 1);
    // Each stage contributes a Command span.
    let cmd_count = spans
        .iter()
        .filter(|s| s.role == HighlightRole::Command)
        .count();
    assert_eq!(cmd_count, 2);
}
