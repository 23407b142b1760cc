use carrot::ast::{ArgKind, AstError, CommandAst, CommandNode, ErrorSeverity, GitScope, PathKind, PipelineElement, PositionalNode, Range, Separator, SeparatorKind};
use carrot::validation::{apply_validation, is_error, validate, ValidationContext};

fn ast_with_gitref() -> CommandAst {
    CommandAst::from_element(PipelineElement {
        command: Some(CommandNode {
            name: "git".into(),
            range: Range::new(0, 3),
        }),
        positionals: vec![PositionalNode {
            value: "main".into(),
            kind: ArgKind::GitRef {
                scope: GitScope::Branch,
            },
            range: Range::new(13, 17),
        }],
        ..PipelineElement::empty()
    })
}

fn ast_with_path(must_exist: bool) -> CommandAst {
    CommandAst::from_element(PipelineElement {
        command: Some(CommandNode {
            name: "cat".into(),
            range: Range::new(0, 3),
        }),
        positionals: vec![PositionalNode {
            value: "/etc/does-not-exist".into(),
            kind: ArgKind::Path {
                must_exist,
                kind: PathKind::File,
            },
            range: Range::new(4, 23),
        }],
        ..PipelineElement::empty()
    })
}

#[test]
fn empty_context_yields_no_errors() {
    let ast = ast_with_gitref();
    let errors = validate(&ast, &ValidationContext::default());
    assert!(errors.is_empty());
}

#[test]
fn unknown_command_emits_hint_not_error() {
    let ast = ast_with_gitref();
    let ctx = ValidationContext {
        known_commands: Some(["cargo", "ls"].into_iter().collect()),
        ..Default::default()
    };
    let errors = validate(&ast, &ctx);
    assert_eq!(errors.len(), 1);
    assert!(matches!(errors[0].severity, ErrorSeverity::Hint));
    assert!(errors[0].message.contains("unknown command"));
}

#[test]
fn known_command_passes_silently() {
    let ast = ast_with_gitref();
    let ctx = ValidationContext {
        known_commands: Some(["git"].into_iter().collect()),
        ..Default::default()
    };
    assert!(validate(&ast, &ctx).is_empty());
}

#[test]
fn missing_git_ref_errors() {
    let ast = ast_with_gitref();
    let ctx = ValidationContext {
        known_refs: Some(["develop", "master"].into_iter().collect()),
        ..Default::default()
    };
    let errors = validate(&ast, &ctx);
    assert_eq!(errors.len(), 1);
    assert!(matches!(errors[0].severity, ErrorSeverity::Error));
    assert!(errors[0].message.contains("no ref"));
}

#[test]
fn present_git_ref_passes() {
    let ast = ast_with_gitref();
    let ctx = ValidationContext {
        known_refs: Some(["main", "develop"].into_iter().collect()),
        ..Default::default()
    };
    assert!(validate(&ast, &ctx).is_empty());
}

#[test]
fn nonexistent_required_path_errors() {
    let ast = ast_with_path(true);
    let ctx = ValidationContext {
        existing_paths: Some(Vec::new()),
        ..Default::default()
    };
    let errors = validate(&ast, &ctx);
    assert_eq!(errors.len(), 1);
    assert!(errors[0].message.contains("does not exist"));
}

#[test]
fn path_without_must_exist_never_errors() {
    let ast = ast_with_path(false);
    let ctx = ValidationContext {
        existing_paths: Some(Vec::new()),
        ..Default::default()
    };
    assert!(validate(&ast, &ctx).is_empty());
}

#[test]
fn enum_variant_outside_set_errors() {
    let ast = CommandAst::from_element(PipelineElement {
        command: Some(CommandNode {
            name: "git".into(),
            range: Range::new(0, 3),
        }),
        positionals: vec![PositionalNode {
            value: "xaml".into(),
            kind: ArgKind::Enum(vec!["json", "yaml", "toml"]),
            range: Range::new(4, 8),
        }],
        ..PipelineElement::empty()
    });
    let errors = validate(&ast, &ValidationContext::default());
    assert_eq!(errors.len(), 1);
    assert!(errors[0].message.contains("not one of"));
}

#[test]
fn enum_variant_inside_set_passes() {
    let ast = CommandAst::from_element(PipelineElement {
        command: Some(CommandNode {
            name: "git".into(),
            range: Range::new(0, 3),
        }),
        positionals: vec![PositionalNode {
            value: "yaml".into(),
            kind: ArgKind::Enum(vec!["json", "yaml", "toml"]),
            range: Range::new(4, 8),
        }],
        ..PipelineElement::empty()
    });
    assert!(validate(&ast, &ValidationContext::default()).is_empty());
}

#[test]
fn pipeline_validates_each_stage_independently() {
    // Stage 1: `ls` (known). Stage 2: `bogus` (unknown). Only the
    // second should produce an error.
    let ast = CommandAst {
        elements: vec![
            PipelineElement {
                command: Some(CommandNode {
                    name: "ls".into(),
                    range: Range::new(0, 2),
                }),
                ..PipelineElement::empty()
            },
            PipelineElement {
                separator: Some(Separator {
                    kind: SeparatorKind::Pipe,
                    range: Range::new(3, 4),
                }),
                command: Some(CommandNode {
                    name: "bogus".into(),
                    range: Range::new(5, 10),
                }),
                ..PipelineElement::empty()
            },
        ],
        errors: Vec::new(),
    };
    let ctx = ValidationContext {
        known_commands: Some(["ls", "grep", "wc"].into_iter().collect()),
        ..Default::default()
    };
    let errors = validate(&ast, &ctx);
    assert_eq!(errors.len(), 1);
    assert!(errors[0].message.contains("bogus"));
}

#[test]
fn apply_validation_replaces_prior_errors() {
    let mut ast = ast_with_gitref();
    ast.errors.push(AstError {
        range: Range::new(0, 1),
        message: "stale".into(),
        severity: ErrorSeverity::Warning,
    });
    let new = vec![AstError {
        range: Range::new(13, 17),
        message: "no ref named `main`".into(),
        severity: ErrorSeverity::Error,
    }];
    let count = apply_validation(&mut ast, new);
    assert_eq!(count, 1);
    assert_eq!(ast.errors.len(), 1);
    assert!(matches!(ast.errors[0].severity, ErrorSeverity::Error));
}

#[test]
fn missing_context_skips_checks_gracefully() {
    // With no context at all, even a clearly wrong ref doesn't
    // produce an error — we refuse to lie.
    let ast = ast_with_gitref();
    let errors = validate(&ast, &ValidationContext::default());
    assert!(errors.is_empty());
}

#[test]
fn error_range_matches_offending_token() {
    let ast = ast_with_gitref();
    let ctx = ValidationContext {
        known_refs: Some(Vec::new()),
        ..Default::default()
    };
    let errors = validate(&ast, &ctx);
    assert_eq!(errors[0].range, Range::new(13, 17));
}

#[test]
fn is_error_helper_matches_only_error_severity() {
    let err = AstError {
        range: Range::new(0, 0),
        message: String::new(),
        severity: ErrorSeverity::Error,
    };
    let warn = AstError {
        range: Range::new(0, 0),
        message: String::new(),
        severity: ErrorSeverity::Warning,
    };
    assert!(is_error(&err));
    assert!(!is_error(&warn));
}
