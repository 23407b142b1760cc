use std::collections::HashSet;
use carrot::ast::{ArgKind, AstError, CommandAst, CommandNode, ErrorSeverity, GitScope, PathKind, PipelineElement, PositionalNode, Range, Separator, SeparatorKind, SubcommandNode};
#[test]
fn empty_ast_has_no_command() {
    let ast = CommandAst::empty();
    assert!(!ast.has_command());
    assert!(!ast.has_blocking_error());
    assert_eq!(ast.depth(), 0);
}

#[test]
fn range_helpers() {
    let r = Range::new(3, 7);
    assert_eq!(r.len(), 4);
    assert!(!r.is_empty());
    assert!(r.contains(3));
    assert!(r.contains(6));
    assert!(!r.contains(7)); // half-open
    assert!(!r.contains(2));
}

#[test]
fn empty_range_is_empty() {
    let r = Range::new(5, 5);
    assert!(r.is_empty());
    assert_eq!(r.len(), 0);
}

#[test]
fn blocking_error_detected() {
    let mut ast = CommandAst::empty();
    ast.errors.push(AstError {
        range: Range::new(0, 3),
        message: "oh no".into(),
        severity: ErrorSeverity::Warning,
    });
    assert!(!ast.has_blocking_error());
    ast.errors.push(AstError {
        range: Range::new(5, 8),
        message: "stop".into(),
        severity: ErrorSeverity::Error,
    });
    assert!(ast.has_blocking_error());
}

#[test]
fn positional_at_finds_covering_range() {
    let ast = CommandAst::from_element(PipelineElement {
        positionals: vec![
            PositionalNode {
                value: "main".into(),
                kind: ArgKind::GitRef {
                    scope: GitScope::Branch,
                },
                range: Range::new(13, 17),
            },
            PositionalNode {
                value: "--force".into(),
                kind: ArgKind::Literal,
                range: Range::new(18, 25),
            },
        ],
        ..PipelineElement::empty()
    });
    let at_14 = ast.positional_at(14).expect("cover 14");
    assert_eq!(at_14.value, "main");
    assert!(ast.positional_at(100).is_none());
}

#[test]
fn depth_counts_subcommand_chain() {
    let ast = CommandAst::from_element(PipelineElement {
        command: Some(CommandNode {
            name: "aws".into(),
            range: Range::new(0, 3),
        }),
        subcommand: Some(SubcommandNode {
            name: "ls".into(),
            depth: 1,
            range: Range::new(7, 9),
        }),
        ..PipelineElement::empty()
    });
    assert_eq!(ast.depth(), 2);
    assert!(ast.has_command());
}

#[test]
fn pipeline_elements_round_trip() {
    let ast = CommandAst {
        elements: vec![
            PipelineElement {
                command: Some(CommandNode {
                    name: "ls".into(),
                    range: Range::new(0, 2),
                }),
                ..PipelineElement::empty()
            },
            PipelineElement {
                separator: Some(Separator {
                    kind: SeparatorKind::Pipe,
                    range: Range::new(3, 4),
                }),
                command: Some(CommandNode {
                    name: "grep".into(),
                    range: Range::new(5, 9),
                }),
                positionals: vec![PositionalNode {
                    value: "foo".into(),
                    kind: ArgKind::Unknown,
                    range: Range::new(10, 13),
                }],
                ..PipelineElement::empty()
            },
        ],
        errors: Vec::new(),
    };
    assert_eq!(ast.stage_count(), 2);
    assert!(ast.has_pipeline());
    assert_eq!(
        ast.first()
            .map(|e| e.command.as_ref().unwrap().name.as_str()),
        Some("ls")
    );
    let second = &ast.elements[1];
    assert_eq!(second.separator.map(|s| s.kind), Some(SeparatorKind::Pipe));
    let at_11 = ast.positional_at(11).expect("cover 11");
    assert_eq!(at_11.value, "foo");
    let active_stage = ast.element_at(11).expect("stage 2 covers 11");
    assert_eq!(active_stage.command.as_ref().unwrap().name, "grep");
}

#[test]
fn arg_kind_variants_are_hash_compatible() {
    let mut set: HashSet<ArgKind> = HashSet::new();
    set.insert(ArgKind::Url);
    set.insert(ArgKind::Url);
    set.insert(ArgKind::GitRef {
        scope: GitScope::Branch,
    });
    set.insert(ArgKind::Path {
        must_exist: true,
        kind: PathKind::File,
    });
    // Url deduplicates, GitRef + Path are distinct.
    assert_eq!(set.len(), 3);
}

#[test]
fn is_complete_rejects_empty_input() {
    assert!(!CommandAst::empty().is_complete());
}

#[test]
fn is_complete_accepts_single_command() {
    let ast = CommandAst::from_element(PipelineElement {
        command: Some(CommandNode {
            name: "ls".into(),
            range: Range::new(0, 2),
        }),
        ..PipelineElement::empty()
    });
    assert!(ast.is_complete());
}

#[test]
fn is_complete_rejects_dangling_pipe() {
    // `ls |` — first stage has a command, second is a bare pipe
    // element with no command yet.
    let ast = CommandAst {
        elements: vec![
            PipelineElement {
                command: Some(CommandNode {
                    name: "ls".into(),
                    range: Range::new(0, 2),
                }),
                ..PipelineElement::empty()
            },
            PipelineElement {
                separator: Some(Separator {
                    kind: SeparatorKind::Pipe,
                    range: Range::new(3, 4),
                }),
                ..PipelineElement::empty()
            },
        ],
        errors: Vec::new(),
    };
    assert!(!ast.is_complete());
}

#[test]
fn is_complete_rejects_blocking_errors() {
    let mut ast = CommandAst::from_element(PipelineElement {
        command: Some(CommandNode {
            name: "ls".into(),
            range: Range::new(0, 2),
        }),
        ..PipelineElement::empty()
    });
    ast.errors.push(AstError {
        range: Range::new(0, 2),
        message: "unterminated string".into(),
        severity: ErrorSeverity::Error,
    });
    assert!(!ast.is_complete());
}

#[test]
fn ast_is_cloneable() {
    let ast = CommandAst::from_element(PipelineElement {
        command: Some(CommandNode {
            name: "ls".into(),
            range: Range::new(0, 2),
        }),
        ..PipelineElement::empty()
    });
    let cloned = ast.clone();
    assert_eq!(ast, cloned);
}
