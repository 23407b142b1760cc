use carrot::ast::SeparatorKind;
use carrot::syntax::nu::ast_from_nu_syntax;
use carrot::syntax::tree::SyntaxNode;

fn node(kind: &str, field: Option<&str>, start: usize, end: usize, depth: usize, named: bool) -> SyntaxNode {
    SyntaxNode {
        kind: kind.to_string(),
        field: field.map(|f| f.to_string()),
        start,
        end,
        depth,
        is_error: false,
        is_named: named,
    }
}

#[test]
fn nu_empty_input_yields_empty_ast() {
    let ast = ast_from_nu_syntax("  ", None);
    assert!(!ast.has_command());
}

#[test]
fn nu_command_with_flags_and_quoted_value() {
    // ls --long -a "notes.md"
    let input = "ls --long -a \"notes.md\"";
    let nodes = vec![
        node("nu_script", None, 0, 23, 0, true),
        node("pipeline", None, 0, 23, 1, true),
        node("pipe_element", None, 0, 23, 2, true),
        node("command", None, 0, 23, 3, true),
        node("cmd_identifier", Some("head"), 0, 2, 4, true),
        node("long_flag", None, 3, 9, 4, true),
        node("long_flag_identifier", Some("name"), 5, 9, 5, true),
        node("short_flag", None, 10, 12, 4, true),
        node("short_flag_identifier", Some("name"), 11, 12, 5, true),
        node("val_string", Some("arg"), 13, 23, 4, true),
    ];
    let ast = ast_from_nu_syntax(input, Some(nodes));
    assert_eq!(ast.elements.len(), 1);
    let el = &ast.elements[0];
    assert_eq!(el.command.as_ref().unwrap().name, "ls");
    assert!(el.flags.iter().any(|f| f.name == "long" && f.is_long));
    assert!(el.flags.iter().any(|f| f.name == "a" && !f.is_long));
    assert_eq!(el.subcommand.as_ref().unwrap().name, "notes.md");
}

#[test]
fn nu_pipeline_splits_stages() {
    // ls | first
    let input = "ls | first";
    let nodes = vec![
        node("nu_script", None, 0, 10, 0, true),
        node("pipeline", None, 0, 10, 1, true),
        node("pipe_element", None, 0, 2, 2, true),
        node("command", None, 0, 2, 3, true),
        node("cmd_identifier", Some("head"), 0, 2, 4, true),
        node("|", None, 3, 4, 2, false),
        node("pipe_element", None, 5, 10, 2, true),
        node("command", None, 5, 10, 3, true),
        node("cmd_identifier", Some("head"), 5, 10, 4, true),
    ];
    let ast = ast_from_nu_syntax(input, Some(nodes));
    assert_eq!(ast.stage_count(), 2);
    assert_eq!(ast.elements[1].command.as_ref().unwrap().name, "first");
    assert_eq!(ast.elements[1].separator.map(|s| s.kind), Some(SeparatorKind::Pipe));
    assert!(ast.elements[0].separator.is_none());
}

#[test]
fn nu_caret_marker_is_skipped_for_its_identifier() {
    // ^git status
    let input = "^git status";
    let nodes = vec![
        node("nu_script", None, 0, 11, 0, true),
        node("command", None, 0, 11, 1, true),
        node("head", Some("head"), 0, 4, 2, false),
        node("^", None, 0, 1, 3, false),
        node("cmd_identifier", None, 1, 4, 3, true),
        node("val_string", Some("arg"), 5, 11, 2, true),
    ];
    let ast = ast_from_nu_syntax(input, Some(nodes));
    let el = &ast.elements[0];
    assert_eq!(el.command.as_ref().unwrap().name, "git");
    assert_eq!(el.subcommand.as_ref().unwrap().name, "status");
}

#[test]
fn nu_malformed_input_falls_back_to_simple_parser() {
    let input = "echo \"unterminated";
    let mut bad = node("ERROR", None, 5, 18, 1, true);
    bad.is_error = true;
    let nodes = vec![node("nu_script", None, 0, 18, 0, true), bad];
    let ast = ast_from_nu_syntax(input, Some(nodes));
    assert!(ast.has_command());
}
