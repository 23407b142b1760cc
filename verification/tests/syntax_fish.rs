use carrot::ast::{CommandAst, PipelineElement, SeparatorKind};
use carrot::syntax::fish::parse_fish;
use carrot::syntax::tree::{ast_from_syntax, Grammar, SyntaxNode};

fn first(ast: &CommandAst) -> &PipelineElement {
    ast.first().expect("first pipeline element")
}

#[test]
fn fish_empty_input_yields_empty_ast() {
    let ast = parse_fish("");
    assert!(!ast.has_command());
}

#[test]
fn fish_simple_command_parses() {
    let ast = parse_fish("ls");
    assert_eq!(first(&ast).command.as_ref().unwrap().name, "ls");
}

#[test]
fn fish_command_with_subcommand_parses() {
    let ast = parse_fish("git checkout main");
    let el = first(&ast);
    assert_eq!(el.command.as_ref().unwrap().name, "git");
    let sub = el.subcommand.as_ref().map(|s| s.name.as_str());
    assert_eq!(sub, Some("checkout"));
    assert!(el.positionals.iter().any(|p| p.value == "main"));
}

#[test]
fn fish_short_and_long_flags_classified() {
    let ast = parse_fish("ls -la --color=auto");
    let el = first(&ast);
    assert!(el.flags.iter().any(|f| f.name == "la" && !f.is_long));
    assert!(el
        .flags
        .iter()
        .any(|f| f.name == "color" && f.is_long && f.value.as_deref() == Some("auto")));
}

#[test]
fn string_argument_unquoted() {
    let ast = parse_fish("open 'notes.md'");
    let el = first(&ast);
    assert_eq!(el.command.as_ref().unwrap().name, "open");
    let values: Vec<&str> = el
        .subcommand
        .iter()
        .map(|s| s.name.as_str())
        .chain(el.positionals.iter().map(|p| p.value.as_str()))
        .collect();
    assert!(values.contains(&"notes.md"));
}

#[test]
fn fish_malformed_input_falls_back_to_simple_parser() {
    let ast = parse_fish("echo \"unterminated");
    assert!(ast.has_command());
}

#[test]
fn fish_pipeline_splits_stages() {
    let ast = parse_fish("ls | grep foo");
    assert_eq!(ast.stage_count(), 2);
    let names: Vec<&str> = ast
        .elements
        .iter()
        .map(|e| e.command.as_ref().unwrap().name.as_str())
        .collect();
    assert_eq!(names, vec!["ls", "grep"]);
    assert_eq!(ast.elements[1].separator.map(|s| s.kind), Some(SeparatorKind::Pipe));
}

#[test]
fn fish_three_stage_pipeline_preserves_order() {
    let input = "cat log | grep error | wc -l";
    let ast = parse_fish(input);
    assert_eq!(ast.stage_count(), 3);
    let names: Vec<&str> = ast
        .elements
        .iter()
        .map(|e| e.command.as_ref().unwrap().name.as_str())
        .collect();
    assert_eq!(names, vec!["cat", "grep", "wc"]);
}

fn node(kind: &str, field: Option<&str>, start: usize, end: usize, depth: usize) -> SyntaxNode {
    SyntaxNode {
        kind: kind.to_string(),
        field: field.map(|f| f.to_string()),
        start,
        end,
        depth,
        is_error: false,
        is_named: true,
    }
}

#[test]
fn nested_pipes_flatten_left_to_right() {
    // program > pipe > (pipe > command "a", "|", command "b"), "|", command "c"
    let input = "a | b | c";
    let nodes = vec![
        node("program", None, 0, 9, 0),
        node("pipe", None, 0, 9, 1),
        node("pipe", None, 0, 5, 2),
        node("command", None, 0, 1, 3),
        node("word", Some("name"), 0, 1, 4),
        node("|", None, 2, 3, 3),
        node("command", None, 4, 5, 3),
        node("word", Some("name"), 4, 5, 4),
        node("|", None, 6, 7, 2),
        node("command", None, 8, 9, 2),
        node("word", Some("name"), 8, 9, 3),
    ];
    let ast = ast_from_syntax(Grammar::Fish, input, Some(nodes));
    let names: Vec<&str> = ast
        .elements
        .iter()
        .map(|e| e.command.as_ref().unwrap().name.as_str())
        .collect();
    assert_eq!(names, vec!["a", "b", "c"]);
    assert!(ast.elements[0].separator.is_none());
    assert_eq!(ast.elements[1].separator.unwrap().range.start, 2);
    assert_eq!(ast.elements[2].separator.unwrap().range.start, 6);
}

#[test]
fn fish_strips_quotes_and_keeps_lone_dash_positional() {
    let input = "echo \"hi\" -";
    let nodes = vec![
        node("program", None, 0, 11, 0),
        node("command", None, 0, 11, 1),
        node("word", Some("name"), 0, 4, 2),
        node("double_quote_string", Some("argument"), 5, 9, 2),
        node("word", Some("argument"), 10, 11, 2),
    ];
    let ast = ast_from_syntax(Grammar::Fish, input, Some(nodes));
    let el = &ast.elements[0];
    assert_eq!(el.subcommand.as_ref().unwrap().name, "hi");
    assert_eq!(el.positionals.len(), 1);
    assert_eq!(el.positionals[0].value, "-");
    assert!(el.flags.is_empty());
}
