use carrot::ast::{CommandAst, PipelineElement, SeparatorKind};
use carrot::syntax::bash::parse_bash;
use carrot::syntax::tree::{ast_from_syntax, Grammar, SyntaxNode};

fn first(ast: &CommandAst) -> &PipelineElement {
    ast.first().expect("first pipeline element")
}

#[test]
fn bash_empty_input_yields_empty_ast() {
    let ast = parse_bash("");
    assert!(!ast.has_command());
}

#[test]
fn bash_simple_command_parses() {
    let ast = parse_bash("ls");
    assert_eq!(first(&ast).command.as_ref().unwrap().name, "ls");
}

#[test]
fn bash_command_with_subcommand_parses() {
    let ast = parse_bash("git checkout main");
    let el = first(&ast);
    assert_eq!(el.command.as_ref().unwrap().name, "git");
    assert_eq!(el.subcommand.as_ref().map(|s| s.name.as_str()), Some("checkout"));
    assert_eq!(el.positionals.len(), 1);
    assert_eq!(el.positionals[0].value, "main");
}

#[test]
fn bash_short_and_long_flags_classified() {
    let ast = parse_bash("ls -la --color=auto");
    let el = first(&ast);
    assert!(el.flags.iter().any(|f| f.name == "la" && !f.is_long));
    assert!(el
        .flags
        .iter()
        .any(|f| f.name == "color" && f.is_long && f.value.as_deref() == Some("auto")));
}

#[test]
fn bash_malformed_input_falls_back_to_simple_parser() {
    let ast = parse_bash("echo \"unterminated");
    assert!(ast.has_command());
}

#[test]
fn byte_ranges_slice_back_to_tokens() {
    let input = "git push origin";
    let ast = parse_bash(input);
    let el = first(&ast);
    let cmd = el.command.as_ref().unwrap();
    assert_eq!(&input[cmd.range.start..cmd.range.end], "git");
    let sub = el.subcommand.as_ref().unwrap();
    assert_eq!(&input[sub.range.start..sub.range.end], "push");
    let positional = &el.positionals[0];
    assert_eq!(&input[positional.range.start..positional.range.end], "origin");
}

#[test]
fn bash_pipeline_splits_stages() {
    let input = "ls -la | grep foo";
    let ast = parse_bash(input);
    assert_eq!(ast.stage_count(), 2);
    let first = &ast.elements[0];
    assert_eq!(first.command.as_ref().unwrap().name, "ls");
    assert!(first.separator.is_none());
    let second = &ast.elements[1];
    assert_eq!(second.command.as_ref().unwrap().name, "grep");
    let sep = second.separator.expect("pipe");
    assert_eq!(sep.kind, SeparatorKind::Pipe);
    assert_eq!(&input[sep.range.start..sep.range.end], "|");
}

#[test]
fn three_stage_pipeline_preserves_names() {
    let input = "cat file.log | grep error | wc -l";
    let ast = parse_bash(input);
    assert_eq!(ast.stage_count(), 3);
    let names: Vec<&str> = ast
        .elements
        .iter()
        .map(|e| e.command.as_ref().unwrap().name.as_str())
        .collect();
    assert_eq!(names, vec!["cat", "grep", "wc"]);
}

fn node(kind: &str, field: Option<&str>, start: usize, end: usize, depth: usize) -> SyntaxNode {
    SyntaxNode {
        kind: kind.to_string(),
        field: field.map(|f| f.to_string()),
        start,
        end,
        depth,
        is_error: false,
        is_named: true,
    }
}

#[test]
fn hand_built_tree_walks_into_element() {
    // program > command > (command_name > word) word word
    let input = "git -v main";
    let nodes = vec![
        node("program", None, 0, 11, 0),
        node("command", None, 0, 11, 1),
        node("command_name", Some("name"), 0, 3, 2),
        node("word", None, 0, 3, 3),
        node("word", Some("argument"), 4, 6, 2),
        node("word", Some("argument"), 7, 11, 2),
    ];
    let ast = ast_from_syntax(Grammar::Bash, input, Some(nodes));
    assert_eq!(ast.elements.len(), 1);
    let el = &ast.elements[0];
    assert_eq!(el.command.as_ref().unwrap().name, "git");
    assert_eq!(el.flags.len(), 1);
    assert_eq!(el.flags[0].name, "v");
    assert_eq!(el.subcommand.as_ref().unwrap().name, "main");
    assert!(el.positionals.is_empty());
}

#[test]
fn error_node_sends_line_to_fallback() {
    let input = "git status";
    let mut bad = node("ERROR", None, 0, 10, 1);
    bad.is_error = true;
    let nodes = vec![node("program", None, 0, 10, 0), bad];
    let ast = ast_from_syntax(Grammar::Bash, input, Some(nodes));
    assert_eq!(ast.elements[0].command.as_ref().unwrap().name, "git");
    assert_eq!(ast.elements[0].subcommand.as_ref().unwrap().name, "status");
}

#[test]
fn out_of_range_nodes_send_line_to_fallback() {
    let input = "ls";
    let nodes = vec![node("program", None, 0, 40, 0)];
    let ast = ast_from_syntax(Grammar::Bash, input, Some(nodes));
    assert_eq!(ast.elements[0].command.as_ref().unwrap().name, "ls");
}

#[test]
fn tree_without_command_falls_back() {
    let ast = ast_from_syntax(Grammar::Bash, "ls", Some(vec![node("program", None, 0, 2, 0)]));
    assert_eq!(ast.elements[0].command.as_ref().unwrap().name, "ls");
    let none = ast_from_syntax(Grammar::Bash, "ls", None);
    assert_eq!(none.elements.len(), 1);
}
