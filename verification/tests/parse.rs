use carrot::ast::{ArgKind, CommandAst, PipelineElement, Range, SeparatorKind};
use carrot::parse::parse_simple;
fn first(ast: &CommandAst) -> &PipelineElement {
    ast.first().expect("first pipeline element")
}

#[test]
fn parse_empty_input_yields_empty_ast() {
    let ast = parse_simple("");
    assert!(!ast.has_command());
    assert!(ast.elements.is_empty());
}

#[test]
fn whitespace_only_yields_empty_ast() {
    let ast = parse_simple("   \t  ");
    assert!(!ast.has_command());
}

#[test]
fn simple_command_extracts_name_and_range() {
    let ast = parse_simple("ls");
    let cmd = first(&ast).command.as_ref().unwrap();
    assert_eq!(cmd.name, "ls");
    assert_eq!(cmd.range, Range::new(0, 2));
}

#[test]
fn command_plus_subcommand() {
    let ast = parse_simple("git checkout");
    let el = first(&ast);
    assert_eq!(el.command.as_ref().unwrap().name, "git");
    let sub = el.subcommand.as_ref().unwrap();
    assert_eq!(sub.name, "checkout");
    assert_eq!(sub.depth, 0);
    assert_eq!(sub.range, Range::new(4, 12));
}

#[test]
fn long_and_short_flags_classified() {
    let ast = parse_simple("ls -la --color=auto");
    let el = first(&ast);
    assert_eq!(el.flags.len(), 2);
    let la = &el.flags[0];
    assert_eq!(la.name, "la");
    assert!(!la.is_long);
    assert_eq!(la.value, None);

    let color = &el.flags[1];
    assert_eq!(color.name, "color");
    assert!(color.is_long);
    assert_eq!(color.value.as_deref(), Some("auto"));
}

#[test]
fn positional_follows_subcommand() {
    let ast = parse_simple("git checkout main");
    let el = first(&ast);
    assert_eq!(el.positionals.len(), 1);
    let p = &el.positionals[0];
    assert_eq!(p.value, "main");
    assert!(matches!(p.kind, ArgKind::Unknown));
    assert_eq!(p.range, Range::new(13, 17));
}

#[test]
fn quoted_string_kept_as_single_token() {
    let ast = parse_simple(r#"echo "hello world""#);
    let el = first(&ast);
    let quoted = el
        .subcommand
        .as_ref()
        .map(|s| s.name.as_str())
        .or_else(|| el.positionals.first().map(|p| p.value.as_str()))
        .unwrap();
    assert_eq!(quoted, "\"hello world\"");
}

#[test]
fn single_quoted_strings_are_preserved() {
    let ast = parse_simple("echo 'it works'");
    let el = first(&ast);
    let text = el
        .subcommand
        .as_ref()
        .map(|s| s.name.as_str())
        .or_else(|| el.positionals.first().map(|p| p.value.as_str()))
        .unwrap();
    assert_eq!(text, "'it works'");
}

#[test]
fn ranges_cover_each_token_exactly() {
    let input = "git  push    origin";
    let ast = parse_simple(input);
    let el = first(&ast);
    let cmd = el.command.as_ref().unwrap();
    assert_eq!(&input[cmd.range.start..cmd.range.end], "git");
    let sub = el.subcommand.as_ref().unwrap();
    assert_eq!(&input[sub.range.start..sub.range.end], "push");
    let positional = &el.positionals[0];
    assert_eq!(
        &input[positional.range.start..positional.range.end],
        "origin"
    );
}

#[test]
fn lone_dash_is_not_a_flag() {
    let ast = parse_simple("cat -");
    let el = first(&ast);
    assert!(el.flags.is_empty());
    let sub = el.subcommand.as_ref().unwrap();
    assert_eq!(sub.name, "-");
}

#[test]
fn depth_reports_subcommand_chain_length() {
    assert_eq!(parse_simple("").depth(), 0);
    assert_eq!(parse_simple("ls").depth(), 0);
    assert_eq!(parse_simple("git push").depth(), 1);
}

#[test]
fn positional_at_finds_the_right_node() {
    let ast = parse_simple("git checkout main");
    let at = ast.positional_at(14).unwrap();
    assert_eq!(at.value, "main");
}

#[test]
fn pipe_splits_into_two_elements() {
    let input = "ls | grep foo";
    let ast = parse_simple(input);
    assert_eq!(ast.stage_count(), 2);
    assert!(ast.has_pipeline());
    let first = &ast.elements[0];
    assert_eq!(first.command.as_ref().unwrap().name, "ls");
    assert!(first.separator.is_none());
    let second = &ast.elements[1];
    let sep = second.separator.expect("pipe separator");
    assert_eq!(sep.kind, SeparatorKind::Pipe);
    assert_eq!(&input[sep.range.start..sep.range.end], "|");
    assert_eq!(second.command.as_ref().unwrap().name, "grep");
}

#[test]
fn parse_three_stage_pipeline_preserves_order() {
    let input = "ls | where size > 1mb | select name";
    let ast = parse_simple(input);
    assert_eq!(ast.stage_count(), 3);
    let names: Vec<&str> = ast
        .elements
        .iter()
        .map(|e| e.command.as_ref().unwrap().name.as_str())
        .collect();
    assert_eq!(names, vec!["ls", "where", "select"]);
}

#[test]
fn double_pipe_is_not_two_pipes() {
    // `||` is a logical OR — the fallback keeps it as one token
    // and doesn't split the element.
    let ast = parse_simple("cmd1 || cmd2");
    assert_eq!(ast.stage_count(), 1);
}

#[test]
fn positional_at_searches_across_stages() {
    // Stage 2's `grep foo bar`: `foo` becomes subcommand, `bar`
    // lands as a positional. positional_at reaches across stages.
    let input = "ls | grep foo bar";
    let ast = parse_simple(input);
    let bar = ast.positional_at(14).expect("positional over stage 2");
    assert_eq!(bar.value, "bar");
}
