use carrot::ast::{ArgKind, CommandAst, GitScope, PathKind, PositionalNode};
use carrot::parse::parse_simple;
use carrot::schema_typing::{
    apply_specs, arg_template_to_kind, type_positionals, ArgTemplate, CliArg, CliSpec,
};

fn arg(name: &str, template: Option<ArgTemplate>, is_variadic: bool) -> CliArg {
    CliArg { name: name.into(), description: None, template, is_optional: false, is_variadic }
}

fn spec_with_git_ref_arg() -> CliSpec {
    CliSpec {
        name: "git".into(),
        aliases: vec![],
        description: None,
        subcommands: vec![CliSpec {
            name: "checkout".into(),
            aliases: vec![],
            description: None,
            subcommands: vec![],
            options: vec![],
            args: vec![arg("branch", Some(ArgTemplate::GitBranches), false)],
        }],
        options: vec![],
        args: vec![],
    }
}

fn spec_with_path_arg() -> CliSpec {
    CliSpec {
        name: "cat".into(),
        aliases: vec![],
        description: None,
        subcommands: vec![],
        options: vec![],
        args: vec![arg("file", Some(ArgTemplate::Filepaths), true)],
    }
}

fn positionals(ast: &CommandAst) -> Vec<&PositionalNode> {
    ast.elements.iter().flat_map(|e| e.positionals.iter()).collect()
}

#[test]
fn template_maps_to_git_branch() {
    let kind = arg_template_to_kind(&ArgTemplate::GitBranches);
    assert!(matches!(kind, ArgKind::GitRef { scope: GitScope::Branch }));
}

#[test]
fn template_maps_to_path_variants() {
    let any = arg_template_to_kind(&ArgTemplate::Filepaths);
    let dir = arg_template_to_kind(&ArgTemplate::Folders);
    let file = arg_template_to_kind(&ArgTemplate::GitFiles);
    assert!(matches!(any, ArgKind::Path { kind: PathKind::Any, .. }));
    assert!(matches!(dir, ArgKind::Path { kind: PathKind::Directory, .. }));
    assert!(matches!(file, ArgKind::Path { kind: PathKind::File, must_exist: true }));
}

#[test]
fn template_maps_env_vars_and_process_ids() {
    assert!(matches!(arg_template_to_kind(&ArgTemplate::EnvVars), ArgKind::EnvVar));
    assert!(matches!(arg_template_to_kind(&ArgTemplate::ProcessIds), ArgKind::ProcessId));
}

#[test]
fn type_positionals_types_git_checkout_branch() {
    let spec = spec_with_git_ref_arg();
    let mut ast = parse_simple("git checkout main");
    type_positionals(&mut ast, &spec);
    let ps = positionals(&ast);
    assert!(matches!(ps[0].kind, ArgKind::GitRef { scope: GitScope::Branch }));
}

#[test]
fn type_positionals_variadic_reuses_last_spec_entry() {
    let spec = spec_with_path_arg();
    let mut ast = parse_simple("cat /etc/hosts /etc/passwd /etc/shadow");
    type_positionals(&mut ast, &spec);
    for p in positionals(&ast) {
        assert!(matches!(p.kind, ArgKind::Path { .. }));
    }
}

#[test]
fn type_positionals_noop_when_no_spec_args() {
    let spec = CliSpec {
        name: "ls".into(),
        aliases: vec![],
        description: None,
        subcommands: vec![],
        options: vec![],
        args: vec![],
    };
    let mut ast = parse_simple("ls foo bar");
    type_positionals(&mut ast, &spec);
    let ps = positionals(&ast);
    assert!(!ps.is_empty());
    for p in ps {
        assert!(matches!(p.kind, ArgKind::Unknown));
    }
}

fn spec_map() -> Vec<(String, CliSpec)> {
    vec![("git".to_string(), spec_with_git_ref_arg()), ("cat".to_string(), spec_with_path_arg())]
}

#[test]
fn apply_specs_dispatches_by_command_name() {
    let map = spec_map();
    let mut git_ast = parse_simple("git checkout main");
    apply_specs(&mut git_ast, &map);
    assert!(matches!(positionals(&git_ast)[0].kind, ArgKind::GitRef { .. }));

    let mut cat_ast = parse_simple("cat a b c");
    apply_specs(&mut cat_ast, &map);
    let ps = positionals(&cat_ast);
    assert!(!ps.is_empty());
    for p in ps {
        assert!(matches!(p.kind, ArgKind::Path { .. }));
    }
}

#[test]
fn apply_specs_leaves_unknown_command_unchanged() {
    let map = vec![("git".to_string(), spec_with_git_ref_arg())];
    let mut ast = parse_simple("unknowncmd foo bar");
    apply_specs(&mut ast, &map);
    for p in positionals(&ast) {
        assert!(matches!(p.kind, ArgKind::Unknown));
    }
}

#[test]
fn apply_specs_types_each_pipeline_stage_independently() {
    let map = spec_map();
    let mut ast = parse_simple("git checkout main | cat /etc/hosts");
    apply_specs(&mut ast, &map);
    assert_eq!(ast.stage_count(), 2);
    let git_stage = &ast.elements[0];
    assert!(matches!(git_stage.positionals[0].kind, ArgKind::GitRef { .. }));
    let cat_stage = &ast.elements[1];
    let has_path = cat_stage.positionals.iter().any(|p| matches!(p.kind, ArgKind::Path { .. }));
    assert!(has_path || cat_stage.subcommand.is_some());
}

#[test]
fn custom_template_falls_back_to_literal() {
    let variants = vec!["json".into(), "yaml".into()];
    let kind = arg_template_to_kind(&ArgTemplate::Custom(variants));
    assert!(matches!(kind, ArgKind::Literal));
}

#[test]
fn subcommand_found_by_alias() {
    let mut spec = spec_with_git_ref_arg();
    spec.subcommands[0].aliases.push("co".to_string());
    assert_eq!(spec.find_subcommand("co").unwrap().name, "checkout");
    assert!(spec.find_subcommand("push").is_none());
    let mut ast = parse_simple("git co main");
    type_positionals(&mut ast, &spec);
    assert!(matches!(ast.elements[0].positionals[0].kind, ArgKind::GitRef { .. }));
}

#[test]
fn template_less_slot_keeps_kind() {
    let spec = CliSpec {
        name: "run".into(),
        aliases: vec![],
        description: None,
        subcommands: vec![],
        options: vec![],
        args: vec![arg("what", None, false), arg("where", Some(ArgTemplate::Folders), false)],
    };
    let mut ast = parse_simple("run job x y z");
    type_positionals(&mut ast, &spec);
    let ps = &ast.elements[0].positionals;
    assert_eq!(ps.len(), 3);
    assert!(matches!(ps[0].kind, ArgKind::Unknown));
    assert!(matches!(ps[1].kind, ArgKind::Path { kind: PathKind::Directory, .. }));
    assert!(matches!(ps[2].kind, ArgKind::Path { kind: PathKind::Directory, .. }));
}
