//! Semantic validation of a parsed `CommandAst` against live state.
//!
//! The caller resolves the live state (existing paths, known git refs,
//! known commands) and passes it in; the validator only reads it, so
//! it stays pure. Each pipeline stage is checked on its own:
//!
//! * an unknown command is a hint (the shell may still find it),
//! * a missing required path and an unknown git ref are errors,
//! * a positional outside its enum is an error.
//!
//! A check whose data was not supplied is skipped rather than guessed.

use vstd::prelude::*;
use crate::ast::{ArgKind, AstError, CommandAst, ErrorSeverity, PipelineElement, PositionalNode, Range};
use crate::text::{push_str, str_eq};

verus! {

/// `Path::new(a) == Path::new(b)`: the two texts name the same path
/// component by component.
pub uninterp spec fn paths_equal(a: Seq<char>, b: Seq<char>) -> bool;

/// `std::path::Path` equality (compares parsed components, so `a/b`
/// and `a//b/` are the same path).
#[verifier::external_body]
fn same_path(a: &str, b: &str) -> (r: bool)
    ensures
        r == paths_equal(a@, b@),
{
    std::path::Path::new(a) == std::path::Path::new(b)
}

/// Resolved live state the validator reads; each check is skipped
/// when its data is `None`.
#[derive(Debug, Default, Clone)]
pub struct ValidationContext<'a> {
    /// Paths that exist.
    pub existing_paths: Option<Vec<&'a str>>,
    /// Known git refs (branches, tags, remotes, short hashes).
    pub known_refs: Option<Vec<&'a str>>,
    /// Commands the schema knows.
    pub known_commands: Option<Vec<&'a str>>,
}

/// A validation finding as plain values.
pub type Finding = (Range, Seq<char>, ErrorSeverity);

pub open spec fn finding_of(e: AstError) -> Finding {
    (e.range, e.message@, e.severity)
}

pub open spec fn findings_of(es: Seq<AstError>) -> Seq<Finding> {
    es.map_values(|e: AstError| finding_of(e))
}

pub open spec fn str_views(v: Seq<&str>) -> Seq<Seq<char>> {
    v.map_values(|s: &str| s@)
}

/// `v` is `", "`-joined.
pub open spec fn joined(v: Seq<&str>) -> Seq<char>
    decreases v.len(),
{
    if v.len() == 0 {
        Seq::empty()
    } else if v.len() == 1 {
        v[0]@
    } else {
        joined(v.drop_last()) + ", "@ + v.last()@
    }
}

/// Finding for one positional, if any.
pub open spec fn positional_findings(p: PositionalNode, ctx: ValidationContext) -> Seq<Finding> {
    match p.kind {
        ArgKind::Path { must_exist, .. } => {
            if must_exist {
                match ctx.existing_paths {
                    Some(paths) => if (exists|i: int| 0 <= i < paths@.len() && paths_equal(
                        (#[trigger] paths@[i])@,
                        p.value@,
                    )) {
                        Seq::empty()
                    } else {
                        seq![(p.range, "path `"@ + p.value@ + "` does not exist"@, ErrorSeverity::Error)]
                    },
                    None => Seq::empty(),
                }
            } else {
                Seq::empty()
            }
        },
        ArgKind::GitRef { .. } => match ctx.known_refs {
            Some(refs) => if str_views(refs@).contains(p.value@) {
                Seq::empty()
            } else {
                seq![(p.range, "no ref named `"@ + p.value@ + "`"@, ErrorSeverity::Error)]
            },
            None => Seq::empty(),
        },
        ArgKind::Enum(variants) => if str_views(variants@).contains(p.value@) {
            Seq::empty()
        } else {
            seq![(p.range, "`"@ + p.value@ + "` is not one of ["@ + joined(variants@) + "]"@, ErrorSeverity::Error)]
        },
        _ => Seq::empty(),
    }
}

/// Findings for the first `n` positionals.
pub open spec fn positionals_findings(ps: Seq<PositionalNode>, ctx: ValidationContext, n: int) -> Seq<Finding>
    decreases n,
{
    if n <= 0 {
        Seq::empty()
    } else {
        positionals_findings(ps, ctx, n - 1) + positional_findings(ps[n - 1], ctx)
    }
}

/// Findings for one stage: the command hint, then its positionals.
pub open spec fn element_findings(e: PipelineElement, ctx: ValidationContext) -> Seq<Finding> {
    (match (e.command, ctx.known_commands) {
        (Some(cmd), Some(commands)) => if str_views(commands@).contains(cmd.name@) {
            Seq::empty()
        } else {
            seq![(cmd.range, "unknown command `"@ + cmd.name@ + "`"@, ErrorSeverity::Hint)]
        },
        _ => Seq::empty(),
    }) + positionals_findings(e.positionals@, ctx, e.positionals@.len() as int)
}

/// Findings for the first `n` stages.
pub open spec fn ast_findings(es: Seq<PipelineElement>, ctx: ValidationContext, n: int) -> Seq<Finding>
    decreases n,
{
    if n <= 0 {
        Seq::empty()
    } else {
        ast_findings(es, ctx, n - 1) + element_findings(es[n - 1], ctx)
    }
}

fn contains_str(set: &Vec<&str>, s: &str) -> (r: bool)
    ensures
        r == str_views(set@).contains(s@),
{
    let mut i: usize = 0;
    while i < set.len()
        invariant
            i <= set@.len(),
            forall|k: int| 0 <= k < i ==> (#[trigger] set@[k])@ != s@,
        decreases set@.len() - i,
    {
        if str_eq(set[i], s) {
            assert(str_views(set@)[i as int] == s@);
            return true;
        }
        i += 1;
    }
    proof {
        if str_views(set@).contains(s@) {
            let k = choose|k: int| 0 <= k < str_views(set@).len() && str_views(set@)[k] == s@;
            assert(set@[k]@ == s@);
        }
    }
    false
}

fn contains_path(paths: &Vec<&str>, p: &str) -> (r: bool)
    ensures
        r == exists|i: int| 0 <= i < paths@.len() && paths_equal((#[trigger] paths@[i])@, p@),
{
    let mut i: usize = 0;
    while i < paths.len()
        invariant
            i <= paths@.len(),
            forall|k: int| 0 <= k < i ==> !paths_equal((#[trigger] paths@[k])@, p@),
        decreases paths@.len() - i,
    {
        if same_path(paths[i], p) {
            return true;
        }
        i += 1;
    }
    false
}

fn push_finding(errors: &mut Vec<AstError>, range: Range, message: String, severity: ErrorSeverity)
    ensures
        findings_of(final(errors)@) == findings_of(old(errors)@).push((range, message@, severity)),
{
    errors.push(AstError { range, message, severity });
    assert(findings_of(errors@) =~= findings_of(old(errors)@).push((range, message@, severity)));
}

fn join_variants(v: &Vec<&str>) -> (r: String)
    ensures
        r@ == joined(v@),
{
    let mut out = String::new();
    let mut i: usize = 0;
    while i < v.len()
        invariant
            i <= v@.len(),
            out@ == joined(v@.take(i as int)),
        decreases v@.len() - i,
    {
        if i > 0 {
            push_str(&mut out, ", ");
        }
        push_str(&mut out, v[i]);
        proof {
            assert(v@.take(i + 1).drop_last() =~= v@.take(i as int));
            if i == 0 {
                assert(joined(v@.take(0)) =~= Seq::<char>::empty());
            }
            assert(out@ =~= joined(v@.take(i + 1)));
        }
        i += 1;
    }
    assert(v@.take(v@.len() as int) =~= v@);
    out
}

fn validate_positional(p: &PositionalNode, ctx: &ValidationContext, errors: &mut Vec<AstError>)
    ensures
        findings_of(final(errors)@) == findings_of(old(errors)@) + positional_findings(*p, *ctx),
{
    match &p.kind {
        ArgKind::Path { must_exist, .. } => {
            if *must_exist {
                if let Some(paths) = &ctx.existing_paths {
                    if !contains_path(paths, p.value.as_str()) {
                        let mut m = "path `".to_owned();
                        push_str(&mut m, p.value.as_str());
                        push_str(&mut m, "` does not exist");
                        push_finding(errors, p.range, m, ErrorSeverity::Error);
                    }
                }
            }
        },
        ArgKind::GitRef { .. } => {
            if let Some(refs) = &ctx.known_refs {
                if !contains_str(refs, p.value.as_str()) {
                    let mut m = "no ref named `".to_owned();
                    push_str(&mut m, p.value.as_str());
                    push_str(&mut m, "`");
                    push_finding(errors, p.range, m, ErrorSeverity::Error);
                }
            }
        },
        ArgKind::Enum(variants) => {
            if !contains_str(variants, p.value.as_str()) {
                let mut m = "`".to_owned();
                push_str(&mut m, p.value.as_str());
                push_str(&mut m, "` is not one of [");
                let j = join_variants(variants);
                push_str(&mut m, j.as_str());
                push_str(&mut m, "]");
                push_finding(errors, p.range, m, ErrorSeverity::Error);
            }
        },
        _ => {},
    }
    assert(findings_of(errors@) =~= findings_of(old(errors)@) + positional_findings(*p, *ctx));
}

/// Validates `ast` against `ctx`, stage by stage, returning fresh
/// findings (the AST is not changed): an unknown command is a hint; a
/// missing required path, an unknown git ref, and a value outside its
/// enum are errors. Checks without data are skipped.
pub fn validate(ast: &CommandAst, ctx: &ValidationContext) -> (errors: Vec<AstError>)
    ensures
        findings_of(errors@) == ast_findings(ast.elements@, *ctx, ast.elements@.len() as int),
{
    let mut errors: Vec<AstError> = Vec::new();
    let mut i: usize = 0;
    while i < ast.elements.len()
        invariant
            i <= ast.elements@.len(),
            findings_of(errors@) == ast_findings(ast.elements@, *ctx, i as int),
        decreases ast.elements@.len() - i,
    {
        let element = &ast.elements[i];
        let ghost before = findings_of(errors@);
        if let Some(cmd) = &element.command {
            if let Some(commands) = &ctx.known_commands {
                if !contains_str(commands, cmd.name.as_str()) {
                    let mut m = "unknown command `".to_owned();
                    push_str(&mut m, cmd.name.as_str());
                    push_str(&mut m, "`");
                    push_finding(&mut errors, cmd.range, m, ErrorSeverity::Hint);
                }
            }
        }
        let ghost head = findings_of(errors@);
        let mut k: usize = 0;
        while k < element.positionals.len()
            invariant
                k <= element.positionals@.len(),
                findings_of(errors@) == head + positionals_findings(element.positionals@, *ctx, k as int),
            decreases element.positionals@.len() - k,
        {
            validate_positional(&element.positionals[k], ctx, &mut errors);
            proof {
                assert(findings_of(errors@) =~= head + positionals_findings(element.positionals@, *ctx, k + 1));
            }
            k += 1;
        }
        proof {
            assert(findings_of(errors@) =~= before + element_findings(*element, *ctx));
        }
        i += 1;
    }
    errors
}

/// Replaces the AST's errors with `new_errors`; returns how many were
/// attached.
pub fn apply_validation(ast: &mut CommandAst, new_errors: Vec<AstError>) -> (count: usize)
    ensures
        final(ast).errors@ == new_errors@,
        final(ast).elements == old(ast).elements,
        count == new_errors@.len(),
{
    let count = new_errors.len();
    ast.errors = new_errors;
    count
}

/// Whether the finding blocks run-on-submit.
pub fn is_error(e: &AstError) -> (r: bool)
    ensures
        r == (e.severity == ErrorSeverity::Error),
{
    matches!(e.severity, ErrorSeverity::Error)
}

// ---- laws ---------------------------------------------------------

/// A required path is not reported when a listed existing path names
/// the same path.
pub proof fn lemma_listed_path_passes(p: PositionalNode, ctx: ValidationContext, i: int)
    requires
        p.kind matches ArgKind::Path { must_exist, .. } && must_exist,
        ctx.existing_paths matches Some(paths) && 0 <= i < paths@.len() && paths_equal(paths@[i]@, p.value@),
    ensures
        positional_findings(p, ctx).len() == 0,
{
    let paths = ctx.existing_paths->0;
    assert(paths_equal((paths@[i])@, p.value@));
}

/// A required path that no listed existing path names is reported once,
/// as an error over the positional's range naming the path.
pub proof fn lemma_unlisted_path_reported(p: PositionalNode, ctx: ValidationContext)
    requires
        p.kind matches ArgKind::Path { must_exist, .. } && must_exist,
        ctx.existing_paths matches Some(paths) && forall|i: int| 0 <= i < paths@.len() ==> !paths_equal(
            #[trigger] paths@[i]@,
            p.value@,
        ),
    ensures
        positional_findings(p, ctx) == seq![(p.range, "path `"@ + p.value@ + "` does not exist"@, ErrorSeverity::Error)],
{
}

/// A path that need not exist, or a check without a path list, is
/// never reported.
pub proof fn lemma_unchecked_path_passes(p: PositionalNode, ctx: ValidationContext)
    requires
        p.kind is Path,
        !(p.kind->Path_must_exist) || ctx.existing_paths is None,
    ensures
        positional_findings(p, ctx).len() == 0,
{
}

/// For a single stage whose command is not checked, validation reports
/// exactly the findings of its positionals, in order; so a stage whose
/// only positional is a listed required path validates clean.
pub proof fn lemma_single_stage_findings(ast: CommandAst, ctx: ValidationContext)
    requires
        ast.elements@.len() == 1,
        ctx.known_commands is None || ast.elements@[0].command is None,
    ensures
        ast_findings(ast.elements@, ctx, 1) == positionals_findings(
            ast.elements@[0].positionals@,
            ctx,
            ast.elements@[0].positionals@.len() as int,
        ),
        ast.elements@[0].positionals@.len() == 1 ==> ast_findings(ast.elements@, ctx, 1) == positional_findings(
            ast.elements@[0].positionals@[0],
            ctx,
        ),
{
    let e = ast.elements@[0];
    assert(ast_findings(ast.elements@, ctx, 0) =~= Seq::<Finding>::empty());
    assert(positionals_findings(e.positionals@, ctx, 0) =~= Seq::<Finding>::empty());
    assert(Seq::<Finding>::empty() + positionals_findings(e.positionals@, ctx, e.positionals@.len() as int)
        =~= positionals_findings(e.positionals@, ctx, e.positionals@.len() as int));
    assert(Seq::<Finding>::empty() + positional_findings(e.positionals@[0], ctx)
        =~= positional_findings(e.positionals@[0], ctx));
}

/// A git ref is reported exactly when a ref list is given and does not
/// hold it; then as an error over the positional's range naming it.
pub proof fn lemma_git_ref_checked(p: PositionalNode, ctx: ValidationContext)
    requires
        p.kind is GitRef,
    ensures
        ctx.known_refs is None ==> positional_findings(p, ctx).len() == 0,
        ctx.known_refs matches Some(refs) ==> (positional_findings(p, ctx).len() == 0 <==> exists|i: int|
            0 <= i < refs@.len() && (#[trigger] refs@[i])@ == p.value@),
        ctx.known_refs matches Some(refs) && positional_findings(p, ctx).len() != 0 ==> positional_findings(p, ctx)
            == seq![(p.range, "no ref named `"@ + p.value@ + "`"@, ErrorSeverity::Error)],
{
    if let Some(refs) = ctx.known_refs {
        if str_views(refs@).contains(p.value@) {
            let k = choose|k: int| 0 <= k < str_views(refs@).len() && str_views(refs@)[k] == p.value@;
            assert(refs@[k]@ == p.value@);
        }
        if exists|i: int| 0 <= i < refs@.len() && (#[trigger] refs@[i])@ == p.value@ {
            let i = choose|i: int| 0 <= i < refs@.len() && (#[trigger] refs@[i])@ == p.value@;
            assert(str_views(refs@)[i] == p.value@);
        }
    }
}

/// An enum positional is reported exactly when its value is none of the
/// variants; then as an error over its range naming the value.
pub proof fn lemma_enum_checked(p: PositionalNode, ctx: ValidationContext)
    requires
        p.kind is Enum,
    ensures
        positional_findings(p, ctx).len() == 0 <==> exists|i: int|
            0 <= i < p.kind->Enum_0@.len() && (#[trigger] p.kind->Enum_0@[i])@ == p.value@,
        positional_findings(p, ctx).len() != 0 ==> positional_findings(p, ctx).len() == 1
            && positional_findings(p, ctx)[0].0 == p.range && positional_findings(p, ctx)[0].2 == ErrorSeverity::Error,
{
    let vs = p.kind->Enum_0;
    if str_views(vs@).contains(p.value@) {
        let k = choose|k: int| 0 <= k < str_views(vs@).len() && str_views(vs@)[k] == p.value@;
        assert(vs@[k]@ == p.value@);
    }
    if exists|i: int| 0 <= i < vs@.len() && (#[trigger] vs@[i])@ == p.value@ {
        let i = choose|i: int| 0 <= i < vs@.len() && (#[trigger] vs@[i])@ == p.value@;
        assert(str_views(vs@)[i] == p.value@);
    }
}

/// URLs, environment variables, process ids, literals and unclassified
/// positionals are never reported.
pub proof fn lemma_unchecked_kinds_pass(p: PositionalNode, ctx: ValidationContext)
    requires
        p.kind is Url || p.kind is EnvVar || p.kind is ProcessId || p.kind is Literal || p.kind is Unknown,
    ensures
        positional_findings(p, ctx).len() == 0,
{
}

} // verus!
