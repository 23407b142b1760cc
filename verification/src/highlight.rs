//! Highlight span model: the projection of a `CommandAst` onto
//! role-tagged byte ranges the renderer colours.
//!
//! Each pipeline element contributes its separator, command,
//! subcommand, flags and positionals; error-severity AST errors add
//! `Error` spans layered on the underlying token. The result is sorted
//! by byte range, stably.

use vstd::prelude::*;
use crate::ast::{ArgKind, AstError, CommandAst, ErrorSeverity, FlagNode, PipelineElement, PositionalNode, Range};

verus! {

/// The semantic role of a highlighted span.
#[derive(Debug, Clone, Copy, PartialEq, Eq, Hash, Structural)]
pub enum HighlightRole {
    Command,
    Subcommand,
    LongFlag,
    ShortFlag,
    FlagValue,
    Path,
    GitRef,
    Url,
    EnvVar,
    ProcessId,
    EnumLiteral,
    Positional,
    /// Pipeline / sequence separator.
    Separator,
    Error,
}

impl HighlightRole {
    /// Whether the role renders with an error underline.
    pub fn is_error(self) -> (r: bool)
        ensures
            r == (self is Error),
    {
        matches!(self, HighlightRole::Error)
    }
}

/// A byte range of the input annotated with a role.
#[derive(Debug, Clone, Copy, PartialEq, Eq, Hash, Structural)]
pub struct HighlightSpan {
    pub range: Range,
    pub role: HighlightRole,
}

impl HighlightSpan {
    pub fn new(range: Range, role: HighlightRole) -> (s: Self)
        ensures
            s.range == range,
            s.role == role,
    {
        HighlightSpan { range, role }
    }
}

/// Role of a positional by its argument kind.
pub open spec fn spec_role_for_arg_kind(kind: ArgKind) -> HighlightRole {
    match kind {
        ArgKind::Path { .. } => HighlightRole::Path,
        ArgKind::GitRef { .. } => HighlightRole::GitRef,
        ArgKind::Url => HighlightRole::Url,
        ArgKind::EnvVar => HighlightRole::EnvVar,
        ArgKind::ProcessId => HighlightRole::ProcessId,
        ArgKind::Enum(_) => HighlightRole::EnumLiteral,
        ArgKind::Literal => HighlightRole::Positional,
        ArgKind::Unknown => HighlightRole::Positional,
    }
}

fn role_for_arg_kind(kind: &ArgKind) -> (r: HighlightRole)
    ensures
        r == spec_role_for_arg_kind(*kind),
{
    match kind {
        ArgKind::Path { .. } => HighlightRole::Path,
        ArgKind::GitRef { .. } => HighlightRole::GitRef,
        ArgKind::Url => HighlightRole::Url,
        ArgKind::EnvVar => HighlightRole::EnvVar,
        ArgKind::ProcessId => HighlightRole::ProcessId,
        ArgKind::Enum(_) => HighlightRole::EnumLiteral,
        ArgKind::Literal => HighlightRole::Positional,
        ArgKind::Unknown => HighlightRole::Positional,
    }
}

pub open spec fn flag_span(f: FlagNode) -> HighlightSpan {
    HighlightSpan { range: f.range, role: if f.is_long { HighlightRole::LongFlag } else { HighlightRole::ShortFlag } }
}

pub open spec fn positional_span(p: PositionalNode) -> HighlightSpan {
    HighlightSpan { range: p.range, role: spec_role_for_arg_kind(p.kind) }
}

pub open spec fn opt_span(present: bool, range: Range, role: HighlightRole) -> Seq<HighlightSpan> {
    if present { seq![HighlightSpan { range, role }] } else { Seq::empty() }
}

/// Spans of one element: separator, command, subcommand, flags,
/// positionals — in that order.
pub open spec fn element_spans(e: PipelineElement) -> Seq<HighlightSpan> {
    (match e.separator {
        Some(s) => seq![HighlightSpan { range: s.range, role: HighlightRole::Separator }],
        None => Seq::empty(),
    }) + (match e.command {
        Some(c) => seq![HighlightSpan { range: c.range, role: HighlightRole::Command }],
        None => Seq::empty(),
    }) + (match e.subcommand {
        Some(s) => seq![HighlightSpan { range: s.range, role: HighlightRole::Subcommand }],
        None => Seq::empty(),
    }) + e.flags@.map_values(|f: FlagNode| flag_span(f)) + e.positionals@.map_values(
        |p: PositionalNode| positional_span(p),
    )
}

/// Spans of all elements, in element order.
pub open spec fn elements_spans(es: Seq<PipelineElement>) -> Seq<HighlightSpan>
    decreases es.len(),
{
    if es.len() == 0 {
        Seq::empty()
    } else {
        elements_spans(es.drop_last()) + element_spans(es.last())
    }
}

/// `Error` spans of the error-severity AST errors, in order.
pub open spec fn error_spans(errs: Seq<AstError>) -> Seq<HighlightSpan>
    decreases errs.len(),
{
    if errs.len() == 0 {
        Seq::empty()
    } else {
        error_spans(errs.drop_last()) + (if errs.last().severity == ErrorSeverity::Error {
            seq![HighlightSpan { range: errs.last().range, role: HighlightRole::Error }]
        } else {
            Seq::empty()
        })
    }
}

/// The spans before sorting.
pub open spec fn unsorted_spans(ast: CommandAst) -> Seq<HighlightSpan> {
    elements_spans(ast.elements@) + error_spans(ast.errors@)
}

/// Span order: by start, then end.
pub open spec fn span_le(a: HighlightSpan, b: HighlightSpan) -> bool {
    a.range.start < b.range.start || (a.range.start == b.range.start && a.range.end <= b.range.end)
}

/// `out` is `inp` stably sorted by `span_le`; `p` maps each output
/// position to its input position.
pub open spec fn span_sort_witness(out: Seq<HighlightSpan>, inp: Seq<HighlightSpan>, p: Seq<int>) -> bool {
    &&& out.len() == inp.len()
    &&& p.len() == out.len()
    &&& forall|k: int| 0 <= k < p.len() ==> 0 <= #[trigger] p[k] < inp.len() && out[k] == inp[p[k]]
    &&& forall|j: int, k: int| 0 <= j < k < p.len() ==> #[trigger] p[j] != #[trigger] p[k]
    &&& forall|j: int, k: int| 0 <= j < k < out.len() ==> span_le(#[trigger] out[j], #[trigger] out[k])
    &&& forall|j: int, k: int|
        0 <= j < k < out.len() && (#[trigger] out[j]).range == (#[trigger] out[k]).range ==> p[j] < p[k]
}

/// The projection of `ast` onto highlight spans: `unsorted_spans`
/// stably sorted by byte range.
pub open spec fn is_highlight_of(out: Seq<HighlightSpan>, ast: CommandAst) -> bool {
    exists|p: Seq<int>| span_sort_witness(out, unsorted_spans(ast), p)
}

fn push_element_spans(spans: &mut Vec<HighlightSpan>, e: &PipelineElement)
    ensures
        final(spans)@ == old(spans)@ + element_spans(*e),
{
    let ghost start = spans@;
    if let Some(sep) = &e.separator {
        spans.push(HighlightSpan::new(sep.range, HighlightRole::Separator));
    }
    if let Some(cmd) = &e.command {
        spans.push(HighlightSpan::new(cmd.range, HighlightRole::Command));
    }
    if let Some(sub) = &e.subcommand {
        spans.push(HighlightSpan::new(sub.range, HighlightRole::Subcommand));
    }
    let ghost head = spans@;
    let mut i: usize = 0;
    while i < e.flags.len()
        invariant
            i <= e.flags@.len(),
            spans@ == head + e.flags@.take(i as int).map_values(|f: FlagNode| flag_span(f)),
        decreases e.flags@.len() - i,
    {
        let f = &e.flags[i];
        spans.push(HighlightSpan::new(f.range, if f.is_long { HighlightRole::LongFlag } else { HighlightRole::ShortFlag }));
        proof {
            assert(e.flags@.take(i + 1).map_values(|f: FlagNode| flag_span(f)) =~= e.flags@.take(i as int).map_values(
                |f: FlagNode| flag_span(f),
            ).push(flag_span(e.flags@[i as int])));
        }
        i += 1;
    }
    assert(e.flags@.take(e.flags@.len() as int) =~= e.flags@);
    let ghost mid = spans@;
    let mut k: usize = 0;
    while k < e.positionals.len()
        invariant
            k <= e.positionals@.len(),
            spans@ == mid + e.positionals@.take(k as int).map_values(|p: PositionalNode| positional_span(p)),
        decreases e.positionals@.len() - k,
    {
        let p = &e.positionals[k];
        spans.push(HighlightSpan::new(p.range, role_for_arg_kind(&p.kind)));
        proof {
            assert(e.positionals@.take(k + 1).map_values(|p: PositionalNode| positional_span(p))
                =~= e.positionals@.take(k as int).map_values(|p: PositionalNode| positional_span(p)).push(
                positional_span(e.positionals@[k as int]),
            ));
        }
        k += 1;
    }
    assert(e.positionals@.take(e.positionals@.len() as int) =~= e.positionals@);
    assert(spans@ =~= start + element_spans(*e));
}

/// Project the AST into highlight spans, ordered by byte range.
pub fn highlight_ast(ast: &CommandAst) -> (spans: Vec<HighlightSpan>)
    ensures
        is_highlight_of(spans@, *ast),
{
    let mut raw: Vec<HighlightSpan> = Vec::new();
    let mut i: usize = 0;
    while i < ast.elements.len()
        invariant
            i <= ast.elements@.len(),
            raw@ == elements_spans(ast.elements@.take(i as int)),
        decreases ast.elements@.len() - i,
    {
        push_element_spans(&mut raw, &ast.elements[i]);
        proof {
            assert(ast.elements@.take(i + 1).drop_last() =~= ast.elements@.take(i as int));
        }
        i += 1;
    }
    assert(ast.elements@.take(ast.elements@.len() as int) =~= ast.elements@);
    let ghost el = raw@;
    let mut j: usize = 0;
    while j < ast.errors.len()
        invariant
            j <= ast.errors@.len(),
            el == elements_spans(ast.elements@),
            raw@ == el + error_spans(ast.errors@.take(j as int)),
        decreases ast.errors@.len() - j,
    {
        let err = &ast.errors[j];
        proof {
            assert(ast.errors@.take(j + 1).drop_last() =~= ast.errors@.take(j as int));
        }
        if matches!(err.severity, ErrorSeverity::Error) {
            raw.push(HighlightSpan::new(err.range, HighlightRole::Error));
            proof {
                assert(raw@ =~= el + error_spans(ast.errors@.take(j + 1)));
            }
        } else {
            proof {
                assert(raw@ =~= el + error_spans(ast.errors@.take(j + 1)));
            }
        }
        j += 1;
    }
    assert(ast.errors@.take(ast.errors@.len() as int) =~= ast.errors@);
    assert(raw@ == unsorted_spans(*ast));
    let ghost u = raw@;
    let out = sort_spans(raw);
    assert(exists|p: Seq<int>| span_sort_witness(out@, u, p));
    out
}

/// Stable insertion sort by `(start, end)`.
fn sort_spans(inp: Vec<HighlightSpan>) -> (out: Vec<HighlightSpan>)
    ensures
        exists|p: Seq<int>| span_sort_witness(out@, inp@, p),
{
    let ghost orig = inp@;
    let mut rest = inp;
    let mut out: Vec<HighlightSpan> = Vec::new();
    let ghost mut p: Seq<int> = Seq::empty();
    let n = rest.len();
    let mut i: usize = 0;
    while i < n
        invariant
            n == orig.len(),
            i <= n,
            rest@ == orig.subrange(i as int, n as int),
            out@.len() == i,
            p.len() == i,
            forall|k: int| 0 <= k < p.len() ==> 0 <= #[trigger] p[k] < i && out@[k] == orig[p[k]],
            forall|j: int, k: int| 0 <= j < k < p.len() ==> #[trigger] p[j] != #[trigger] p[k],
            forall|j: int, k: int| 0 <= j < k < out@.len() ==> span_le(#[trigger] out@[j], #[trigger] out@[k]),
            forall|j: int, k: int|
                0 <= j < k < out@.len() && (#[trigger] out@[j]).range == (#[trigger] out@[k]).range ==> p[j] < p[k],
        decreases n - i,
    {
        let x = rest.remove(0);
        assert(x == orig[i as int]);
        let mut pos: usize = out.len();
        while pos > 0 && !(out[pos - 1].range.start < x.range.start || (out[pos - 1].range.start == x.range.start
            && out[pos - 1].range.end <= x.range.end))
            invariant
                pos <= out@.len(),
                forall|k: int| pos <= k < out@.len() ==> !span_le(#[trigger] out@[k], x),
            decreases pos,
        {
            pos -= 1;
        }
        let ghost old_out = out@;
        let ghost old_p = p;
        out.insert(pos, x);
        proof {
            p = old_p.insert(pos as int, i as int);
            assert forall|j: int, k: int| 0 <= j < k < p.len() implies #[trigger] p[j] != #[trigger] p[k] by {
                if j < pos && k > pos {
                    assert(p[k] == old_p[k - 1]);
                }
                if j > pos {
                    assert(p[k] == old_p[k - 1]);
                    assert(p[j] == old_p[j - 1]);
                }
            }
            assert forall|j: int, k: int|
                0 <= j < k < out@.len() && (#[trigger] out@[j]).range == (#[trigger] out@[k]).range implies p[j] < p[k] by {
                if j < pos && k > pos {
                    assert(old_out[j] == out@[j]);
                    assert(old_out[k - 1] == out@[k]);
                }
                if j > pos {
                    assert(old_out[j - 1] == out@[j]);
                    assert(old_out[k - 1] == out@[k]);
                }
                if k < pos {
                    assert(old_out[j] == out@[j]);
                    assert(old_out[k] == out@[k]);
                }
            }
            assert(rest@ =~= orig.subrange(i + 1, n as int));
        }
        i += 1;
    }
    proof {
        assert(span_sort_witness(out@, orig, p));
    }
    out
}

// ---- laws ---------------------------------------------------------

/// Each argument kind is shown in a role of its own: paths, git refs,
/// URLs, environment variables, process ids and enum values each have
/// their role, and only literal and unclassified positionals are shown
/// as plain positionals.
pub proof fn lemma_arg_kind_roles(kind: ArgKind)
    ensures
        (spec_role_for_arg_kind(kind) == HighlightRole::Path) == (kind is Path),
        (spec_role_for_arg_kind(kind) == HighlightRole::GitRef) == (kind is GitRef),
        (spec_role_for_arg_kind(kind) == HighlightRole::Url) == (kind is Url),
        (spec_role_for_arg_kind(kind) == HighlightRole::EnvVar) == (kind is EnvVar),
        (spec_role_for_arg_kind(kind) == HighlightRole::ProcessId) == (kind is ProcessId),
        (spec_role_for_arg_kind(kind) == HighlightRole::EnumLiteral) == (kind is Enum),
        (spec_role_for_arg_kind(kind) == HighlightRole::Positional) == (kind is Literal || kind is Unknown),
{
}

/// An injective map of `[0, n)` into itself reaches every index.
proof fn lemma_index_map_onto(p: Seq<int>, x: int)
    requires
        forall|k: int| 0 <= k < p.len() ==> 0 <= #[trigger] p[k] < p.len(),
        forall|j: int, k: int| 0 <= j < k < p.len() ==> #[trigger] p[j] != #[trigger] p[k],
        0 <= x < p.len(),
    ensures
        exists|k: int| 0 <= k < p.len() && p[k] == x,
{
    assert(p.no_duplicates()) by {
        assert forall|i: int, j: int| 0 <= i < p.len() && 0 <= j < p.len() && i != j implies p[i] != p[j] by {
            if i < j {
                assert(p[i] != p[j]);
            } else {
                assert(p[j] != p[i]);
            }
        }
    }
    p.unique_seq_to_set();
    vstd::set_lib::lemma_int_range(0, p.len() as int);
    let r = vstd::set_lib::set_int_range(0, p.len() as int);
    vstd::seq_lib::seq_to_set_is_finite(p);
    assert(p.to_set().subset_of(r));
    vstd::set_lib::lemma_subset_equality(p.to_set(), r);
    assert(r.contains(x));
    assert(p.to_set().contains(x));
}

/// A span of one element's spans is among the spans of all elements.
proof fn lemma_elements_spans_has(es: Seq<PipelineElement>, i: int, s: HighlightSpan)
    requires
        0 <= i < es.len(),
        element_spans(es[i]).contains(s),
    ensures
        elements_spans(es).contains(s),
    decreases es.len(),
{
    let a = elements_spans(es.drop_last());
    let b = element_spans(es.last());
    if i == es.len() - 1 {
        let j = choose|j: int| 0 <= j < b.len() && b[j] == s;
        assert((a + b)[a.len() + j] == s);
    } else {
        assert(es.drop_last()[i] == es[i]);
        lemma_elements_spans_has(es.drop_last(), i, s);
        let j = choose|j: int| 0 <= j < a.len() && a[j] == s;
        assert((a + b)[j] == s);
    }
}

/// A span among a stage's spans is among the highlighting of the AST.
proof fn lemma_highlight_has(out: Seq<HighlightSpan>, ast: CommandAst, i: int, s: HighlightSpan)
    requires
        is_highlight_of(out, ast),
        0 <= i < ast.elements@.len(),
        element_spans(ast.elements@[i]).contains(s),
    ensures
        exists|j: int| 0 <= j < out.len() && out[j] == s,
{
    lemma_elements_spans_has(ast.elements@, i, s);
    let inp = unsorted_spans(ast);
    let m = choose|m: int| 0 <= m < elements_spans(ast.elements@).len() && elements_spans(ast.elements@)[m] == s;
    assert(inp[m] == s);
    let p = choose|p: Seq<int>| span_sort_witness(out, inp, p);
    lemma_index_map_onto(p, m);
    let j = choose|j: int| 0 <= j < p.len() && p[j] == m;
    assert(out[j] == inp[p[j]]);
}

/// Every command of the AST shows up in its highlighting over its own
/// range as a `Command`, and every flag over its own range as a
/// `LongFlag` when written long and a `ShortFlag` otherwise.
pub proof fn lemma_highlight_shows_commands_and_flags(out: Seq<HighlightSpan>, ast: CommandAst, i: int, k: int)
    requires
        is_highlight_of(out, ast),
        0 <= i < ast.elements@.len(),
    ensures
        ast.elements@[i].command matches Some(c) ==> exists|j: int|
            0 <= j < out.len() && out[j] == (HighlightSpan { range: c.range, role: HighlightRole::Command }),
        0 <= k < ast.elements@[i].flags@.len() ==> exists|j: int|
            0 <= j < out.len() && out[j] == (HighlightSpan {
                range: ast.elements@[i].flags@[k].range,
                role: if ast.elements@[i].flags@[k].is_long {
                    HighlightRole::LongFlag
                } else {
                    HighlightRole::ShortFlag
                },
            }),
{
    let e = ast.elements@[i];
    let sep: Seq<HighlightSpan> = match e.separator {
        Some(sp) => seq![HighlightSpan { range: sp.range, role: HighlightRole::Separator }],
        None => Seq::empty(),
    };
    let cmd: Seq<HighlightSpan> = match e.command {
        Some(c) => seq![HighlightSpan { range: c.range, role: HighlightRole::Command }],
        None => Seq::empty(),
    };
    let sub: Seq<HighlightSpan> = match e.subcommand {
        Some(sb) => seq![HighlightSpan { range: sb.range, role: HighlightRole::Subcommand }],
        None => Seq::empty(),
    };
    let fl = e.flags@.map_values(|f: FlagNode| flag_span(f));
    let ps = e.positionals@.map_values(|p: PositionalNode| positional_span(p));
    assert(element_spans(e) == sep + cmd + sub + fl + ps);
    if let Some(c) = e.command {
        let s = HighlightSpan { range: c.range, role: HighlightRole::Command };
        assert((sep + cmd + sub + fl + ps)[sep.len() as int] == s);
        assert(element_spans(e).contains(s));
        lemma_highlight_has(out, ast, i, s);
    }
    if 0 <= k < e.flags@.len() {
        let s = flag_span(e.flags@[k]);
        assert(fl[k] == s);
        assert((sep + cmd + sub + fl + ps)[sep.len() + cmd.len() + sub.len() + k] == s);
        assert(element_spans(e).contains(s));
        lemma_highlight_has(out, ast, i, s);
    }
}

/// Every positional of the AST shows up in its highlighting, over the
/// positional's own range and in the role its argument kind calls for.
pub proof fn lemma_highlight_shows_positionals(out: Seq<HighlightSpan>, ast: CommandAst, i: int, k: int)
    requires
        is_highlight_of(out, ast),
        0 <= i < ast.elements@.len(),
        0 <= k < ast.elements@[i].positionals@.len(),
    ensures
        exists|j: int|
            0 <= j < out.len() && out[j] == (HighlightSpan {
                range: ast.elements@[i].positionals@[k].range,
                role: spec_role_for_arg_kind(ast.elements@[i].positionals@[k].kind),
            }),
{
    let e = ast.elements@[i];
    let pk = e.positionals@[k];
    let s = HighlightSpan { range: pk.range, role: spec_role_for_arg_kind(pk.kind) };
    let ps = e.positionals@.map_values(|p: PositionalNode| positional_span(p));
    let head = (match e.separator {
        Some(sp) => seq![HighlightSpan { range: sp.range, role: HighlightRole::Separator }],
        None => Seq::empty(),
    }) + (match e.command {
        Some(c) => seq![HighlightSpan { range: c.range, role: HighlightRole::Command }],
        None => Seq::empty(),
    }) + (match e.subcommand {
        Some(sb) => seq![HighlightSpan { range: sb.range, role: HighlightRole::Subcommand }],
        None => Seq::empty(),
    }) + e.flags@.map_values(|f: FlagNode| flag_span(f));
    assert(element_spans(e) == head + ps);
    assert(ps[k] == s);
    assert((head + ps)[head.len() + k] == s);
    assert(element_spans(e).contains(s));
    lemma_elements_spans_has(ast.elements@, i, s);
    let inp = unsorted_spans(ast);
    let m = choose|m: int| 0 <= m < elements_spans(ast.elements@).len() && elements_spans(ast.elements@)[m] == s;
    assert(inp[m] == s);
    let p = choose|p: Seq<int>| span_sort_witness(out, inp, p);
    lemma_index_map_onto(p, m);
    let j = choose|j: int| 0 <= j < p.len() && p[j] == m;
    assert(out[j] == inp[p[j]]);
}

} // verus!
