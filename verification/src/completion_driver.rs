//! Cursor-aware completion driver.
//!
//! Finds the positional under the cursor and decides, from its
//! [`ArgKind`], which completion source answers: enum variants and
//! history are answered here; the filesystem, the environment and git
//! need a listing, which the caller makes and hands to the matching
//! `*_from` function of [`crate::completion_sources`]. With no
//! positional under the cursor the whole buffer is completed from
//! history.

use vstd::prelude::*;
use vstd::string::StringSliceAdditionalSpecFns;
use vstd::utf8::is_char_boundary;
use crate::ast::{covers_at, ArgKind, CommandAst, GitScope, PipelineElement, PositionalNode, Range};
use crate::completion::{is_stable_sort_of, CompletionCandidate, CompletionSet, CompletionSource, InsertAction};
use crate::completion_sources::{
    cap_of, candidate_is, history_candidates, history_hits, str_starts_with,
};
use crate::history::CommandHistory;
use crate::text::{byte_len, seq_starts_with, slice_string, text_of, utf8_len};

verus! {

/// Where the completion prefix of token `range` ends for `cursor`:
/// the cursor clamped into the range.
pub open spec fn prefix_end(range: Range, cursor: int) -> int {
    let e = if cursor < range.end { cursor } else { range.end as int };
    if e < range.start { range.start as int } else { e }
}

/// The prefix can be cut out of the bytes `b`.
pub open spec fn token_slice_ok(b: Seq<u8>, range: Range, cursor: int) -> bool {
    let e = prefix_end(range, cursor);
    e > range.start ==> (e <= b.len() && is_char_boundary(b, range.start as int) && is_char_boundary(b, e))
}

/// The token text from its start up to the cursor.
pub open spec fn spec_token_prefix(b: Seq<u8>, range: Range, cursor: int) -> Seq<char> {
    let e = prefix_end(range, cursor);
    if e <= range.start { Seq::empty() } else { text_of(b, range.start as int, e) }
}

/// Slice of the token up to the cursor, used as the completion
/// prefix; empty when the cursor sits before the token's start.
pub fn token_prefix(buffer: &str, range: Range, cursor: usize) -> (r: String)
    requires
        token_slice_ok(buffer.spec_bytes(), range, cursor as int),
    ensures
        r@ == spec_token_prefix(buffer.spec_bytes(), range, cursor as int),
{
    let clamped = if cursor < range.end { cursor } else { range.end };
    let end = if clamped < range.start { range.start } else { clamped };
    if end <= range.start {
        String::new()
    } else {
        slice_string(buffer, range.start, end)
    }
}

/// Indices of the variants starting with `prefix`, in order.
pub open spec fn variant_hits(vs: Seq<&'static str>, prefix: Seq<char>, k: int) -> Seq<int>
    decreases k,
{
    if k <= 0 {
        Seq::empty()
    } else {
        let rest = variant_hits(vs, prefix, k - 1);
        if seq_starts_with(vs[k - 1]@, prefix) { rest.push(k - 1) } else { rest }
    }
}

/// `c` is the spec-source candidate replacing `anchor` with `label`.
pub open spec fn variant_candidate(c: CompletionCandidate, label: Seq<char>, anchor: Range) -> bool {
    &&& c.label@ == label
    &&& c.detail is None
    &&& c.icon is None
    &&& c.source == CompletionSource::Spec
    &&& c.score == 0
    &&& c.action matches InsertAction::Replace { range, replacement } && range == anchor
        && replacement@ == label
}

/// The enum variants starting with `prefix`, in declaration order.
pub fn enum_candidates(variants: &Vec<&'static str>, prefix: &str, anchor: Range) -> (out: Vec<CompletionCandidate>)
    ensures
        ({
            let hits = variant_hits(variants@, prefix@, variants@.len() as int);
            &&& out@.len() == hits.len()
            &&& forall|j: int|
                0 <= j < hits.len() ==> variant_candidate(#[trigger] out@[j], variants@[hits[j]]@, anchor)
        }),
{
    let mut out: Vec<CompletionCandidate> = Vec::new();
    let ghost mut acc: Seq<int> = Seq::empty();
    let n = variants.len();
    let mut k: usize = 0;
    while k < n
        invariant
            n == variants@.len(),
            k <= n,
            acc == variant_hits(variants@, prefix@, k as int),
            out@.len() == acc.len(),
            forall|j: int| 0 <= j < acc.len() ==> 0 <= #[trigger] acc[j] < k,
            forall|j: int|
                0 <= j < acc.len() ==> variant_candidate(#[trigger] out@[j], variants@[acc[j]]@, anchor),
        decreases n - k,
    {
        let v = variants[k];
        if str_starts_with(v, prefix) {
            out.push(CompletionCandidate::replace(CompletionSource::Spec, v, anchor));
            proof {
                acc = acc.push(k as int);
            }
        }
        k += 1;
    }
    out
}

/// A source that needs a listing the caller makes.
#[derive(Debug, Clone, Copy, PartialEq, Eq, Structural)]
pub enum SourceRequest {
    /// Nothing more to list.
    Nothing,
    /// List the working directory (see
    /// [`crate::completion_sources::filesystem_candidates_from`]).
    Filesystem,
    /// List the environment's variable names (see
    /// [`crate::completion_sources::envvar_candidates_from`]).
    EnvVar,
    /// Run `git for-each-ref` (see
    /// [`crate::completion_sources::git_candidates_from_output`]).
    Git(GitScope),
}

/// What completing at the cursor takes.
pub struct CursorPlan {
    /// Range the candidates replace.
    pub anchor: Option<Range>,
    /// Text the candidates must start with.
    pub prefix: String,
    /// Candidates already known (enum variants, history).
    pub candidates: Vec<CompletionCandidate>,
    /// Listing still to make, with its prefix, anchor and limit.
    pub request: SourceRequest,
    /// Candidates per source (at least one).
    pub limit: usize,
}

/// The first positional (element order, then positional order) that
/// covers `offset`.
pub open spec fn first_cover(els: Seq<PipelineElement>, offset: int) -> Option<(int, int)> {
    if exists|ei: int, pi: int| covers_at(els, ei, pi, offset) {
        Some(
            choose|ei: int, pi: int|
                covers_at(els, ei, pi, offset) && forall|ej: int, pj: int|
                    (ej < ei || (ej == ei && pj < pi)) ==> !covers_at(els, ej, pj, offset),
        )
    } else {
        None
    }
}

/// Every positional covering `cursor` can have its prefix cut out.
pub open spec fn cursor_slices_ok(b: Seq<u8>, ast: CommandAst, cursor: int) -> bool {
    forall|ei: int, pi: int|
        covers_at(ast.elements@, ei, pi, cursor) ==> token_slice_ok(
            b,
            (#[trigger] ast.elements@[ei].positionals@[pi]).range,
            cursor,
        )
}

/// The listing a positional of `kind` asks for.
pub open spec fn spec_request(kind: ArgKind, has_cwd: bool) -> SourceRequest {
    match kind {
        ArgKind::Path { .. } => if has_cwd { SourceRequest::Filesystem } else { SourceRequest::Nothing },
        ArgKind::EnvVar => SourceRequest::EnvVar,
        ArgKind::GitRef { scope } => if has_cwd { SourceRequest::Git(scope) } else { SourceRequest::Nothing },
        _ => SourceRequest::Nothing,
    }
}

fn request_for(kind: &ArgKind, has_cwd: bool) -> (r: SourceRequest)
    ensures
        r == spec_request(*kind, has_cwd),
{
    match kind {
        ArgKind::Path { .. } => if has_cwd { SourceRequest::Filesystem } else { SourceRequest::Nothing },
        ArgKind::EnvVar => SourceRequest::EnvVar,
        ArgKind::GitRef { scope } => if has_cwd { SourceRequest::Git(*scope) } else { SourceRequest::Nothing },
        _ => SourceRequest::Nothing,
    }
}

/// Plans completion at `cursor` over `buffer` (with its AST `ast`):
/// - a positional covers the cursor: anchor its range, prefix its text
///   up to the cursor; enum variants are matched here, paths and git
///   refs ask for a listing when there is a working directory,
///   variables always ask for the environment, other kinds give none;
/// - otherwise, with a history: anchor the whole buffer and offer the
///   history commands starting with it;
/// - otherwise nothing.
pub fn plan_for_cursor(
    buffer: &str,
    ast: &CommandAst,
    cursor: usize,
    has_cwd: bool,
    history: Option<&CommandHistory>,
    per_source_limit: usize,
) -> (plan: CursorPlan)
    requires
        cursor_slices_ok(buffer.spec_bytes(), *ast, cursor as int),
    ensures
        plan.limit as nat == cap_of(per_source_limit),
        match first_cover(ast.elements@, cursor as int) {
            Some((ei, pi)) => {
                let p = ast.elements@[ei].positionals@[pi];
                &&& plan.anchor == Some(p.range)
                &&& plan.prefix@ == spec_token_prefix(buffer.spec_bytes(), p.range, cursor as int)
                &&& plan.request == spec_request(p.kind, has_cwd)
                &&& match p.kind {
                    ArgKind::Enum(vs) => {
                        let hits = variant_hits(vs@, plan.prefix@, vs@.len() as int);
                        &&& plan.candidates@.len() == hits.len()
                        &&& forall|j: int|
                            0 <= j < hits.len() ==> variant_candidate(
                                #[trigger] plan.candidates@[j],
                                vs@[hits[j]]@,
                                p.range,
                            )
                    },
                    _ => plan.candidates@.len() == 0,
                }
            },
            None => {
                &&& plan.request == SourceRequest::Nothing
                &&& plan.prefix@ == buffer@
                &&& match history {
                    Some(h) => {
                        let anchor = Range { start: 0, end: utf8_len(buffer@) as usize };
                        let es = h.view_entries();
                        let hits = history_hits(es, buffer@, cap_of(per_source_limit), es.len() as int, Seq::empty());
                        &&& plan.anchor == Some(anchor)
                        &&& plan.candidates@.len() == hits.len()
                        &&& forall|j: int|
                            0 <= j < hits.len() ==> candidate_is(
                                #[trigger] plan.candidates@[j],
                                CompletionSource::History,
                                es[hits[j]].command@,
                                anchor,
                                "history",
                            )
                    },
                    None => plan.anchor is None && plan.candidates@.len() == 0,
                }
            },
        },
{
    let limit: usize = if per_source_limit == 0 { 1 } else { per_source_limit };
    match ast.positional_at(cursor) {
        Some(p) => {
            proof {
                let (ei, pi) = choose|ei: int, pi: int|
                    covers_at(ast.elements@, ei, pi, cursor as int) && p == &ast.elements@[ei].positionals@[pi]
                        && forall|ej: int, pj: int|
                        (ej < ei || (ej == ei && pj < pi)) ==> !covers_at(ast.elements@, ej, pj, cursor as int);
                let (e2, p2) = first_cover(ast.elements@, cursor as int).unwrap();
                assert(covers_at(ast.elements@, e2, p2, cursor as int));
                if e2 < ei || (e2 == ei && p2 < pi) {
                    assert(false);
                }
                if ei < e2 || (ei == e2 && pi < p2) {
                    assert(false);
                }
                assert(ast.elements@[ei].positionals@[pi] == *p);
            }
            let prefix = token_prefix(buffer, p.range, cursor);
            let request = request_for(&p.kind, has_cwd);
            let candidates = match &p.kind {
                ArgKind::Enum(vs) => enum_candidates(vs, prefix.as_str(), p.range),
                _ => Vec::new(),
            };
            CursorPlan { anchor: Some(p.range), prefix, candidates, request, limit }
        },
        None => {
            let prefix = buffer.to_owned();
            match history {
                Some(h) => {
                    let anchor = Range::new(0, byte_len(buffer));
                    let candidates = history_candidates(h, buffer, anchor, limit);
                    CursorPlan { anchor: Some(anchor), prefix, candidates, request: SourceRequest::Nothing, limit }
                },
                None => CursorPlan {
                    anchor: None,
                    prefix,
                    candidates: Vec::new(),
                    request: SourceRequest::Nothing,
                    limit,
                },
            }
        },
    }
}

/// The completion set of a plan, given the candidates its listing
/// produced (none when it asked for none): all of them, ranked.
pub fn finish_plan(plan: CursorPlan, listed: Vec<CompletionCandidate>) -> (set: CompletionSet)
    ensures
        set.anchor == plan.anchor,
        is_stable_sort_of(set.candidates@, plan.candidates@ + listed@),
{
    let mut set = CompletionSet::new();
    set.anchor = plan.anchor;
    let mut all = plan.candidates;
    let mut more = listed;
    all.append(&mut more);
    set.candidates = all;
    set.sort();
    set
}

} // verus!
