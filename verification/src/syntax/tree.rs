//! From a syntax tree to the command AST.
//!
//! The tree arrives as its nodes in pre-order: each [`SyntaxNode`]
//! carries its kind, the field name it fills in its parent, its byte
//! range in the input, its depth below the root and whether it is an
//! `ERROR` node. The children of node `i` are the nodes after `i`, up
//! to the first one no deeper than `i`, whose depth is one more.
//!
//! Walking rules (shared by the bash and fish grammars):
//! - a tree with an `ERROR` node anywhere is not trusted: the line
//!   goes to the fallback parser;
//! - the first pipeline node (`pipeline` in bash, `pipe` in fish) in
//!   pre-order gives one element per `command` child, each after a
//!   `|` / `|&` child carrying that token as its separator; fish
//!   nests pipes left-associatively and the walk flattens them;
//! - failing that, the first `command` node gives a one-element AST;
//! - failing that, the fallback parser.
//!
//! In a command node the child in field `name` is the command; its
//! word children (fish: in field `argument`) are, in order, flags
//! (a leading `-`; in fish also longer than one character), the first
//! other word as subcommand when there is a command, and the rest as
//! positionals. Fish drops one pair of matching outer quotes from
//! every word.

use vstd::prelude::*;
use vstd::string::StringSliceAdditionalSpecFns;
use vstd::utf8::{valid_utf8, is_char_boundary, is_continuation_byte, encode_utf8_valid_utf8,
    is_char_boundary_start_end_of_seq, is_char_boundary_iff_not_is_continuation_byte};
use crate::ast::{
    element_is_blank, ArgKind, CommandAst, CommandNode, FlagNode, PipelineElement, PositionalNode,
    Range, Separator, SeparatorKind, SubcommandNode,
};
use crate::parse::{parse_simple, parsed_simple};
use crate::text::{
    chars_of, find_char, first_index_of, lemma_first_index_of, seq_trim, slice_string, split_once,
    str_eq, string_from_chars, text_of, trimmed_char_count,
};

verus! {

/// The grammar a syntax tree was parsed with.
#[derive(Clone, Copy, Debug, PartialEq, Eq, Structural)]
pub enum Grammar {
    Bash,
    Fish,
}

/// One node of a syntax tree, as visited in pre-order.
pub struct SyntaxNode {
    /// Grammar symbol, such as `command` or `word`.
    pub kind: String,
    /// Field this node fills in its parent, such as `name`.
    pub field: Option<String>,
    /// Byte range `[start, end)` in the input.
    pub start: usize,
    pub end: usize,
    /// Distance from the root (the root has depth 0).
    pub depth: usize,
    /// Whether this is an `ERROR` node.
    pub is_error: bool,
    /// Whether the grammar names this node (anonymous tokens such as
    /// `|` are not named).
    pub is_named: bool,
}

/// A [`SyntaxNode`] as plain values.
pub struct SyntaxNodeView {
    pub kind: Seq<char>,
    pub field: Option<Seq<char>>,
    pub start: usize,
    pub end: usize,
    pub depth: usize,
    pub is_error: bool,
    pub is_named: bool,
}

impl View for SyntaxNode {
    type V = SyntaxNodeView;

    open spec fn view(&self) -> SyntaxNodeView {
        SyntaxNodeView {
            kind: self.kind@,
            field: match self.field {
                Some(f) => Some(f@),
                None => None,
            },
            start: self.start,
            end: self.end,
            depth: self.depth,
            is_error: self.is_error,
            is_named: self.is_named,
        }
    }
}

pub open spec fn nodes_view(v: Seq<SyntaxNode>) -> Seq<SyntaxNodeView> {
    v.map_values(|n: SyntaxNode| n@)
}

pub open spec fn opt_nodes_view(v: Option<Vec<SyntaxNode>>) -> Option<Seq<SyntaxNodeView>> {
    match v {
        Some(ns) => Some(nodes_view(ns@)),
        None => None,
    }
}

// ---- specification --------------------------------------------------

/// Every node's range lies in the input and on character boundaries.
pub open spec fn ranges_ok(ns: Seq<SyntaxNodeView>, b: Seq<u8>) -> bool {
    forall|k: int|
        0 <= k < ns.len() ==> {
            let n = #[trigger] ns[k];
            &&& n.start <= n.end <= b.len()
            &&& is_char_boundary(b, n.start as int)
            &&& is_char_boundary(b, n.end as int)
        }
}

pub open spec fn has_error(ns: Seq<SyntaxNodeView>) -> bool {
    exists|k: int| 0 <= k < ns.len() && (#[trigger] ns[k]).is_error
}

/// Index of the first node at or after `k` of kind `kind`.
pub open spec fn first_of_kind(ns: Seq<SyntaxNodeView>, kind: Seq<char>, k: int) -> Option<int>
    decreases ns.len() - k,
{
    if k < 0 || k >= ns.len() {
        None
    } else if ns[k].kind == kind {
        Some(k)
    } else {
        first_of_kind(ns, kind, k + 1)
    }
}

/// Whether `k` is still inside the subtree of `i` (scanning forward).
pub open spec fn in_subtree(ns: Seq<SyntaxNodeView>, i: int, k: int) -> bool {
    0 <= k < ns.len() && ns[k].depth > ns[i].depth
}

pub open spec fn is_child_of(ns: Seq<SyntaxNodeView>, i: int, k: int) -> bool {
    ns[k].depth == ns[i].depth + 1
}

/// First child of `i` at or after `k` filling field `f`.
pub open spec fn field_child_from(ns: Seq<SyntaxNodeView>, i: int, k: int, f: Seq<char>) -> Option<int>
    decreases ns.len() - k,
{
    if !in_subtree(ns, i, k) {
        None
    } else if is_child_of(ns, i, k) && ns[k].field == Some(f) {
        Some(k)
    } else {
        field_child_from(ns, i, k + 1, f)
    }
}

pub(crate) proof fn lemma_field_child_from(ns: Seq<SyntaxNodeView>, i: int, k: int, f: Seq<char>)
    ensures
        field_child_from(ns, i, k, f) matches Some(j) ==> k <= j < ns.len(),
    decreases ns.len() - k,
{
    if in_subtree(ns, i, k) && !(is_child_of(ns, i, k) && ns[k].field == Some(f)) {
        lemma_field_child_from(ns, i, k + 1, f);
    }
}

pub(crate) proof fn lemma_first_of_kind(ns: Seq<SyntaxNodeView>, kind: Seq<char>, k: int)
    ensures
        first_of_kind(ns, kind, k) matches Some(j) ==> k <= j < ns.len() && ns[j].kind == kind,
    decreases ns.len() - k,
{
    if 0 <= k < ns.len() && ns[k].kind != kind {
        lemma_first_of_kind(ns, kind, k + 1);
    }
}

pub open spec fn node_range(n: SyntaxNodeView) -> Range {
    Range { start: n.start, end: n.end }
}

/// One pair of matching outer `"` or `'` removed.
pub open spec fn strip_quotes(t: Seq<char>) -> Seq<char> {
    if t.len() >= 2 && ((t[0] == '"' && t.last() == '"') || (t[0] == '\'' && t.last() == '\'')) {
        t.subrange(1, t.len() - 1)
    } else {
        t
    }
}

/// The text a node contributes to the AST.
pub open spec fn node_text(g: Grammar, b: Seq<u8>, n: SyntaxNodeView) -> Seq<char> {
    let raw = text_of(b, n.start as int, n.end as int);
    match g {
        Grammar::Bash => raw,
        Grammar::Fish => strip_quotes(raw),
    }
}

pub open spec fn is_flag_text(g: Grammar, t: Seq<char>) -> bool {
    t.len() > 0 && t[0] == '-' && (g == Grammar::Bash || t.len() > 1)
}

pub open spec fn is_word_kind(g: Grammar, k: Seq<char>) -> bool {
    match g {
        Grammar::Bash => k == "word"@ || k == "string"@ || k == "raw_string"@,
        Grammar::Fish => k == "word"@ || k == "double_quote_string"@ || k == "single_quote_string"@
            || k == "integer"@ || k == "float"@ || k == "glob"@ || k == "home_dir_expansion"@
            || k == "variable_expansion"@ || k == "concatenation"@ || k == "command_substitution"@
            || k == "brace_expansion"@,
    }
}

/// Whether child `n` of a command is one of its words.
pub open spec fn takes_word(g: Grammar, n: SyntaxNodeView) -> bool {
    is_word_kind(g, n.kind) && (g == Grammar::Bash || n.field == Some("argument"@))
}

/// Word children of a command sorted into subcommand, flags and
/// positionals (node indices).
pub struct Roles {
    pub sub: Option<int>,
    pub flags: Seq<int>,
    pub pos: Seq<int>,
}

pub open spec fn no_roles() -> Roles {
    Roles { sub: None, flags: Seq::empty(), pos: Seq::empty() }
}

/// Sorts the word children of command `i` from node `k` on into `acc`.
pub open spec fn roles_from(
    g: Grammar,
    b: Seq<u8>,
    ns: Seq<SyntaxNodeView>,
    i: int,
    has_cmd: bool,
    k: int,
    acc: Roles,
) -> Roles
    decreases ns.len() - k,
{
    if !in_subtree(ns, i, k) {
        acc
    } else {
        let next = if is_child_of(ns, i, k) && takes_word(g, ns[k]) {
            let t = node_text(g, b, ns[k]);
            if is_flag_text(g, t) {
                Roles { flags: acc.flags.push(k), ..acc }
            } else if has_cmd && acc.sub is None {
                Roles { sub: Some(k), ..acc }
            } else {
                Roles { pos: acc.pos.push(k), ..acc }
            }
        } else {
            acc
        };
        roles_from(g, b, ns, i, has_cmd, k + 1, next)
    }
}

/// `f` is the flag written `t` at `range`: `--name[=value]` is long,
/// `-name[=value]` short; the body splits at its first `=`.
pub open spec fn flag_text_matches(t: Seq<char>, range: Range, f: FlagNode) -> bool {
    let long = t.len() >= 2 && t[0] == '-' && t[1] == '-';
    let body = if long { t.skip(2) } else { t.skip(1) };
    &&& f.range == range
    &&& f.is_long == long
    &&& match split_once(body, '=') {
        Some((name, value)) => f.name@ == name && f.value.is_some() && f.value.unwrap()@ == value,
        None => f.name@ == body && f.value.is_none(),
    }
}

/// `el` is the element built from command node `c`, preceded by the
/// separator node `sep`.
pub open spec fn element_from_nodes(
    g: Grammar,
    b: Seq<u8>,
    ns: Seq<SyntaxNodeView>,
    c: int,
    sep: Option<int>,
    el: PipelineElement,
) -> bool {
    let name = field_child_from(ns, c, c + 1, "name"@);
    let r = roles_from(g, b, ns, c, name is Some, c + 1, no_roles());
    &&& el.separator == (match sep {
        Some(s) => Some(Separator { kind: SeparatorKind::Pipe, range: node_range(ns[s]) }),
        None => None,
    })
    &&& (match name {
        Some(k) => el.command.is_some() && el.command.unwrap().range == node_range(ns[k])
            && el.command.unwrap().name@ == node_text(g, b, ns[k]),
        None => el.command.is_none(),
    })
    &&& (match r.sub {
        Some(k) => el.subcommand.is_some() && el.subcommand.unwrap().range == node_range(ns[k])
            && el.subcommand.unwrap().depth == 0 && el.subcommand.unwrap().name@ == node_text(
            g,
            b,
            ns[k],
        ),
        None => el.subcommand.is_none(),
    })
    &&& el.flags@.len() == r.flags.len()
    &&& forall|j: int|
        0 <= j < r.flags.len() ==> flag_text_matches(
            node_text(g, b, ns[r.flags[j]]),
            node_range(ns[r.flags[j]]),
            #[trigger] el.flags@[j],
        )
    &&& el.positionals@.len() == r.pos.len()
    &&& forall|j: int|
        0 <= j < r.pos.len() ==> {
            let p = #[trigger] el.positionals@[j];
            &&& p.value@ == node_text(g, b, ns[r.pos[j]])
            &&& p.kind == ArgKind::Unknown
            &&& p.range == node_range(ns[r.pos[j]])
        }
}


/// The node kind that wraps a pipeline.
pub open spec fn pipeline_kind(g: Grammar) -> Seq<char> {
    match g {
        Grammar::Bash => "pipeline"@,
        Grammar::Fish => "pipe"@,
    }
}

/// Progress of a pipeline walk: the `(separator, command)` node pairs
/// found so far and the separator waiting for the next command.
pub struct PipeState {
    pub items: Seq<(Option<int>, int)>,
    pub pending: Option<int>,
}

pub open spec fn pipe_start() -> PipeState {
    PipeState { items: Seq::empty(), pending: None }
}

/// Walks the children of pipeline node `p` from node `k` on; fish
/// descends into nested `pipe` children.
pub open spec fn pipe_from(g: Grammar, ns: Seq<SyntaxNodeView>, p: int, k: int, st: PipeState) -> PipeState
    decreases ns.len() - k,
{
    if !in_subtree(ns, p, k) {
        st
    } else if is_child_of(ns, p, k) {
        let kind = ns[k].kind;
        if kind == "|"@ || kind == "|&"@ {
            pipe_from(g, ns, p, k + 1, PipeState { pending: Some(k), ..st })
        } else if g == Grammar::Fish && kind == "pipe"@ {
            pipe_from(g, ns, p, k + 1, pipe_from(g, ns, k, k + 1, st))
        } else if kind == "command"@ {
            pipe_from(g, ns, p, k + 1, PipeState { items: st.items.push((st.pending, k)), pending: None })
        } else {
            pipe_from(g, ns, p, k + 1, st)
        }
    } else {
        pipe_from(g, ns, p, k + 1, st)
    }
}

/// Whether command node `c` yields an element with nothing in it.
pub open spec fn command_is_blank(g: Grammar, b: Seq<u8>, ns: Seq<SyntaxNodeView>, c: int) -> bool {
    let name = field_child_from(ns, c, c + 1, "name"@);
    let r = roles_from(g, b, ns, c, name is Some, c + 1, no_roles());
    name is None && r.sub is None && r.flags.len() == 0 && r.pos.len() == 0
}

/// `ast` is the AST the walk makes of the nodes `ns` of input `b`.
pub open spec fn syntax_ast(g: Grammar, b: Seq<u8>, ns: Seq<SyntaxNodeView>, ast: CommandAst) -> bool {
    match first_of_kind(ns, pipeline_kind(g), 0) {
        Some(p) => {
            let st = pipe_from(g, ns, p, p + 1, pipe_start());
            &&& ast.errors@.len() == 0
            &&& ast.elements@.len() == st.items.len()
            &&& forall|j: int|
                0 <= j < st.items.len() ==> element_from_nodes(
                    g,
                    b,
                    ns,
                    st.items[j].1,
                    st.items[j].0,
                    #[trigger] ast.elements@[j],
                )
        },
        None => match first_of_kind(ns, "command"@, 0) {
            Some(c) => {
                &&& ast.errors@.len() == 0
                &&& if command_is_blank(g, b, ns, c) {
                    ast.elements@.len() == 0
                } else {
                    ast.elements@.len() == 1 && element_from_nodes(g, b, ns, c, None, ast.elements@[0])
                }
            },
            None => parsed_simple(b, ast),
        },
    }
}

/// `ast` is what parsing the input `s` (bytes `b`) with grammar `g`
/// gives when the grammar parser returned `nodes`: blank input gives
/// the empty AST; no tree, a tree whose ranges do not fit the input,
/// or a tree with an `ERROR` node gives the fallback parse; otherwise
/// the walk of the tree.
pub open spec fn parsed_with(
    g: Grammar,
    b: Seq<u8>,
    s: Seq<char>,
    nodes: Option<Seq<SyntaxNodeView>>,
    ast: CommandAst,
) -> bool {
    if seq_trim(s).len() == 0 {
        ast.elements@.len() == 0 && ast.errors@.len() == 0
    } else {
        match nodes {
            Some(ns) => if ranges_ok(ns, b) && !has_error(ns) {
                syntax_ast(g, b, ns, ast)
            } else {
                parsed_simple(b, ast)
            },
            None => parsed_simple(b, ast),
        }
    }
}

// ---- walking ----------------------------------------------------------

/// Whether byte offset `i` of `bytes` is a character boundary.
fn on_boundary(bytes: &[u8], i: usize) -> (r: bool)
    requires
        valid_utf8(bytes@),
        i <= bytes@.len(),
    ensures
        r == is_char_boundary(bytes@, i as int),
{
    if i == bytes.len() {
        proof {
            is_char_boundary_start_end_of_seq(bytes@);
        }
        true
    } else {
        proof {
            is_char_boundary_iff_not_is_continuation_byte(bytes@, i as int);
        }
        !(0x80 <= bytes[i] && bytes[i] <= 0xbf)
    }
}

/// Whether every node's range lies in `input` on character boundaries.
pub fn check_ranges(nodes: &Vec<SyntaxNode>, input: &str) -> (r: bool)
    ensures
        r == ranges_ok(nodes_view(nodes@), input.spec_bytes()),
{
    let bytes = input.as_bytes();
    let ghost b = input.spec_bytes();
    let ghost ns = nodes_view(nodes@);
    proof {
        encode_utf8_valid_utf8(input@);
    }
    let mut k: usize = 0;
    while k < nodes.len()
        invariant
            bytes@ == b,
            b == input.spec_bytes(),
            valid_utf8(b),
            ns == nodes_view(nodes@),
            k <= nodes@.len(),
            forall|j: int|
                0 <= j < k ==> {
                    let n = #[trigger] ns[j];
                    &&& n.start <= n.end <= b.len()
                    &&& is_char_boundary(b, n.start as int)
                    &&& is_char_boundary(b, n.end as int)
                },
        decreases nodes@.len() - k,
    {
        let n = &nodes[k];
        assert(ns[k as int] == n@);
        if !(n.start <= n.end && n.end <= bytes.len()) {
            assert(!ranges_ok(ns, b)) by {
                assert(ns[k as int].end > b.len() || ns[k as int].start > ns[k as int].end);
            }
            return false;
        }
        if !on_boundary(bytes, n.start) || !on_boundary(bytes, n.end) {
            assert(!ranges_ok(ns, b)) by {
                assert(!is_char_boundary(b, ns[k as int].start as int) || !is_char_boundary(b, ns[k as int].end as int));
            }
            return false;
        }
        k += 1;
    }
    true
}

/// Whether some node is an `ERROR` node.
pub fn has_error_node(nodes: &Vec<SyntaxNode>) -> (r: bool)
    ensures
        r == has_error(nodes_view(nodes@)),
{
    let ghost ns = nodes_view(nodes@);
    let mut k: usize = 0;
    while k < nodes.len()
        invariant
            ns == nodes_view(nodes@),
            k <= nodes@.len(),
            forall|j: int| 0 <= j < k ==> !(#[trigger] ns[j]).is_error,
        decreases nodes@.len() - k,
    {
        if nodes[k].is_error {
            assert(ns[k as int].is_error);
            return true;
        }
        k += 1;
    }
    false
}

/// Index of the first node of kind `kind`.
pub(crate) fn find_kind(nodes: &Vec<SyntaxNode>, kind: &str) -> (r: Option<usize>)
    ensures
        r matches Some(j) ==> j < nodes@.len(),
        match first_of_kind(nodes_view(nodes@), kind@, 0) {
            Some(j) => r == Some(j as usize),
            None => r is None,
        },
{
    let ghost ns = nodes_view(nodes@);
    proof {
        lemma_first_of_kind(ns, kind@, 0);
    }
    let mut k: usize = 0;
    while k < nodes.len()
        invariant
            ns == nodes_view(nodes@),
            k <= nodes@.len(),
            first_of_kind(ns, kind@, 0) == first_of_kind(ns, kind@, k as int),
        decreases nodes@.len() - k,
    {
        if str_eq(nodes[k].kind.as_str(), kind) {
            return Some(k);
        }
        k += 1;
    }
    None
}

/// First child of node `i` filling field `f`.
pub(crate) fn field_child(nodes: &Vec<SyntaxNode>, i: usize, f: &str) -> (r: Option<usize>)
    requires
        i < nodes@.len(),
    ensures
        r matches Some(j) ==> i < j < nodes@.len(),
        match field_child_from(nodes_view(nodes@), i as int, i + 1, f@) {
            Some(j) => r == Some(j as usize),
            None => r is None,
        },
{
    let ghost ns = nodes_view(nodes@);
    proof {
        lemma_field_child_from(ns, i as int, i + 1, f@);
    }
    let d = nodes[i].depth;
    let len = nodes.len();
    let mut k: usize = i + 1;
    while k < nodes.len() && nodes[k].depth > d
        invariant
            ns == nodes_view(nodes@),
            i < k <= nodes@.len(),
            d == ns[i as int].depth,
            field_child_from(ns, i as int, i + 1, f@) == field_child_from(ns, i as int, k as int, f@),
        decreases nodes@.len() - k,
    {
        let n = &nodes[k];
        if n.depth - 1 == d {
            match &n.field {
                Some(name) => {
                    if str_eq(name.as_str(), f) {
                        return Some(k);
                    }
                },
                None => {},
            }
        }
        k += 1;
    }
    None
}

/// `t` without one pair of matching outer quotes.
pub(crate) fn strip_quote_chars(t: String) -> (r: String)
    ensures
        r@ == strip_quotes(t@),
{
    let v = chars_of(t.as_str());
    let n = v.len();
    if n >= 2 && ((v[0] == '"' && v[n - 1] == '"') || (v[0] == '\'' && v[n - 1] == '\'')) {
        string_from_chars(&v, 1, n - 1)
    } else {
        t
    }
}

/// The text node `n` contributes.
fn text_of_node(g: Grammar, input: &str, n: &SyntaxNode) -> (r: String)
    requires
        n.start <= n.end <= input.spec_bytes().len(),
        is_char_boundary(input.spec_bytes(), n.start as int),
        is_char_boundary(input.spec_bytes(), n.end as int),
    ensures
        r@ == node_text(g, input.spec_bytes(), n@),
{
    let raw = slice_string(input, n.start, n.end);
    match g {
        Grammar::Bash => raw,
        Grammar::Fish => strip_quote_chars(raw),
    }
}

/// The flag written `t` at `range`.
fn flag_from_text(t: &String, range: Range) -> (f: FlagNode)
    requires
        t@.len() > 0,
        t@[0] == '-',
    ensures
        flag_text_matches(t@, range, f),
{
    let v = chars_of(t.as_str());
    let is_long = v.len() >= 2 && v[1] == '-';
    let from: usize = if is_long { 2 } else { 1 };
    let body = string_from_chars(&v, from, v.len());
    let bv = chars_of(body.as_str());
    proof {
        assert(body@ =~= (if is_long { t@.skip(2) } else { t@.skip(1) }));
        lemma_first_index_of(bv@, '=');
    }
    match find_char(&bv, '=') {
        Some(eq) => {
            let name = string_from_chars(&bv, 0, eq);
            let value = string_from_chars(&bv, eq + 1, bv.len());
            proof {
                assert(name@ =~= bv@.take(eq as int));
                assert(value@ =~= bv@.skip(eq + 1));
            }
            FlagNode { name, value: Some(value), is_long, range }
        },
        None => FlagNode { name: body, value: None, is_long, range },
    }
}

fn is_word_kind_exec(g: Grammar, k: &str) -> (r: bool)
    ensures
        r == is_word_kind(g, k@),
{
    match g {
        Grammar::Bash => str_eq(k, "word") || str_eq(k, "string") || str_eq(k, "raw_string"),
        Grammar::Fish => str_eq(k, "word") || str_eq(k, "double_quote_string") || str_eq(
            k,
            "single_quote_string",
        ) || str_eq(k, "integer") || str_eq(k, "float") || str_eq(k, "glob") || str_eq(
            k,
            "home_dir_expansion",
        ) || str_eq(k, "variable_expansion") || str_eq(k, "concatenation") || str_eq(
            k,
            "command_substitution",
        ) || str_eq(k, "brace_expansion"),
    }
}

fn takes_word_exec(g: Grammar, n: &SyntaxNode) -> (r: bool)
    ensures
        r == takes_word(g, n@),
{
    if !is_word_kind_exec(g, n.kind.as_str()) {
        return false;
    }
    match g {
        Grammar::Bash => true,
        Grammar::Fish => match &n.field {
            Some(f) => str_eq(f.as_str(), "argument"),
            None => false,
        },
    }
}

fn is_flag_exec(g: Grammar, t: &String) -> (r: bool)
    ensures
        r == is_flag_text(g, t@),
{
    let v = chars_of(t.as_str());
    v.len() > 0 && v[0] == '-' && (g == Grammar::Bash || v.len() > 1)
}

/// Index facts about a role assignment: every index is a node.
pub open spec fn roles_in_bounds(r: Roles, n: int) -> bool {
    &&& (r.sub matches Some(j) ==> 0 <= j < n)
    &&& forall|j: int| 0 <= j < r.flags.len() ==> 0 <= #[trigger] r.flags[j] < n
    &&& forall|j: int| 0 <= j < r.pos.len() ==> 0 <= #[trigger] r.pos[j] < n
}

/// The pipeline element for command node `c`, after separator `sep`.
fn element_at(g: Grammar, input: &str, nodes: &Vec<SyntaxNode>, c: usize, sep: Option<usize>) -> (el: PipelineElement)
    requires
        c < nodes@.len(),
        sep matches Some(s) ==> s < nodes@.len(),
        ranges_ok(nodes_view(nodes@), input.spec_bytes()),
    ensures
        element_from_nodes(
            g,
            input.spec_bytes(),
            nodes_view(nodes@),
            c as int,
            match sep {
                Some(s) => Some(s as int),
                None => None,
            },
            el,
        ),
{
    let ghost ns = nodes_view(nodes@);
    let ghost b = input.spec_bytes();
    let separator = match sep {
        Some(s) => Some(Separator { kind: SeparatorKind::Pipe, range: Range::new(nodes[s].start, nodes[s].end) }),
        None => None,
    };
    let name = field_child(nodes, c, "name");
    proof {
        lemma_field_child_from(ns, c as int, c + 1, "name"@);
    }
    let command = match name {
        Some(k) => {
            let n = &nodes[k];
            assert(ns[k as int] == n@);
            let range = Range::new(n.start, n.end);
            assert(range == node_range(ns[k as int]));
            Some(CommandNode { name: text_of_node(g, input, n), range })
        },
        None => None,
    };
    let has_cmd = command.is_some();
    assert(name matches Some(j) ==> command.unwrap().range == node_range(ns[j as int]));
    let mut subcommand: Option<SubcommandNode> = None;
    let mut flags: Vec<FlagNode> = Vec::new();
    let mut positionals: Vec<PositionalNode> = Vec::new();
    let ghost mut acc = no_roles();
    let d = nodes[c].depth;
    let len = nodes.len();
    let mut k: usize = c + 1;
    while k < len && nodes[k].depth > d
        invariant
            ns == nodes_view(nodes@),
            b == input.spec_bytes(),
            ranges_ok(ns, b),
            len == nodes@.len(),
            c < k <= len,
            d == ns[c as int].depth,
            roles_from(g, b, ns, c as int, has_cmd, k as int, acc) == roles_from(
                g,
                b,
                ns,
                c as int,
                has_cmd,
                c + 1,
                no_roles(),
            ),
            roles_in_bounds(acc, len as int),
            match acc.sub {
                Some(j) => subcommand.is_some() && subcommand.unwrap().range == node_range(ns[j])
                    && subcommand.unwrap().depth == 0 && subcommand.unwrap().name@ == node_text(g, b, ns[j]),
                None => subcommand.is_none(),
            },
            flags@.len() == acc.flags.len(),
            forall|j: int|
                0 <= j < acc.flags.len() ==> flag_text_matches(
                    node_text(g, b, ns[acc.flags[j]]),
                    node_range(ns[acc.flags[j]]),
                    #[trigger] flags@[j],
                ),
            positionals@.len() == acc.pos.len(),
            forall|j: int|
                0 <= j < acc.pos.len() ==> {
                    let p = #[trigger] positionals@[j];
                    &&& p.value@ == node_text(g, b, ns[acc.pos[j]])
                    &&& p.kind == ArgKind::Unknown
                    &&& p.range == node_range(ns[acc.pos[j]])
                },
        decreases len - k,
    {
        let n = &nodes[k];
        assert(ns[k as int] == n@);
        if n.depth - 1 == d && takes_word_exec(g, n) {
            let t = text_of_node(g, input, n);
            let range = Range::new(n.start, n.end);
            if is_flag_exec(g, &t) {
                flags.push(flag_from_text(&t, range));
                proof {
                    acc = Roles { flags: acc.flags.push(k as int), ..acc };
                }
            } else if has_cmd && subcommand.is_none() {
                subcommand = Some(SubcommandNode { name: t, depth: 0, range });
                proof {
                    acc = Roles { sub: Some(k as int), ..acc };
                }
            } else {
                positionals.push(PositionalNode { value: t, kind: ArgKind::Unknown, range });
                proof {
                    acc = Roles { pos: acc.pos.push(k as int), ..acc };
                }
            }
        }
        k += 1;
    }
    assert(name matches Some(j) ==> command.unwrap().range == node_range(ns[j as int]));
    assert(!in_subtree(ns, c as int, k as int));
    assert(roles_from(g, b, ns, c as int, has_cmd, k as int, acc) == acc);
    assert(has_cmd == field_child_from(ns, c as int, c + 1, "name"@) is Some);
    PipelineElement { separator, command, subcommand, flags, positionals }
}

/// The exec elements and pending separator stand for walk state `st`.
pub open spec fn state_matches(
    g: Grammar,
    b: Seq<u8>,
    ns: Seq<SyntaxNodeView>,
    st: PipeState,
    elements: Seq<PipelineElement>,
    pending: Option<usize>,
) -> bool {
    &&& elements.len() == st.items.len()
    &&& forall|j: int|
        0 <= j < st.items.len() ==> element_from_nodes(
            g,
            b,
            ns,
            st.items[j].1,
            st.items[j].0,
            #[trigger] elements[j],
        )
    &&& st.pending == (match pending {
        Some(s) => Some(s as int),
        None => None,
    })
    &&& (pending matches Some(s) ==> s < ns.len())
}

/// Walks the children of pipeline node `p` into `elements`.
fn collect_pipe(
    g: Grammar,
    input: &str,
    nodes: &Vec<SyntaxNode>,
    p: usize,
    elements: &mut Vec<PipelineElement>,
    pending: &mut Option<usize>,
    Ghost(st): Ghost<PipeState>,
)
    requires
        p < nodes@.len(),
        ranges_ok(nodes_view(nodes@), input.spec_bytes()),
        state_matches(g, input.spec_bytes(), nodes_view(nodes@), st, old(elements)@, *old(pending)),
    ensures
        state_matches(
            g,
            input.spec_bytes(),
            nodes_view(nodes@),
            pipe_from(g, nodes_view(nodes@), p as int, p + 1, st),
            final(elements)@,
            *final(pending),
        ),
    decreases nodes@.len() - p,
{
    let ghost ns = nodes_view(nodes@);
    let ghost b = input.spec_bytes();
    let ghost mut cur = st;
    let d = nodes[p].depth;
    let len = nodes.len();
    let mut k: usize = p + 1;
    while k < len && nodes[k].depth > d
        invariant
            ns == nodes_view(nodes@),
            b == input.spec_bytes(),
            ranges_ok(ns, b),
            len == nodes@.len(),
            p < k <= len,
            d == ns[p as int].depth,
            pipe_from(g, ns, p as int, k as int, cur) == pipe_from(g, ns, p as int, p + 1, st),
            state_matches(g, b, ns, cur, elements@, *pending),
        decreases len - k,
    {
        let n = &nodes[k];
        assert(ns[k as int] == n@);
        if n.depth - 1 == d {
            let kind = n.kind.as_str();
            if str_eq(kind, "|") || str_eq(kind, "|&") {
                *pending = Some(k);
                proof {
                    cur = PipeState { pending: Some(k as int), ..cur };
                }
            } else if g == Grammar::Fish && str_eq(kind, "pipe") {
                collect_pipe(g, input, nodes, k, elements, pending, Ghost(cur));
                proof {
                    cur = pipe_from(g, ns, k as int, k + 1, cur);
                }
            } else if str_eq(kind, "command") {
                let el = element_at(g, input, nodes, k, *pending);
                let ghost before = elements@;
                elements.push(el);
                *pending = None;
                proof {
                    cur = PipeState { items: cur.items.push((cur.pending, k as int)), pending: None };
                    assert(elements@ == before.push(el));
                }
            }
        }
        k += 1;
    }
    assert(!in_subtree(ns, p as int, k as int));
}

/// The walk of a tree without `ERROR` nodes whose ranges fit the
/// input; `None` when it has neither a pipeline nor a command.
fn walk_tree(g: Grammar, input: &str, nodes: &Vec<SyntaxNode>) -> (r: Option<CommandAst>)
    requires
        ranges_ok(nodes_view(nodes@), input.spec_bytes()),
    ensures
        match r {
            Some(ast) => syntax_ast(g, input.spec_bytes(), nodes_view(nodes@), ast),
            None => first_of_kind(nodes_view(nodes@), pipeline_kind(g), 0) is None
                && first_of_kind(nodes_view(nodes@), "command"@, 0) is None,
        },
{
    let ghost ns = nodes_view(nodes@);
    let ghost b = input.spec_bytes();
    let pk = match g {
        Grammar::Bash => "pipeline",
        Grammar::Fish => "pipe",
    };
    assert(pk@ == pipeline_kind(g));
    proof {
        lemma_first_of_kind(ns, pipeline_kind(g), 0);
        lemma_first_of_kind(ns, "command"@, 0);
    }
    let nlen = nodes.len();
    assert(ns.len() == nlen);
    match find_kind(nodes, pk) {
        Some(p) => {
            let mut elements: Vec<PipelineElement> = Vec::new();
            let mut pending: Option<usize> = None;
            collect_pipe(g, input, nodes, p, &mut elements, &mut pending, Ghost(pipe_start()));
            let ghost st = pipe_from(g, ns, p as int, p + 1, pipe_start());
            assert(state_matches(g, b, ns, st, elements@, pending));
            assert(first_of_kind(ns, pipeline_kind(g), 0) == Some(p as int));
            let ast = CommandAst { elements, errors: Vec::new() };
            assert(ast.elements@.len() == st.items.len());
            Some(ast)
        },
        None => match find_kind(nodes, "command") {
            Some(c) => {
                let el = element_at(g, input, nodes, c, None);
                let ast = CommandAst::from_element(el);
                Some(ast)
            },
            None => None,
        },
    }
}

/// The AST of `input` from the grammar parser's answer `nodes`, the
/// tree's nodes in pre-order (`None` when the parser gave no tree).
pub fn ast_from_syntax(g: Grammar, input: &str, nodes: Option<Vec<SyntaxNode>>) -> (ast: CommandAst)
    ensures
        parsed_with(g, input.spec_bytes(), input@, opt_nodes_view(nodes), ast),
{
    if trimmed_char_count(input) == 0 {
        return CommandAst::empty();
    }
    match nodes {
        Some(ns) => {
            if !check_ranges(&ns, input) || has_error_node(&ns) {
                return parse_simple(input);
            }
            match walk_tree(g, input, &ns) {
                Some(ast) => ast,
                None => parse_simple(input),
            }
        },
        None => parse_simple(input),
    }
}

} // verus!
