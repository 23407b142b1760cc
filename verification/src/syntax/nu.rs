//! Nushell command lines from a tree-sitter-nu syntax tree.
//!
//! The grammar wraps stages in a `pipeline` whose `pipe_element`
//! children each hold a `command`, separated by `|` tokens. In a
//! command, the `head` field carries the command name (`^cmd` forces
//! an external command: the `^` marker is skipped for the named
//! child beside it; a bare `^` names nothing); failing that, the first
//! `cmd_identifier` child. `long_flag` / `short_flag` children are
//! flags whose `name` and `value` fields give their parts; value
//! children (`val_string`, `val_number`, …) are, in order, the
//! subcommand (the first one not starting with `-`, when there is a
//! command) and positionals. Values and flag values drop one pair of
//! matching outer quotes. A pipeline with no command falls back to the
//! first `command` node, and the rest as in [`super::tree`].

use vstd::prelude::*;
use vstd::string::StringSliceAdditionalSpecFns;
use vstd::utf8::is_char_boundary;
use crate::ast::{
    element_is_blank, ArgKind, CommandAst, CommandNode, FlagNode, PipelineElement, PositionalNode,
    Range, Separator, SeparatorKind, SubcommandNode,
};
use crate::parse::{parse_simple, parsed_simple};
use crate::syntax::tree::{
    check_ranges, field_child, field_child_from, find_kind, first_of_kind, has_error, has_error_node,
    in_subtree, is_child_of, lemma_field_child_from, lemma_first_of_kind, node_range, nodes_view,
    opt_nodes_view, ranges_ok, strip_quote_chars, strip_quotes, SyntaxNode, SyntaxNodeView,
};
use crate::text::{chars_of, seq_trim, slice_string, str_eq, text_of, trimmed_char_count};

verus! {

pub open spec fn raw(b: Seq<u8>, n: SyntaxNodeView) -> Seq<char> {
    text_of(b, n.start as int, n.end as int)
}

/// First child of `i` at or after `k` of kind `kind`.
pub open spec fn kind_child_from(ns: Seq<SyntaxNodeView>, i: int, k: int, kind: Seq<char>) -> Option<int>
    decreases ns.len() - k,
{
    if !in_subtree(ns, i, k) {
        None
    } else if is_child_of(ns, i, k) && ns[k].kind == kind {
        Some(k)
    } else {
        kind_child_from(ns, i, k + 1, kind)
    }
}

/// First named child of `i` at or after `k`.
pub open spec fn named_child_from(ns: Seq<SyntaxNodeView>, i: int, k: int) -> Option<int>
    decreases ns.len() - k,
{
    if !in_subtree(ns, i, k) {
        None
    } else if is_child_of(ns, i, k) && ns[k].is_named {
        Some(k)
    } else {
        named_child_from(ns, i, k + 1)
    }
}

/// The node naming command `c` through its `head` field.
pub open spec fn head_name(ns: Seq<SyntaxNodeView>, b: Seq<u8>, c: int) -> Option<int> {
    match field_child_from(ns, c, c + 1, "head"@) {
        Some(h) => {
            let n = if ns[h].is_named {
                h
            } else {
                match named_child_from(ns, h, h + 1) {
                    Some(x) => x,
                    None => h,
                }
            };
            if raw(b, ns[n]) != "^"@ { Some(n) } else { None }
        },
        None => None,
    }
}

/// The node naming command `c`.
pub open spec fn command_name_node(ns: Seq<SyntaxNodeView>, b: Seq<u8>, c: int) -> Option<int> {
    match head_name(ns, b, c) {
        Some(n) => Some(n),
        None => kind_child_from(ns, c, c + 1, "cmd_identifier"@),
    }
}

pub open spec fn is_value_kind(k: Seq<char>) -> bool {
    k == "val_string"@ || k == "val_number"@ || k == "val_variable"@ || k == "val_interpolated"@
        || k == "val_filesize"@ || k == "val_duration"@ || k == "val_bool"@ || k == "val_date"@
        || k == "val_list"@ || k == "val_record"@ || k == "val_table"@ || k == "val_range"@
}

/// Children of a command sorted into subcommand, flags (with whether
/// they are long) and positionals (node indices).
pub struct NuRoles {
    pub sub: Option<int>,
    pub flags: Seq<(int, bool)>,
    pub pos: Seq<int>,
}

pub open spec fn no_nu_roles() -> NuRoles {
    NuRoles { sub: None, flags: Seq::empty(), pos: Seq::empty() }
}

pub open spec fn nu_roles_from(
    ns: Seq<SyntaxNodeView>,
    b: Seq<u8>,
    c: int,
    has_cmd: bool,
    k: int,
    acc: NuRoles,
) -> NuRoles
    decreases ns.len() - k,
{
    if !in_subtree(ns, c, k) {
        acc
    } else {
        let next = if !is_child_of(ns, c, k) {
            acc
        } else if ns[k].kind == "long_flag"@ {
            NuRoles { flags: acc.flags.push((k, true)), ..acc }
        } else if ns[k].kind == "short_flag"@ {
            NuRoles { flags: acc.flags.push((k, false)), ..acc }
        } else if is_value_kind(ns[k].kind) {
            let u = strip_quotes(raw(b, ns[k]));
            if has_cmd && acc.sub is None && !(u.len() > 0 && u[0] == '-') {
                NuRoles { sub: Some(k), ..acc }
            } else {
                NuRoles { pos: acc.pos.push(k), ..acc }
            }
        } else {
            acc
        };
        nu_roles_from(ns, b, c, has_cmd, k + 1, next)
    }
}

/// `f` is the flag of flag node `k`: its `name` field's text (empty
/// without one) and its `value` field's text, unquoted.
pub open spec fn nu_flag_matches(ns: Seq<SyntaxNodeView>, b: Seq<u8>, k: int, is_long: bool, f: FlagNode) -> bool {
    &&& f.range == node_range(ns[k])
    &&& f.is_long == is_long
    &&& f.name@ == match field_child_from(ns, k, k + 1, "name"@) {
        Some(x) => raw(b, ns[x]),
        None => Seq::empty(),
    }
    &&& match field_child_from(ns, k, k + 1, "value"@) {
        Some(v) => f.value.is_some() && f.value.unwrap()@ == strip_quotes(raw(b, ns[v])),
        None => f.value.is_none(),
    }
}

/// `el` is the element built from command node `c` after separator
/// node `sep`.
pub open spec fn nu_element_from_nodes(
    ns: Seq<SyntaxNodeView>,
    b: Seq<u8>,
    c: int,
    sep: Option<int>,
    el: PipelineElement,
) -> bool {
    let name = command_name_node(ns, b, c);
    let r = nu_roles_from(ns, b, c, name is Some, c + 1, no_nu_roles());
    &&& el.separator == (match sep {
        Some(s) => Some(Separator { kind: SeparatorKind::Pipe, range: node_range(ns[s]) }),
        None => None,
    })
    &&& (match name {
        Some(n) => el.command.is_some() && el.command.unwrap().range == node_range(ns[n])
            && el.command.unwrap().name@ == raw(b, ns[n]),
        None => el.command.is_none(),
    })
    &&& (match r.sub {
        Some(k) => el.subcommand.is_some() && el.subcommand.unwrap().range == node_range(ns[k])
            && el.subcommand.unwrap().depth == 0 && el.subcommand.unwrap().name@ == strip_quotes(
            raw(b, ns[k]),
        ),
        None => el.subcommand.is_none(),
    })
    &&& el.flags@.len() == r.flags.len()
    &&& forall|j: int|
        0 <= j < r.flags.len() ==> nu_flag_matches(ns, b, r.flags[j].0, r.flags[j].1, #[trigger] el.flags@[j])
    &&& el.positionals@.len() == r.pos.len()
    &&& forall|j: int|
        0 <= j < r.pos.len() ==> {
            let p = #[trigger] el.positionals@[j];
            &&& p.value@ == strip_quotes(raw(b, ns[r.pos[j]]))
            &&& p.kind == ArgKind::Unknown
            &&& p.range == node_range(ns[r.pos[j]])
        }
}

/// Progress of a pipeline walk: `(separator, command)` node pairs and
/// the separator waiting for the next command.
pub struct NuPipe {
    pub items: Seq<(Option<int>, int)>,
    pub pending: Option<int>,
}

pub open spec fn nu_pipe_from(ns: Seq<SyntaxNodeView>, p: int, k: int, st: NuPipe) -> NuPipe
    decreases ns.len() - k,
{
    if !in_subtree(ns, p, k) {
        st
    } else {
        let next = if !is_child_of(ns, p, k) {
            st
        } else if ns[k].kind == "|"@ {
            NuPipe { pending: Some(k), ..st }
        } else if ns[k].kind == "pipe_element"@ {
            match kind_child_from(ns, k, k + 1, "command"@) {
                Some(c) => NuPipe { items: st.items.push((st.pending, c)), pending: None },
                None => st,
            }
        } else {
            st
        };
        nu_pipe_from(ns, p, k + 1, next)
    }
}

pub open spec fn nu_command_is_blank(ns: Seq<SyntaxNodeView>, b: Seq<u8>, c: int) -> bool {
    let name = command_name_node(ns, b, c);
    let r = nu_roles_from(ns, b, c, name is Some, c + 1, no_nu_roles());
    name is None && r.sub is None && r.flags.len() == 0 && r.pos.len() == 0
}

/// `ast` is the walk of the nodes `ns` of input `b`.
pub open spec fn nu_syntax_ast(b: Seq<u8>, ns: Seq<SyntaxNodeView>, ast: CommandAst) -> bool {
    let piped = match first_of_kind(ns, "pipeline"@, 0) {
        Some(p) => nu_pipe_from(ns, p, p + 1, NuPipe { items: Seq::empty(), pending: None }).items,
        None => Seq::empty(),
    };
    if piped.len() > 0 {
        &&& ast.errors@.len() == 0
        &&& ast.elements@.len() == piped.len()
        &&& forall|j: int|
            0 <= j < piped.len() ==> nu_element_from_nodes(ns, b, piped[j].1, piped[j].0, #[trigger] ast.elements@[j])
    } else {
        match first_of_kind(ns, "command"@, 0) {
            Some(c) => {
                &&& ast.errors@.len() == 0
                &&& if nu_command_is_blank(ns, b, c) {
                    ast.elements@.len() == 0
                } else {
                    ast.elements@.len() == 1 && nu_element_from_nodes(ns, b, c, None, ast.elements@[0])
                }
            },
            None => parsed_simple(b, ast),
        }
    }
}

/// `ast` is what parsing input `s` (bytes `b`) gives when
/// tree-sitter-nu returned `nodes`; the same rules as
/// [`super::tree::parsed_with`].
pub open spec fn nu_parsed_with(b: Seq<u8>, s: Seq<char>, nodes: Option<Seq<SyntaxNodeView>>, ast: CommandAst) -> bool {
    if seq_trim(s).len() == 0 {
        ast.elements@.len() == 0 && ast.errors@.len() == 0
    } else {
        match nodes {
            Some(ns) => if ranges_ok(ns, b) && !has_error(ns) {
                nu_syntax_ast(b, ns, ast)
            } else {
                parsed_simple(b, ast)
            },
            None => parsed_simple(b, ast),
        }
    }
}

// ---- walking ----------------------------------------------------------

proof fn lemma_kind_child_from(ns: Seq<SyntaxNodeView>, i: int, k: int, kind: Seq<char>)
    ensures
        kind_child_from(ns, i, k, kind) matches Some(j) ==> k <= j < ns.len(),
    decreases ns.len() - k,
{
    if in_subtree(ns, i, k) && !(is_child_of(ns, i, k) && ns[k].kind == kind) {
        lemma_kind_child_from(ns, i, k + 1, kind);
    }
}

proof fn lemma_named_child_from(ns: Seq<SyntaxNodeView>, i: int, k: int)
    ensures
        named_child_from(ns, i, k) matches Some(j) ==> k <= j < ns.len(),
    decreases ns.len() - k,
{
    if in_subtree(ns, i, k) && !(is_child_of(ns, i, k) && ns[k].is_named) {
        lemma_named_child_from(ns, i, k + 1);
    }
}

/// First child of node `i` of kind `kind`.
fn kind_child(nodes: &Vec<SyntaxNode>, i: usize, kind: &str) -> (r: Option<usize>)
    requires
        i < nodes@.len(),
    ensures
        r matches Some(j) ==> i < j < nodes@.len(),
        match kind_child_from(nodes_view(nodes@), i as int, i + 1, kind@) {
            Some(j) => r == Some(j as usize),
            None => r is None,
        },
{
    let ghost ns = nodes_view(nodes@);
    proof {
        lemma_kind_child_from(ns, i as int, i + 1, kind@);
    }
    let d = nodes[i].depth;
    let len = nodes.len();
    let mut k: usize = i + 1;
    while k < len && nodes[k].depth > d
        invariant
            ns == nodes_view(nodes@),
            len == nodes@.len(),
            i < k <= len,
            d == ns[i as int].depth,
            kind_child_from(ns, i as int, i + 1, kind@) == kind_child_from(ns, i as int, k as int, kind@),
        decreases len - k,
    {
        if nodes[k].depth - 1 == d && str_eq(nodes[k].kind.as_str(), kind) {
            return Some(k);
        }
        k += 1;
    }
    None
}

/// First named child of node `i`.
fn named_child(nodes: &Vec<SyntaxNode>, i: usize) -> (r: Option<usize>)
    requires
        i < nodes@.len(),
    ensures
        r matches Some(j) ==> i < j < nodes@.len(),
        match named_child_from(nodes_view(nodes@), i as int, i + 1) {
            Some(j) => r == Some(j as usize),
            None => r is None,
        },
{
    let ghost ns = nodes_view(nodes@);
    proof {
        lemma_named_child_from(ns, i as int, i + 1);
    }
    let d = nodes[i].depth;
    let len = nodes.len();
    let mut k: usize = i + 1;
    while k < len && nodes[k].depth > d
        invariant
            ns == nodes_view(nodes@),
            len == nodes@.len(),
            i < k <= len,
            d == ns[i as int].depth,
            named_child_from(ns, i as int, i + 1) == named_child_from(ns, i as int, k as int),
        decreases len - k,
    {
        if nodes[k].depth - 1 == d && nodes[k].is_named {
            return Some(k);
        }
        k += 1;
    }
    None
}

fn raw_text(input: &str, n: &SyntaxNode) -> (r: String)
    requires
        n.start <= n.end <= input.spec_bytes().len(),
        is_char_boundary(input.spec_bytes(), n.start as int),
        is_char_boundary(input.spec_bytes(), n.end as int),
    ensures
        r@ == raw(input.spec_bytes(), n@),
{
    slice_string(input, n.start, n.end)
}

/// The node naming command `c`.
fn command_name(input: &str, nodes: &Vec<SyntaxNode>, c: usize) -> (r: Option<usize>)
    requires
        c < nodes@.len(),
        ranges_ok(nodes_view(nodes@), input.spec_bytes()),
    ensures
        r matches Some(j) ==> j < nodes@.len(),
        command_name_node(nodes_view(nodes@), input.spec_bytes(), c as int) matches Some(j) ==> 0 <= j < nodes@.len(),
        match command_name_node(nodes_view(nodes@), input.spec_bytes(), c as int) {
            Some(j) => r == Some(j as usize),
            None => r is None,
        },
{
    let ghost ns = nodes_view(nodes@);
    let ghost b = input.spec_bytes();
    let nlen = nodes.len();
    assert(ns.len() == nlen);
    proof {
        lemma_field_child_from(ns, c as int, c + 1, "head"@);
    }
    let from_head = match field_child(nodes, c, "head") {
        Some(h) => {
            assert(ns[h as int] == nodes@[h as int]@);
            let n = if nodes[h].is_named {
                h
            } else {
                proof {
                    lemma_named_child_from(ns, h as int, h + 1);
                }
                match named_child(nodes, h) {
                    Some(x) => x,
                    None => h,
                }
            };
            assert(ns[n as int] == nodes@[n as int]@);
            let t = raw_text(input, &nodes[n]);
            if str_eq(t.as_str(), "^") {
                None
            } else {
                Some(n)
            }
        },
        None => None,
    };
    match from_head {
        Some(n) => Some(n),
        None => {
            proof {
                lemma_kind_child_from(ns, c as int, c + 1, "cmd_identifier"@);
            }
            kind_child(nodes, c, "cmd_identifier")
        },
    }
}

fn is_value_kind_exec(k: &str) -> (r: bool)
    ensures
        r == is_value_kind(k@),
{
    str_eq(k, "val_string") || str_eq(k, "val_number") || str_eq(k, "val_variable") || str_eq(
        k,
        "val_interpolated",
    ) || str_eq(k, "val_filesize") || str_eq(k, "val_duration") || str_eq(k, "val_bool")
        || str_eq(k, "val_date") || str_eq(k, "val_list") || str_eq(k, "val_record") || str_eq(
        k,
        "val_table",
    ) || str_eq(k, "val_range")
}

/// The flag of flag node `k`.
fn nu_flag(input: &str, nodes: &Vec<SyntaxNode>, k: usize, is_long: bool) -> (f: FlagNode)
    requires
        k < nodes@.len(),
        ranges_ok(nodes_view(nodes@), input.spec_bytes()),
    ensures
        nu_flag_matches(nodes_view(nodes@), input.spec_bytes(), k as int, is_long, f),
{
    let ghost ns = nodes_view(nodes@);
    let nlen = nodes.len();
    assert(ns.len() == nlen);
    proof {
        lemma_field_child_from(ns, k as int, k + 1, "name"@);
        lemma_field_child_from(ns, k as int, k + 1, "value"@);
    }
    let name_child = field_child(nodes, k, "name");
    let name = match name_child {
        Some(x) => {
            assert(ns[x as int] == nodes@[x as int]@);
            raw_text(input, &nodes[x])
        },
        None => {
            let e = String::new();
            assert(e@ == Seq::<char>::empty());
            e
        },
    };
    assert(name@ == match field_child_from(ns, k as int, k + 1, "name"@) {
        Some(x) => raw(input.spec_bytes(), ns[x]),
        None => Seq::empty(),
    });
    let value = match field_child(nodes, k, "value") {
        Some(v) => {
            assert(ns[v as int] == nodes@[v as int]@);
            Some(strip_quote_chars(raw_text(input, &nodes[v])))
        },
        None => None,
    };
    assert(ns[k as int] == nodes@[k as int]@);
    FlagNode { name, value, is_long, range: Range::new(nodes[k].start, nodes[k].end) }
}

pub open spec fn nu_roles_in_bounds(r: NuRoles, n: int) -> bool {
    &&& (r.sub matches Some(j) ==> 0 <= j < n)
    &&& forall|j: int| 0 <= j < r.flags.len() ==> 0 <= (#[trigger] r.flags[j]).0 < n
    &&& forall|j: int| 0 <= j < r.pos.len() ==> 0 <= #[trigger] r.pos[j] < n
}

/// The pipeline element for command node `c`, after separator `sep`.
fn nu_element_at(input: &str, nodes: &Vec<SyntaxNode>, c: usize, sep: Option<usize>) -> (el: PipelineElement)
    requires
        c < nodes@.len(),
        sep matches Some(s) ==> s < nodes@.len(),
        ranges_ok(nodes_view(nodes@), input.spec_bytes()),
    ensures
        nu_element_from_nodes(
            nodes_view(nodes@),
            input.spec_bytes(),
            c as int,
            match sep {
                Some(s) => Some(s as int),
                None => None,
            },
            el,
        ),
{
    let ghost ns = nodes_view(nodes@);
    let ghost b = input.spec_bytes();
    let separator = match sep {
        Some(s) => Some(Separator { kind: SeparatorKind::Pipe, range: Range::new(nodes[s].start, nodes[s].end) }),
        None => None,
    };
    let name = command_name(input, nodes, c);
    let command = match name {
        Some(n) => {
            assert(ns[n as int] == nodes@[n as int]@);
            let range = Range::new(nodes[n].start, nodes[n].end);
            Some(CommandNode { name: raw_text(input, &nodes[n]), range })
        },
        None => None,
    };
    let has_cmd = command.is_some();
    let mut subcommand: Option<SubcommandNode> = None;
    let mut flags: Vec<FlagNode> = Vec::new();
    let mut positionals: Vec<PositionalNode> = Vec::new();
    let ghost mut acc = no_nu_roles();
    let d = nodes[c].depth;
    let len = nodes.len();
    let mut k: usize = c + 1;
    while k < len && nodes[k].depth > d
        invariant
            ns == nodes_view(nodes@),
            b == input.spec_bytes(),
            ranges_ok(ns, b),
            len == nodes@.len(),
            c < k <= len,
            d == ns[c as int].depth,
            nu_roles_from(ns, b, c as int, has_cmd, k as int, acc) == nu_roles_from(
                ns,
                b,
                c as int,
                has_cmd,
                c + 1,
                no_nu_roles(),
            ),
            nu_roles_in_bounds(acc, len as int),
            match acc.sub {
                Some(j) => subcommand.is_some() && subcommand.unwrap().range == node_range(ns[j])
                    && subcommand.unwrap().depth == 0 && subcommand.unwrap().name@ == strip_quotes(raw(b, ns[j])),
                None => subcommand.is_none(),
            },
            flags@.len() == acc.flags.len(),
            forall|j: int|
                0 <= j < acc.flags.len() ==> nu_flag_matches(ns, b, acc.flags[j].0, acc.flags[j].1, #[trigger] flags@[j]),
            positionals@.len() == acc.pos.len(),
            forall|j: int|
                0 <= j < acc.pos.len() ==> {
                    let p = #[trigger] positionals@[j];
                    &&& p.value@ == strip_quotes(raw(b, ns[acc.pos[j]]))
                    &&& p.kind == ArgKind::Unknown
                    &&& p.range == node_range(ns[acc.pos[j]])
                },
        decreases len - k,
    {
        let n = &nodes[k];
        assert(ns[k as int] == n@);
        if n.depth - 1 == d {
            let kind = n.kind.as_str();
            if str_eq(kind, "long_flag") {
                flags.push(nu_flag(input, nodes, k, true));
                proof {
                    acc = NuRoles { flags: acc.flags.push((k as int, true)), ..acc };
                }
            } else if str_eq(kind, "short_flag") {
                flags.push(nu_flag(input, nodes, k, false));
                proof {
                    acc = NuRoles { flags: acc.flags.push((k as int, false)), ..acc };
                }
            } else if is_value_kind_exec(kind) {
                let u = strip_quote_chars(raw_text(input, n));
                let uv = chars_of(u.as_str());
                let range = Range::new(n.start, n.end);
                if has_cmd && subcommand.is_none() && !(uv.len() > 0 && uv[0] == '-') {
                    subcommand = Some(SubcommandNode { name: u, depth: 0, range });
                    proof {
                        acc = NuRoles { sub: Some(k as int), ..acc };
                    }
                } else {
                    positionals.push(PositionalNode { value: u, kind: ArgKind::Unknown, range });
                    proof {
                        acc = NuRoles { pos: acc.pos.push(k as int), ..acc };
                    }
                }
            }
        }
        k += 1;
    }
    assert(!in_subtree(ns, c as int, k as int));
    PipelineElement { separator, command, subcommand, flags, positionals }
}

/// The elements of pipeline node `p`.
fn nu_pipeline(input: &str, nodes: &Vec<SyntaxNode>, p: usize) -> (r: Vec<PipelineElement>)
    requires
        p < nodes@.len(),
        ranges_ok(nodes_view(nodes@), input.spec_bytes()),
    ensures
        ({
            let items = nu_pipe_from(
                nodes_view(nodes@),
                p as int,
                p + 1,
                NuPipe { items: Seq::empty(), pending: None },
            ).items;
            &&& r@.len() == items.len()
            &&& forall|j: int|
                0 <= j < items.len() ==> nu_element_from_nodes(
                    nodes_view(nodes@),
                    input.spec_bytes(),
                    items[j].1,
                    items[j].0,
                    #[trigger] r@[j],
                )
        }),
{
    let ghost ns = nodes_view(nodes@);
    let ghost b = input.spec_bytes();
    let ghost start = NuPipe { items: Seq::empty(), pending: None };
    let ghost mut cur = start;
    let mut elements: Vec<PipelineElement> = Vec::new();
    let mut pending: Option<usize> = None;
    let d = nodes[p].depth;
    let len = nodes.len();
    let mut k: usize = p + 1;
    while k < len && nodes[k].depth > d
        invariant
            ns == nodes_view(nodes@),
            b == input.spec_bytes(),
            ranges_ok(ns, b),
            len == nodes@.len(),
            p < k <= len,
            d == ns[p as int].depth,
            nu_pipe_from(ns, p as int, k as int, cur) == nu_pipe_from(ns, p as int, p + 1, start),
            elements@.len() == cur.items.len(),
            forall|j: int|
                0 <= j < cur.items.len() ==> nu_element_from_nodes(ns, b, cur.items[j].1, cur.items[j].0, #[trigger] elements@[j]),
            cur.pending == (match pending {
                Some(s) => Some(s as int),
                None => None,
            }),
            pending matches Some(s) ==> s < len,
        decreases len - k,
    {
        let n = &nodes[k];
        assert(ns[k as int] == n@);
        if n.depth - 1 == d {
            let kind = n.kind.as_str();
            if str_eq(kind, "|") {
                pending = Some(k);
                proof {
                    cur = NuPipe { pending: Some(k as int), ..cur };
                }
            } else if str_eq(kind, "pipe_element") {
                proof {
                    lemma_kind_child_from(ns, k as int, k + 1, "command"@);
                }
                match kind_child(nodes, k, "command") {
                    Some(c) => {
                        let el = nu_element_at(input, nodes, c, pending);
                        let ghost before = elements@;
                        elements.push(el);
                        pending = None;
                        proof {
                            cur = NuPipe { items: cur.items.push((cur.pending, c as int)), pending: None };
                            assert(elements@ == before.push(el));
                        }
                    },
                    None => {},
                }
            }
        }
        k += 1;
    }
    assert(!in_subtree(ns, p as int, k as int));
    elements
}

fn nu_walk(input: &str, nodes: &Vec<SyntaxNode>) -> (r: Option<CommandAst>)
    requires
        ranges_ok(nodes_view(nodes@), input.spec_bytes()),
    ensures
        match r {
            Some(ast) => nu_syntax_ast(input.spec_bytes(), nodes_view(nodes@), ast),
            None => {
                let ns = nodes_view(nodes@);
                &&& first_of_kind(ns, "command"@, 0) is None
                &&& match first_of_kind(ns, "pipeline"@, 0) {
                    Some(p) => nu_pipe_from(ns, p, p + 1, NuPipe { items: Seq::empty(), pending: None }).items.len() == 0,
                    None => true,
                }
            },
        },
{
    let ghost ns = nodes_view(nodes@);
    let nlen = nodes.len();
    assert(ns.len() == nlen);
    proof {
        lemma_first_of_kind(ns, "pipeline"@, 0);
        lemma_first_of_kind(ns, "command"@, 0);
    }
    match find_kind(nodes, "pipeline") {
        Some(p) => {
            let elements = nu_pipeline(input, nodes, p);
            if elements.len() > 0 {
                return Some(CommandAst { elements, errors: Vec::new() });
            }
        },
        None => {},
    }
    match find_kind(nodes, "command") {
        Some(c) => {
            let el = nu_element_at(input, nodes, c, None);
            Some(CommandAst::from_element(el))
        },
        None => None,
    }
}

/// The AST of a nushell line `input` from tree-sitter-nu's answer
/// `nodes`, the tree's nodes in pre-order (`None`: no tree).
pub fn ast_from_nu_syntax(input: &str, nodes: Option<Vec<SyntaxNode>>) -> (ast: CommandAst)
    ensures
        nu_parsed_with(input.spec_bytes(), input@, opt_nodes_view(nodes), ast),
{
    if trimmed_char_count(input) == 0 {
        return CommandAst::empty();
    }
    match nodes {
        Some(ns) => {
            if !check_ranges(&ns, input) || has_error_node(&ns) {
                return parse_simple(input);
            }
            match nu_walk(input, &ns) {
                Some(ast) => ast,
                None => parse_simple(input),
            }
        },
        None => parse_simple(input),
    }
}

} // verus!
