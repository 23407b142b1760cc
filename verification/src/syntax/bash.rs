//! Bash command lines through the tree-sitter-bash grammar.

use vstd::prelude::*;
use vstd::string::StringSliceAdditionalSpecFns;
use crate::ast::CommandAst;
use crate::syntax::tree::{ast_from_syntax, opt_nodes_view, parsed_with, Grammar, SyntaxNode, SyntaxNodeView};
use crate::text::trimmed_char_count;

verus! {

/// The tree tree-sitter-bash builds for `input`, as its nodes in
/// pre-order (`None` when the parser gives no tree).
pub uninterp spec fn bash_syntax(input: Seq<char>) -> Option<Seq<SyntaxNodeView>>;

/// Parses `input` with `tree_sitter::Parser` set to
/// `tree_sitter_bash::LANGUAGE` and lists the tree's nodes in
/// pre-order with `TreeCursor` (kind, field name, byte range, depth,
/// `is_error`, `is_named`). Claimed: the answer depends on `input` alone.
#[verifier::external_body]
fn bash_nodes(input: &str) -> (r: Option<Vec<SyntaxNode>>)
    ensures
        opt_nodes_view(r) == bash_syntax(input@),
{
    let mut parser = tree_sitter::Parser::new();
    parser.set_language(&tree_sitter_bash::LANGUAGE.into()).ok()?;
    let tree = parser.parse(input, None)?;
    let (mut c, mut out) = (tree.walk(), Vec::new());
    loop {
        let n = c.node();
        out.push(SyntaxNode { kind: n.kind().to_string(), field: c.field_name().map(String::from), start: n.start_byte(), end: n.end_byte(), depth: c.depth() as usize, is_error: n.is_error(), is_named: n.is_named() });
        if c.goto_first_child() { continue; }
        while !c.goto_next_sibling() { if !c.goto_parent() { return Some(out); } }
    }
}

/// Parse a bash command line with the tree-sitter-bash grammar,
/// falling back to [`crate::parse::parse_simple`] when the grammar
/// reports an error.
pub fn parse_bash(input: &str) -> (ast: CommandAst)
    ensures
        parsed_with(Grammar::Bash, input.spec_bytes(), input@, bash_syntax(input@), ast),
{
    if trimmed_char_count(input) == 0 {
        return CommandAst::empty();
    }
    ast_from_syntax(Grammar::Bash, input, bash_nodes(input))
}

} // verus!
