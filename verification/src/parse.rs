//! Shell-agnostic fallback parser.
//!
//! A whitespace tokeniser that keeps quoted runs together, emits `|`
//! (and `||`, kept whole) as standalone tokens, and splits the tokens
//! into pipeline elements on `|`. Each element gets a command, a first
//! subcommand, flags and positionals (all typed `Unknown`), each with
//! the byte range of its token.

use vstd::prelude::*;
use vstd::string::StringSliceAdditionalSpecFns;
use vstd::utf8::{valid_utf8, is_char_boundary, encode_utf8_valid_utf8, is_char_boundary_start_end_of_seq};
use crate::ast::{
    ArgKind, CommandAst, CommandNode, FlagNode, PipelineElement, PositionalNode, Range, Separator,
    SeparatorKind, SubcommandNode,
};
use crate::text::{is_ascii_ws_byte, text_of, byte_is_ascii_whitespace, slice_string, lemma_ascii_boundary, lemma_after_ascii_boundary};

verus! {

/// A token as a byte range `(start, end)` of the input.
pub type Tok = (int, int);

/// First index `>= i` that is not ASCII whitespace (or the length).
pub open spec fn ws_end(b: Seq<u8>, i: int) -> int
    decreases b.len() - i,
{
    if 0 <= i < b.len() && is_ascii_ws_byte(b[i]) {
        ws_end(b, i + 1)
    } else {
        i
    }
}

/// First index `>= i` holding byte `x` (or the length).
pub open spec fn find_byte(b: Seq<u8>, i: int, x: u8) -> int
    decreases b.len() - i,
{
    if 0 <= i < b.len() && b[i] != x {
        find_byte(b, i + 1, x)
    } else {
        i
    }
}

/// First index `>= i` holding ASCII whitespace or `|` (or the length).
pub open spec fn word_end(b: Seq<u8>, i: int) -> int
    decreases b.len() - i,
{
    if 0 <= i < b.len() && !is_ascii_ws_byte(b[i]) && b[i] != 0x7c {
        word_end(b, i + 1)
    } else {
        i
    }
}

/// End of the token starting at `s`: a quoted run up to and including
/// its closing quote (or to the end), `|` or `||`, or a bare word.
pub open spec fn token_end(b: Seq<u8>, s: int) -> int {
    if b[s] == 0x22 || b[s] == 0x27 {
        let q = find_byte(b, s + 1, b[s]);
        if q < b.len() {
            q + 1
        } else {
            q
        }
    } else if b[s] == 0x7c {
        if s + 1 < b.len() && b[s + 1] == 0x7c {
            s + 2
        } else {
            s + 1
        }
    } else {
        word_end(b, s)
    }
}

pub proof fn lemma_ws_end(b: Seq<u8>, i: int)
    requires
        0 <= i <= b.len(),
    ensures
        i <= ws_end(b, i) <= b.len(),
        forall|j: int| i <= j < ws_end(b, i) ==> is_ascii_ws_byte(b[j]),
        ws_end(b, i) < b.len() ==> !is_ascii_ws_byte(b[ws_end(b, i)]),
    decreases b.len() - i,
{
    if i < b.len() && is_ascii_ws_byte(b[i]) {
        lemma_ws_end(b, i + 1);
    }
}

pub proof fn lemma_find_byte(b: Seq<u8>, i: int, x: u8)
    requires
        0 <= i <= b.len(),
    ensures
        i <= find_byte(b, i, x) <= b.len(),
        forall|j: int| i <= j < find_byte(b, i, x) ==> b[j] != x,
        find_byte(b, i, x) < b.len() ==> b[find_byte(b, i, x)] == x,
    decreases b.len() - i,
{
    if i < b.len() && b[i] != x {
        lemma_find_byte(b, i + 1, x);
    }
}

pub proof fn lemma_word_end(b: Seq<u8>, i: int)
    requires
        0 <= i <= b.len(),
    ensures
        i <= word_end(b, i) <= b.len(),
        forall|j: int| i <= j < word_end(b, i) ==> !is_ascii_ws_byte(b[j]) && b[j] != 0x7c,
        word_end(b, i) < b.len() ==> (is_ascii_ws_byte(b[word_end(b, i)]) || b[word_end(b, i)]
            == 0x7c),
    decreases b.len() - i,
{
    if i < b.len() && !is_ascii_ws_byte(b[i]) && b[i] != 0x7c {
        lemma_word_end(b, i + 1);
    }
}

pub proof fn lemma_token_end(b: Seq<u8>, s: int)
    requires
        0 <= s < b.len(),
        !is_ascii_ws_byte(b[s]),
    ensures
        s < token_end(b, s) <= b.len(),
{
    if b[s] == 0x22 || b[s] == 0x27 {
        lemma_find_byte(b, s + 1, b[s]);
    } else if b[s] == 0x7c {
    } else {
        lemma_word_end(b, s);
    }
}

/// The tokens of `b` from position `i` on.
pub open spec fn tokens_from(b: Seq<u8>, i: int) -> Seq<Tok>
    decreases b.len() - i,
{
    if i < 0 || i > b.len() {
        Seq::empty()
    } else {
        let s = ws_end(b, i);
        proof {
            lemma_ws_end(b, i);
        }
        if s >= b.len() {
            Seq::empty()
        } else {
            proof {
                lemma_token_end(b, s);
            }
            seq![(s, token_end(b, s))] + tokens_from(b, token_end(b, s))
        }
    }
}

/// The tokens of the whole input.
pub open spec fn tokens(b: Seq<u8>) -> Seq<Tok> {
    tokens_from(b, 0)
}

/// A lone `|` token.
pub open spec fn is_pipe_tok(b: Seq<u8>, t: Tok) -> bool {
    t.1 - t.0 == 1 && b[t.0] == 0x7c
}

/// A token starting with `-` and longer than one byte.
pub open spec fn is_flag_tok(b: Seq<u8>, t: Tok) -> bool {
    t.1 - t.0 > 1 && b[t.0] == 0x2d
}

/// A pipeline stage: the separator token before it (if any) and its
/// own tokens.
pub type Group = (Option<Tok>, Seq<Tok>);

/// Grouping state after reading `n` tokens: finished groups, pending
/// tokens, pending separator.
pub open spec fn split_state(b: Seq<u8>, ts: Seq<Tok>, n: int) -> (Seq<Group>, Seq<Tok>, Option<Tok>)
    decreases n,
{
    if n <= 0 {
        (Seq::empty(), Seq::empty(), None)
    } else {
        let (done, pending, sep) = split_state(b, ts, n - 1);
        let t = ts[n - 1];
        if is_pipe_tok(b, t) {
            if pending.len() > 0 || sep.is_some() {
                (done.push((sep, pending)), Seq::empty(), Some(t))
            } else {
                (done, Seq::empty(), Some(t))
            }
        } else {
            (done, pending.push(t), sep)
        }
    }
}

/// The pipeline stages of the whole token list.
pub open spec fn groups(b: Seq<u8>, ts: Seq<Tok>) -> Seq<Group> {
    let (done, pending, sep) = split_state(b, ts, ts.len() as int);
    if pending.len() > 0 || sep.is_some() {
        done.push((sep, pending))
    } else {
        done
    }
}

/// Role of token `k` of a stage: the first non-flag token is the
/// command; after a command, the first later non-flag token is the
/// subcommand; flags anywhere are flags; everything else is positional.
pub open spec fn is_command_slot(b: Seq<u8>, g: Seq<Tok>, k: int) -> bool {
    k == 0 && !is_flag_tok(b, g[0])
}

pub open spec fn is_subcommand_slot(b: Seq<u8>, g: Seq<Tok>, k: int) -> bool {
    &&& 1 <= k < g.len()
    &&& !is_flag_tok(b, g[0])
    &&& !is_flag_tok(b, g[k])
    &&& forall|j: int| 1 <= j < k ==> is_flag_tok(b, g[j])
}

pub open spec fn is_positional_slot(b: Seq<u8>, g: Seq<Tok>, k: int) -> bool {
    1 <= k < g.len() && !is_flag_tok(b, g[k]) && !is_subcommand_slot(b, g, k)
}

/// Indices (among the first `n`) of tokens that are flags.
pub open spec fn flag_slots(b: Seq<u8>, g: Seq<Tok>, n: int) -> Seq<int>
    decreases n,
{
    if n <= 0 {
        Seq::empty()
    } else if is_flag_tok(b, g[n - 1]) {
        flag_slots(b, g, n - 1).push(n - 1)
    } else {
        flag_slots(b, g, n - 1)
    }
}

/// Indices (among the first `n`) of tokens that are positionals.
pub open spec fn positional_slots(b: Seq<u8>, g: Seq<Tok>, n: int) -> Seq<int>
    decreases n,
{
    if n <= 0 {
        Seq::empty()
    } else if is_positional_slot(b, g, n - 1) {
        positional_slots(b, g, n - 1).push(n - 1)
    } else {
        positional_slots(b, g, n - 1)
    }
}

/// Node range for a token.
pub open spec fn tok_range(t: Tok) -> Range {
    Range { start: t.0 as usize, end: t.1 as usize }
}

/// `f` is the flag parsed from token `t`: `--name[=value]` is long,
/// `-name[=value]` short; the body splits at its first `=`.
pub open spec fn flag_matches(b: Seq<u8>, t: Tok, f: FlagNode) -> bool {
    let long = t.1 - t.0 >= 2 && b[t.0 + 1] == 0x2d;
    let body = if long { t.0 + 2 } else { t.0 + 1 };
    let eq = find_byte(b.subrange(0, t.1), body, 0x3d);
    &&& f.range == tok_range(t)
    &&& f.is_long == long
    &&& if eq < t.1 {
        f.name@ == text_of(b, body, eq) && f.value.is_some() && f.value.unwrap()@ == text_of(
            b,
            eq + 1,
            t.1,
        )
    } else {
        f.name@ == text_of(b, body, t.1) && f.value.is_none()
    }
}

/// `el` is the element built from the stage `(sep, g)`.
pub open spec fn element_matches(b: Seq<u8>, sep: Option<Tok>, g: Seq<Tok>, el: PipelineElement) -> bool {
    let fs = flag_slots(b, g, g.len() as int);
    let ps = positional_slots(b, g, g.len() as int);
    &&& el.separator == (match sep {
        Some(t) => Some(Separator { kind: SeparatorKind::Pipe, range: tok_range(t) }),
        None => None,
    })
    &&& (if g.len() > 0 && !is_flag_tok(b, g[0]) {
        el.command.is_some() && el.command.unwrap().range == tok_range(g[0])
            && el.command.unwrap().name@ == text_of(b, g[0].0, g[0].1)
    } else {
        el.command.is_none()
    })
    &&& (if exists|k: int| is_subcommand_slot(b, g, k) {
        let k = choose|k: int| is_subcommand_slot(b, g, k);
        el.subcommand.is_some() && el.subcommand.unwrap().range == tok_range(g[k])
            && el.subcommand.unwrap().depth == 0 && el.subcommand.unwrap().name@ == text_of(
            b,
            g[k].0,
            g[k].1,
        )
    } else {
        el.subcommand.is_none()
    })
    &&& el.flags@.len() == fs.len()
    &&& forall|i: int| 0 <= i < fs.len() ==> flag_matches(b, g[fs[i]], #[trigger] el.flags@[i])
    &&& el.positionals@.len() == ps.len()
    &&& forall|i: int|
        0 <= i < ps.len() ==> {
            let p = #[trigger] el.positionals@[i];
            let t = g[ps[i]];
            p.range == tok_range(t) && p.kind == ArgKind::Unknown && p.value@ == text_of(
                b,
                t.0,
                t.1,
            )
        }
}

/// `ast` is the fallback parse of the bytes `b`.
pub open spec fn parsed_simple(b: Seq<u8>, ast: CommandAst) -> bool {
    let gs = groups(b, tokens(b));
    &&& ast.errors@.len() == 0
    &&& ast.elements@.len() == gs.len()
    &&& forall|i: int|
        0 <= i < gs.len() ==> element_matches(b, gs[i].0, gs[i].1, #[trigger] ast.elements@[i])
}

/// A token as a byte range of the input.
#[derive(Clone, Copy)]
struct Token {
    start: usize,
    end: usize,
}

spec fn tok_of(t: Token) -> Tok {
    (t.start as int, t.end as int)
}

spec fn opt_tok(o: Option<Token>) -> Option<Tok> {
    match o {
        Some(t) => Some(tok_of(t)),
        None => None,
    }
}

spec fn toks_of(v: Seq<Token>) -> Seq<Tok> {
    v.map_values(|t: Token| tok_of(t))
}

/// Both ends of every token lie on character boundaries of `b`.
spec fn toks_on_boundaries(b: Seq<u8>, v: Seq<Token>) -> bool {
    forall|k: int|
        0 <= k < v.len() ==> {
            &&& v[k].start < v[k].end <= b.len()
            &&& is_char_boundary(b, v[k].start as int)
            &&& is_char_boundary(b, v[k].end as int)
        }
}

/// Whitespace tokeniser over the bytes of `input`.
fn tokenise(input: &str) -> (r: Vec<Token>)
    ensures
        toks_of(r@) == tokens(input.spec_bytes()),
        toks_on_boundaries(input.spec_bytes(), r@),
{
    let bytes = input.as_bytes();
    let ghost b = input.spec_bytes();
    proof {
        encode_utf8_valid_utf8(input@);
        is_char_boundary_start_end_of_seq(b);
    }
    let n = bytes.len();
    let mut i: usize = 0;
    let mut out: Vec<Token> = Vec::new();
    while i < n
        invariant
            bytes@ == b,
            n == b.len(),
            valid_utf8(b),
            i <= n,
            is_char_boundary(b, i as int),
            is_char_boundary(b, b.len() as int),
            toks_of(out@) + tokens_from(b, i as int) == tokens(b),
            toks_on_boundaries(b, out@),
        decreases n - i,
    {
        let ghost i0 = i as int;
        let mut j: usize = i;
        while j < n && byte_is_ascii_whitespace(bytes[j])
            invariant
                bytes@ == b,
                n == b.len(),
                valid_utf8(b),
                i0 <= j <= n,
                is_char_boundary(b, j as int),
                is_char_boundary(b, b.len() as int),
                ws_end(b, i0) == ws_end(b, j as int),
            decreases n - j,
        {
            proof {
                lemma_after_ascii_boundary(b, j as int);
            }
            j += 1;
        }
        proof {
            lemma_ws_end(b, i0);
        }
        if j >= n {
            assert(tokens_from(b, i0) =~= Seq::<Tok>::empty());
            assert(toks_of(out@) =~= tokens(b));
            i = n;
            assert(tokens_from(b, n as int) =~= Seq::<Tok>::empty());
            continue;
        }
        let start = j;
        let c = bytes[start];
        let mut e: usize = start + 1;
        if c == 0x22 || c == 0x27 {
            while e < n && bytes[e] != c
                invariant
                    bytes@ == b,
                    n == b.len(),
                    start < e <= n,
                    find_byte(b, start + 1, c) == find_byte(b, e as int, c),
                decreases n - e,
            {
                e += 1;
            }
            proof {
                lemma_find_byte(b, e as int, c);
            }
            if e < n {
                proof {
                    lemma_after_ascii_boundary(b, e as int);
                }
                e += 1;
            }
        } else if c == 0x7c {
            proof {
                lemma_after_ascii_boundary(b, start as int);
            }
            if e < n && bytes[e] == 0x7c {
                proof {
                    lemma_after_ascii_boundary(b, e as int);
                }
                e += 1;
            }
        } else {
            e = start;
            while e < n && !byte_is_ascii_whitespace(bytes[e]) && bytes[e] != 0x7c
                invariant
                    bytes@ == b,
                    n == b.len(),
                    start <= e <= n,
                    word_end(b, start as int) == word_end(b, e as int),
                decreases n - e,
            {
                e += 1;
            }
            proof {
                lemma_word_end(b, e as int);
                if e < n {
                    lemma_ascii_boundary(b, e as int);
                }
            }
        }
        proof {
            lemma_token_end(b, start as int);
            assert(token_end(b, start as int) == e as int);
            assert(is_char_boundary(b, e as int));
            assert(tokens_from(b, i0) == seq![(start as int, e as int)] + tokens_from(b, e as int));
        }
        out.push(Token { start, end: e });
        proof {
            assert(toks_of(out@) =~= toks_of(out@.drop_last()).push((start as int, e as int)));
            assert(toks_of(out@) + tokens_from(b, e as int) =~= tokens(b));
        }
        i = e;
    }
    proof {
        if i >= n {
            assert(tokens_from(b, i as int) =~= Seq::<Tok>::empty());
            assert(toks_of(out@) =~= tokens(b));
        }
    }
    out
}

/// `FlagNode` for the flag token `t`.
fn flag_from(input: &str, t: Token) -> (f: FlagNode)
    requires
        valid_utf8(input.spec_bytes()),
        t.start < t.end <= input.spec_bytes().len(),
        is_char_boundary(input.spec_bytes(), t.start as int),
        is_char_boundary(input.spec_bytes(), t.end as int),
        is_flag_tok(input.spec_bytes(), tok_of(t)),
    ensures
        flag_matches(input.spec_bytes(), tok_of(t), f),
{
    let bytes = input.as_bytes();
    let ghost b = input.spec_bytes();
    let is_long = t.end - t.start >= 2 && bytes[t.start + 1] == 0x2d;
    proof {
        lemma_after_ascii_boundary(b, t.start as int);
        if is_long {
            lemma_after_ascii_boundary(b, t.start + 1);
        }
    }
    let body = if is_long {
        t.start + 2
    } else {
        t.start + 1
    };
    let ghost pre = b.subrange(0, t.end as int);
    let mut eq = body;
    while eq < t.end && bytes[eq] != 0x3d
        invariant
            bytes@ == b,
            pre == b.subrange(0, t.end as int),
            body <= eq <= t.end <= b.len(),
            find_byte(pre, body as int, 0x3d) == find_byte(pre, eq as int, 0x3d),
        decreases t.end - eq,
    {
        eq += 1;
    }
    proof {
        lemma_find_byte(pre, eq as int, 0x3d);
    }
    if eq < t.end {
        proof {
            lemma_ascii_boundary(b, eq as int);
            lemma_after_ascii_boundary(b, eq as int);
        }
        let name = slice_string(input, body, eq);
        let value = slice_string(input, eq + 1, t.end);
        FlagNode { name, value: Some(value), is_long, range: Range::new(t.start, t.end) }
    } else {
        let name = slice_string(input, body, t.end);
        FlagNode { name, value: None, is_long, range: Range::new(t.start, t.end) }
    }
}

/// Whether token `t` is a flag: starts with `-` and is longer than one byte.
fn is_flag(bytes: &[u8], t: Token) -> (r: bool)
    requires
        t.start < t.end <= bytes@.len(),
    ensures
        r == is_flag_tok(bytes@, tok_of(t)),
{
    t.end - t.start > 1 && bytes[t.start] == 0x2d
}

proof fn lemma_flag_slots_step(b: Seq<u8>, g: Seq<Tok>, k: int)
    requires
        0 <= k,
    ensures
        flag_slots(b, g, k + 1) == (if is_flag_tok(b, g[k]) {
            flag_slots(b, g, k).push(k)
        } else {
            flag_slots(b, g, k)
        }),
        positional_slots(b, g, k + 1) == (if is_positional_slot(b, g, k) {
            positional_slots(b, g, k).push(k)
        } else {
            positional_slots(b, g, k)
        }),
{
}

/// The pipeline element for the tokens `toks` of one stage.
fn build_element(input: &str, toks: &Vec<Token>, separator: Option<Token>) -> (el: PipelineElement)
    requires
        valid_utf8(input.spec_bytes()),
        toks_on_boundaries(input.spec_bytes(), toks@),
        separator.is_some() ==> separator.unwrap().start <= separator.unwrap().end
            <= input.spec_bytes().len(),
    ensures
        element_matches(
            input.spec_bytes(),
            opt_tok(separator),
            toks_of(toks@),
            el,
        ),
{
    let bytes = input.as_bytes();
    let ghost b = input.spec_bytes();
    let ghost g = toks_of(toks@);
    let sep = match separator {
        Some(t) => Some(Separator { kind: SeparatorKind::Pipe, range: Range::new(t.start, t.end) }),
        None => None,
    };
    let mut command: Option<CommandNode> = None;
    let mut subcommand: Option<SubcommandNode> = None;
    let mut flags: Vec<FlagNode> = Vec::new();
    let mut positionals: Vec<PositionalNode> = Vec::new();
    let mut saw_subcommand = false;
    let ghost mut sub_at: int = 0;
    let n = toks.len();
    let mut k: usize = 0;
    while k < n
        invariant
            bytes@ == b,
            b == input.spec_bytes(),
            valid_utf8(b),
            g == toks_of(toks@),
            n == toks@.len(),
            toks_on_boundaries(b, toks@),
            k <= n,
            k > 0 ==> (if !is_flag_tok(b, g[0]) {
                command.is_some() && command.unwrap().range == tok_range(g[0])
                    && command.unwrap().name@ == text_of(b, g[0].0, g[0].1)
            } else {
                command.is_none()
            }),
            k == 0 ==> command.is_none(),
            saw_subcommand ==> (1 <= sub_at < k && is_subcommand_slot(b, g, sub_at)
                && subcommand.is_some() && subcommand.unwrap().range == tok_range(g[sub_at])
                && subcommand.unwrap().depth == 0 && subcommand.unwrap().name@ == text_of(
                b,
                g[sub_at].0,
                g[sub_at].1,
            )),
            !saw_subcommand ==> subcommand.is_none() && forall|j: int|
                1 <= j < k ==> !is_subcommand_slot(b, g, j),
            !saw_subcommand && k > 0 && !is_flag_tok(b, g[0]) ==> forall|j: int|
                1 <= j < k ==> is_flag_tok(b, g[j]),
            flags@.len() == flag_slots(b, g, k as int).len(),
            forall|i: int|
                0 <= i < flags@.len() ==> flag_matches(
                    b,
                    g[flag_slots(b, g, k as int)[i]],
                    #[trigger] flags@[i],
                ),
            positionals@.len() == positional_slots(b, g, k as int).len(),
            forall|i: int|
                0 <= i < positionals@.len() ==> {
                    let p = #[trigger] positionals@[i];
                    let t = g[positional_slots(b, g, k as int)[i]];
                    p.range == tok_range(t) && p.kind == ArgKind::Unknown && p.value@ == text_of(
                        b,
                        t.0,
                        t.1,
                    )
                },
        decreases n - k,
    {
        let t = toks[k];
        proof {
            lemma_flag_slots_step(b, g, k as int);
            assert(t == toks@[k as int]);
            assert(g[k as int] == tok_of(t));
            assert(t.start < t.end <= b.len());
            assert(is_char_boundary(b, t.start as int));
            assert(is_char_boundary(b, t.end as int));
            assert(g[0] == tok_of(toks@[0]));
        }
        if is_flag(bytes, t) {
            let f = flag_from(input, t);
            flags.push(f);
            proof {
                assert(!is_positional_slot(b, g, k as int));
                if k >= 1 {
                    assert(!is_subcommand_slot(b, g, k as int));
                }
            }
        } else if k == 0 {
            let name = slice_string(input, t.start, t.end);
            command = Some(CommandNode { name, range: Range::new(t.start, t.end) });
        } else if !saw_subcommand && command.is_some() {
            let name = slice_string(input, t.start, t.end);
            subcommand = Some(SubcommandNode { name, depth: 0, range: Range::new(t.start, t.end) });
            saw_subcommand = true;
            proof {
                sub_at = k as int;
                assert(is_subcommand_slot(b, g, k as int));
                assert(!is_positional_slot(b, g, k as int));
            }
        } else {
            let value = slice_string(input, t.start, t.end);
            positionals.push(PositionalNode { value, kind: ArgKind::Unknown, range: Range::new(t.start, t.end) });
            proof {
                if saw_subcommand {
                    assert(!is_flag_tok(b, g[sub_at]));
                    assert(!is_subcommand_slot(b, g, k as int));
                } else {
                    assert(is_flag_tok(b, g[0]));
                }
                assert(is_positional_slot(b, g, k as int));
            }
        }
        k += 1;
    }
    proof {
        if exists|j: int| is_subcommand_slot(b, g, j) {
            let j = choose|j: int| is_subcommand_slot(b, g, j);
            assert(saw_subcommand);
            if j < sub_at {
                assert(is_flag_tok(b, g[j]));
            } else if j > sub_at {
                assert(is_flag_tok(b, g[sub_at]));
            }
            assert(j == sub_at);
        }
        if n == 0 {
            assert(g.len() == 0);
        }
    }
    PipelineElement { separator: sep, command, subcommand, flags, positionals }
}

/// Parse a single shell command line with whitespace tokenisation.
/// Whitespace-only / empty inputs produce an empty AST.
pub fn parse_simple(input: &str) -> (ast: CommandAst)
    ensures
        parsed_simple(input.spec_bytes(), ast),
{
    let bytes = input.as_bytes();
    let ghost b = input.spec_bytes();
    proof {
        encode_utf8_valid_utf8(input@);
    }
    let toks = tokenise(input);
    let ghost ts = toks_of(toks@);
    if toks.len() == 0 {
        assert(split_state(b, ts, 0) == (Seq::<Group>::empty(), Seq::<Tok>::empty(), None::<Tok>));
        return CommandAst::empty();
    }
    let mut elements: Vec<PipelineElement> = Vec::new();
    let mut pending: Vec<Token> = Vec::new();
    let mut pending_separator: Option<Token> = None;
    let n = toks.len();
    let mut k: usize = 0;
    while k < n
        invariant
            bytes@ == b,
            b == input.spec_bytes(),
            valid_utf8(b),
            ts == toks_of(toks@),
            ts == tokens(b),
            n == toks@.len(),
            toks_on_boundaries(b, toks@),
            k <= n,
            ({
                let st = split_state(b, ts, k as int);
                &&& elements@.len() == st.0.len()
                &&& forall|i: int|
                    0 <= i < st.0.len() ==> element_matches(
                        b,
                        st.0[i].0,
                        st.0[i].1,
                        #[trigger] elements@[i],
                    )
                &&& toks_of(pending@) == st.1
                &&& opt_tok(pending_separator) == st.2
            }),
            toks_on_boundaries(b, pending@),
            pending_separator.is_some() ==> pending_separator.unwrap().start
                <= pending_separator.unwrap().end <= b.len(),
        decreases n - k,
    {
        let tok = toks[k];
        proof {
            assert(tok == toks@[k as int]);
            assert(ts[k as int] == tok_of(tok));
        }
        if tok.end - tok.start == 1 && bytes[tok.start] == 0x7c {
            if pending.len() > 0 || pending_separator.is_some() {
                let el = build_element(input, &pending, pending_separator);
                elements.push(el);
                pending = Vec::new();
            }
            pending_separator = Some(tok);
            proof {
                assert(toks_of(pending@) =~= Seq::<Tok>::empty());
            }
        } else {
            pending.push(tok);
            proof {
                assert(toks_of(pending@) =~= toks_of(pending@.drop_last()).push(tok_of(tok)));
            }
        }
        k += 1;
    }
    if pending.len() > 0 || pending_separator.is_some() {
        let el = build_element(input, &pending, pending_separator);
        elements.push(el);
    }
    CommandAst { elements, errors: Vec::new() }
}

} // verus!
