//! Screen-reader narration driven by the semantic AST.
//!
//! Instead of "git space checkout space m a" a screen reader hears
//! "git command, checkout subcommand, branch argument ma". Narration
//! lines come from a `CommandAst`, a `CompletionSet` summary, and IME
//! composition state (composing text and candidates as separate lines).

use vstd::prelude::*;
use crate::ast::{ArgKind, AstError, CommandAst, ErrorSeverity, FlagNode, GitScope, PipelineElement, PositionalNode};
use crate::completion::{CompletionCandidate, CompletionSet};
use crate::text::{decimal_chars, push_decimal, push_str, str_is_empty};

verus! {

/// A line of screen-reader narration.
#[derive(Debug, Clone, PartialEq, Eq)]
pub struct NarrationLine {
    pub text: String,
    pub role: NarrationRole,
}

/// Which semantic slot a narration line describes.
#[derive(Debug, Clone, Copy, PartialEq, Eq, Hash, Structural)]
pub enum NarrationRole {
    Command,
    Subcommand,
    Flag,
    Positional,
    Error,
    /// The completion dropdown summary.
    CompletionSummary,
    /// IME composing text.
    Composition,
    /// One IME candidate.
    CompositionCandidate,
    /// A pipeline stage boundary.
    PipelineSeparator,
}

/// A narration line as plain values: text and role.
pub type Line = (Seq<char>, NarrationRole);

pub open spec fn line_of(l: NarrationLine) -> Line {
    (l.text@, l.role)
}

pub open spec fn lines_of(ls: Seq<NarrationLine>) -> Seq<Line> {
    ls.map_values(|l: NarrationLine| line_of(l))
}

/// `long flag <name>` / `short flag <name>`, plus ` with value <v>`.
pub open spec fn flag_text(f: FlagNode) -> Seq<char> {
    (if f.is_long { "long flag "@ } else { "short flag "@ }) + f.name@ + match f.value {
        Some(v) => " with value "@ + v@,
        None => Seq::empty(),
    }
}

/// Spoken name of a positional's kind.
pub open spec fn kind_words(kind: ArgKind) -> Seq<char> {
    match kind {
        ArgKind::Path { .. } => "path argument"@,
        ArgKind::GitRef { scope } => match scope {
            GitScope::Branch => "branch argument"@,
            GitScope::Tag => "tag argument"@,
            GitScope::Remote => "remote argument"@,
            GitScope::Commit => "commit argument"@,
            GitScope::Any => "git reference argument"@,
        },
        ArgKind::Url => "URL argument"@,
        ArgKind::EnvVar => "environment variable argument"@,
        ArgKind::ProcessId => "process ID argument"@,
        ArgKind::Enum(_) => "option argument"@,
        ArgKind::Literal => "argument"@,
        ArgKind::Unknown => "argument"@,
    }
}

pub open spec fn positional_text(p: PositionalNode) -> Seq<char> {
    kind_words(p.kind) + " "@ + p.value@
}

/// Lines of one stage: command, subcommand, flags, positionals.
pub open spec fn element_lines(e: PipelineElement) -> Seq<Line> {
    (match e.command {
        Some(c) => seq![(c.name@ + " command"@, NarrationRole::Command)],
        None => Seq::empty(),
    }) + (match e.subcommand {
        Some(s) => seq![(s.name@ + " subcommand"@, NarrationRole::Subcommand)],
        None => Seq::empty(),
    }) + e.flags@.map_values(|f: FlagNode| (flag_text(f), NarrationRole::Flag)) + e.positionals@.map_values(
        |p: PositionalNode| (positional_text(p), NarrationRole::Positional),
    )
}

/// Lines of the first `n` stages; in a multi-stage pipeline each
/// stage after the first is announced as `pipe stage <k>`.
pub open spec fn stages_lines(es: Seq<PipelineElement>, n: int) -> Seq<Line>
    decreases n,
{
    if n <= 0 {
        Seq::empty()
    } else {
        stages_lines(es, n - 1) + (if es.len() > 1 && n - 1 > 0 {
            seq![("pipe stage "@ + decimal_chars(n as nat), NarrationRole::PipelineSeparator)]
        } else {
            Seq::empty()
        }) + element_lines(es[n - 1])
    }
}

/// `error: <message>` for each error-severity error.
pub open spec fn error_lines(errs: Seq<AstError>) -> Seq<Line>
    decreases errs.len(),
{
    if errs.len() == 0 {
        Seq::empty()
    } else {
        error_lines(errs.drop_last()) + (if errs.last().severity == ErrorSeverity::Error {
            seq![("error: "@ + errs.last().message@, NarrationRole::Error)]
        } else {
            Seq::empty()
        })
    }
}

/// The narration of an AST: stages in order, then errors.
pub open spec fn spec_narrate_ast(ast: CommandAst) -> Seq<Line> {
    stages_lines(ast.elements@, ast.elements@.len() as int) + error_lines(ast.errors@)
}

fn push_line(out: &mut Vec<NarrationLine>, text: String, role: NarrationRole)
    ensures
        lines_of(final(out)@) == lines_of(old(out)@).push((text@, role)),
{
    out.push(NarrationLine { text, role });
    proof {
        assert(lines_of(out@) =~= lines_of(old(out)@).push((text@, role)));
    }
}

fn flag_description(flag: &FlagNode) -> (r: String)
    ensures
        r@ == flag_text(*flag),
{
    let mut s = if flag.is_long { "long flag ".to_owned() } else { "short flag ".to_owned() };
    push_str(&mut s, flag.name.as_str());
    match &flag.value {
        Some(v) => {
            push_str(&mut s, " with value ");
            push_str(&mut s, v.as_str());
        },
        None => {},
    }
    assert(s@ =~= flag_text(*flag));
    s
}

fn kind_description(kind: &ArgKind) -> (r: &'static str)
    ensures
        r@ == kind_words(*kind),
{
    match kind {
        ArgKind::Path { .. } => "path argument",
        ArgKind::GitRef { scope } => match scope {
            GitScope::Branch => "branch argument",
            GitScope::Tag => "tag argument",
            GitScope::Remote => "remote argument",
            GitScope::Commit => "commit argument",
            GitScope::Any => "git reference argument",
        },
        ArgKind::Url => "URL argument",
        ArgKind::EnvVar => "environment variable argument",
        ArgKind::ProcessId => "process ID argument",
        ArgKind::Enum(_) => "option argument",
        ArgKind::Literal => "argument",
        ArgKind::Unknown => "argument",
    }
}

fn narrate_element(element: &PipelineElement, out: &mut Vec<NarrationLine>)
    ensures
        lines_of(final(out)@) == lines_of(old(out)@) + element_lines(*element),
{
    let ghost start = lines_of(out@);
    if let Some(cmd) = &element.command {
        let mut t = cmd.name.clone();
        push_str(&mut t, " command");
        push_line(out, t, NarrationRole::Command);
    }
    if let Some(sub) = &element.subcommand {
        let mut t = sub.name.clone();
        push_str(&mut t, " subcommand");
        push_line(out, t, NarrationRole::Subcommand);
    }
    let ghost head = lines_of(out@);
    let mut i: usize = 0;
    while i < element.flags.len()
        invariant
            i <= element.flags@.len(),
            lines_of(out@) == head + element.flags@.take(i as int).map_values(|f: FlagNode| (flag_text(f), NarrationRole::Flag)),
        decreases element.flags@.len() - i,
    {
        let t = flag_description(&element.flags[i]);
        push_line(out, t, NarrationRole::Flag);
        proof {
            assert(element.flags@.take(i + 1).map_values(|f: FlagNode| (flag_text(f), NarrationRole::Flag))
                =~= element.flags@.take(i as int).map_values(|f: FlagNode| (flag_text(f), NarrationRole::Flag)).push(
                (flag_text(element.flags@[i as int]), NarrationRole::Flag),
            ));
        }
        i += 1;
    }
    assert(element.flags@.take(element.flags@.len() as int) =~= element.flags@);
    let ghost mid = lines_of(out@);
    let mut k: usize = 0;
    while k < element.positionals.len()
        invariant
            k <= element.positionals@.len(),
            lines_of(out@) == mid + element.positionals@.take(k as int).map_values(
                |p: PositionalNode| (positional_text(p), NarrationRole::Positional),
            ),
        decreases element.positionals@.len() - k,
    {
        let p = &element.positionals[k];
        let mut t = kind_description(&p.kind).to_owned();
        push_str(&mut t, " ");
        push_str(&mut t, p.value.as_str());
        push_line(out, t, NarrationRole::Positional);
        proof {
            assert(element.positionals@.take(k + 1).map_values(|p: PositionalNode| (positional_text(p), NarrationRole::Positional))
                =~= element.positionals@.take(k as int).map_values(
                |p: PositionalNode| (positional_text(p), NarrationRole::Positional),
            ).push((positional_text(element.positionals@[k as int]), NarrationRole::Positional)));
        }
        k += 1;
    }
    assert(element.positionals@.take(element.positionals@.len() as int) =~= element.positionals@);
    assert(lines_of(out@) =~= start + element_lines(*element));
}

/// Narration lines for an AST: each stage's command, subcommand,
/// flags and positionals (later stages of a pipeline announced as
/// `pipe stage <k>`), then one line per error-severity error.
pub fn narrate_ast(ast: &CommandAst) -> (r: Vec<NarrationLine>)
    ensures
        lines_of(r@) == spec_narrate_ast(*ast),
{
    let mut out: Vec<NarrationLine> = Vec::new();
    let multi = ast.elements.len() > 1;
    let mut idx: usize = 0;
    while idx < ast.elements.len()
        invariant
            idx <= ast.elements@.len(),
            multi == (ast.elements@.len() > 1),
            lines_of(out@) == stages_lines(ast.elements@, idx as int),
        decreases ast.elements@.len() - idx,
    {
        if multi && idx > 0 {
            let mut t = "pipe stage ".to_owned();
            push_decimal(&mut t, (idx + 1) as u64);
            push_line(&mut out, t, NarrationRole::PipelineSeparator);
        }
        narrate_element(&ast.elements[idx], &mut out);
        idx += 1;
    }
    let ghost st = lines_of(out@);
    let mut j: usize = 0;
    while j < ast.errors.len()
        invariant
            j <= ast.errors@.len(),
            st == stages_lines(ast.elements@, ast.elements@.len() as int),
            lines_of(out@) == st + error_lines(ast.errors@.take(j as int)),
        decreases ast.errors@.len() - j,
    {
        let err = &ast.errors[j];
        proof {
            assert(ast.errors@.take(j + 1).drop_last() =~= ast.errors@.take(j as int));
        }
        if matches!(err.severity, ErrorSeverity::Error) {
            let mut t = "error: ".to_owned();
            push_str(&mut t, err.message.as_str());
            push_line(&mut out, t, NarrationRole::Error);
        }
        proof {
            assert(lines_of(out@) =~= st + error_lines(ast.errors@.take(j + 1)));
        }
        j += 1;
    }
    assert(ast.errors@.take(ast.errors@.len() as int) =~= ast.errors@);
    out
}

/// `two` … `ten`; other counts as digits.
pub open spec fn spec_number_word(n: nat) -> Seq<char> {
    if n == 2 { "two"@ }
    else if n == 3 { "three"@ }
    else if n == 4 { "four"@ }
    else if n == 5 { "five"@ }
    else if n == 6 { "six"@ }
    else if n == 7 { "seven"@ }
    else if n == 8 { "eight"@ }
    else if n == 9 { "nine"@ }
    else if n == 10 { "ten"@ }
    else { decimal_chars(n) }
}

fn number_word(n: usize) -> (r: String)
    ensures
        r@ == spec_number_word(n as nat),
{
    if n == 2 { "two".to_owned() }
    else if n == 3 { "three".to_owned() }
    else if n == 4 { "four".to_owned() }
    else if n == 5 { "five".to_owned() }
    else if n == 6 { "six".to_owned() }
    else if n == 7 { "seven".to_owned() }
    else if n == 8 { "eight".to_owned() }
    else if n == 9 { "nine".to_owned() }
    else if n == 10 { "ten".to_owned() }
    else {
        let mut s = String::new();
        push_decimal(&mut s, n as u64);
        assert(s@ =~= decimal_chars(n as nat));
        s
    }
}

/// The labels joined with `", "`.
pub open spec fn joined_labels(cs: Seq<CompletionCandidate>) -> Seq<char>
    decreases cs.len(),
{
    if cs.len() == 0 {
        Seq::empty()
    } else if cs.len() == 1 {
        cs[0].label@
    } else {
        joined_labels(cs.drop_last()) + ", "@ + cs.last().label@
    }
}

/// Summary text for `count` candidates when at most `max_inline` are
/// read out by label.
pub open spec fn summary_text(cs: Seq<CompletionCandidate>, max_inline: nat) -> Seq<char> {
    let limit = if max_inline >= 1 { max_inline } else { 1 };
    if cs.len() <= limit {
        if cs.len() == 1 {
            "one suggestion: "@ + cs[0].label@
        } else {
            spec_number_word(cs.len()) + " suggestions: "@ + joined_labels(cs)
        }
    } else {
        decimal_chars(cs.len()) + " suggestions available, press arrow keys to browse"@
    }
}

/// One-line summary of a completion set, `None` when it is empty. At
/// most `max_inline` (at least 1) labels are read out; beyond that
/// only the count.
pub fn narrate_completion_summary(set: &CompletionSet, max_inline: usize) -> (r: Option<NarrationLine>)
    ensures
        set.candidates@.len() == 0 ==> r is None,
        set.candidates@.len() > 0 ==> (r matches Some(l) && l.role == NarrationRole::CompletionSummary
            && l.text@ == summary_text(set.candidates@, max_inline as nat)),
{
    let count = set.candidates.len();
    if count == 0 {
        return None;
    }
    let limit = if max_inline >= 1 { max_inline } else { 1 };
    let text = if count <= limit {
        if count == 1 {
            let mut t = "one suggestion: ".to_owned();
            push_str(&mut t, set.candidates[0].label.as_str());
            t
        } else {
            let mut t = number_word(count);
            push_str(&mut t, " suggestions: ");
            let ghost head = t@;
            let mut i: usize = 0;
            while i < count
                invariant
                    count == set.candidates@.len(),
                    i <= count,
                    t@ == head + joined_labels(set.candidates@.take(i as int)),
                decreases count - i,
            {
                if i > 0 {
                    push_str(&mut t, ", ");
                }
                push_str(&mut t, set.candidates[i].label.as_str());
                proof {
                    let s = set.candidates@.take(i + 1);
                    assert(s.drop_last() =~= set.candidates@.take(i as int));
                    if i == 0 {
                        assert(joined_labels(set.candidates@.take(0)) =~= Seq::<char>::empty());
                    }
                    assert(t@ =~= head + joined_labels(s));
                }
                i += 1;
            }
            assert(set.candidates@.take(count as int) =~= set.candidates@);
            t
        }
    } else {
        let mut t = String::new();
        push_decimal(&mut t, count as u64);
        push_str(&mut t, " suggestions available, press arrow keys to browse");
        t
    };
    assert(text@ =~= summary_text(set.candidates@, max_inline as nat));
    Some(NarrationLine { text, role: NarrationRole::CompletionSummary })
}

/// IME composition snapshot: composing text and candidates become
/// separate narration lines.
#[derive(Debug, Clone, Default, PartialEq, Eq)]
pub struct ImeComposition {
    /// Pre-commit composing text.
    pub composing: String,
    /// Candidate conversions offered by the IME.
    pub candidates: Vec<String>,
    /// Highlighted candidate, if the IME reports one.
    pub selected_candidate: Option<usize>,
}

/// Lines for candidates `0..n`: `candidate <c>`, with `, selected` on
/// the highlighted one.
pub open spec fn candidate_lines(cands: Seq<String>, selected: Option<usize>, n: int) -> Seq<Line>
    decreases n,
{
    if n <= 0 {
        Seq::empty()
    } else {
        candidate_lines(cands, selected, n - 1).push((
            "candidate "@ + cands[n - 1]@ + (if selected == Some((n - 1) as usize) { ", selected"@ } else { Seq::empty() }),
            NarrationRole::CompositionCandidate,
        ))
    }
}

impl ImeComposition {
    pub fn is_active(&self) -> (r: bool)
        ensures
            r == (self.composing@.len() > 0 || self.candidates@.len() > 0),
    {
        !str_is_empty(self.composing.as_str()) || self.candidates.len() > 0
    }

    /// `composing <text>` when composing, then one line per candidate.
    pub fn narrate(&self) -> (r: Vec<NarrationLine>)
        ensures
            lines_of(r@) == (if self.composing@.len() > 0 {
                seq![("composing "@ + self.composing@, NarrationRole::Composition)]
            } else {
                Seq::empty()
            }) + candidate_lines(self.candidates@, self.selected_candidate, self.candidates@.len() as int),
    {
        let mut out: Vec<NarrationLine> = Vec::new();
        if !str_is_empty(self.composing.as_str()) {
            let mut t = "composing ".to_owned();
            push_str(&mut t, self.composing.as_str());
            push_line(&mut out, t, NarrationRole::Composition);
        }
        let ghost head = lines_of(out@);
        let mut i: usize = 0;
        while i < self.candidates.len()
            invariant
                i <= self.candidates@.len(),
                lines_of(out@) == head + candidate_lines(self.candidates@, self.selected_candidate, i as int),
            decreases self.candidates@.len() - i,
        {
            let mut t = "candidate ".to_owned();
            push_str(&mut t, self.candidates[i].as_str());
            let selected = match self.selected_candidate {
                Some(k) => k == i,
                None => false,
            };
            if selected {
                push_str(&mut t, ", selected");
            }
            proof {
                assert(t@ =~= "candidate "@ + self.candidates@[i as int]@ + (if self.selected_candidate == Some(i) {
                    ", selected"@
                } else {
                    Seq::empty()
                }));
            }
            push_line(&mut out, t, NarrationRole::CompositionCandidate);
            i += 1;
        }
        out
    }
}

} // verus!
