//! MCP-native completion source.
//!
//! An MCP-connected tool registers completion providers under a glob
//! pattern (`git *`, `kubectl *`, `npm run *`). When the typed command
//! matches a pattern, the driver asks that provider for candidates.
//! The pattern grammar is single-level: a trailing `*` matches the
//! rest of the line from a word boundary; anything else is an exact
//! match.

use vstd::prelude::*;
use crate::ast::Range;
use crate::completion::{CompletionCandidate, CompletionSource, InsertAction};
use crate::text::{
    chars_of, is_unicode_whitespace, char_is_whitespace, seq_trim_end, seq_starts_with, trim_end_len,
    lemma_trimmed_end_len, chars_starts_with, string_from_chars,
};

verus! {

/// A provider the registry consults when the command matches its
/// pattern. Implemented by the MCP bridge.
pub trait McpProvider {
    /// Human-readable name.
    fn name(&self) -> &str;

    /// `out` is an answer this provider gives for `command_line` with
    /// the token under completion at `anchor`.
    /// A provider that says nothing of its answers leaves every output
    /// possible.
    open spec fn completes(&self, command_line: Seq<char>, anchor: Range, out: Seq<CompletionCandidate>) -> bool {
        true
    }

    /// Completion candidates for `command_line` (called only after the
    /// pattern matched).
    fn complete(&self, command_line: &str, anchor: Range) -> (out: Vec<CompletionCandidate>)
        ensures
            self.completes(command_line@, anchor, out@);
}

/// A glob pattern paired with its provider.
pub struct McpRegistration {
    pub pattern: String,
    pub provider: Box<dyn McpProvider>,
}

/// Whether `input` matches the glob `pattern`.
pub open spec fn spec_glob_matches(pattern: Seq<char>, input: Seq<char>) -> bool {
    let pat = seq_trim_end(pattern);
    if pat.len() > 0 && pat.last() == '*' {
        let prefix = seq_trim_end(pat.drop_last());
        ||| prefix.len() == 0
        ||| (seq_starts_with(input, prefix) && (input.len() == prefix.len() || is_unicode_whitespace(
            input[prefix.len() as int],
        )))
    } else {
        pat == input
    }
}

/// Glob-match `input` against `pattern`: `"git *"` matches `"git"` and
/// `"git status"` but not `"gitoxide"`; `"*"` matches everything;
/// `"ls"` matches only `"ls"`.
pub fn glob_matches(pattern: &str, input: &str) -> (r: bool)
    ensures
        r == spec_glob_matches(pattern@, input@),
{
    let pv = chars_of(pattern);
    let iv = chars_of(input);
    let pe = trim_end_len(&pv);
    proof {
        lemma_trimmed_end_len(pv@);
    }
    let pat = string_from_chars(&pv, 0, pe);
    let patv = chars_of(pat.as_str());
    assert(patv@ == seq_trim_end(pattern@));
    if patv.len() > 0 && patv[patv.len() - 1] == '*' {
        let body = string_from_chars(&patv, 0, patv.len() - 1);
        let bv = chars_of(body.as_str());
        assert(bv@ =~= patv@.drop_last());
        let be = trim_end_len(&bv);
        proof {
            lemma_trimmed_end_len(bv@);
        }
        if be == 0 {
            return true;
        }
        let prefix = string_from_chars(&bv, 0, be);
        let prev = chars_of(prefix.as_str());
        assert(prev@ == seq_trim_end(patv@.drop_last()));
        if !chars_starts_with(&iv, &prev) {
            return false;
        }
        if iv.len() == prev.len() {
            return true;
        }
        return char_is_whitespace(iv[prev.len()]);
    }
    if patv.len() != iv.len() {
        return false;
    }
    let mut i: usize = 0;
    while i < patv.len()
        invariant
            patv.len() == iv.len(),
            patv@ == seq_trim_end(pattern@),
            iv@ == input@,
            !(patv@.len() > 0 && patv@.last() == '*'),
            i <= patv.len(),
            forall|j: int| 0 <= j < i ==> patv@[j] == iv@[j],
        decreases patv.len() - i,
    {
        if patv[i] != iv[i] {
            assert(patv@[i as int] != iv@[i as int]);
            assert(patv@ != iv@);
            return false;
        }
        i += 1;
    }
    assert(patv@ =~= iv@);
    true
}

/// Registry of MCP completion providers.
pub struct McpRegistry {
    patterns: Vec<String>,
    providers: Vec<Box<dyn McpProvider>>,
}

impl McpRegistry {
    /// The registered patterns, in registration order.
    pub closed spec fn patterns(&self) -> Seq<Seq<char>> {
        self.patterns@.map_values(|p: String| p@)
    }


    /// `out` is an answer the provider registered `i`-th gives for
    /// `line` with the token under completion at `anchor`.
    pub closed spec fn provider_completes(&self, i: int, line: Seq<char>, anchor: Range, out: Seq<CompletionCandidate>) -> bool {
        self.providers@[i].completes(line, anchor, out)
    }

    /// One provider per registered pattern.
    pub closed spec fn wf(&self) -> bool {
        self.patterns@.len() == self.providers@.len()
    }

    pub fn new() -> (r: Self)
        ensures
            r.wf(),
            r.patterns().len() == 0,
    {
        McpRegistry { patterns: Vec::new(), providers: Vec::new() }
    }

    pub fn len(&self) -> (r: usize)
        ensures
            r == self.patterns().len(),
    {
        self.patterns.len()
    }

    pub fn is_empty(&self) -> (r: bool)
        ensures
            r == (self.patterns().len() == 0),
    {
        self.patterns.len() == 0
    }

    /// Registers a provider under a glob pattern; providers may share a
    /// pattern, and all matching ones contribute.
    pub fn register(&mut self, pattern: &str, provider: Box<dyn McpProvider>)
        requires
            old(self).wf(),
        ensures
            final(self).wf(),
            final(self).patterns() == old(self).patterns().push(pattern@),
            forall|i: int, line: Seq<char>, anchor: Range, out: Seq<CompletionCandidate>|
                0 <= i < old(self).patterns().len() ==> (#[trigger] final(self).provider_completes(i, line, anchor, out)
                    == old(self).provider_completes(i, line, anchor, out)),
    {
        let ghost before = self.providers@;
        self.patterns.push(pattern.to_owned());
        self.providers.push(provider);
        proof {
            // The length axiom is not picked up for trait-object elements.
            vstd::seq::axiom_seq_push_len(before, provider);
            assert forall|i: int| 0 <= i < before.len() implies self.providers@[i] == before[i] by {
                vstd::seq::axiom_seq_push_index_different(before, provider, i);
            }
            assert(self.patterns() =~= old(self).patterns().push(pattern@));
        }
    }

    /// Candidates of every provider whose pattern matches
    /// `command_line`, concatenated in registration order. Only the
    /// matching providers are consulted, each on this line and anchor,
    /// and each answer is one its provider `completes` with; the answers
    /// are merged by [`merge_provider_answers`].
    pub fn dispatch(&self, command_line: &str, anchor: Range) -> (out: Vec<CompletionCandidate>)
        requires
            self.wf(),
        ensures
            exists|answers: Seq<Seq<CompletionCandidate>>|
                #![trigger matched_concat(self.patterns(), command_line@, answers, self.patterns().len() as int)]
                answers.len() == self.patterns().len() && (forall|i: int|
                    0 <= i < answers.len() && !spec_glob_matches(self.patterns()[i], command_line@)
                        ==> (#[trigger] answers[i]).len() == 0) && (forall|i: int|
                    0 <= i < answers.len() && spec_glob_matches(self.patterns()[i], command_line@)
                        ==> self.provider_completes(i, command_line@, anchor, #[trigger] answers[i])) && out@ == matched_concat(
                    self.patterns(),
                    command_line@,
                    answers,
                    self.patterns().len() as int,
                ),
    {
        let mut answers: Vec<Vec<CompletionCandidate>> = Vec::new();
        let mut i: usize = 0;
        while i < self.patterns.len()
            invariant
                self.wf(),
                i <= self.patterns@.len(),
                answers@.len() == i,
                forall|k: int|
                    0 <= k < i && !spec_glob_matches(self.patterns()[k], command_line@) ==> (#[trigger] answers@[k])@.len() == 0,
                forall|k: int|
                    0 <= k < i && spec_glob_matches(self.patterns()[k], command_line@) ==> self.provider_completes(
                        k,
                        command_line@,
                        anchor,
                        (#[trigger] answers@[k])@,
                    ),
            decreases self.patterns@.len() - i,
        {
            assert(self.patterns()[i as int] == self.patterns@[i as int]@);
            if glob_matches(self.patterns[i].as_str(), command_line) {
                let got = self.providers[i].complete(command_line, anchor);
                answers.push(got);
            } else {
                answers.push(Vec::new());
            }
            i += 1;
        }
        let ghost av = answers@.map_values(|v: Vec<CompletionCandidate>| v@);
        let out = merge_provider_answers(&self.patterns, command_line, answers);
        assert(self.patterns@.map_values(|p: String| p@) == self.patterns());
        assert(forall|k: int| 0 <= k < av.len() ==> #[trigger] av[k] == answers@[k]@);
        out
    }
}

/// The answers of the providers whose pattern (in `patterns[..n]`)
/// glob-matches `line`, concatenated in order.
pub open spec fn matched_concat(
    patterns: Seq<Seq<char>>,
    line: Seq<char>,
    answers: Seq<Seq<CompletionCandidate>>,
    n: int,
) -> Seq<CompletionCandidate>
    decreases n,
{
    if n <= 0 {
        Seq::empty()
    } else {
        matched_concat(patterns, line, answers, n - 1) + if spec_glob_matches(patterns[n - 1], line) {
            answers[n - 1]
        } else {
            Seq::empty()
        }
    }
}

/// Merges the answers of the providers registered under `patterns`
/// (`answers[i]` is what the provider of `patterns[i]` gave): the
/// answers of those whose pattern glob-matches `command_line`,
/// concatenated in registration order.
pub fn merge_provider_answers(
    patterns: &Vec<String>,
    command_line: &str,
    answers: Vec<Vec<CompletionCandidate>>,
) -> (out: Vec<CompletionCandidate>)
    requires
        answers@.len() == patterns@.len(),
    ensures
        out@ == matched_concat(
            patterns@.map_values(|p: String| p@),
            command_line@,
            answers@.map_values(|v: Vec<CompletionCandidate>| v@),
            patterns@.len() as int,
        ),
{
    let ghost pv = patterns@.map_values(|p: String| p@);
    let ghost av = answers@.map_values(|v: Vec<CompletionCandidate>| v@);
    let n = answers.len();
    let mut rest = answers;
    let mut out: Vec<CompletionCandidate> = Vec::new();
    let mut i: usize = 0;
    while i < n
        invariant
            n == patterns@.len(),
            i <= n,
            rest@.len() == n - i,
            forall|k: int| 0 <= k < n - i ==> (#[trigger] rest@[k])@ == av[k + i],
            av.len() == n,
            pv == patterns@.map_values(|p: String| p@),
            out@ == matched_concat(pv, command_line@, av, i as int),
        decreases n - i,
    {
        let mut batch = rest.remove(0);
        assert(batch@ == av[i as int]);
        assert(pv[i as int] == patterns@[i as int]@);
        let ghost before = out@;
        if glob_matches(patterns[i].as_str(), command_line) {
            out.append(&mut batch);
            assert(out@ =~= matched_concat(pv, command_line@, av, i + 1));
        } else {
            assert(out@ =~= matched_concat(pv, command_line@, av, i + 1));
        }
        i += 1;
    }
    out
}

/// `Mcp`-sourced candidates, each replacing `anchor` with its label
/// and carrying the `mcp` icon.
pub fn mcp_candidates_from_labels(labels: &[&str], anchor: Range) -> (r: Vec<CompletionCandidate>)
    ensures
        r@.len() == labels@.len(),
        forall|i: int| 0 <= i < r@.len() ==> {
            let c = #[trigger] r@[i];
            &&& c.label@ == labels@[i]@
            &&& c.source == CompletionSource::Mcp
            &&& c.icon == Some("mcp")
            &&& c.detail is None
            &&& c.score == 0
            &&& c.action matches InsertAction::Replace { range, replacement } && range == anchor
                && replacement@ == labels@[i]@
        },
{
    let mut out: Vec<CompletionCandidate> = Vec::new();
    let mut i: usize = 0;
    while i < labels.len()
        invariant
            i <= labels@.len(),
            out@.len() == i,
            forall|k: int| 0 <= k < i ==> {
                let c = #[trigger] out@[k];
                &&& c.label@ == labels@[k]@
                &&& c.source == CompletionSource::Mcp
                &&& c.icon == Some("mcp")
                &&& c.detail is None
                &&& c.score == 0
                &&& c.action matches InsertAction::Replace { range, replacement } && range == anchor
                    && replacement@ == labels@[k]@
            },
        decreases labels@.len() - i,
    {
        let c = CompletionCandidate::replace(CompletionSource::Mcp, labels[i], anchor).with_icon("mcp");
        out.push(c);
        i += 1;
    }
    out
}

} // verus!
