//! Completion candidate types.
//!
//! Every completion source (filesystem, git, command specs, history,
//! environment, processes, MCP tools, AI) returns candidates in this
//! shape; a `CompletionSet` is the ranked list the popup renders.
//! Ranking is by source bucket, then score (higher first), then label.

use vstd::prelude::*;
use crate::ast::Range;
use crate::text::{byte_len, utf8_len, seq_le, str_le, lemma_seq_le_refl, lemma_seq_le_total, lemma_seq_le_antisym, lemma_seq_le_trans};

verus! {

/// Where a candidate came from. Drives the icon, the sort bucket,
/// and whether hitting Tab accepts-and-closes or accepts-and-continues.
#[derive(Debug, Clone, Copy, PartialEq, Eq, Hash, Structural)]
pub enum CompletionSource {
    /// Files and directories.
    Filesystem,
    /// Branches, tags, remotes, commit hashes.
    Git,
    /// Subcommand / flag / value from a command spec.
    Spec,
    /// Commands the user ran before.
    History,
    /// Environment variable names.
    EnvVar,
    /// Running processes (pids / names).
    Process,
    /// A connected MCP server tool.
    Mcp,
    /// AI ghost-text; sorted last by default.
    Ai,
}

impl CompletionSource {
    pub open spec fn spec_bucket(self) -> u8 {
        match self {
            CompletionSource::Spec => 0,
            CompletionSource::Filesystem => 1,
            CompletionSource::Git => 1,
            CompletionSource::EnvVar => 2,
            CompletionSource::Process => 2,
            CompletionSource::History => 3,
            CompletionSource::Mcp => 3,
            CompletionSource::Ai => 4,
        }
    }

    /// Default display-priority bucket (lower = higher priority).
    pub fn default_bucket(self) -> (r: u8)
        ensures
            r == self.spec_bucket(),
    {
        match self {
            CompletionSource::Spec => 0,
            CompletionSource::Filesystem => 1,
            CompletionSource::Git => 1,
            CompletionSource::EnvVar => 2,
            CompletionSource::Process => 2,
            CompletionSource::History => 3,
            CompletionSource::Mcp => 3,
            CompletionSource::Ai => 4,
        }
    }
}

/// What a candidate inserts when the user accepts it.
#[derive(Debug, Clone, PartialEq, Eq, Hash)]
pub enum InsertAction {
    /// Replace the byte range in the input with `replacement`.
    Replace { range: Range, replacement: String },
    /// Insert `snippet` at `offset`; the cursor goes to the first `$0`.
    Snippet { offset: usize, snippet: String },
}

impl InsertAction {
    /// Byte length of the replacement / snippet text.
    pub fn text_len(&self) -> (r: usize)
        ensures
            r == (match self {
                InsertAction::Replace { replacement, .. } => utf8_len(replacement@),
                InsertAction::Snippet { snippet, .. } => utf8_len(snippet@),
            }),
    {
        match self {
            InsertAction::Replace { replacement, .. } => byte_len(replacement.as_str()),
            InsertAction::Snippet { snippet, .. } => byte_len(snippet.as_str()),
        }
    }
}

/// A completion candidate as returned by one source.
#[derive(Debug, Clone, PartialEq, Eq, Hash)]
pub struct CompletionCandidate {
    /// Primary line in the popup.
    pub label: String,
    /// Secondary / dim text.
    pub detail: Option<String>,
    /// Icon key; the renderer resolves it.
    pub icon: Option<&'static str>,
    pub source: CompletionSource,
    /// Insertion behaviour on accept.
    pub action: InsertAction,
    /// Ranker hint (higher = better).
    pub score: u32,
}

impl CompletionCandidate {
    /// Candidate that replaces `range` with its own label.
    pub fn replace(source: CompletionSource, label: &str, range: Range) -> (c: Self)
        ensures
            c.label@ == label@,
            c.detail is None,
            c.icon is None,
            c.source == source,
            c.score == 0,
            c.action matches InsertAction::Replace { range: r, replacement } && r == range
                && replacement@ == label@,
    {
        let text = label.to_owned();
        let replacement = label.to_owned();
        Self {
            action: InsertAction::Replace { range, replacement },
            label: text,
            detail: None,
            icon: None,
            source,
            score: 0,
        }
    }

    /// Builder: attach a `detail` string.
    pub fn with_detail(self, detail: &str) -> (c: Self)
        ensures
            c.detail matches Some(d) && d@ == detail@,
            c.label == self.label,
            c.icon == self.icon,
            c.source == self.source,
            c.action == self.action,
            c.score == self.score,
    {
        let mut c = self;
        c.detail = Some(detail.to_owned());
        c
    }

    /// Builder: attach a score.
    pub fn with_score(self, score: u32) -> (c: Self)
        ensures
            c == (Self { score, ..self }),
    {
        let mut c = self;
        c.score = score;
        c
    }

    /// Builder: attach an icon.
    pub fn with_icon(self, icon: &'static str) -> (c: Self)
        ensures
            c == (Self { icon: Some(icon), ..self }),
    {
        let mut c = self;
        c.icon = Some(icon);
        c
    }
}

/// `a` ranks no later than `b`: lower bucket first, then higher
/// score, then label in lexicographic order.
pub open spec fn ranks_before(a: CompletionCandidate, b: CompletionCandidate) -> bool {
    let (ba, bb) = (a.source.spec_bucket(), b.source.spec_bucket());
    ||| ba < bb
    ||| (ba == bb && a.score > b.score)
    ||| (ba == bb && a.score == b.score && seq_le(a.label@, b.label@))
}

/// `a` and `b` have the same ranking key.
pub open spec fn same_rank(a: CompletionCandidate, b: CompletionCandidate) -> bool {
    &&& a.source.spec_bucket() == b.source.spec_bucket()
    &&& a.score == b.score
    &&& a.label@ == b.label@
}

/// `out` is `inp` stably sorted by `ranks_before`: `p` maps each output
/// position to the input position it came from.
pub open spec fn stable_sort_witness(
    out: Seq<CompletionCandidate>,
    inp: Seq<CompletionCandidate>,
    p: Seq<int>,
) -> bool {
    &&& out.len() == inp.len()
    &&& p.len() == out.len()
    &&& forall|k: int| 0 <= k < p.len() ==> 0 <= #[trigger] p[k] < inp.len() && out[k] == inp[p[k]]
    &&& forall|j: int, k: int| 0 <= j < k < p.len() ==> #[trigger] p[j] != #[trigger] p[k]
    &&& forall|j: int, k: int| 0 <= j < k < out.len() ==> ranks_before(#[trigger] out[j], #[trigger] out[k])
    &&& forall|j: int, k: int|
        0 <= j < k < out.len() && same_rank(#[trigger] out[j], #[trigger] out[k]) ==> p[j] < p[k]
}

pub open spec fn is_stable_sort_of(out: Seq<CompletionCandidate>, inp: Seq<CompletionCandidate>) -> bool {
    exists|p: Seq<int>| stable_sort_witness(out, inp, p)
}

/// `ranks_before` is a total preorder whose ties are exactly `same_rank`.
pub proof fn lemma_rank_order(a: CompletionCandidate, b: CompletionCandidate, c: CompletionCandidate)
    ensures
        ranks_before(a, a),
        ranks_before(a, b) || ranks_before(b, a),
        ranks_before(a, b) && ranks_before(b, a) <==> same_rank(a, b),
        ranks_before(a, b) && ranks_before(b, c) ==> ranks_before(a, c),
{
    lemma_seq_le_refl(a.label@);
    lemma_seq_le_total(a.label@, b.label@);
    if seq_le(a.label@, b.label@) && seq_le(b.label@, a.label@) {
        lemma_seq_le_antisym(a.label@, b.label@);
    }
    if seq_le(a.label@, b.label@) && seq_le(b.label@, c.label@) {
        lemma_seq_le_trans(a.label@, b.label@, c.label@);
    }
}

fn candidate_ranks_before(a: &CompletionCandidate, b: &CompletionCandidate) -> (r: bool)
    ensures
        r == ranks_before(*a, *b),
{
    let ba = a.source.default_bucket();
    let bb = b.source.default_bucket();
    if ba != bb {
        return ba < bb;
    }
    if a.score != b.score {
        return a.score > b.score;
    }
    str_le(a.label.as_str(), b.label.as_str())
}

/// A ranked list of candidates the popup renders.
#[derive(Debug, Clone, PartialEq, Eq)]
pub struct CompletionSet {
    pub candidates: Vec<CompletionCandidate>,
    /// Byte range in the input the candidates complete.
    pub anchor: Option<Range>,
}

impl Default for CompletionSet {
    fn default() -> (s: Self)
        ensures
            s.candidates@.len() == 0,
            s.anchor is None,
    {
        CompletionSet { candidates: Vec::new(), anchor: None }
    }
}

impl CompletionSet {
    pub fn new() -> (s: Self)
        ensures
            s.candidates@.len() == 0,
            s.anchor is None,
    {
        CompletionSet { candidates: Vec::new(), anchor: None }
    }

    pub fn is_empty(&self) -> (r: bool)
        ensures
            r == (self.candidates@.len() == 0),
    {
        self.candidates.len() == 0
    }

    pub fn len(&self) -> (r: usize)
        ensures
            r == self.candidates@.len(),
    {
        self.candidates.len()
    }

    /// Sorts the candidates stably by `(source bucket, -score, label)`.
    pub fn sort(&mut self)
        ensures
            final(self).anchor == old(self).anchor,
            is_stable_sort_of(final(self).candidates@, old(self).candidates@),
    {
        let ghost inp = self.candidates@;
        let mut rest: Vec<CompletionCandidate> = Vec::new();
        std::mem::swap(&mut rest, &mut self.candidates);
        let mut out: Vec<CompletionCandidate> = Vec::new();
        let ghost mut p: Seq<int> = Seq::empty();
        let n = rest.len();
        let mut i: usize = 0;
        while i < n
            invariant
                n == inp.len(),
                i <= n,
                rest@ == inp.subrange(i as int, n as int),
                out@.len() == i,
                p.len() == i,
                forall|k: int| 0 <= k < p.len() ==> 0 <= #[trigger] p[k] < i && out@[k] == inp[p[k]],
                forall|j: int, k: int| 0 <= j < k < p.len() ==> #[trigger] p[j] != #[trigger] p[k],
                forall|j: int, k: int| 0 <= j < k < out@.len() ==> ranks_before(#[trigger] out@[j], #[trigger] out@[k]),
                forall|j: int, k: int|
                    0 <= j < k < out@.len() && same_rank(#[trigger] out@[j], #[trigger] out@[k]) ==> p[j] < p[k],
                self.anchor == old(self).anchor,
            decreases n - i,
        {
            let x = rest.remove(0);
            assert(x == inp[i as int]);
            // Insert after every element that ranks no later than `x`.
            let mut pos: usize = out.len();
            while pos > 0 && !candidate_ranks_before(&out[pos - 1], &x)
                invariant
                    pos <= out@.len(),
                    forall|k: int| pos <= k < out@.len() ==> !ranks_before(#[trigger] out@[k], x),
                decreases pos,
            {
                pos -= 1;
            }
            proof {
                // Everything before `pos` ranks no later than `x`.
                assert forall|k: int| 0 <= k < pos implies ranks_before(#[trigger] out@[k], x) by {
                    lemma_rank_order(out@[k], out@[pos - 1], x);
                }
                // Everything from `pos` on ranks strictly after `x`.
                assert forall|k: int| pos <= k < out@.len() implies ranks_before(x, #[trigger] out@[k])
                    && !same_rank(x, out@[k]) by {
                    lemma_rank_order(x, out@[k], x);
                    lemma_rank_order(out@[k], x, x);
                }
            }
            let ghost old_out = out@;
            let ghost old_p = p;
            out.insert(pos, x);
            proof {
                p = old_p.insert(pos as int, i as int);
                assert forall|j: int, k: int| 0 <= j < k < out@.len() implies ranks_before(#[trigger] out@[j], #[trigger] out@[k]) by {
                    if j < pos && k == pos {
                    } else if j == pos && k > pos {
                    } else {
                    }
                }
                assert forall|j: int, k: int|
                    0 <= j < k < out@.len() && same_rank(#[trigger] out@[j], #[trigger] out@[k]) implies p[j] < p[k] by {
                    if j < pos && k > pos {
                        assert(old_out[j] == out@[j]);
                        assert(old_out[k - 1] == out@[k]);
                    }
                    if j > pos {
                        assert(old_out[j - 1] == out@[j]);
                        assert(old_out[k - 1] == out@[k]);
                    }
                    if k < pos {
                        assert(old_out[j] == out@[j]);
                        assert(old_out[k] == out@[k]);
                    }
                }
                assert forall|j: int, k: int| 0 <= j < k < p.len() implies #[trigger] p[j] != #[trigger] p[k] by {
                    if j < pos && k > pos {
                        assert(p[k] == old_p[k - 1]);
                    }
                    if j > pos {
                        assert(p[k] == old_p[k - 1]);
                        assert(p[j] == old_p[j - 1]);
                    }
                }
                assert(rest@ =~= inp.subrange(i + 1, n as int));
            }
            i += 1;
        }
        proof {
            assert(stable_sort_witness(out@, inp, p));
        }
        self.candidates = out;
    }
}

} // verus!
