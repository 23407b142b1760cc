//! Ghost-text suggestion data model.
//!
//! Ghost text is the dim inline continuation shown after the cursor.
//! Suggestions come from the user's history (instant), an on-device
//! model (fast) or a cloud model (slower, better); the engine merges
//! them into a `SuggestionSet` and renders the best one.

use vstd::prelude::*;
use std::time::Duration;
use crate::text::{byte_len, utf8_len, seq_trim, trimmed_char_count, str_eq};
use crate::phase2::ai_engine::duration_nanos;

verus! {

/// `Duration` is `Copy`: its `clone` returns the same span.
pub assume_specification[ <Duration as Clone>::clone ](d: &Duration) -> (r: Duration)
    ensures
        r == *d,
;

/// The span `Duration::from_millis(ms)` denotes.
pub uninterp spec fn duration_from_millis(ms: u64) -> Duration;

/// `Duration::from_millis`: a span of `ms` milliseconds, which is
/// `ms` million nanoseconds long.
#[verifier::external_body]
pub(crate) fn millis(ms: u64) -> (d: Duration)
    ensures
        d == duration_from_millis(ms),
        duration_nanos(d) == ms as int * 1_000_000,
{
    Duration::from_millis(ms)
}

/// Where the suggestion came from.
#[derive(Debug, Clone, Copy, PartialEq, Eq, Hash, Structural)]
pub enum SuggestionSource {
    /// Prefix match over the user's own history.
    History,
    /// On-device model.
    Local,
    /// Cloud model.
    Cloud,
}

impl SuggestionSource {
    pub open spec fn spec_bucket(self) -> u8 {
        match self {
            SuggestionSource::History => 0,
            SuggestionSource::Local => 1,
            SuggestionSource::Cloud => 2,
        }
    }

    /// Display-priority bucket; lower is preferred.
    pub fn priority_bucket(self) -> (r: u8)
        ensures
            r == self.spec_bucket(),
    {
        match self {
            SuggestionSource::History => 0,
            SuggestionSource::Local => 1,
            SuggestionSource::Cloud => 2,
        }
    }

    /// Whether the source works offline.
    pub fn is_offline(self) -> (r: bool)
        ensures
            r == (self is History || self is Local),
    {
        matches!(self, SuggestionSource::History | SuggestionSource::Local)
    }
}

/// A single ghost-text suggestion.
#[derive(Debug, Clone, PartialEq, Eq)]
pub struct Suggestion {
    /// Text to append after the cursor (only the tail).
    pub completion: String,
    pub source: SuggestionSource,
    /// Producer-reported confidence, 0-100.
    pub confidence: u8,
    /// Wall-clock latency from request to response.
    pub latency: Option<Duration>,
}

/// A completion made only of whitespace carries nothing.
pub open spec fn spec_is_trivial(s: Suggestion) -> bool {
    seq_trim(s.completion@).len() == 0
}

impl Suggestion {
    /// Suggestion with confidence 50 and no latency.
    pub fn new(completion: &str, source: SuggestionSource) -> (s: Self)
        ensures
            s.completion@ == completion@,
            s.source == source,
            s.confidence == 50,
            s.latency is None,
    {
        Suggestion { completion: completion.to_owned(), source, confidence: 50, latency: None }
    }

    /// Builder: attach a measured latency.
    pub fn with_latency(self, latency: Duration) -> (s: Self)
        ensures
            s == (Suggestion { latency: Some(latency), ..self }),
    {
        let mut s = self;
        s.latency = Some(latency);
        s
    }

    /// Builder: set the confidence, capped at 100.
    pub fn with_confidence(self, confidence: u8) -> (s: Self)
        ensures
            s == (Suggestion { confidence: if confidence <= 100 { confidence } else { 100 }, ..self }),
    {
        let mut s = self;
        s.confidence = if confidence <= 100 { confidence } else { 100 };
        s
    }

    /// Empty or whitespace-only completion.
    pub fn is_trivial(&self) -> (r: bool)
        ensures
            r == spec_is_trivial(*self),
    {
        trimmed_char_count(self.completion.as_str()) == 0
    }
}

/// A suggestion request the engine dispatches to each source.
#[derive(Debug, Clone, PartialEq, Eq)]
pub struct SuggestionRequest {
    /// What the user has typed so far.
    pub prefix: String,
    /// Working directory, to ground model answers.
    pub cwd: Option<String>,
    /// Recent history slice for dedup and recency weighting.
    pub recent_commands: Vec<String>,
    /// Max suggestions from a single source.
    pub max_results: u8,
    /// Per-source latency budget.
    pub budget: Duration,
}

/// A prefix with fewer than two non-blank characters is not worth a
/// round trip.
pub open spec fn spec_worth_dispatching(prefix: Seq<char>) -> bool {
    seq_trim(prefix).len() >= 2
}

impl SuggestionRequest {
    /// Request for a prefix with no context, 3 results, a 200 ms budget.
    pub fn from_prefix(prefix: &str) -> (r: Self)
        ensures
            r.prefix@ == prefix@,
            r.cwd is None,
            r.recent_commands@.len() == 0,
            r.max_results == 3,
            r.budget == duration_from_millis(200),
    {
        SuggestionRequest {
            prefix: prefix.to_owned(),
            cwd: None,
            recent_commands: Vec::new(),
            max_results: 3,
            budget: millis(200),
        }
    }

    /// Builder: set the per-source latency budget.
    pub fn with_budget(self, budget: Duration) -> (r: Self)
        ensures
            r == (SuggestionRequest { budget, ..self }),
    {
        let mut r = self;
        r.budget = budget;
        r
    }

    /// Whether the prefix is substantial enough to issue.
    pub fn is_worth_dispatching(&self) -> (r: bool)
        ensures
            r == spec_worth_dispatching(self.prefix@),
    {
        trimmed_char_count(self.prefix.as_str()) >= 2
    }
}

/// `a` is at least as good as `b`: lower bucket, then higher
/// confidence, then shorter completion.
pub open spec fn better_or_equal(a: Suggestion, b: Suggestion) -> bool {
    let (ba, bb) = (a.source.spec_bucket(), b.source.spec_bucket());
    ||| ba < bb
    ||| (ba == bb && a.confidence > b.confidence)
    ||| (ba == bb && a.confidence == b.confidence && utf8_len(a.completion@) <= utf8_len(b.completion@))
}

/// Index of the best candidate: no candidate is better, and every
/// earlier one is strictly worse (the first of equally good ones).
pub open spec fn is_best_index(c: Seq<Suggestion>, i: int) -> bool {
    &&& 0 <= i < c.len()
    &&& forall|j: int| 0 <= j < c.len() ==> better_or_equal(c[i], #[trigger] c[j])
    &&& forall|j: int| 0 <= j < i ==> !better_or_equal(#[trigger] c[j], c[i])
}

/// Candidate `i` survives pruning: non-trivial and the first with its
/// completion text.
pub open spec fn kept_by_prune(c: Seq<Suggestion>, i: int) -> bool {
    &&& !spec_is_trivial(c[i])
    &&& forall|j: int| 0 <= j < i ==> (#[trigger] c[j]).completion@ != c[i].completion@
}

/// The candidates that survive pruning, in their original order.
pub open spec fn spec_prune(c: Seq<Suggestion>) -> Seq<Suggestion>
    decreases c.len(),
{
    if c.len() == 0 {
        Seq::empty()
    } else {
        let rest = spec_prune(c.drop_last());
        if kept_by_prune(c, c.len() - 1) {
            rest.push(c.last())
        } else {
            rest
        }
    }
}

fn suggestion_better_or_equal(a: &Suggestion, b: &Suggestion) -> (r: bool)
    ensures
        r == better_or_equal(*a, *b),
{
    let ba = a.source.priority_bucket();
    let bb = b.source.priority_bucket();
    if ba != bb {
        return ba < bb;
    }
    if a.confidence != b.confidence {
        return a.confidence > b.confidence;
    }
    byte_len(a.completion.as_str()) <= byte_len(b.completion.as_str())
}

/// Ranked list of candidate suggestions.
#[derive(Debug, Clone, PartialEq, Eq)]
pub struct SuggestionSet {
    pub candidates: Vec<Suggestion>,
}

impl Default for SuggestionSet {
    fn default() -> (s: Self)
        ensures
            s.candidates@.len() == 0,
    {
        SuggestionSet { candidates: Vec::new() }
    }
}

impl SuggestionSet {
    pub fn new() -> (s: Self)
        ensures
            s.candidates@.len() == 0,
    {
        SuggestionSet { candidates: Vec::new() }
    }

    pub fn is_empty(&self) -> (r: bool)
        ensures
            r == (self.candidates@.len() == 0),
    {
        self.candidates.len() == 0
    }

    pub fn len(&self) -> (r: usize)
        ensures
            r == self.candidates@.len(),
    {
        self.candidates.len()
    }

    /// Best candidate: lowest source bucket, then highest confidence,
    /// then shortest completion; the first of equally good ones.
    pub fn best(&self) -> (r: Option<&Suggestion>)
        ensures
            self.candidates@.len() == 0 ==> r is None,
            self.candidates@.len() > 0 ==> exists|i: int| is_best_index(self.candidates@, i)
                && r == Some(&self.candidates@[i]),
    {
        if self.candidates.len() == 0 {
            return None;
        }
        let c = &self.candidates;
        let mut best: usize = 0;
        let mut k: usize = 1;
        while k < c.len()
            invariant
                c@ == self.candidates@,
                0 <= best < k <= c@.len(),
                forall|j: int| 0 <= j < k ==> better_or_equal(c@[best as int], #[trigger] c@[j]),
                forall|j: int| 0 <= j < best ==> !better_or_equal(#[trigger] c@[j], c@[best as int]),
            decreases c@.len() - k,
        {
            if !suggestion_better_or_equal(&c[best], &c[k]) {
                proof {
                    let (x, y) = (c@[best as int], c@[k as int]);
                    assert forall|j: int| 0 <= j < k + 1 implies better_or_equal(y, #[trigger] c@[j]) by {
                        if j < k {
                            let z = c@[j];
                            assert(better_or_equal(x, z));
                        }
                    }
                    assert forall|j: int| 0 <= j < k implies !better_or_equal(#[trigger] c@[j], y) by {
                        let z = c@[j];
                        assert(better_or_equal(x, z));
                    }
                }
                best = k;
            }
            k += 1;
        }
        assert(is_best_index(self.candidates@, best as int));
        Some(&c[best])
    }

    /// Drops trivial and duplicate completions in place, keeping order
    /// and the first of each completion text.
    pub fn prune(&mut self)
        ensures
            final(self).candidates@ == spec_prune(old(self).candidates@),
    {
        let ghost inp = self.candidates@;
        let mut rest: Vec<Suggestion> = Vec::new();
        std::mem::swap(&mut rest, &mut self.candidates);
        let mut out: Vec<Suggestion> = Vec::new();
        // `src[k]`: input position of `out[k]`; `dst[j]`: an output
        // position holding the text of non-trivial input `j`.
        let ghost mut src: Seq<int> = Seq::empty();
        let ghost mut dst: Seq<int> = Seq::empty();
        let n = rest.len();
        let mut i: usize = 0;
        while i < n
            invariant
                n == inp.len(),
                i <= n,
                rest@ == inp.subrange(i as int, n as int),
                out@ == spec_prune(inp.take(i as int)),
                src.len() == out@.len(),
                forall|k: int| 0 <= k < out@.len() ==> 0 <= #[trigger] src[k] < i && out@[k] == inp[src[k]],
                dst.len() == i,
                forall|j: int| 0 <= j < i && !spec_is_trivial(inp[j]) ==>
                    0 <= #[trigger] dst[j] < out@.len() && out@[dst[j]].completion@ == inp[j].completion@,
            decreases n - i,
        {
            let x = rest.remove(0);
            assert(x == inp[i as int]);
            let mut dup = false;
            let mut k: usize = 0;
            while k < out.len()
                invariant
                    k <= out@.len(),
                    dup == exists|m: int| 0 <= m < k && (#[trigger] out@[m]).completion@ == x.completion@,
                decreases out@.len() - k,
            {
                if str_eq(out[k].completion.as_str(), x.completion.as_str()) {
                    dup = true;
                }
                k += 1;
            }
            let trivial = x.is_trivial();
            let ghost t = inp.take(i + 1);
            proof {
                assert(t.drop_last() =~= inp.take(i as int));
                assert(t.last() == x);
                if dup {
                    let m = choose|m: int| 0 <= m < out@.len() && (#[trigger] out@[m]).completion@ == x.completion@;
                    assert(t[src[m]] == inp[src[m]]);
                    assert(!kept_by_prune(t, i as int));
                } else if !trivial {
                    assert forall|j: int| 0 <= j < i implies (#[trigger] t[j]).completion@ != t[i as int].completion@ by {
                        assert(t[j] == inp[j]);
                        if inp[j].completion@ == x.completion@ {
                            assert(!spec_is_trivial(inp[j]));
                            assert(out@[dst[j]].completion@ == x.completion@);
                        }
                    }
                    assert(kept_by_prune(t, i as int));
                }
            }
            if !trivial && !dup {
                out.push(x);
                proof {
                    src = src.push(i as int);
                    dst = dst.push(out@.len() - 1);
                }
            } else {
                proof {
                    if dup {
                        let m = choose|m: int| 0 <= m < out@.len() && (#[trigger] out@[m]).completion@ == x.completion@;
                        dst = dst.push(m);
                    } else {
                        dst = dst.push(0);
                    }
                }
            }
            proof {
                assert(rest@ =~= inp.subrange(i + 1, n as int));
            }
            i += 1;
        }
        assert(inp.take(n as int) =~= inp);
        self.candidates = out;
    }
}

} // verus!
