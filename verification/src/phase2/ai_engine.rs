//! Ghost-text engines.
//!
//! Every backend implements [`SuggestionEngine`]: given a request it
//! returns candidate suggestions. [`HistoryEngine`] completes from the
//! command history (newest entry first), [`MockEngine`] returns canned
//! answers, and [`RacingEngine`] runs its engines in registration
//! order and merges their answers into one pruned [`SuggestionSet`],
//! optionally dropping engines that ran over the request's budget.

use vstd::prelude::*;
use std::time::{Duration, Instant};
use crate::history::{CommandHistory, HistoryEntry};
use crate::phase2::ai::{
    spec_prune, spec_worth_dispatching, Suggestion, SuggestionRequest, SuggestionSet, SuggestionSource,
};
use crate::text::{chars_of, push_char};

verus! {

/// A ghost-text backend.
pub trait SuggestionEngine {
    /// Identifier for diagnostics.
    fn name(&self) -> &str;

    /// The source every candidate of this engine belongs to.
    fn source(&self) -> SuggestionSource;

    /// `out` is an answer this engine gives to `request`. An engine that
    /// says nothing of its answers leaves every output possible.
    open spec fn answers(&self, request: SuggestionRequest, out: Seq<Suggestion>) -> bool {
        true
    }

    /// Candidates for `request`; may be empty.
    fn suggest(&self, request: &SuggestionRequest) -> (out: Vec<Suggestion>)
        ensures
            self.answers(*request, out@);
}

// ---- history ------------------------------------------------------

/// The rest of `s` after `prefix`, when `s` starts with `prefix`.
pub open spec fn tail_after(s: Seq<char>, prefix: Seq<char>) -> Option<Seq<char>> {
    if prefix.len() <= s.len() && s.subrange(0, prefix.len() as int) == prefix {
        Some(s.skip(prefix.len() as int))
    } else {
        None
    }
}

fn split_prefix(s: &str, prefix: &str) -> (r: Option<String>)
    ensures
        match r {
            Some(t) => tail_after(s@, prefix@) == Some(t@),
            None => tail_after(s@, prefix@) is None,
        },
{
    let cs = chars_of(s);
    let ps = chars_of(prefix);
    if ps.len() > cs.len() {
        return None;
    }
    let mut i: usize = 0;
    while i < ps.len()
        invariant
            ps@ == prefix@,
            cs@ == s@,
            ps@.len() <= cs@.len(),
            i <= ps@.len(),
            forall|k: int| 0 <= k < i ==> cs@[k] == ps@[k],
        decreases ps@.len() - i,
    {
        if cs[i] != ps[i] {
            assert(s@.subrange(0, prefix@.len() as int)[i as int] != prefix@[i as int]);
            return None;
        }
        i += 1;
    }
    assert(s@.subrange(0, prefix@.len() as int) =~= prefix@);
    let mut tail = String::new();
    let mut j: usize = ps.len();
    while j < cs.len()
        invariant
            ps@ == prefix@,
            cs@ == s@,
            ps@.len() <= j <= cs@.len(),
            tail@ == s@.subrange(prefix@.len() as int, j as int),
        decreases cs@.len() - j,
    {
        push_char(&mut tail, cs[j]);
        proof {
            assert(tail@ =~= s@.subrange(prefix@.len() as int, j + 1));
        }
        j += 1;
    }
    assert(tail@ =~= s@.skip(prefix@.len() as int));
    Some(tail)
}

/// Confidence of a history tail: commands that last exited 0 score
/// higher.
pub open spec fn history_confidence(e: HistoryEntry) -> u8 {
    if e.exit_status == Some(0i32) { 80 } else { 40 }
}

pub open spec fn tails_contain(acc: Seq<(Seq<char>, u8)>, t: Seq<char>) -> bool {
    exists|k: int| 0 <= k < acc.len() && acc[k].0 == t
}

/// Walks `es[i - 1]`, `es[i - 2]`, … down to `es[0]` (newest first),
/// adding each new non-empty tail after `prefix` with its confidence,
/// until `max` are collected.
pub open spec fn history_scan(
    es: Seq<HistoryEntry>,
    prefix: Seq<char>,
    max: nat,
    i: int,
    acc: Seq<(Seq<char>, u8)>,
) -> Seq<(Seq<char>, u8)>
    decreases i,
{
    if i <= 0 || acc.len() >= max {
        acc
    } else {
        let e = es[i - 1];
        match tail_after(e.command@, prefix) {
            Some(t) => if t.len() > 0 && !tails_contain(acc, t) {
                history_scan(es, prefix, max, i - 1, acc.push((t, history_confidence(e))))
            } else {
                history_scan(es, prefix, max, i - 1, acc)
            },
            None => history_scan(es, prefix, max, i - 1, acc),
        }
    }
}

/// The history suggestions for a request, as `(completion, confidence)`.
pub open spec fn history_suggestions(es: Seq<HistoryEntry>, r: SuggestionRequest) -> Seq<(Seq<char>, u8)> {
    if !spec_worth_dispatching(r.prefix@) {
        Seq::empty()
    } else {
        let max: nat = if r.max_results == 0 { 1 } else { r.max_results as nat };
        history_scan(es, r.prefix@, max, es.len() as int, Seq::empty())
    }
}

pub open spec fn suggestion_pairs(v: Seq<Suggestion>) -> Seq<(Seq<char>, u8)> {
    v.map_values(|s: Suggestion| (s.completion@, s.confidence))
}

/// Completes from the tail of history entries that start with the
/// typed prefix.
pub struct HistoryEngine<'a> {
    history: &'a CommandHistory,
}

impl<'a> HistoryEngine<'a> {
    pub fn new(history: &'a CommandHistory) -> (r: Self)
        ensures
            r.history_view() == history,
    {
        HistoryEngine { history }
    }

    pub closed spec fn history_view(&self) -> &'a CommandHistory {
        self.history
    }

    fn contains_tail(out: &Vec<Suggestion>, t: &String) -> (r: bool)
        ensures
            r == tails_contain(suggestion_pairs(out@), t@),
    {
        let mut i: usize = 0;
        while i < out.len()
            invariant
                i <= out@.len(),
                forall|k: int| 0 <= k < i ==> out@[k].completion@ != t@,
            decreases out@.len() - i,
        {
            if crate::text::str_eq(out[i].completion.as_str(), t.as_str()) {
                assert(suggestion_pairs(out@)[i as int].0 == t@);
                return true;
            }
            i += 1;
        }
        proof {
            if tails_contain(suggestion_pairs(out@), t@) {
                let k = choose|k: int| 0 <= k < out@.len() && suggestion_pairs(out@)[k].0 == t@;
                assert(out@[k].completion@ == t@);
            }
        }
        false
    }
}

impl<'a> SuggestionEngine for HistoryEngine<'a> {
    open spec fn answers(&self, request: SuggestionRequest, out: Seq<Suggestion>) -> bool {
        &&& suggestion_pairs(out) == history_suggestions(self.history_view().view_entries(), request)
        &&& forall|k: int| 0 <= k < out.len() ==> (#[trigger] out[k]).source == SuggestionSource::History
            && out[k].latency is None
    }

    fn name(&self) -> (r: &str)
        ensures
            r@ == "history"@,
    {
        "history"
    }

    fn source(&self) -> (r: SuggestionSource)
        ensures
            r == SuggestionSource::History,
    {
        SuggestionSource::History
    }

    /// Newest entries first; each distinct non-empty tail once; every
    /// candidate from the History source with confidence 80 when the
    /// command last exited 0, else 40; at most `max_results` (at least
    /// one).
    fn suggest(&self, request: &SuggestionRequest) -> (out: Vec<Suggestion>)
        ensures
            suggestion_pairs(out@) == history_suggestions(self.history_view().view_entries(), *request),
            forall|k: int| 0 <= k < out@.len() ==> (#[trigger] out@[k]).source == SuggestionSource::History
                && out@[k].latency is None,
    {
        let es = self.history.entries();
        let ghost ev = self.history.view_entries();
        let mut out: Vec<Suggestion> = Vec::new();
        if !request.is_worth_dispatching() {
            assert(suggestion_pairs(out@) =~= Seq::<(Seq<char>, u8)>::empty());
            return out;
        }
        let max: usize = if request.max_results == 0 { 1 } else { request.max_results as usize };
        let mut i: usize = es.len();
        assert(suggestion_pairs(out@) =~= Seq::<(Seq<char>, u8)>::empty());
        while i > 0
            invariant_except_break
                i <= es@.len(),
                history_scan(ev, request.prefix@, max as nat, i as int, suggestion_pairs(out@))
                    == history_suggestions(ev, *request),
            invariant
                es@ == ev,
                1 <= max <= 255,
                spec_worth_dispatching(request.prefix@),
                out@.len() <= max,
                forall|k: int| 0 <= k < out@.len() ==> (#[trigger] out@[k]).source == SuggestionSource::History
                    && out@[k].latency is None,
            ensures
                suggestion_pairs(out@) == history_suggestions(ev, *request),
            decreases i,
        {
            if out.len() >= max {
                assert(history_scan(ev, request.prefix@, max as nat, i as int, suggestion_pairs(out@))
                    == suggestion_pairs(out@));
                break;
            }
            let e = &es[i - 1];
            match split_prefix(e.command.as_str(), request.prefix.as_str()) {
                Some(tail) => {
                    if !crate::text::str_is_empty(tail.as_str()) && !Self::contains_tail(&out, &tail) {
                        let confidence: u8 = if e.exit_status == Some(0i32) { 80 } else { 40 };
                        let ghost before = out@;
                        out.push(Suggestion { completion: tail, source: SuggestionSource::History, confidence, latency: None });
                        proof {
                            assert(suggestion_pairs(out@) =~= suggestion_pairs(before).push((tail@, confidence)));
                        }
                    }
                },
                None => {},
            }
            i -= 1;
        }
        out
    }
}

// ---- canned -------------------------------------------------------

fn clone_suggestions(v: &Vec<Suggestion>) -> (r: Vec<Suggestion>)
    ensures
        r@ == v@,
{
    let mut out: Vec<Suggestion> = Vec::new();
    let mut i: usize = 0;
    while i < v.len()
        invariant
            i <= v@.len(),
            out@ == v@.take(i as int),
        decreases v@.len() - i,
    {
        let s = &v[i];
        let latency = match &s.latency {
            Some(d) => Some(d.clone()),
            None => None,
        };
        out.push(Suggestion { completion: s.completion.clone(), source: s.source, confidence: s.confidence, latency });
        proof {
            assert(out@ =~= v@.take(i + 1));
        }
        i += 1;
    }
    assert(v@.take(v@.len() as int) =~= v@);
    out
}

/// Returns canned suggestions for any request worth dispatching.
pub struct MockEngine {
    name: String,
    source: SuggestionSource,
    canned: Vec<Suggestion>,
}

impl MockEngine {
    pub fn new(name: &str, source: SuggestionSource, canned: Vec<Suggestion>) -> (r: Self)
        ensures
            r.name_view() == name@,
            r.source_view() == source,
            r.canned_view() == canned@,
    {
        MockEngine { name: name.to_owned(), source, canned }
    }

    pub closed spec fn name_view(&self) -> Seq<char> {
        self.name@
    }

    pub closed spec fn source_view(&self) -> SuggestionSource {
        self.source
    }

    pub closed spec fn canned_view(&self) -> Seq<Suggestion> {
        self.canned@
    }
}

impl SuggestionEngine for MockEngine {
    open spec fn answers(&self, request: SuggestionRequest, out: Seq<Suggestion>) -> bool {
        out == if spec_worth_dispatching(request.prefix@) { self.canned_view() } else { Seq::empty() }
    }

    fn name(&self) -> (r: &str)
        ensures
            r@ == self.name_view(),
    {
        self.name.as_str()
    }

    fn source(&self) -> (r: SuggestionSource)
        ensures
            r == self.source_view(),
    {
        self.source
    }

    fn suggest(&self, request: &SuggestionRequest) -> (out: Vec<Suggestion>)
        ensures
            out@ == if spec_worth_dispatching(request.prefix@) { self.canned_view() } else { Seq::empty() },
    {
        if !request.is_worth_dispatching() {
            let v: Vec<Suggestion> = Vec::new();
            assert(v@ =~= Seq::<Suggestion>::empty());
            return v;
        }
        clone_suggestions(&self.canned)
    }
}

// ---- racing -------------------------------------------------------

/// `Box::new` of an engine, as a trait object (an unsizing coercion).
#[verifier::external_body]
fn box_engine<'a, E: SuggestionEngine + 'a>(engine: E) -> Box<dyn SuggestionEngine + 'a> {
    Box::new(engine)
}

/// `Instant::now()`: a reading of the monotonic clock.
#[verifier::external_body]
fn clock_now() -> Instant {
    Instant::now()
}

/// `Instant::elapsed`: time since `started`; depends on the clock.
#[verifier::external_body]
fn elapsed_since(started: &Instant) -> Duration {
    started.elapsed()
}

/// The length of a duration in nanoseconds.
pub uninterp spec fn duration_nanos(d: Duration) -> u128;

/// `Duration::as_nanos`: the duration's length in nanoseconds.
#[verifier::external_body]
fn nanos_of(d: &Duration) -> (r: u128)
    ensures
        r == duration_nanos(*d),
{
    d.as_nanos()
}

pub open spec fn concat_all(outs: Seq<Vec<Suggestion>>) -> Seq<Suggestion>
    decreases outs.len(),
{
    if outs.len() == 0 {
        Seq::empty()
    } else {
        concat_all(outs.drop_last()) + outs.last()@
    }
}

/// The candidates that survive the budget: engines whose elapsed time
/// exceeds `budget` contribute nothing; the others' candidates get the
/// elapsed time as latency when they carry none.
pub open spec fn within_budget(outs: Seq<(Vec<Suggestion>, Duration)>, budget: Duration) -> Seq<Suggestion>
    decreases outs.len(),
{
    if outs.len() == 0 {
        Seq::empty()
    } else {
        let (cands, elapsed) = outs.last();
        let kept = if duration_nanos(elapsed) > duration_nanos(budget) {
            Seq::empty()
        } else {
            cands@.map_values(|s: Suggestion| if s.latency is None { Suggestion { latency: Some(elapsed), ..s } } else { s })
        };
        within_budget(outs.drop_last(), budget) + kept
    }
}

/// Merges the engines' answers, in order, into a pruned set.
pub fn merge_results(outs: Vec<Vec<Suggestion>>) -> (set: SuggestionSet)
    ensures
        set.candidates@ == spec_prune(concat_all(outs@)),
{
    let mut set = SuggestionSet::new();
    let mut rest = outs;
    let ghost all = rest@;
    let total = rest.len();
    let mut done: usize = 0;
    while rest.len() > 0
        invariant
            total == all.len(),
            done <= all.len(),
            done + rest@.len() == all.len(),
            rest@ == all.skip(done as int),
            set.candidates@ == concat_all(all.take(done as int)),
        decreases rest@.len(),
    {
        let mut batch = rest.remove(0);
        proof {
            assert(all.skip(done as int)[0] == all[done as int]);
            assert(all.take(done + 1).drop_last() =~= all.take(done as int));
        }
        set.candidates.append(&mut batch);
        proof {
            assert(rest@ =~= all.skip(done + 1));
        }
        done += 1;
    }
    assert(all.take(done as int) =~= all);
    set.prune();
    set
}

/// Applies the budget to the engines' timed answers, then merges and
/// prunes them.
pub fn merge_within_budget(outs: Vec<(Vec<Suggestion>, Duration)>, budget: Duration) -> (set: SuggestionSet)
    ensures
        set.candidates@ == spec_prune(within_budget(outs@, budget)),
{
    let mut set = SuggestionSet::new();
    let budget_ns = nanos_of(&budget);
    let mut rest = outs;
    let ghost all = rest@;
    let total = rest.len();
    let mut done: usize = 0;
    while rest.len() > 0
        invariant
            total == all.len(),
            done <= all.len(),
            done + rest@.len() == all.len(),
            rest@ == all.skip(done as int),
            budget_ns == duration_nanos(budget),
            set.candidates@ == within_budget(all.take(done as int), budget),
        decreases rest@.len(),
    {
        let (cands, elapsed) = rest.remove(0);
        proof {
            assert(all.skip(done as int)[0] == all[done as int]);
            assert(all.take(done + 1).drop_last() =~= all.take(done as int));
        }
        let ghost before = set.candidates@;
        if nanos_of(&elapsed) <= budget_ns {
            let mut k: usize = 0;
            while k < cands.len()
                invariant
                    k <= cands@.len(),
                    set.candidates@ == before + cands@.take(k as int).map_values(
                        |s: Suggestion| if s.latency is None { Suggestion { latency: Some(elapsed), ..s } } else { s },
                    ),
                decreases cands@.len() - k,
            {
                let s = &cands[k];
                let latency = match &s.latency {
                    Some(d) => Some(d.clone()),
                    None => Some(elapsed.clone()),
                };
                set.candidates.push(Suggestion { completion: s.completion.clone(), source: s.source, confidence: s.confidence, latency });
                proof {
                    assert(cands@.take(k + 1) =~= cands@.take(k as int).push(cands@[k as int]));
                    assert(set.candidates@ =~= before + cands@.take(k + 1).map_values(
                        |s: Suggestion| if s.latency is None { Suggestion { latency: Some(elapsed), ..s } } else { s },
                    ));
                }
                k += 1;
            }
            assert(cands@.take(cands@.len() as int) =~= cands@);
        } else {
            assert(set.candidates@ =~= before + Seq::<Suggestion>::empty());
        }
        proof {
            assert(rest@ =~= all.skip(done + 1));
        }
        done += 1;
    }
    assert(all.take(done as int) =~= all);
    set.prune();
    set
}

/// Runs its engines in registration order and merges their answers.
pub struct RacingEngine<'a> {
    engines: Vec<Box<dyn SuggestionEngine + 'a>>,
}

impl<'a> RacingEngine<'a> {
    pub closed spec fn count(&self) -> nat {
        self.engines@.len()
    }

    /// `out` is an answer the engine registered `i`-th gives to `request`.
    pub closed spec fn engine_answers(&self, i: int, request: SuggestionRequest, out: Seq<Suggestion>) -> bool {
        self.engines@[i].answers(request, out)
    }

    pub fn new() -> (r: Self)
        ensures
            r.count() == 0,
    {
        RacingEngine { engines: Vec::new() }
    }

    pub fn register<E: SuggestionEngine + 'a>(&mut self, engine: E)
        ensures
            final(self).count() == old(self).count() + 1,
            forall|i: int, request: SuggestionRequest, out: Seq<Suggestion>|
                0 <= i < old(self).count() ==> (#[trigger] final(self).engine_answers(i, request, out)
                    == old(self).engine_answers(i, request, out)),
    {
        let boxed = box_engine(engine);
        let ghost before = self.engines@;
        self.engines.push(boxed);
        proof {
            // The length axiom is not picked up for trait-object elements.
            vstd::seq::axiom_seq_push_len(before, boxed);
            assert forall|i: int| 0 <= i < before.len() implies self.engines@[i] == before[i] by {
                vstd::seq::axiom_seq_push_index_different(before, boxed, i);
            }
        }
    }

    pub fn len(&self) -> (r: usize)
        ensures
            r == self.count(),
    {
        self.engines.len()
    }

    pub fn is_empty(&self) -> (r: bool)
        ensures
            r == (self.count() == 0),
    {
        self.engines.len() == 0
    }

    /// Runs every engine on `request` and merges their answers, in
    /// registration order, pruned.
    pub fn run(&self, request: &SuggestionRequest) -> (set: SuggestionSet)
        ensures
            exists|outs: Seq<Vec<Suggestion>>|
                #![trigger concat_all(outs)]
                outs.len() == self.count()
                    && (forall|i: int| 0 <= i < outs.len() ==> self.engine_answers(i, *request, #[trigger] outs[i]@))
                    && set.candidates@ == spec_prune(concat_all(outs)),
    {
        let mut outs: Vec<Vec<Suggestion>> = Vec::new();
        let mut i: usize = 0;
        while i < self.engines.len()
            invariant
                i <= self.engines@.len(),
                outs@.len() == i,
                forall|j: int| 0 <= j < i ==> self.engine_answers(j, *request, #[trigger] outs@[j]@),
            decreases self.engines@.len() - i,
        {
            outs.push(self.engines[i].suggest(request));
            i += 1;
        }
        let ghost o = outs@;
        let set = merge_results(outs);
        assert(forall|j: int| 0 <= j < o.len() ==> self.engine_answers(j, *request, #[trigger] o[j]@));
        assert(o.len() == self.count() && set.candidates@ == spec_prune(concat_all(o)));
        set
    }

    /// Like `run`, but an engine that took longer than the request's
    /// budget contributes nothing, and the others' candidates carry
    /// the measured time as latency.
    pub fn run_with_budget(&self, request: &SuggestionRequest) -> (set: SuggestionSet)
        ensures
            exists|outs: Seq<(Vec<Suggestion>, Duration)>|
                #![trigger within_budget(outs, request.budget)]
                outs.len() == self.count()
                    && (forall|i: int| 0 <= i < outs.len() ==> self.engine_answers(i, *request, #[trigger] outs[i].0@))
                    && set.candidates@ == spec_prune(within_budget(outs, request.budget)),
    {
        let mut outs: Vec<(Vec<Suggestion>, Duration)> = Vec::new();
        let mut i: usize = 0;
        while i < self.engines.len()
            invariant
                i <= self.engines@.len(),
                outs@.len() == i,
                forall|j: int| 0 <= j < i ==> self.engine_answers(j, *request, #[trigger] outs@[j].0@),
            decreases self.engines@.len() - i,
        {
            let started = clock_now();
            let candidates = self.engines[i].suggest(request);
            let elapsed = elapsed_since(&started);
            outs.push((candidates, elapsed));
            i += 1;
        }
        let ghost o = outs@;
        assert(forall|j: int| 0 <= j < o.len() ==> self.engine_answers(j, *request, #[trigger] o[j].0@));
        let set = merge_within_budget(outs, request.budget.clone());
        assert(o.len() == self.count() && set.candidates@ == spec_prune(within_budget(o, request.budget)));
        set
    }
}

impl<'a> Default for RacingEngine<'a> {
    fn default() -> (r: Self)
        ensures
            r.count() == 0,
    {
        RacingEngine::new()
    }
}

} // verus!
