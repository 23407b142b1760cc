//! The registry of every CLI-agent implementation.
//!
//! Append-only: agents register once and never leave. Each agent's
//! id is read once, when it registers, and lookups go by those ids.

use vstd::prelude::*;
use crate::cli_agents::agent::{ProcessInfo, SharedCliAgent};
use crate::cli_agents::detection::{copy_process, same_process};
use crate::text::str_eq;

verus! {

pub struct CliAgentRegistry {
    agents: Vec<SharedCliAgent>,
    /// `ids[i]` is the id `agents[i]` reported when it registered.
    ids: Vec<String>,
}

impl CliAgentRegistry {
    /// The registered agents, in registration order.
    pub closed spec fn agents_view(&self) -> Seq<SharedCliAgent> {
        self.agents@
    }

    /// The ids the agents reported when they registered.
    pub closed spec fn ids_view(&self) -> Seq<Seq<char>> {
        self.ids@.map_values(|s: String| s@)
    }

    pub closed spec fn wf(&self) -> bool {
        self.agents@.len() == self.ids@.len()
    }

    pub fn new() -> (r: Self)
        ensures
            r.wf(),
            r.agents_view().len() == 0,
            r.ids_view().len() == 0,
    {
        CliAgentRegistry { agents: Vec::new(), ids: Vec::new() }
    }

    /// Appends `agent`, recording the id it reports now.
    pub fn register(&mut self, agent: SharedCliAgent)
        requires
            old(self).wf(),
        ensures
            final(self).wf(),
            final(self).agents_view() == old(self).agents_view().push(agent),
            final(self).ids_view().len() == old(self).ids_view().len() + 1,
            final(self).ids_view().drop_last() == old(self).ids_view(),
    {
        let id = agent.id().to_owned();
        let ghost before = self.agents@;
        let ghost ids_before = self.ids@;
        self.agents.push(agent);
        self.ids.push(id);
        proof {
            // The length axiom is not picked up for trait-object elements.
            vstd::seq::axiom_seq_push_len(before, agent);
            assert(self.ids@.drop_last() =~= ids_before);
            assert(self.ids@.map_values(|s: String| s@).drop_last() =~= ids_before.map_values(|s: String| s@));
        }
    }

    /// The registered agents, in registration order.
    pub fn agents(&self) -> (r: &[SharedCliAgent])
        ensures
            r@ == self.agents_view(),
    {
        self.agents.as_slice()
    }

    /// The first agent registered under `id`.
    pub fn agent_by_id(&self, id: &str) -> (r: Option<SharedCliAgent>)
        requires
            self.wf(),
        ensures
            match r {
                Some(a) => exists|i: int|
                    0 <= i < self.ids_view().len() && self.ids_view()[i] == id@ && a == self.agents_view()[i]
                        && forall|j: int| 0 <= j < i ==> self.ids_view()[j] != id@,
                None => forall|i: int| 0 <= i < self.ids_view().len() ==> self.ids_view()[i] != id@,
            },
    {
        let ghost ids = self.ids_view();
        let mut i: usize = 0;
        while i < self.ids.len()
            invariant
                self.wf(),
                ids == self.ids_view(),
                i <= self.ids@.len(),
                forall|j: int| 0 <= j < i ==> ids[j] != id@,
            decreases self.ids@.len() - i,
        {
            if str_eq(self.ids[i].as_str(), id) {
                assert(ids[i as int] == self.ids@[i as int]@);
                let a = std::sync::Arc::clone(&self.agents[i]);
                return Some(a);
            }
            assert(ids[i as int] == self.ids@[i as int]@);
            i += 1;
        }
        None
    }
}

/// The first process some agent claimed, with that agent, given for
/// processes `i..` in order `claims[i]`: the index of the first agent
/// (in registration order) that claimed process `i`, if any.
pub open spec fn first_claim(claims: Seq<Option<usize>>, i: int) -> Option<(int, usize)>
    decreases claims.len() - i,
{
    if i < 0 || i >= claims.len() {
        None
    } else {
        match claims[i] {
            Some(j) => Some((i, j)),
            None => first_claim(claims, i + 1),
        }
    }
}

proof fn lemma_first_claim(claims: Seq<Option<usize>>, i: int)
    requires
        0 <= i,
    ensures
        first_claim(claims, i) matches Some((k, j)) ==> i <= k < claims.len() && claims[k] == Some(j),
    decreases claims.len() - i,
{
    if i < claims.len() && claims[i] is None {
        lemma_first_claim(claims, i + 1);
    }
}

/// The first claimed process and its agent, from the claims of the
/// processes in order.
pub fn first_claimed(claims: &Vec<Option<usize>>) -> (r: Option<(usize, usize)>)
    ensures
        match first_claim(claims@, 0) {
            Some((i, j)) => r == Some((i as usize, j)),
            None => r is None,
        },
{
    proof {
        lemma_first_claim(claims@, 0);
    }
    let mut i: usize = 0;
    while i < claims.len()
        invariant
            i <= claims@.len(),
            first_claim(claims@, 0) == first_claim(claims@, i as int),
        decreases claims@.len() - i,
    {
        match claims[i] {
            Some(j) => {
                return Some((i, j));
            },
            None => {},
        }
        i += 1;
    }
    None
}

/// The index of the first agent of `agents` (in registration order)
/// whose `classify` claims `process`. Whether an agent claims a
/// process is the agent's own affair.
fn claiming_agent(agents: &[SharedCliAgent], process: &ProcessInfo) -> (r: Option<usize>)
    ensures
        r matches Some(j) ==> j < agents@.len(),
        agents@.len() == 0 ==> r is None,
{
    let mut j: usize = 0;
    while j < agents.len()
        invariant
            j <= agents@.len(),
        decreases agents@.len() - j,
    {
        if agents[j].classify(process).is_some() {
            return Some(j);
        }
        j += 1;
    }
    None
}

/// Asks the registered agents, in registration order, to classify
/// each process, in order, up to the first process an agent claims:
/// that process (a copy) with the first agent that claimed it. The
/// claims are the agents' own affair; the result is the first claim
/// among them.
pub fn classify_processes(children: &Vec<ProcessInfo>, registry: &CliAgentRegistry) -> (r: Option<(SharedCliAgent, ProcessInfo)>)
    ensures
        exists|claims: Seq<Option<usize>>|
            #![trigger first_claim(claims, 0)]
            claims.len() <= children@.len() && (claims.len() == children@.len() || claims.last() is Some)
                && (forall|i: int| 0 <= i < claims.len() ==> (#[trigger] claims[i] matches Some(j) ==> j < registry.agents_view().len()))
                && match first_claim(claims, 0) {
                Some((i, j)) => (r matches Some((a, p)) && a == registry.agents_view()[j as int] && same_process(p, children@[i])),
                None => r is None,
            },
        children@.len() == 0 || registry.agents_view().len() == 0 ==> r is None,
{
    let agents = registry.agents();
    let mut claims: Vec<Option<usize>> = Vec::new();
    let mut i: usize = 0;
    while i < children.len()
        invariant_except_break
            forall|k: int| 0 <= k < claims@.len() ==> claims@[k] is None,
        invariant
            agents@ == registry.agents_view(),
            i <= children@.len(),
            claims@.len() == i,
            forall|k: int| 0 <= k < claims@.len() ==> (#[trigger] claims@[k] matches Some(j) ==> j < agents@.len()),
            agents@.len() == 0 ==> forall|k: int| 0 <= k < claims@.len() ==> claims@[k] is None,
        ensures
            claims@.len() == children@.len() || (claims@.len() > 0 && claims@.last() is Some),
        decreases children@.len() - i,
    {
        let c = claiming_agent(agents, &children[i]);
        claims.push(c);
        i += 1;
        if c.is_some() {
            break;
        }
    }
    proof {
        lemma_first_claim(claims@, 0);
    }
    match first_claimed(&claims) {
        Some((k, j)) => {
            let a = std::sync::Arc::clone(&agents[j]);
            let p = copy_process(&children[k]);
            Some((a, p))
        },
        None => None,
    }
}

impl Default for CliAgentRegistry {
    fn default() -> (r: Self)
        ensures
            r.wf(),
            r.agents_view().len() == 0,
            r.ids_view().len() == 0,
    {
        CliAgentRegistry::new()
    }
}

} // verus!
