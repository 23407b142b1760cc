use carrot::cli_agents::agent::{
    BlockOutputSnapshot, CliAgent, CliAgentCapabilities, CliAgentMatch, ProcessInfo, SharedCliAgent,
};
use carrot::cli_agents::hook_events::CliAgentHookEvent;
use carrot::cli_agents::registry::{classify_processes, first_claimed, CliAgentRegistry};
use carrot::cli_agents::session::CliAgentSessionState;
use std::sync::Arc;

struct FakeAgent {
    id: &'static str,
}

impl CliAgent for FakeAgent {
    fn id(&self) -> &str {
        self.id
    }
    fn display_name(&self) -> &str {
        "Fake"
    }
    fn binary_names(&self) -> &[String] {
        &[]
    }
    fn icon_path(&self) -> &str {
        "icons/agents/fake.svg"
    }
    fn brand_colors(&self) -> Option<(&str, &str)> {
        None
    }
    fn capabilities(&self) -> CliAgentCapabilities {
        CliAgentCapabilities { bits: 0 }
    }
    fn classify(&self, process: &ProcessInfo) -> Option<CliAgentMatch> {
        if process.name == self.id {
            Some(CliAgentMatch { pid: process.pid, ..CliAgentMatch::default() })
        } else {
            None
        }
    }
    fn state_from_hook(&self, _event: &CliAgentHookEvent) -> Option<CliAgentSessionState> {
        None
    }
    fn state_from_output(&self, _snapshot: &BlockOutputSnapshot) -> Option<CliAgentSessionState> {
        None
    }
}

fn shared(id: &'static str) -> SharedCliAgent {
    Arc::new(Box::new(FakeAgent { id }))
}

#[test]
fn register_and_lookup() {
    let mut registry = CliAgentRegistry::new();
    registry.register(shared("fake"));
    assert_eq!(registry.agents().len(), 1);
    assert!(registry.agent_by_id("fake").is_some());
    assert!(registry.agent_by_id("missing").is_none());
}

#[test]
fn lookup_returns_first_registered_under_an_id() {
    let mut registry = CliAgentRegistry::default();
    let first = shared("dup");
    registry.register(shared("other"));
    registry.register(first.clone());
    registry.register(shared("dup"));
    let found = registry.agent_by_id("dup").unwrap();
    assert!(Arc::ptr_eq(&found, &first));
    assert_eq!(registry.agents().len(), 3);
    assert_eq!(registry.agents()[0].id(), "other");
}

fn process(pid: u32, name: &str) -> ProcessInfo {
    ProcessInfo { pid, ppid: 1, name: name.to_string(), exe: String::new(), cmdline: vec![], env: None }
}

#[test]
fn classification_takes_first_claimed_process() {
    let mut registry = CliAgentRegistry::new();
    registry.register(shared("alpha"));
    registry.register(shared("beta"));
    let children = vec![process(10, "zsh"), process(11, "beta"), process(12, "alpha")];
    let (agent, found) = classify_processes(&children, &registry).unwrap();
    assert_eq!(agent.id(), "beta");
    assert_eq!(found.pid, 11);
    assert!(classify_processes(&vec![process(1, "zsh")], &registry).is_none());
    assert!(classify_processes(&children, &CliAgentRegistry::new()).is_none());
}

#[test]
fn first_claimed_picks_first_claimed_process() {
    assert_eq!(first_claimed(&vec![None, Some(2), Some(0)]), Some((1, 2)));
    assert_eq!(first_claimed(&vec![None, None]), None);
    assert_eq!(first_claimed(&vec![]), None);
}
