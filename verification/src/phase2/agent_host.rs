//! Agent-edit host: what an agent may read from and propose to the
//! cmdline.
//!
//! Every accessor goes through `AgentPermission`, which defaults to
//! `Denied`: until the user grants access the agent reads an empty
//! text and an empty AST, and its proposals are dropped.

use vstd::prelude::*;
use vstd::utf8::encode_utf8;
use crate::ast::CommandAst;
use crate::parse::{parse_simple, parsed_simple};

verus! {

/// Per-session permission the user grants to the agent.
#[derive(Debug, Clone, Copy, PartialEq, Eq, Structural)]
pub enum AgentPermission {
    /// The agent can neither read the buffer nor propose edits.
    Denied,
    /// The agent can read text and AST but not propose edits.
    ReadOnly,
    /// The agent can read and propose edits.
    ReadWrite,
}

impl Default for AgentPermission {
    fn default() -> (p: Self)
        ensures
            p == AgentPermission::Denied,
    {
        AgentPermission::Denied
    }
}

impl AgentPermission {
    pub fn allows_read(self) -> (r: bool)
        ensures
            r == (self is ReadOnly || self is ReadWrite),
    {
        matches!(self, AgentPermission::ReadOnly | AgentPermission::ReadWrite)
    }

    pub fn allows_write(self) -> (r: bool)
        ensures
            r == (self is ReadWrite),
    {
        matches!(self, AgentPermission::ReadWrite)
    }
}

/// An agent-proposed edit waiting in the buffer for the user to
/// accept, modify or reject.
#[derive(Debug, Clone, PartialEq, Eq)]
pub struct PendingProposal {
    pub text: String,
    pub reason: Option<String>,
}

/// A registered callback, fired with the new buffer text. Verus does
/// not take `dyn Fn` trait objects, so the boxed closure is hidden.
#[verifier::external_body]
pub struct BufferWatcher {
    callback: Box<dyn Fn(&str) + Send + Sync>,
}

/// Boxes a user callback (`Box::new`, an unsizing coercion).
#[verifier::external_body]
fn box_watcher<F: Fn(&str) + Send + Sync + 'static>(on_change: F) -> BufferWatcher {
    BufferWatcher { callback: Box::new(on_change) }
}

/// Runs one registered callback (user code) on the new text.
#[verifier::external_body]
fn notify_watcher(watcher: &BufferWatcher, text: &str) {
    (watcher.callback)(text)
}

/// The operations an agent host offers.
pub trait CmdlineAgentHost {
    /// Propose a candidate for the buffer; a no-op below `ReadWrite`.
    fn propose(&mut self, text: &str, reason: Option<&str>);

    /// Register a callback fired on every buffer change; ignored while
    /// the permission is `Denied`.
    fn watch<F: Fn(&str) + Send + Sync + 'static>(&mut self, on_change: F);

    /// The buffer text as the agent sees it: empty while `Denied`.
    fn current_text(&self) -> String;

    /// The buffer's AST as the agent sees it: empty while `Denied`.
    fn current_ast(&self) -> CommandAst;
}

/// In-memory host: a buffer, its AST, the permission, the pending
/// proposal and the registered watchers.
pub struct InMemoryAgentHost {
    permission: AgentPermission,
    text: String,
    ast: CommandAst,
    pending: Option<PendingProposal>,
    watchers: Vec<BufferWatcher>,
}

impl InMemoryAgentHost {
    pub closed spec fn permission_view(&self) -> AgentPermission {
        self.permission
    }

    pub closed spec fn text_view(&self) -> Seq<char> {
        self.text@
    }

    pub closed spec fn ast_view(&self) -> CommandAst {
        self.ast
    }

    pub closed spec fn pending_view(&self) -> Option<PendingProposal> {
        self.pending
    }

    pub closed spec fn watcher_count(&self) -> nat {
        self.watchers@.len()
    }

    /// The AST is the parse of the buffer.
    pub open spec fn wf(&self) -> bool {
        parsed_simple(encode_utf8(self.text_view()), self.ast_view())
    }

    /// Denied host with an empty buffer, no proposal and no watchers.
    pub fn new() -> (h: Self)
        ensures
            h.wf(),
            h.permission_view() == AgentPermission::Denied,
            h.text_view().len() == 0,
            h.pending_view() is None,
            h.watcher_count() == 0,
    {
        let text = String::new();
        let ast = parse_simple(text.as_str());
        proof {
            assert(encode_utf8(text@) =~= Seq::<u8>::empty());
        }
        InMemoryAgentHost { permission: AgentPermission::Denied, text, ast, pending: None, watchers: Vec::new() }
    }

    /// Replaces the buffer, re-parses it, and fires every registered
    /// watcher with the new text.
    pub fn set_buffer(&mut self, text: &str)
        ensures
            final(self).wf(),
            final(self).text_view() == text@,
            final(self).permission_view() == old(self).permission_view(),
            final(self).pending_view() == old(self).pending_view(),
            final(self).watcher_count() == old(self).watcher_count(),
    {
        self.text = text.to_owned();
        self.ast = parse_simple(text);
        let mut i: usize = 0;
        while i < self.watchers.len()
            invariant
                i <= self.watchers@.len(),
            decreases self.watchers@.len() - i,
        {
            notify_watcher(&self.watchers[i], text);
            i += 1;
        }
    }

    /// Grants or revokes agent permission.
    pub fn set_permission(&mut self, permission: AgentPermission)
        ensures
            final(self).permission_view() == permission,
            final(self).text_view() == old(self).text_view(),
            final(self).ast_view() == old(self).ast_view(),
            final(self).pending_view() == old(self).pending_view(),
            final(self).watcher_count() == old(self).watcher_count(),
    {
        self.permission = permission;
    }

    pub fn permission(&self) -> (r: AgentPermission)
        ensures
            r == self.permission_view(),
    {
        self.permission
    }

    /// The pending proposal, if any.
    pub fn pending_proposal(&self) -> (r: Option<PendingProposal>)
        ensures
            match (r, self.pending_view()) {
                (None, None) => true,
                (Some(a), Some(b)) => a.text@ == b.text@ && match (a.reason, b.reason) {
                    (None, None) => true,
                    (Some(x), Some(y)) => x@ == y@,
                    _ => false,
                },
                _ => false,
            },
    {
        match &self.pending {
            None => None,
            Some(p) => {
                let reason = match &p.reason {
                    None => None,
                    Some(x) => Some(x.clone()),
                };
                Some(PendingProposal { text: p.text.clone(), reason })
            },
        }
    }

    /// Drops the pending proposal.
    pub fn clear_pending(&mut self)
        ensures
            final(self).pending_view() is None,
            final(self).permission_view() == old(self).permission_view(),
            final(self).text_view() == old(self).text_view(),
            final(self).ast_view() == old(self).ast_view(),
            final(self).watcher_count() == old(self).watcher_count(),
    {
        self.pending = None;
    }
}

impl CmdlineAgentHost for InMemoryAgentHost {
    fn propose(&mut self, text: &str, reason: Option<&str>)
        ensures
            final(self).permission_view() == old(self).permission_view(),
            final(self).text_view() == old(self).text_view(),
            final(self).ast_view() == old(self).ast_view(),
            final(self).watcher_count() == old(self).watcher_count(),
            !old(self).permission_view().allows_write_spec() ==> final(self).pending_view() == old(self).pending_view(),
            old(self).permission_view().allows_write_spec() ==> (final(self).pending_view() matches Some(p)
                && p.text@ == text@ && match (p.reason, reason) {
                    (None, None) => true,
                    (Some(x), Some(y)) => x@ == y@,
                    _ => false,
                }),
    {
        if !self.permission.allows_write() {
            return;
        }
        let reason = match reason {
            None => None,
            Some(r) => Some(r.to_owned()),
        };
        self.pending = Some(PendingProposal { text: text.to_owned(), reason });
    }

    fn watch<F: Fn(&str) + Send + Sync + 'static>(&mut self, on_change: F)
        ensures
            final(self).permission_view() == old(self).permission_view(),
            final(self).text_view() == old(self).text_view(),
            final(self).ast_view() == old(self).ast_view(),
            final(self).pending_view() == old(self).pending_view(),
            final(self).watcher_count() == old(self).watcher_count() + (if old(self).permission_view() is Denied {
                0int
            } else {
                1int
            }),
    {
        if !matches!(self.permission, AgentPermission::Denied) {
            self.watchers.push(box_watcher(on_change));
        }
    }

    fn current_text(&self) -> (r: String)
        ensures
            r@ == (if self.permission_view().allows_read_spec() { self.text_view() } else { Seq::empty() }),
    {
        if self.permission.allows_read() {
            self.text.clone()
        } else {
            String::new()
        }
    }

    fn current_ast(&self) -> (r: CommandAst)
        ensures
            self.permission_view().allows_read_spec() ==> parsed_simple(encode_utf8(self.text_view()), r),
            !self.permission_view().allows_read_spec() ==> r.elements@.len() == 0 && r.errors@.len() == 0,
    {
        if self.permission.allows_read() {
            parse_simple(self.text.as_str())
        } else {
            CommandAst::empty()
        }
    }
}

/// A call on the host that changes what the agent reads.
#[derive(Debug, Clone)]
pub enum HostCall {
    /// `set_buffer` with this text.
    SetBuffer(String),
    /// `set_permission` with this permission.
    SetPermission(AgentPermission),
}

/// `after` is `before` once `call` has been made, as far as the
/// contracts of `set_buffer` and `set_permission` say.
pub open spec fn host_call_step(before: InMemoryAgentHost, call: HostCall, after: InMemoryAgentHost) -> bool {
    match call {
        HostCall::SetBuffer(t) => {
            &&& after.wf()
            &&& after.text_view() == t@
            &&& after.permission_view() == before.permission_view()
        },
        HostCall::SetPermission(p) => {
            &&& after.permission_view() == p
            &&& after.text_view() == before.text_view()
            &&& after.ast_view() == before.ast_view()
        },
    }
}

/// The permission the last `SetPermission` among `calls[..n]` set;
/// `Denied` when there is none.
pub open spec fn last_permission(calls: Seq<HostCall>, n: int) -> AgentPermission
    decreases n,
{
    if n <= 0 {
        AgentPermission::Denied
    } else {
        match calls[n - 1] {
            HostCall::SetPermission(p) => p,
            HostCall::SetBuffer(_) => last_permission(calls, n - 1),
        }
    }
}

/// The text the last `SetBuffer` among `calls[..n]` set; empty when
/// there is none.
pub open spec fn last_text(calls: Seq<HostCall>, n: int) -> Seq<char>
    decreases n,
{
    if n <= 0 {
        Seq::empty()
    } else {
        match calls[n - 1] {
            HostCall::SetBuffer(t) => t@,
            HostCall::SetPermission(_) => last_text(calls, n - 1),
        }
    }
}

/// What the agent reads of a host made by `new` and then given `calls`,
/// one after the other: the text of the last `set_buffer` (empty if
/// none) and its parse, while the last `set_permission` (`Denied` if
/// none) allows reading; an empty text and AST otherwise.
pub proof fn lemma_host_reads_last_calls(hosts: Seq<InMemoryAgentHost>, calls: Seq<HostCall>)
    requires
        hosts.len() == calls.len() + 1,
        hosts[0].wf(),
        hosts[0].permission_view() == AgentPermission::Denied,
        hosts[0].text_view().len() == 0,
        forall|i: int| 0 <= i < calls.len() ==> #[trigger] host_call_step(hosts[i], calls[i], hosts[i + 1]),
    ensures
        hosts.last().wf(),
        hosts.last().permission_view() == last_permission(calls, calls.len() as int),
        hosts.last().text_view() == last_text(calls, calls.len() as int),
        hosts.last().permission_view().allows_read_spec() ==> parsed_simple(
            encode_utf8(last_text(calls, calls.len() as int)),
            hosts.last().ast_view(),
        ),
    decreases calls.len(),
{
    let n = calls.len() as int;
    if n > 0 {
        lemma_host_reads_last_calls(hosts.drop_last(), calls.drop_last());
        let i = n - 1;
        assert(host_call_step(hosts[i], calls[i], hosts[i + 1]));
        assert(hosts.drop_last().last() == hosts[i]);
        lemma_last_prefix(calls, i);
        assert(last_permission(calls.drop_last(), i) == last_permission(calls, i));
        assert(last_text(calls.drop_last(), i) == last_text(calls, i));
    } else {
        assert(hosts[0].text_view() =~= last_text(calls, 0));
    }
}

/// `last_permission` and `last_text` of a prefix do not look past it.
proof fn lemma_last_prefix(calls: Seq<HostCall>, n: int)
    requires
        0 <= n < calls.len(),
    ensures
        last_permission(calls.drop_last(), n) == last_permission(calls, n),
        last_text(calls.drop_last(), n) == last_text(calls, n),
    decreases n,
{
    if n > 0 {
        lemma_last_prefix(calls, n - 1);
        assert(calls.drop_last()[n - 1] == calls[n - 1]);
    }
}

impl AgentPermission {
    pub open spec fn allows_read_spec(self) -> bool {
        self is ReadOnly || self is ReadWrite
    }

    pub open spec fn allows_write_spec(self) -> bool {
        self is ReadWrite
    }
}

} // verus!
