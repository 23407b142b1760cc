//! The reference CLI agent: the agent every other agent module mirrors.
//!
//! Its identity (id, display name, icon, binary names, brand colours)
//! is supplied when the agent is built.
//! With its plugin installed, hook events drive the session state
//! (`state_from_hook`). Without it, the block's output is scanned for
//! signature phrases and spinner glyphs (`state_from_output`); a
//! waiting prompt wins over a working marker because it is the more
//! recent signal.

use vstd::prelude::*;
use crate::cli_agents::agent::{BlockOutputSnapshot, CliAgent, CliAgentCapabilities, CliAgentMatch, ProcessInfo};
use crate::cli_agents::detection::{binary_matches, parse_agent_cmdline, names_process, flags_of, flags_from, string_views, no_flags};
use crate::cli_agents::hook_events::CliAgentHookEvent;
use crate::cli_agents::session::{CliAgentSessionState, NotificationType, now};
use crate::text::{chars_of, chars_contains, seq_contains, str_is_empty, push_char};

verus! {

/// Identity data of an agent.
#[derive(Debug, Clone)]
pub struct CodeAgentIdentity {
    /// Stable identifier.
    pub id: String,
    pub display_name: String,
    /// Icon asset path.
    pub icon_path: String,
    /// Binary names the agent shows up as (platform-canonical forms).
    pub binary_names: Vec<String>,
    /// Brand colour pair `(background, foreground)` as hex strings.
    pub brand_colors: Option<(String, String)>,
}

/// The bundled agent. Beyond its identity it holds no state: every
/// answer derives from the arguments.
pub struct CodeAgent {
    identity: CodeAgentIdentity,
}

impl CodeAgent {
    pub closed spec fn identity_view(&self) -> CodeAgentIdentity {
        self.identity
    }

    pub fn new(identity: CodeAgentIdentity) -> (a: Self)
        ensures
            a.identity_view() == identity,
    {
        CodeAgent { identity }
    }
}

/// Markers printed while the agent is thinking or running a tool.
pub open spec fn working_markers() -> Seq<Seq<char>> {
    seq![
        "✻ Baked for "@,
        "✻ Brewed for "@,
        "✻ Cooking for "@,
        "✻ Thinking"@,
        "✻ Pondering"@,
        "✻ Composing"@,
        "✻ Churning"@,
        "✻ Crafting"@,
        "✻ Musing"@,
        "* Thinking"@,
        "Thinking..."@,
    ]
}

/// Braille spinner glyphs animated while a tool runs.
pub open spec fn spinner_glyphs() -> Seq<char> {
    "⠋⠙⠹⠸⠼⠴⠦⠧⠇⠏"@
}

/// Markers printed when the agent waits on the user.
pub open spec fn waiting_markers() -> Seq<Seq<char>> {
    seq![
        "Do you want to proceed?"@,
        "Do you want to continue?"@,
        "❯ 1. Yes"@,
        "❯ 2. No"@,
        "❯ 1) Yes"@,
        "❯ 2) No"@,
        "Select an option"@,
    ]
}

pub open spec fn spec_looks_like_working(text: Seq<char>) -> bool {
    ||| exists|i: int| 0 <= i < working_markers().len() && seq_contains(text, #[trigger] working_markers()[i])
    ||| exists|i: int| 0 <= i < spinner_glyphs().len() && text.contains(#[trigger] spinner_glyphs()[i])
}

pub open spec fn spec_looks_like_waiting(text: Seq<char>) -> bool {
    exists|i: int| 0 <= i < waiting_markers().len() && seq_contains(text, #[trigger] waiting_markers()[i])
}

fn contains_any(text: &Vec<char>, markers: &[&str]) -> (r: bool)
    ensures
        r == exists|i: int| 0 <= i < markers@.len() && seq_contains(text@, (#[trigger] markers@[i])@),
{
    let mut i: usize = 0;
    while i < markers.len()
        invariant
            i <= markers@.len(),
            forall|k: int| 0 <= k < i ==> !seq_contains(text@, (#[trigger] markers@[k])@),
        decreases markers@.len() - i,
    {
        let m = chars_of(markers[i]);
        if chars_contains(text, &m) {
            return true;
        }
        i += 1;
    }
    false
}

fn looks_like_working(text: &Vec<char>) -> (r: bool)
    ensures
        r == spec_looks_like_working(text@),
{
    let markers: [&str; 11] = [
        "✻ Baked for ",
        "✻ Brewed for ",
        "✻ Cooking for ",
        "✻ Thinking",
        "✻ Pondering",
        "✻ Composing",
        "✻ Churning",
        "✻ Crafting",
        "✻ Musing",
        "* Thinking",
        "Thinking...",
    ];
    proof {
        assert(markers@.map_values(|s: &str| s@) =~= working_markers());
    }
    if contains_any(text, &markers) {
        proof {
            let i = choose|i: int| 0 <= i < markers@.len() && seq_contains(text@, (#[trigger] markers@[i])@);
            assert(working_markers()[i] == markers@[i]@);
        }
        return true;
    }
    let spinner = chars_of("⠋⠙⠹⠸⠼⠴⠦⠧⠇⠏");
    let mut k: usize = 0;
    while k < spinner.len()
        invariant
            k <= spinner@.len(),
            spinner@ == spinner_glyphs(),
            forall|j: int| 0 <= j < k ==> !text@.contains(#[trigger] spinner@[j]),
        decreases spinner@.len() - k,
    {
        let g = spinner[k];
        let mut t: usize = 0;
        while t < text.len()
            invariant
                t <= text@.len(),
                spinner@ == spinner_glyphs(),
                k < spinner@.len(),
                g == spinner@[k as int],
                forall|j: int| 0 <= j < t ==> text@[j] != g,
            decreases text@.len() - t,
        {
            if text[t] == g {
                assert(text@.contains(g));
                assert(text@.contains(spinner_glyphs()[k as int]));
                return true;
            }
            t += 1;
        }
        k += 1;
    }
    proof {
        assert forall|i: int| 0 <= i < working_markers().len() implies !seq_contains(text@, #[trigger] working_markers()[i]) by {
            assert(working_markers()[i] == markers@[i]@);
        }
    }
    false
}

fn looks_like_waiting(text: &Vec<char>) -> (r: bool)
    ensures
        r == spec_looks_like_waiting(text@),
{
    let markers: [&str; 7] = [
        "Do you want to proceed?",
        "Do you want to continue?",
        "❯ 1. Yes",
        "❯ 2. No",
        "❯ 1) Yes",
        "❯ 2) No",
        "Select an option",
    ];
    let r = contains_any(text, &markers);
    proof {
        assert(markers@.map_values(|s: &str| s@) =~= waiting_markers());
        if r {
            let i = choose|i: int| 0 <= i < markers@.len() && seq_contains(text@, (#[trigger] markers@[i])@);
            assert(waiting_markers()[i] == markers@[i]@);
        } else {
            assert forall|i: int| 0 <= i < waiting_markers().len() implies !seq_contains(text@, #[trigger] waiting_markers()[i]) by {
                assert(waiting_markers()[i] == markers@[i]@);
            }
        }
    }
    r
}

/// The state a hook event moves the session to: `None` for events that
/// only carry metadata. `Working` is stamped with the current instant,
/// so only its variant is stated.
pub open spec fn hook_state_matches(event: CliAgentHookEvent, r: Option<CliAgentSessionState>) -> bool {
    match event {
        CliAgentHookEvent::SessionStart { .. } => r == Some(CliAgentSessionState::Starting),
        CliAgentHookEvent::UserPromptSubmit { .. } => r matches Some(CliAgentSessionState::Working { .. }),
        CliAgentHookEvent::PreToolUse { .. } => r matches Some(CliAgentSessionState::Working { .. }),
        CliAgentHookEvent::PostToolUse { .. } => r matches Some(CliAgentSessionState::Working { .. }),
        CliAgentHookEvent::PermissionRequest { .. } => r == Some(
            CliAgentSessionState::WaitingForInput { notification_type: NotificationType::PermissionPrompt },
        ),
        CliAgentHookEvent::Notification { notification_type, .. } => r == Some(
            CliAgentSessionState::WaitingForInput { notification_type },
        ),
        CliAgentHookEvent::Elicitation { .. } => r == Some(
            CliAgentSessionState::WaitingForInput { notification_type: NotificationType::Elicitation },
        ),
        CliAgentHookEvent::PreCompact { .. } => r == Some(CliAgentSessionState::Compacting),
        CliAgentHookEvent::PostCompact { .. } => r matches Some(CliAgentSessionState::Working { .. }),
        CliAgentHookEvent::Stop { .. } => r == Some(CliAgentSessionState::Idle),
        CliAgentHookEvent::SessionEnd { exit_code, .. } => r == Some(CliAgentSessionState::Completed { exit_code }),
        _ => r is None,
    }
}

/// The capability bits the reference agent advertises: every
/// documented one.
pub open spec fn all_capability_bits() -> u32 {
    32767
}

/// The agent's transcript directory name for a working directory:
/// every character that is not ASCII alphanumeric becomes `-`.
pub open spec fn spec_encode_cwd(cwd: Seq<char>) -> Seq<char> {
    cwd.map_values(|c: char| if ('a' <= c && c <= 'z') || ('A' <= c && c <= 'Z') || ('0' <= c && c <= '9') {
        c
    } else {
        '-'
    })
}

/// Encodes a working directory the way the agent names its
/// transcript directories.
pub fn encode_cwd(cwd: &str) -> (r: String)
    ensures
        r@ == spec_encode_cwd(cwd@),
{
    let v = chars_of(cwd);
    let mut out = String::new();
    let mut i: usize = 0;
    while i < v.len()
        invariant
            i <= v@.len(),
            v@ == cwd@,
            out@ == spec_encode_cwd(cwd@).take(i as int),
        decreases v@.len() - i,
    {
        let c = v[i];
        let keep = ('a' <= c && c <= 'z') || ('A' <= c && c <= 'Z') || ('0' <= c && c <= '9');
        push_char(&mut out, if keep { c } else { '-' });
        assert(out@ =~= spec_encode_cwd(cwd@).take(i + 1));
        i += 1;
    }
    assert(spec_encode_cwd(cwd@).take(v@.len() as int) =~= spec_encode_cwd(cwd@));
    out
}

pub open spec fn string_seq_views(v: Seq<String>) -> Seq<Seq<char>> {
    v.map_values(|s: String| s@)
}

impl CliAgent for CodeAgent {
    open spec fn hook_reading(&self, event: CliAgentHookEvent, r: Option<CliAgentSessionState>) -> bool {
        hook_state_matches(event, r)
    }

    fn id(&self) -> (r: &str)
        ensures
            r@ == self.identity_view().id@,
    {
        self.identity.id.as_str()
    }

    fn display_name(&self) -> (r: &str)
        ensures
            r@ == self.identity_view().display_name@,
    {
        self.identity.display_name.as_str()
    }

    fn binary_names(&self) -> (r: &[String])
        ensures
            r@ == self.identity_view().binary_names@,
    {
        self.identity.binary_names.as_slice()
    }

    fn icon_path(&self) -> (r: &str)
        ensures
            r@ == self.identity_view().icon_path@,
    {
        self.identity.icon_path.as_str()
    }

    fn brand_colors(&self) -> (r: Option<(&str, &str)>)
        ensures
            match self.identity_view().brand_colors {
                Some((bg, fg)) => r matches Some((b, f)) && b@ == bg@ && f@ == fg@,
                None => r is None,
            },
    {
        match &self.identity.brand_colors {
            Some((bg, fg)) => Some((bg.as_str(), fg.as_str())),
            None => None,
        }
    }

    fn capabilities(&self) -> (r: CliAgentCapabilities)
        ensures
            r.bits == all_capability_bits(),
    {
        let bits: u32 = CliAgentCapabilities::HOOKS | CliAgentCapabilities::RICH_INPUT
            | CliAgentCapabilities::NOTIFICATIONS | CliAgentCapabilities::DIFF_REVIEW | CliAgentCapabilities::VOICE
            | CliAgentCapabilities::IMAGES | CliAgentCapabilities::TASK_PANEL | CliAgentCapabilities::RESUME_SESSIONS
            | CliAgentCapabilities::MCP_TOOLS | CliAgentCapabilities::WORKTREES | CliAgentCapabilities::SUBAGENTS
            | CliAgentCapabilities::ELICITATION | CliAgentCapabilities::PERMISSION_MODES
            | CliAgentCapabilities::CONTEXT_WINDOW | CliAgentCapabilities::RULES;
        assert(1u32 | 2u32 | 4u32 | 8u32 | 16u32 | 32u32 | 64u32 | 128u32 | 256u32 | 512u32 | 1024u32 | 2048u32
            | 4096u32 | 8192u32 | 16384u32 == 32767u32) by (bit_vector);
        CliAgentCapabilities::from_bits(bits)
    }

    fn classify(&self, process: &ProcessInfo) -> (r: Option<CliAgentMatch>)
        ensures
            !(exists|i: int| 0 <= i < self.identity_view().binary_names@.len() && names_process(
                *process,
                (#[trigger] self.identity_view().binary_names@[i])@,
            )) ==> r is None,
            (exists|i: int| 0 <= i < self.identity_view().binary_names@.len() && names_process(
                *process,
                (#[trigger] self.identity_view().binary_names@[i])@,
            )) ==> (r matches Some(m) && m.pid == process.pid && m.cmdline@ == process.cmdline@ && flags_of(m)
                == flags_from(string_views(process.cmdline@), 1, no_flags())),
    {
        let owned = &self.identity.binary_names;
        let mut names: Vec<&str> = Vec::new();
        let mut i: usize = 0;
        while i < owned.len()
            invariant
                i <= owned@.len(),
                names@.len() == i,
                forall|k: int| 0 <= k < i ==> (#[trigger] names@[k])@ == owned@[k]@,
            decreases owned@.len() - i,
        {
            names.push(owned[i].as_str());
            i += 1;
        }
        let hit = binary_matches(process, names.as_slice());
        proof {
            if hit {
                let k = choose|k: int| 0 <= k < names@.len() && names_process(*process, (#[trigger] names@[k])@);
                assert(names_process(*process, owned@[k]@));
            } else {
                assert forall|k: int| 0 <= k < owned@.len() implies !names_process(*process, (#[trigger] owned@[k])@) by {
                    assert(names@[k]@ == owned@[k]@);
                }
            }
        }
        if !hit {
            return None;
        }
        Some(parse_agent_cmdline(process))
    }

    fn state_from_hook(&self, event: &CliAgentHookEvent) -> (r: Option<CliAgentSessionState>)
        ensures
            hook_state_matches(*event, r),
    {
        match event {
            CliAgentHookEvent::SessionStart { .. } => Some(CliAgentSessionState::Starting),
            CliAgentHookEvent::UserPromptSubmit { .. } => Some(CliAgentSessionState::Working { since: now() }),
            CliAgentHookEvent::PreToolUse { .. } => Some(CliAgentSessionState::Working { since: now() }),
            CliAgentHookEvent::PostToolUse { .. } => Some(CliAgentSessionState::Working { since: now() }),
            CliAgentHookEvent::PermissionRequest { .. } => Some(
                CliAgentSessionState::WaitingForInput { notification_type: NotificationType::PermissionPrompt },
            ),
            CliAgentHookEvent::Notification { notification_type, .. } => Some(
                CliAgentSessionState::WaitingForInput { notification_type: *notification_type },
            ),
            CliAgentHookEvent::Elicitation { .. } => Some(
                CliAgentSessionState::WaitingForInput { notification_type: NotificationType::Elicitation },
            ),
            CliAgentHookEvent::PreCompact { .. } => Some(CliAgentSessionState::Compacting),
            CliAgentHookEvent::PostCompact { .. } => Some(CliAgentSessionState::Working { since: now() }),
            CliAgentHookEvent::Stop { .. } => Some(CliAgentSessionState::Idle),
            CliAgentHookEvent::SessionEnd { exit_code, .. } => Some(
                CliAgentSessionState::Completed { exit_code: *exit_code },
            ),
            _ => None,
        }
    }

    fn state_from_output(&self, snapshot: &BlockOutputSnapshot) -> (r: Option<CliAgentSessionState>)
        ensures
            snapshot.text@.len() == 0 ==> r is None,
            snapshot.text@.len() > 0 && spec_looks_like_waiting(snapshot.text@) ==> r == Some(
                CliAgentSessionState::WaitingForInput { notification_type: NotificationType::PermissionPrompt },
            ),
            snapshot.text@.len() > 0 && !spec_looks_like_waiting(snapshot.text@) && spec_looks_like_working(
                snapshot.text@,
            ) ==> (r matches Some(CliAgentSessionState::Working { .. })),
            snapshot.text@.len() > 0 && !spec_looks_like_waiting(snapshot.text@) && !spec_looks_like_working(
                snapshot.text@,
            ) ==> r is None,
    {
        if str_is_empty(snapshot.text.as_str()) {
            return None;
        }
        let text = chars_of(snapshot.text.as_str());
        if looks_like_waiting(&text) {
            return Some(
                CliAgentSessionState::WaitingForInput { notification_type: NotificationType::PermissionPrompt },
            );
        }
        if looks_like_working(&text) {
            return Some(CliAgentSessionState::Working { since: now() });
        }
        None
    }
}

} // verus!
