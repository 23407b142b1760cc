//! Keystroke → route decision from the prompt state and handoff mode.

use vstd::prelude::*;
use crate::handoff_mode::{HandoffMode, detect_mode, spec_detect_mode};
use crate::prompt_state::{InteractivePromptState, PromptState};

verus! {

/// Where a keystroke should go.
#[derive(Debug, Clone, Copy, PartialEq, Eq, Hash, Structural)]
pub enum KeystrokeRoute {
    /// The cmdline editor.
    Cmdline,
    /// The PTY's stdin.
    Pty,
    /// The agent surface.
    Agent,
    /// The transient editor, whose buffer is sent to the PTY on Enter.
    TransientInput,
}

/// Decision table: typing + shell mode → cmdline; typing + agent mode
/// → agent; running without prompt → PTY; running with a transient
/// prompt → transient input.
pub open spec fn spec_route(state: PromptState, mode: HandoffMode) -> KeystrokeRoute {
    match state {
        PromptState::Active => if mode == HandoffMode::Shell {
            KeystrokeRoute::Cmdline
        } else {
            KeystrokeRoute::Agent
        },
        PromptState::Executing { inner, .. } => if inner is Hidden {
            KeystrokeRoute::Pty
        } else {
            KeystrokeRoute::TransientInput
        },
    }
}

pub fn route_keystroke(state: &PromptState, mode: HandoffMode) -> (r: KeystrokeRoute)
    ensures
        r == spec_route(*state, mode),
{
    match state {
        PromptState::Active => match mode {
            HandoffMode::Shell => KeystrokeRoute::Cmdline,
            HandoffMode::Agent => KeystrokeRoute::Agent,
        },
        PromptState::Executing { inner: InteractivePromptState::Hidden, .. } => KeystrokeRoute::Pty,
        PromptState::Executing { inner: InteractivePromptState::Transient { .. }, .. } => {
            KeystrokeRoute::TransientInput
        },
    }
}

/// Route with the handoff mode inferred from the buffer.
pub fn route_with_buffer(state: &PromptState, buffer: &str) -> (r: KeystrokeRoute)
    ensures
        r == spec_route(*state, spec_detect_mode(buffer@)),
{
    route_keystroke(state, detect_mode(buffer))
}

pub fn agent_consumes(route: KeystrokeRoute) -> (r: bool)
    ensures
        r == (route == KeystrokeRoute::Agent),
{
    matches!(route, KeystrokeRoute::Agent)
}

pub fn pty_consumes(route: KeystrokeRoute) -> (r: bool)
    ensures
        r == (route == KeystrokeRoute::Pty || route == KeystrokeRoute::TransientInput),
{
    matches!(route, KeystrokeRoute::Pty | KeystrokeRoute::TransientInput)
}

} // verus!
