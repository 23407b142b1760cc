//! OSC 133 (Final Term shell-integration) state-machine glue.
//!
//! The shell emits `ESC ] 133 ; A|B|C|D ; … BEL` at key moments:
//! `A` prompt start, `B` input start, `C` command start, `D;<exit>`
//! command end, and Carrot's own `L` for "agent edit in progress".
//! This module maps a marker onto a `PromptState` transition and
//! writes a marker back out as bytes for hook scripts.

use vstd::prelude::*;
use crate::mount::BlockHandle;
use crate::prompt_state::{InteractivePromptState, PromptState};
use crate::text::{signed_decimal_bytes, push_signed_decimal_bytes};

verus! {

/// Kind of prompt announced by a prompt-kind marker.
#[derive(Debug, Clone, Copy, PartialEq, Eq, Hash, Structural)]
pub enum PromptKindType {
    /// The primary prompt.
    Initial,
    /// A continuation prompt (`PS2`).
    Continuation,
    /// A secondary prompt (`select`, `read`).
    Secondary,
    /// A right-aligned prompt.
    Right,
}

/// A shell-integration marker scanned out of the PTY byte stream.
#[derive(Debug, Clone, PartialEq, Eq, Hash)]
pub enum ShellMarker {
    /// `A`: the shell is about to render its prompt.
    PromptStart,
    /// `B`: user input begins.
    InputStart,
    /// `C`: the user hit Enter; the command is running.
    CommandStart,
    /// `D;<exit>`: the command finished.
    CommandEnd { exit_code: i32 },
    /// `L`: an agent is editing the input; ghost text is off.
    AgentEditActive,
    /// Prompt-kind announcement.
    PromptKind { kind: PromptKindType },
    /// Block metadata payload.
    Metadata(String),
    /// Hint that a full-screen program is starting.
    TuiHint(String),
    /// A CLI-agent hook event payload.
    AgentEvent(String),
}

/// The name kept for existing call sites.
pub type ShellEvent = ShellMarker;

/// Target state for `event` arriving in `current`; `None` when the
/// event does not move the state machine. A fresh execution attaches
/// `block`.
pub open spec fn spec_transition_target(
    event: ShellMarker,
    current: PromptState,
    block: BlockHandle,
) -> Option<PromptState> {
    match (current, event) {
        (_, ShellMarker::PromptStart) => Some(PromptState::Active),
        (_, ShellMarker::InputStart) => Some(PromptState::Active),
        (PromptState::Active, ShellMarker::CommandStart) => Some(
            PromptState::Executing { block, inner: InteractivePromptState::Hidden },
        ),
        (PromptState::Executing { .. }, ShellMarker::CommandEnd { .. }) => Some(PromptState::Active),
        _ => None,
    }
}

/// Target `PromptState` when `event` arrives while in `current`.
pub fn transition_target(event: &ShellMarker, current: &PromptState, block: BlockHandle) -> (r: Option<PromptState>)
    ensures
        r == spec_transition_target(*event, *current, block),
{
    match (current, event) {
        (_, ShellMarker::PromptStart) => Some(PromptState::Active),
        (_, ShellMarker::InputStart) => Some(PromptState::Active),
        (PromptState::Active, ShellMarker::CommandStart) => Some(
            PromptState::Executing { block, inner: InteractivePromptState::Hidden },
        ),
        (PromptState::Executing { .. }, ShellMarker::CommandEnd { .. }) => Some(PromptState::Active),
        _ => None,
    }
}

/// `true` when the event ends the current block.
pub fn ends_block(event: &ShellMarker) -> (r: bool)
    ensures
        r == (*event is CommandEnd),
{
    matches!(event, ShellMarker::CommandEnd { .. })
}

/// `true` when the event opens a new block.
pub fn opens_block(event: &ShellMarker) -> (r: bool)
    ensures
        r == (*event is PromptStart),
{
    matches!(event, ShellMarker::PromptStart)
}

/// Exit code if the event carries one.
pub fn exit_code(event: &ShellMarker) -> (r: Option<i32>)
    ensures
        r == (match *event {
            ShellMarker::CommandEnd { exit_code } => Some(exit_code),
            _ => None,
        }),
{
    match event {
        ShellMarker::CommandEnd { exit_code } => Some(*exit_code),
        _ => None,
    }
}

/// `ESC ] 1 3 3 ;`
pub open spec fn osc133_prefix() -> Seq<u8> {
    seq![0x1bu8, 0x5du8, 0x31u8, 0x33u8, 0x33u8, 0x3bu8]
}

/// The bytes `emit` writes for `event`: `ESC ] 133 ; <sub> BEL`, empty
/// for markers outside the OSC 133 set.
pub open spec fn spec_emit(event: ShellMarker) -> Seq<u8> {
    match event {
        ShellMarker::PromptStart => osc133_prefix() + seq![0x41u8, 0x07u8],
        ShellMarker::InputStart => osc133_prefix() + seq![0x42u8, 0x07u8],
        ShellMarker::CommandStart => osc133_prefix() + seq![0x43u8, 0x07u8],
        ShellMarker::CommandEnd { exit_code } => osc133_prefix() + seq![0x44u8, 0x3bu8]
            + signed_decimal_bytes(exit_code as int) + seq![0x07u8],
        ShellMarker::AgentEditActive => osc133_prefix() + seq![0x4cu8, 0x07u8],
        _ => Seq::empty(),
    }
}

/// Emit the OSC 133 byte sequence for `event`.
pub fn emit(event: &ShellMarker) -> (r: Vec<u8>)
    ensures
        r@ == spec_emit(*event),
{
    let mut out: Vec<u8> = vec![0x1bu8, 0x5du8, 0x31u8, 0x33u8, 0x33u8, 0x3bu8];
    assert(out@ =~= osc133_prefix());
    match event {
        ShellMarker::PromptStart => out.push(0x41u8),
        ShellMarker::InputStart => out.push(0x42u8),
        ShellMarker::CommandStart => out.push(0x43u8),
        ShellMarker::CommandEnd { exit_code } => {
            out.push(0x44u8);
            out.push(0x3bu8);
            push_signed_decimal_bytes(&mut out, *exit_code as i64);
        },
        ShellMarker::AgentEditActive => out.push(0x4cu8),
        _ => {
            return Vec::new();
        },
    }
    out.push(0x07u8);
    assert(out@ =~= spec_emit(*event));
    out
}

} // verus!
