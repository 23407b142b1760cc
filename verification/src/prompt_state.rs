//! Prompt-lifecycle state machine.
//!
//! `Active` while the user types; `Executing` while a command runs,
//! either `Hidden` (output only, keys go to the PTY) or `Transient`
//! (the running command asked for input mid-flight). A transient
//! password buffer is masked: `buffer()` hides it, only
//! `masked_buffer()` hands it out for the PTY write path.

use vstd::prelude::*;
use crate::mount::BlockHandle;
use crate::text::{
    str_eq,
    chars_of, chars_ascii_lower, chars_contains, trim_end_len, sub_chars, seq_contains,
    seq_ascii_lower, seq_trim_end, trimmed_end_len,
};

verus! {

/// Top-level lifecycle state.
#[derive(Debug, Clone, Default, PartialEq, Eq)]
pub enum PromptState {
    /// User is typing.
    #[default]
    Active,
    /// A command is running.
    Executing { block: BlockHandle, inner: InteractivePromptState },
}

/// Fine-grained state while a command is executing.
#[derive(Debug, Clone, PartialEq, Eq)]
pub enum InteractivePromptState {
    /// Pure output stream; keys route to the PTY.
    Hidden,
    /// The running block asked for input.
    Transient {
        detected: InteractionKind,
        /// Input typed so far for the interactive prompt.
        buffer: String,
        /// The buffer is sensitive.
        masked: bool,
    },
}

/// Shape of the detected interactive prompt.
#[derive(Debug, Clone, Copy, PartialEq, Eq, Hash, Structural)]
pub enum InteractionKind {
    /// Password / passphrase / PIN / secret.
    Password,
    /// Binary yes-or-no choice.
    YesNo,
    /// Free-text input.
    FreeText,
}

impl InteractionKind {
    /// Masking applies to passwords only.
    pub fn default_masked(self) -> (r: bool)
        ensures
            r == (self == InteractionKind::Password),
    {
        matches!(self, InteractionKind::Password)
    }
}

impl PromptState {
    pub fn is_active(&self) -> (r: bool)
        ensures
            r == (*self is Active),
    {
        matches!(self, PromptState::Active)
    }

    pub fn is_executing(&self) -> (r: bool)
        ensures
            r == (*self is Executing),
    {
        matches!(self, PromptState::Executing { .. })
    }

    /// Keys go to the cmdline editor while typing a command and while a
    /// transient prompt is open; otherwise to the PTY.
    pub fn routes_input_to_cmdline(&self) -> (r: bool)
        ensures
            r == (match *self {
                PromptState::Active => true,
                PromptState::Executing { inner, .. } => inner is Transient,
            }),
    {
        match self {
            PromptState::Active => true,
            PromptState::Executing { inner, .. } => matches!(inner, InteractivePromptState::Transient { .. }),
        }
    }

    /// Attached block, if any.
    pub fn block(&self) -> (r: Option<BlockHandle>)
        ensures
            r == (match *self {
                PromptState::Active => None,
                PromptState::Executing { block, .. } => Some(block),
            }),
    {
        match self {
            PromptState::Executing { block, .. } => Some(*block),
            PromptState::Active => None,
        }
    }

    /// Detected interaction kind of the current transient prompt.
    pub fn interaction_kind(&self) -> (r: Option<InteractionKind>)
        ensures
            r == (match *self {
                PromptState::Executing {
                    inner: InteractivePromptState::Transient { detected, .. },
                    ..
                } => Some(detected),
                _ => None,
            }),
    {
        match self {
            PromptState::Executing {
                inner: InteractivePromptState::Transient { detected, .. },
                ..
            } => Some(*detected),
            _ => None,
        }
    }

    /// The transient buffer, or `None` when masked or not transient.
    pub fn buffer(&self) -> (r: Option<&str>)
        ensures
            match *self {
                PromptState::Executing {
                    inner: InteractivePromptState::Transient { buffer, masked, .. },
                    ..
                } => if masked {
                    r.is_none()
                } else {
                    r.is_some() && r.unwrap()@ == buffer@
                },
                _ => r.is_none(),
            },
    {
        match self {
            PromptState::Executing {
                inner: InteractivePromptState::Transient { buffer, masked, .. },
                ..
            } => {
                if *masked {
                    None
                } else {
                    Some(buffer.as_str())
                }
            },
            _ => None,
        }
    }

    /// The transient buffer even when masked (PTY write path only).
    pub fn masked_buffer(&self) -> (r: Option<&str>)
        ensures
            match *self {
                PromptState::Executing {
                    inner: InteractivePromptState::Transient { buffer, .. },
                    ..
                } => r.is_some() && r.unwrap()@ == buffer@,
                _ => r.is_none(),
            },
    {
        match self {
            PromptState::Executing {
                inner: InteractivePromptState::Transient { buffer, .. },
                ..
            } => Some(buffer.as_str()),
            _ => None,
        }
    }
}

/// Password-style prompt markers.
pub open spec fn password_needles() -> Seq<Seq<char>> {
    seq![
        "password:"@,
        "password for"@,
        "passphrase:"@,
        "passphrase for"@,
        "sudo password"@,
        "enter pin"@,
        "secret:"@,
    ]
}

/// Yes/no prompt markers, lower-cased.
pub open spec fn yes_no_needles() -> Seq<Seq<char>> {
    seq![
        "[y/n]"@,
        "(yes/no)?"@,
        "(yes/no)"@,
        "continue?"@,
        "are you sure?"@,
        "proceed?"@,
    ]
}

/// Whether one of `needles` occurs in `h`.
pub open spec fn contains_any(h: Seq<char>, needles: Seq<Seq<char>>) -> bool {
    exists|i: int| 0 <= i < needles.len() && seq_contains(h, needles[i])
}

/// Prompt kind read off an output tail: lower-case it (ASCII), drop
/// trailing whitespace, then password markers win over yes/no markers,
/// which win over a final `:`, `?`, `>` or `)` (free text).
pub open spec fn spec_detect_interaction_kind(tail: Seq<char>) -> Option<InteractionKind> {
    let t = seq_trim_end(seq_ascii_lower(tail));
    if contains_any(t, password_needles()) {
        Some(InteractionKind::Password)
    } else if contains_any(t, yes_no_needles()) {
        Some(InteractionKind::YesNo)
    } else if t.len() > 0 && (t.last() == ':' || t.last() == '?' || t.last() == '>' || t.last()
        == ')') {
        Some(InteractionKind::FreeText)
    } else {
        None
    }
}

/// Whether one of `needles` occurs in `h`.
fn contains_any_of(h: &Vec<char>, needles: &[&str]) -> (r: bool)
    ensures
        r == exists|i: int| 0 <= i < needles@.len() && seq_contains(h@, needles@[i]@),
{
    let mut i: usize = 0;
    while i < needles.len()
        invariant
            i <= needles@.len(),
            forall|j: int| 0 <= j < i ==> !seq_contains(h@, needles@[j]@),
        decreases needles.len() - i,
    {
        let n = chars_of(needles[i]);
        if chars_contains(h, &n) {
            return true;
        }
        i += 1;
    }
    false
}

/// Pattern-match a running block's output tail for a mid-command
/// interactive prompt.
pub fn detect_interaction_kind(output_tail: &str) -> (r: Option<InteractionKind>)
    ensures
        r == spec_detect_interaction_kind(output_tail@),
{
    let chars = chars_of(output_tail);
    let lower = chars_ascii_lower(&chars);
    let end = trim_end_len(&lower);
    proof {
        crate::text::lemma_trimmed_end_len(lower@);
    }
    let trimmed = sub_chars(&lower, 0, end);
    let ghost t = seq_trim_end(seq_ascii_lower(output_tail@));
    assert(trimmed@ =~= t);
    let pw: [&str; 7] = [
        "password:",
        "password for",
        "passphrase:",
        "passphrase for",
        "sudo password",
        "enter pin",
        "secret:",
    ];
    if contains_any_of(&trimmed, &pw) {
        proof {
            let i = choose|i: int| 0 <= i < pw@.len() && seq_contains(trimmed@, pw@[i]@);
            assert(password_needles()[i] == pw@[i]@);
        }
        return Some(InteractionKind::Password);
    }
    proof {
        assert forall|i: int| 0 <= i < password_needles().len() implies !seq_contains(t, #[trigger] password_needles()[i]) by {
            assert(password_needles()[i] == pw@[i]@);
        }
    }
    let yn: [&str; 6] = [
        "[y/n]",
        "(yes/no)?",
        "(yes/no)",
        "continue?",
        "are you sure?",
        "proceed?",
    ];
    if contains_any_of(&trimmed, &yn) {
        proof {
            let i = choose|i: int| 0 <= i < yn@.len() && seq_contains(trimmed@, yn@[i]@);
            assert(yes_no_needles()[i] == yn@[i]@);
        }
        return Some(InteractionKind::YesNo);
    }
    proof {
        assert forall|i: int| 0 <= i < yes_no_needles().len() implies !seq_contains(t, #[trigger] yes_no_needles()[i]) by {
            assert(yes_no_needles()[i] == yn@[i]@);
        }
    }
    if end > 0 {
        let last = trimmed[end - 1];
        if last == ':' || last == '?' || last == '>' || last == ')' {
            return Some(InteractionKind::FreeText);
        }
    }
    None
}


/// Two prompt states are the same state: same variant, block, kind,
/// mask flag, and buffer text.
pub open spec fn same_prompt_state(a: PromptState, b: PromptState) -> bool {
    match (a, b) {
        (PromptState::Active, PromptState::Active) => true,
        (PromptState::Executing { block: b1, inner: i1 }, PromptState::Executing { block: b2, inner: i2 }) => {
            &&& b1 == b2
            &&& match (i1, i2) {
                (InteractivePromptState::Hidden, InteractivePromptState::Hidden) => true,
                (
                    InteractivePromptState::Transient { detected: d1, buffer: x1, masked: m1 },
                    InteractivePromptState::Transient { detected: d2, buffer: x2, masked: m2 },
                ) => d1 == d2 && m1 == m2 && x1@ == x2@,
                _ => false,
            }
        },
        _ => false,
    }
}

/// `==` on prompt states.
pub fn prompt_states_equal(a: &PromptState, b: &PromptState) -> (r: bool)
    ensures
        r == same_prompt_state(*a, *b),
{
    match (a, b) {
        (PromptState::Active, PromptState::Active) => true,
        (PromptState::Executing { block: b1, inner: i1 }, PromptState::Executing { block: b2, inner: i2 }) => {
            proof {
                BlockHandle::lemma_id_injective(*b1, *b2);
            }
            if b1.get() != b2.get() {
                return false;
            }
            match (i1, i2) {
                (InteractivePromptState::Hidden, InteractivePromptState::Hidden) => true,
                (
                    InteractivePromptState::Transient { detected: d1, buffer: x1, masked: m1 },
                    InteractivePromptState::Transient { detected: d2, buffer: x2, masked: m2 },
                ) => *d1 == *d2 && *m1 == *m2 && str_eq(x1.as_str(), x2.as_str()),
                _ => false,
            }
        },
        _ => false,
    }
}

} // verus!
