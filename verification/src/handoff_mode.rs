//! `#` agent handoff mode.
//!
//! When the first non-whitespace character of the buffer is `#`, the
//! cmdline is in agent mode: Enter goes to the agent, Escape drops the
//! sigil and returns to shell input.

use vstd::prelude::*;
use vstd::string::StrSliceExecFns;
use crate::text::{chars_of, trim_start_len, leading_ws_len, lemma_leading_ws_len, string_of};

verus! {

/// Cmdline operating mode.
#[derive(Debug, Clone, Copy, PartialEq, Eq, Hash, Default, Structural)]
pub enum HandoffMode {
    /// Normal shell input.
    #[default]
    Shell,
    /// `#` handoff active.
    Agent,
}

impl HandoffMode {
    pub fn is_agent(self) -> (r: bool)
        ensures
            r == (self == HandoffMode::Agent),
    {
        matches!(self, HandoffMode::Agent)
    }

    pub fn is_shell(self) -> (r: bool)
        ensures
            r == (self == HandoffMode::Shell),
    {
        matches!(self, HandoffMode::Shell)
    }
}

/// Agent mode exactly when the first non-whitespace character is `#`.
pub open spec fn spec_detect_mode(s: Seq<char>) -> HandoffMode {
    let k = leading_ws_len(s);
    if k < s.len() && s[k] == '#' {
        HandoffMode::Agent
    } else {
        HandoffMode::Shell
    }
}

/// Detect the current mode from a buffer snapshot.
pub fn detect_mode(buffer: &str) -> (r: HandoffMode)
    ensures
        r == spec_detect_mode(buffer@),
{
    let chars = chars_of(buffer);
    let k = trim_start_len(&chars);
    if k < chars.len() && chars[k] == '#' {
        HandoffMode::Agent
    } else {
        HandoffMode::Shell
    }
}

/// Mode change produced by a buffer edit.
#[derive(Debug, Clone, Copy, PartialEq, Eq, Structural)]
pub struct HandoffTransition {
    pub before: HandoffMode,
    pub after: HandoffMode,
}

impl HandoffTransition {
    pub fn entered(self) -> (r: bool)
        ensures
            r == (self.before == HandoffMode::Shell && self.after == HandoffMode::Agent),
    {
        matches!((self.before, self.after), (HandoffMode::Shell, HandoffMode::Agent))
    }

    pub fn exited(self) -> (r: bool)
        ensures
            r == (self.before == HandoffMode::Agent && self.after == HandoffMode::Shell),
    {
        matches!((self.before, self.after), (HandoffMode::Agent, HandoffMode::Shell))
    }

    pub fn changed(self) -> (r: bool)
        ensures
            r == (self.before != self.after),
    {
        self.before != self.after
    }
}

/// What follows the sigil: after leading whitespace and `#`, one
/// separating space is dropped; `None` when there is no leading `#`.
pub open spec fn spec_strip_sigil(s: Seq<char>) -> Option<Seq<char>> {
    let k = leading_ws_len(s);
    if k < s.len() && s[k] == '#' {
        if k + 1 < s.len() && s[k + 1] == ' ' {
            Some(s.subrange(k + 2, s.len() as int))
        } else {
            Some(s.subrange(k + 1, s.len() as int))
        }
    } else {
        None
    }
}

/// Strip the leading `#` (and one following space) from a buffer.
pub fn strip_sigil(buffer: &str) -> (r: Option<&str>)
    ensures
        match spec_strip_sigil(buffer@) {
            Some(t) => r.is_some() && r.unwrap()@ == t,
            None => r.is_none(),
        },
{
    let chars = chars_of(buffer);
    let k = trim_start_len(&chars);
    proof {
        lemma_leading_ws_len(buffer@);
    }
    if k < chars.len() && chars[k] == '#' {
        let n = chars.len();
        if k + 1 < n && chars[k + 1] == ' ' {
            Some(buffer.substring_char(k + 2, n))
        } else {
            Some(buffer.substring_char(k + 1, n))
        }
    } else {
        None
    }
}

/// Escape in agent mode: drop the sigil; shell mode returns the buffer
/// unchanged.
pub fn cancel_to_shell(buffer: &str) -> (r: String)
    ensures
        r@ == (match spec_strip_sigil(buffer@) {
            Some(t) => t,
            None => buffer@,
        }),
{
    match strip_sigil(buffer) {
        Some(rest) => string_of(&chars_of(rest)),
        None => string_of(&chars_of(buffer)),
    }
}

} // verus!
