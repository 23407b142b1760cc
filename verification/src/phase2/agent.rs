//! Agent hand-off and Active-AI chip data model.
//!
//! A line prefixed with `#` is handed to the agent panel as an
//! `AgentHandoff`; after a failed command the block offers chips
//! ("Ask AI to fix", "Explain this error") that materialise a
//! pre-seeded hand-off. The agent answers with `AgentResponse`s.

use vstd::prelude::*;
use crate::ast::{CommandAst, Range};
use crate::history::HistoryEntry;
use crate::text::{
    chars_of, seq_trim, trim_string, string_from_chars, push_str, push_signed_decimal, signed_decimal_chars,
    str_is_empty,
};

verus! {

/// Self-contained hand-off payload.
#[derive(Debug, Clone, PartialEq, Eq)]
pub struct AgentHandoff {
    /// The message with the `#` sigil stripped, trimmed.
    pub message: String,
    /// AST of the previous command, when relevant.
    pub context_ast: Option<CommandAst>,
    /// Working directory when the hand-off was issued.
    pub cwd: Option<String>,
    /// Tail of the user's recent commands.
    pub recent_history: Vec<HistoryEntry>,
    /// Seeded from a chip rather than typed.
    pub from_chip: bool,
}

/// Number of leading `#` characters of `s`.
pub open spec fn leading_hashes(s: Seq<char>) -> int
    decreases s.len(),
{
    if s.len() > 0 && s[0] == '#' {
        1 + leading_hashes(s.drop_first())
    } else {
        0
    }
}

proof fn lemma_leading_hashes(s: Seq<char>)
    ensures
        0 <= leading_hashes(s) <= s.len(),
    decreases s.len(),
{
    if s.len() > 0 && s[0] == '#' {
        lemma_leading_hashes(s.drop_first());
    }
}

/// `#` count at the start of `v`.
fn count_leading_hashes(v: &Vec<char>) -> (r: usize)
    ensures
        r == leading_hashes(v@),
{
    let mut i: usize = 0;
    assert(v@.skip(0) =~= v@);
    while i < v.len() && v[i] == '#'
        invariant
            i <= v@.len(),
            leading_hashes(v@) == i + leading_hashes(v@.skip(i as int)),
        decreases v.len() - i,
    {
        assert(v@.skip(i as int).drop_first() =~= v@.skip(i + 1));
        i += 1;
    }
    i
}

impl AgentHandoff {
    /// Hand-off for a `#`-prefixed line: one `#` stripped, the rest
    /// trimmed; `None` without the sigil or with an empty message.
    pub fn from_hash_line(line: &str) -> (r: Option<Self>)
        ensures
            !(line@.len() > 0 && line@[0] == '#') ==> r is None,
            line@.len() > 0 && line@[0] == '#' ==> {
                let msg = seq_trim(line@.drop_first());
                &&& msg.len() == 0 ==> r is None
                &&& msg.len() > 0 ==> (r matches Some(h) && h.message@ == msg && h.context_ast is None
                    && h.cwd is None && h.recent_history@.len() == 0 && !h.from_chip)
            },
    {
        let v = chars_of(line);
        if v.len() == 0 || v[0] != '#' {
            return None;
        }
        let rest = string_from_chars(&v, 1, v.len());
        assert(rest@ =~= line@.drop_first());
        let message = trim_string(rest.as_str());
        if str_is_empty(message.as_str()) {
            return None;
        }
        Some(AgentHandoff {
            message,
            context_ast: None,
            cwd: None,
            recent_history: Vec::new(),
            from_chip: false,
        })
    }

    /// Builder: attach the preceding command's AST.
    pub fn with_context_ast(self, ast: CommandAst) -> (h: Self)
        ensures
            h == (AgentHandoff { context_ast: Some(ast), ..self }),
    {
        let mut h = self;
        h.context_ast = Some(ast);
        h
    }

    /// Builder: attach the working directory.
    pub fn with_cwd(self, cwd: &str) -> (h: Self)
        ensures
            h.cwd matches Some(c) && c@ == cwd@,
            h.message == self.message,
            h.context_ast == self.context_ast,
            h.recent_history == self.recent_history,
            h.from_chip == self.from_chip,
    {
        let mut h = self;
        h.cwd = Some(cwd.to_owned());
        h
    }

    /// Builder: attach recent-history entries.
    pub fn with_recent_history(self, entries: Vec<HistoryEntry>) -> (h: Self)
        ensures
            h == (AgentHandoff { recent_history: entries, ..self }),
    {
        let mut h = self;
        h.recent_history = entries;
        h
    }

    /// Builder: mark the hand-off as seeded from a chip.
    pub fn from_chip(self) -> (h: Self)
        ensures
            h == (AgentHandoff { from_chip: true, ..self }),
    {
        let mut h = self;
        h.from_chip = true;
        h
    }
}

/// A clickable Active-AI chip rendered inside or below a block.
#[derive(Debug, Clone, PartialEq, Eq, Hash)]
pub struct AgentChip {
    /// Rendered verbatim.
    pub label: String,
    /// Seed text put into the cmdline when clicked.
    pub seed: String,
    pub intent: ChipIntent,
}

/// Coarse purpose of a chip.
#[derive(Debug, Clone, Copy, PartialEq, Eq, Hash, Structural)]
pub enum ChipIntent {
    /// Explain this output / error.
    Explain,
    /// Propose a corrected command.
    Fix,
    /// Show a related / next command.
    Suggest,
    /// User-configured.
    Custom,
}

/// The message a chip hands off: its seed (its label when the seed is
/// empty) without leading `#`s, trimmed.
pub open spec fn chip_message(label: Seq<char>, seed: Seq<char>) -> Seq<char> {
    let text = if seed.len() == 0 { label } else { seed };
    seq_trim(text.skip(leading_hashes(text)))
}

/// `# fix: <command trimmed> (exit <code>)`.
pub open spec fn fix_seed(command: Seq<char>, exit_code: int) -> Seq<char> {
    "# fix: "@ + seq_trim(command) + " (exit "@ + signed_decimal_chars(exit_code) + ")"@
}

/// `# explain the output of: <command trimmed>`.
pub open spec fn explain_seed(command: Seq<char>) -> Seq<char> {
    "# explain the output of: "@ + seq_trim(command)
}

impl AgentChip {
    /// Materialise the chip into a hand-off marked as chip-seeded.
    pub fn into_handoff(self) -> (h: AgentHandoff)
        ensures
            h.message@ == chip_message(self.label@, self.seed@),
            h.context_ast is None,
            h.cwd is None,
            h.recent_history@.len() == 0,
            h.from_chip,
    {
        let text = if str_is_empty(self.seed.as_str()) { self.label } else { self.seed };
        let v = chars_of(text.as_str());
        let k = count_leading_hashes(&v);
        proof {
            lemma_leading_hashes(v@);
        }
        let rest = string_from_chars(&v, k, v.len());
        assert(rest@ =~= text@.skip(k as int));
        let message = trim_string(rest.as_str());
        AgentHandoff {
            message,
            context_ast: None,
            cwd: None,
            recent_history: Vec::new(),
            from_chip: true,
        }
    }

    /// The "Ask AI to fix this" chip for a failed block.
    pub fn ask_ai_to_fix(command: &str, exit_code: i32) -> (c: Self)
        ensures
            c.label@ == "Ask AI to fix this (Cmd+.)"@,
            c.seed@ == fix_seed(command@, exit_code as int),
            c.intent == ChipIntent::Fix,
    {
        let mut seed = "# fix: ".to_owned();
        let cmd = trim_string(command);
        push_str(&mut seed, cmd.as_str());
        push_str(&mut seed, " (exit ");
        push_signed_decimal(&mut seed, exit_code as i64);
        push_str(&mut seed, ")");
        AgentChip { label: "Ask AI to fix this (Cmd+.)".to_owned(), seed, intent: ChipIntent::Fix }
    }

    /// The "Explain this error" chip.
    pub fn explain_error(command: &str) -> (c: Self)
        ensures
            c.label@ == "Explain this error"@,
            c.seed@ == explain_seed(command@),
            c.intent == ChipIntent::Explain,
    {
        let mut seed = "# explain the output of: ".to_owned();
        let cmd = trim_string(command);
        push_str(&mut seed, cmd.as_str());
        AgentChip { label: "Explain this error".to_owned(), seed, intent: ChipIntent::Explain }
    }
}

/// Chips for a block that just ended: fix and explain for a non-zero
/// exit, none otherwise.
pub fn default_chips_for_failed_block(command: &str, exit_code: Option<i32>) -> (r: Vec<AgentChip>)
    ensures
        match exit_code {
            Some(code) if code != 0 => {
                &&& r@.len() == 2
                &&& r@[0].label@ == "Ask AI to fix this (Cmd+.)"@ && r@[0].seed@ == fix_seed(command@, code as int)
                    && r@[0].intent == ChipIntent::Fix
                &&& r@[1].label@ == "Explain this error"@ && r@[1].seed@ == explain_seed(command@)
                    && r@[1].intent == ChipIntent::Explain
            },
            _ => r@.len() == 0,
        },
{
    match exit_code {
        Some(code) => {
            if code != 0 {
                let mut v: Vec<AgentChip> = Vec::new();
                v.push(AgentChip::ask_ai_to_fix(command, code));
                v.push(AgentChip::explain_error(command));
                v
            } else {
                Vec::new()
            }
        },
        None => Vec::new(),
    }
}

/// The agent's reply to a hand-off.
#[derive(Debug, Clone, PartialEq, Eq)]
pub enum AgentResponse {
    /// Plain text reply for the agent panel.
    Message(String),
    /// Proposed edit to the cmdline buffer.
    Edit(AgentEdit),
    /// A new chip for the triggering block.
    Chip(AgentChip),
}

/// An agent-proposed buffer edit.
#[derive(Debug, Clone, PartialEq, Eq, Hash)]
pub struct AgentEdit {
    /// Byte range of the input to replace.
    pub range: Range,
    pub replacement: String,
    /// Shown in the preview tooltip.
    pub rationale: Option<String>,
}

impl AgentEdit {
    /// Applying the edit would leave the buffer unchanged.
    pub fn is_noop(&self) -> (r: bool)
        ensures
            r == (self.range.end <= self.range.start && self.replacement@.len() == 0),
    {
        self.range.is_empty() && str_is_empty(self.replacement.as_str())
    }
}

} // verus!
