//! In-memory cmdline session: one terminal block's worth of input.
//!
//! A `CmdlineSession` owns the text buffer, the cursor (a byte offset),
//! the parsed `CommandAst` (recomputed on every edit), the prompt
//! state, the active shell, and the latest suggestion and completion
//! results. Inputs arrive as method calls; consumers read the fields
//! through the accessors.

use vstd::prelude::*;
use vstd::string::StringSliceAdditionalSpecFns;
use vstd::utf8::{encode_utf8, is_char_boundary, encode_utf8_valid_utf8, is_char_boundary_start_end_of_seq, encode_utf8_decode_utf8};
use crate::ast::CommandAst;
use crate::completion::CompletionSet;
use crate::mount::BlockHandle;
use crate::osc133::{ShellEvent, ShellMarker, transition_target, spec_transition_target};
use crate::parse::{parse_simple, parsed_simple};
use crate::syntax::bash::{bash_syntax, parse_bash};
use crate::syntax::fish::{fish_syntax, parse_fish};
use crate::syntax::tree::{parsed_with, Grammar};
use crate::text::seq_trim;
use crate::phase2::ai::{Suggestion, SuggestionSet, is_best_index};
use crate::prompt_state::{InteractionKind, InteractivePromptState, PromptState, same_prompt_state, prompt_states_equal};
use crate::shell::ShellKind;
use crate::text::{byte_len, utf8_len, text_of, slice_string, push_str, lemma_encode_utf8_concat, lemma_text_of_bytes, lemma_concat_boundary};

verus! {

/// `ast` is the parse of input `s` (bytes `b`) for `shell`: bash and
/// fish through their grammars, every other shell through the
/// whitespace parser.
pub open spec fn shell_parsed(shell: ShellKind, b: Seq<u8>, s: Seq<char>, ast: CommandAst) -> bool {
    match shell {
        ShellKind::Bash => parsed_with(Grammar::Bash, b, s, bash_syntax(s), ast),
        ShellKind::Fish => parsed_with(Grammar::Fish, b, s, fish_syntax(s), ast),
        _ => parsed_simple(b, ast),
    }
}

/// Parses `input` the way `shell` reads it.
pub fn parse_for_shell(shell: ShellKind, input: &str) -> (ast: CommandAst)
    ensures
        shell_parsed(shell, input.spec_bytes(), input@, ast),
{
    match shell {
        ShellKind::Bash => parse_bash(input),
        ShellKind::Fish => parse_fish(input),
        _ => parse_simple(input),
    }
}

/// `promote_to_transient(detected)` in prompt state `before` returned `r`
/// and left `after`: a hidden prompt of a running command becomes an
/// empty transient one (masked for passwords); anything else stays.
pub open spec fn promote_step(before: PromptState, detected: InteractionKind, r: bool, after: PromptState) -> bool {
    match before {
        PromptState::Executing { block, inner: InteractivePromptState::Hidden } => {
            &&& r
            &&& after matches PromptState::Executing {
                block: b2,
                inner: InteractivePromptState::Transient { detected: d, buffer, masked },
            }
            &&& b2 == block && d == detected && buffer@.len() == 0
                && masked == (detected == InteractionKind::Password)
        },
        _ => !r && after == before,
    }
}

/// `transient_append(text)` in prompt state `before` returned `r` and left
/// `after`: a transient buffer grows by `text`; anything else stays.
pub open spec fn append_step(before: PromptState, text: Seq<char>, r: bool, after: PromptState) -> bool {
    match before {
        PromptState::Executing {
            block,
            inner: InteractivePromptState::Transient { detected, buffer, masked },
        } => {
            &&& r
            &&& after matches PromptState::Executing {
                block: b2,
                inner: InteractivePromptState::Transient { detected: d2, buffer: nb, masked: m2 },
            }
            &&& b2 == block && d2 == detected && m2 == masked && nb@ == buffer@ + text
        },
        _ => !r && after == before,
    }
}

/// `commit_transient()` in prompt state `before` returned `r` and left
/// `after`: a transient buffer is handed out and the prompt hidden again;
/// anything else gives `None` and stays.
pub open spec fn commit_step(before: PromptState, r: Option<String>, after: PromptState) -> bool {
    match before {
        PromptState::Executing { block, inner: InteractivePromptState::Transient { buffer, .. } } => {
            &&& r matches Some(bytes) && bytes@ == buffer@
            &&& after == (PromptState::Executing {
                block,
                inner: InteractivePromptState::Hidden,
            })
        },
        _ => r is None && after == before,
    }
}

/// The texts of `ts` joined in order.
pub open spec fn concat_texts(ts: Seq<Seq<char>>) -> Seq<char>
    decreases ts.len(),
{
    if ts.len() == 0 {
        Seq::empty()
    } else {
        concat_texts(ts.drop_last()) + ts.last()
    }
}

/// After the promotion and the first `k` appends the prompt is still
/// transient at `block`, its buffer holds the first `k` texts, and each
/// of those appends succeeded.
proof fn lemma_transient_prefix(
    block: BlockHandle,
    detected: InteractionKind,
    states: Seq<PromptState>,
    texts: Seq<Seq<char>>,
    oks: Seq<bool>,
    k: int,
)
    requires
        0 <= k <= texts.len(),
        states.len() == texts.len() + 1,
        oks.len() == texts.len(),
        states[0] matches PromptState::Executing {
            block: b0,
            inner: InteractivePromptState::Transient { detected: d0, buffer, .. },
        } && b0 == block && d0 == detected && buffer@.len() == 0,
        forall|i: int|
            0 <= i < texts.len() ==> #[trigger] append_step(states[i], texts[i], oks[i], states[i + 1]),
    ensures
        states[k] matches PromptState::Executing {
            block: bk,
            inner: InteractivePromptState::Transient { detected: dk, buffer, .. },
        } && bk == block && dk == detected && buffer@ == concat_texts(texts.take(k)),
        forall|j: int| 0 <= j < k ==> oks[j],
    decreases k,
{
    if k == 0 {
        assert(texts.take(0) =~= Seq::<Seq<char>>::empty());
    } else {
        lemma_transient_prefix(block, detected, states, texts, oks, k - 1);
        let i = k - 1;
        assert(append_step(states[i], texts[i], oks[i], states[i + 1]));
        assert(texts.take(k).drop_last() =~= texts.take(k - 1));
        assert(texts.take(k).last() == texts[k - 1]);
    }
}

/// A transient prompt commits exactly what was typed into it: once
/// `promote_to_transient` has opened it over a hidden prompt and each
/// `transient_append` has added its text in turn, every append succeeds,
/// `commit_transient` hands back the texts joined in order and hides the
/// prompt again, and a second `commit_transient` gives `None` and
/// changes nothing.
pub proof fn lemma_transient_commits_appends(
    block: BlockHandle,
    detected: InteractionKind,
    promoted: bool,
    states: Seq<PromptState>,
    texts: Seq<Seq<char>>,
    oks: Seq<bool>,
    r: Option<String>,
    last: PromptState,
    r2: Option<String>,
    last2: PromptState,
)
    requires
        states.len() == texts.len() + 1,
        oks.len() == texts.len(),
        promote_step(
            PromptState::Executing { block, inner: InteractivePromptState::Hidden },
            detected,
            promoted,
            states[0],
        ),
        forall|i: int|
            0 <= i < texts.len() ==> #[trigger] append_step(states[i], texts[i], oks[i], states[i + 1]),
        commit_step(states.last(), r, last),
        commit_step(last, r2, last2),
    ensures
        promoted,
        forall|j: int| 0 <= j < oks.len() ==> oks[j],
        r matches Some(text) && text@ == concat_texts(texts),
        last == (PromptState::Executing { block, inner: InteractivePromptState::Hidden }),
        r2 is None,
        last2 == last,
{
    lemma_transient_prefix(block, detected, states, texts, oks, texts.len() as int);
    assert(texts.take(texts.len() as int) =~= texts);
}

/// `after` holds the buffer of `before` with `text` put in at the
/// cursor, and its cursor just past `text`.
pub open spec fn insert_step(before: CmdlineSession, text: Seq<char>, after: CmdlineSession) -> bool {
    let b = before.buffer_bytes();
    let c = before.cursor_view() as int;
    &&& after.buffer_view() == text_of(b, 0, c) + text + text_of(b, c, b.len() as int)
    &&& after.cursor_view() == c + utf8_len(text)
}

/// `after` holds the buffer of `before` without the (up to) `n` bytes
/// left of the cursor, and its cursor where they began.
pub open spec fn delete_left_step(before: CmdlineSession, n: nat, after: CmdlineSession) -> bool {
    let b = before.buffer_bytes();
    let c = before.cursor_view() as int;
    let start = if c >= n { c - n } else { 0 };
    &&& after.buffer_view() == text_of(b, 0, start) + text_of(b, c, b.len() as int)
    &&& after.cursor_view() == start
}

/// After `insert` of `text` the cursor sits on a character boundary, past
/// `text`, and the start of `text` is a character boundary too: a
/// `delete_left` of `text`'s byte length may follow.
pub proof fn lemma_insert_boundaries(s0: CmdlineSession, text: Seq<char>, s1: CmdlineSession)
    requires
        s0.wf(),
        s0.cursor_on_boundary(),
        insert_step(s0, text, s1),
    ensures
        s1.cursor_on_boundary(),
        s1.cursor_view() >= utf8_len(text),
        is_char_boundary(s1.buffer_bytes(), s1.cursor_view() - utf8_len(text)),
        s1.buffer_bytes() == s0.buffer_bytes().subrange(0, s0.cursor_view() as int) + encode_utf8(text)
            + s0.buffer_bytes().subrange(s0.cursor_view() as int, s0.buffer_bytes().len() as int),
{
    let b0 = s0.buffer_bytes();
    let c = s0.cursor_view() as int;
    let t = encode_utf8(text);
    encode_utf8_valid_utf8(s0.buffer_view());
    encode_utf8_valid_utf8(text);
    is_char_boundary_start_end_of_seq(b0);
    lemma_text_of_bytes(b0, 0, c);
    lemma_text_of_bytes(b0, c, b0.len() as int);
    let left = text_of(b0, 0, c);
    let right = text_of(b0, c, b0.len() as int);
    let l = b0.subrange(0, c);
    let r = b0.subrange(c, b0.len() as int);
    lemma_encode_utf8_concat(left, text);
    lemma_encode_utf8_concat(left + text, right);
    let b1 = s1.buffer_bytes();
    assert(b1 == l + t + r);
    lemma_concat_boundary(l, t);
    lemma_concat_boundary(l + t, r);
    assert(is_char_boundary(b1, c)) by {
        lemma_concat_boundary(t, r);
        lemma_concat_boundary(l, t + r);
        assert(l + (t + r) =~= l + t + r);
    }
}

/// Typing `text` at the cursor and then deleting as many bytes left of
/// the cursor as `text` takes undoes the typing: it gives back the
/// buffer and the cursor from before, with the AST the shell's parse of
/// that buffer. (`insert` ensures what `delete_left` requires here; see
/// `lemma_insert_boundaries`.)
pub proof fn lemma_insert_then_delete_left(
    s0: CmdlineSession,
    text: Seq<char>,
    s1: CmdlineSession,
    s2: CmdlineSession,
)
    requires
        s0.wf(),
        s0.cursor_on_boundary(),
        s1.wf(),
        s1.same_context(&s0),
        insert_step(s0, text, s1),
        s2.wf(),
        s2.same_context(&s1),
        delete_left_step(s1, utf8_len(text), s2),
    ensures
        s2.buffer_view() == s0.buffer_view(),
        s2.cursor_view() == s0.cursor_view(),
        shell_parsed(s2.shell_view(), s0.buffer_bytes(), s0.buffer_view(), s2.ast_view()),
{
    lemma_insert_boundaries(s0, text, s1);
    let b0 = s0.buffer_bytes();
    let c = s0.cursor_view() as int;
    let t = encode_utf8(text);
    let l = b0.subrange(0, c);
    let r = b0.subrange(c, b0.len() as int);
    let b1 = s1.buffer_bytes();
    // what `delete_left` keeps of `b1`
    assert(b1.subrange(0, c) =~= l);
    assert(b1.subrange(c + t.len(), b1.len() as int) =~= r);
    encode_utf8_valid_utf8(s0.buffer_view());
    is_char_boundary_start_end_of_seq(b0);
    lemma_text_of_bytes(b0, 0, c);
    lemma_text_of_bytes(b0, c, b0.len() as int);
    encode_utf8_decode_utf8(s2.buffer_view());
    encode_utf8_decode_utf8(s0.buffer_view());
    lemma_encode_utf8_concat(text_of(b0, 0, c), text_of(b0, c, b0.len() as int));
    assert(l + r =~= b0);
}

/// Snapshot of one cmdline instance.
#[derive(Debug, Clone)]
pub struct CmdlineSession {
    shell: ShellKind,
    state: PromptState,
    /// Block handle attached on the next `CommandStart`.
    next_block: Option<BlockHandle>,
    buffer: String,
    cursor: usize,
    ast: CommandAst,
    suggestions: SuggestionSet,
    completions: CompletionSet,
}

/// Where `apply_shell_event` moves the prompt state, if anywhere.
pub open spec fn spec_shell_event_target(
    event: ShellMarker,
    state: PromptState,
    next_block: Option<BlockHandle>,
) -> Option<PromptState> {
    let block = match state {
        PromptState::Executing { block, .. } => Some(block),
        PromptState::Active => next_block,
    };
    match block {
        Some(b) => spec_transition_target(event, state, b),
        None => match event {
            ShellMarker::PromptStart => Some(PromptState::Active),
            ShellMarker::InputStart => Some(PromptState::Active),
            _ => None,
        },
    }
}

impl CmdlineSession {
    pub closed spec fn shell_view(&self) -> ShellKind {
        self.shell
    }

    pub closed spec fn state_view(&self) -> PromptState {
        self.state
    }

    pub closed spec fn next_block_view(&self) -> Option<BlockHandle> {
        self.next_block
    }

    /// The buffer's characters.
    pub closed spec fn buffer_view(&self) -> Seq<char> {
        self.buffer@
    }

    /// The cursor, a byte offset into the buffer.
    pub closed spec fn cursor_view(&self) -> nat {
        self.cursor as nat
    }

    pub closed spec fn ast_view(&self) -> CommandAst {
        self.ast
    }

    pub closed spec fn suggestions_view(&self) -> SuggestionSet {
        self.suggestions
    }

    pub closed spec fn completions_view(&self) -> CompletionSet {
        self.completions
    }

    /// The buffer's UTF-8 bytes.
    pub open spec fn buffer_bytes(&self) -> Seq<u8> {
        encode_utf8(self.buffer_view())
    }

    /// Well-formed: the cursor lies inside the buffer and the AST is the
    /// parse of the buffer.
    pub open spec fn wf(&self) -> bool {
        &&& self.cursor_view() <= self.buffer_bytes().len()
        &&& shell_parsed(self.shell_view(), self.buffer_bytes(), self.buffer_view(), self.ast_view())
    }

    /// The cursor sits on a character boundary of the buffer.
    pub open spec fn cursor_on_boundary(&self) -> bool {
        is_char_boundary(self.buffer_bytes(), self.cursor_view() as int)
    }

    /// Buffer, cursor and AST are unchanged.
    pub open spec fn same_text(&self, other: &Self) -> bool {
        &&& self.buffer_view() == other.buffer_view()
        &&& self.cursor_view() == other.cursor_view()
        &&& self.ast_view() == other.ast_view()
    }

    /// Everything but buffer, cursor and AST is unchanged.
    pub open spec fn same_context(&self, other: &Self) -> bool {
        &&& self.shell_view() == other.shell_view()
        &&& self.state_view() == other.state_view()
        &&& self.next_block_view() == other.next_block_view()
        &&& self.suggestions_view() == other.suggestions_view()
        &&& self.completions_view() == other.completions_view()
    }

    /// Empty session for a given shell, in `Active` state.
    pub fn new(shell: ShellKind) -> (s: Self)
        ensures
            s.wf(),
            s.shell_view() == shell,
            s.state_view() == PromptState::Active,
            s.next_block_view() is None,
            s.buffer_view().len() == 0,
            s.cursor_view() == 0,
            s.ast_view().elements@.len() == 0,
            s.suggestions_view().candidates@.len() == 0,
            s.completions_view().candidates@.len() == 0,
            s.completions_view().anchor is None,
    {
        let buffer = String::new();
        let ast = parse_for_shell(shell, buffer.as_str());
        proof {
            assert(buffer@.len() == 0);
            assert(encode_utf8(buffer@) =~= Seq::<u8>::empty());
            assert(seq_trim(buffer@).len() == 0);
        }
        CmdlineSession {
            shell,
            state: PromptState::Active,
            next_block: None,
            buffer,
            cursor: 0,
            ast,
            suggestions: SuggestionSet::new(),
            completions: CompletionSet::new(),
        }
    }

    pub fn shell(&self) -> (r: ShellKind)
        ensures
            r == self.shell_view(),
    {
        self.shell
    }

    pub fn state(&self) -> (r: &PromptState)
        ensures
            *r == self.state_view(),
    {
        &self.state
    }

    pub fn buffer(&self) -> (r: &str)
        ensures
            r@ == self.buffer_view(),
    {
        self.buffer.as_str()
    }

    pub fn cursor(&self) -> (r: usize)
        ensures
            r == self.cursor_view(),
    {
        self.cursor
    }

    pub fn ast(&self) -> (r: &CommandAst)
        ensures
            *r == self.ast_view(),
    {
        &self.ast
    }

    pub fn suggestions(&self) -> (r: &SuggestionSet)
        ensures
            *r == self.suggestions_view(),
    {
        &self.suggestions
    }

    pub fn completions(&self) -> (r: &CompletionSet)
        ensures
            *r == self.completions_view(),
    {
        &self.completions
    }

    /// Block scheduled for the next `CommandStart`.
    pub fn next_block(&self) -> (r: Option<BlockHandle>)
        ensures
            r == self.next_block_view(),
    {
        self.next_block
    }

    /// Replaces the whole buffer, moves the cursor to its end and
    /// re-parses.
    pub fn set_buffer(&mut self, new_buffer: &str)
        ensures
            final(self).wf(),
            final(self).same_context(old(self)),
            final(self).buffer_view() == new_buffer@,
            final(self).cursor_view() == utf8_len(new_buffer@),
    {
        self.buffer = new_buffer.to_owned();
        self.cursor = byte_len(self.buffer.as_str());
        self.ast = parse_for_shell(self.shell, self.buffer.as_str());
    }

    /// Inserts `text` at the cursor, advances the cursor past it and
    /// re-parses.
    pub fn insert(&mut self, text: &str)
        requires
            old(self).wf(),
            old(self).cursor_on_boundary(),
            utf8_len(old(self).buffer_view()) + utf8_len(text@) <= usize::MAX,
        ensures
            final(self).wf(),
            final(self).same_context(old(self)),
            insert_step(*old(self), text@, *final(self)),
            final(self).cursor_on_boundary(),
            is_char_boundary(final(self).buffer_bytes(), final(self).cursor_view() - utf8_len(text@)),
    {
        let ghost s0 = *self;
        let ghost b = self.buffer_bytes();
        let len = byte_len(self.buffer.as_str());
        proof {
            encode_utf8_valid_utf8(self.buffer@);
            is_char_boundary_start_end_of_seq(b);
        }
        let left = slice_string(self.buffer.as_str(), 0, self.cursor);
        let right = slice_string(self.buffer.as_str(), self.cursor, len);
        let mut nb = left;
        push_str(&mut nb, text);
        push_str(&mut nb, right.as_str());
        let tl = byte_len(text);
        proof {
            let c = self.cursor as int;
            lemma_text_of_bytes(b, 0, c);
            lemma_text_of_bytes(b, c, b.len() as int);
            lemma_encode_utf8_concat(left@, text@);
            lemma_encode_utf8_concat(left@ + text@, right@);
            assert(encode_utf8(nb@).len() == c + tl + (b.len() - c));
        }
        self.cursor = self.cursor + tl;
        self.buffer = nb;
        self.ast = parse_for_shell(self.shell, self.buffer.as_str());
        proof {
            lemma_insert_boundaries(s0, text@, *self);
        }
    }

    /// Deletes up to `n` bytes left of the cursor (stopping at the
    /// buffer start) and re-parses.
    pub fn delete_left(&mut self, n: usize)
        requires
            old(self).wf(),
            old(self).cursor_on_boundary(),
            is_char_boundary(old(self).buffer_bytes(),
                if old(self).cursor_view() >= n { old(self).cursor_view() - n } else { 0 }),
        ensures
            final(self).wf(),
            final(self).same_context(old(self)),
            delete_left_step(*old(self), n as nat, *final(self)),
    {
        let ghost b = self.buffer_bytes();
        let len = byte_len(self.buffer.as_str());
        proof {
            encode_utf8_valid_utf8(self.buffer@);
            is_char_boundary_start_end_of_seq(b);
        }
        let start: usize = if self.cursor >= n { self.cursor - n } else { 0 };
        let left = slice_string(self.buffer.as_str(), 0, start);
        let right = slice_string(self.buffer.as_str(), self.cursor, len);
        let mut nb = left;
        push_str(&mut nb, right.as_str());
        proof {
            lemma_text_of_bytes(b, 0, start as int);
            lemma_text_of_bytes(b, self.cursor as int, b.len() as int);
            lemma_encode_utf8_concat(left@, right@);
        }
        self.buffer = nb;
        self.cursor = start;
        self.ast = parse_for_shell(self.shell, self.buffer.as_str());
    }

    /// Empties the buffer, returns the cursor to 0 and re-parses.
    pub fn clear_buffer(&mut self)
        ensures
            final(self).wf(),
            final(self).same_context(old(self)),
            final(self).buffer_view().len() == 0,
            final(self).cursor_view() == 0,
    {
        self.buffer = String::new();
        self.cursor = 0;
        self.ast = parse_for_shell(self.shell, self.buffer.as_str());
        proof {
            assert(encode_utf8(self.buffer@) =~= Seq::<u8>::empty());
        }
    }

    /// Moves the cursor to `offset`, clamped to the buffer length.
    pub fn set_cursor(&mut self, offset: usize)
        ensures
            final(self).same_context(old(self)),
            final(self).buffer_view() == old(self).buffer_view(),
            final(self).ast_view() == old(self).ast_view(),
            final(self).cursor_view() == (if offset as nat <= old(self).buffer_bytes().len() { offset as nat } else {
                old(self).buffer_bytes().len()
            }),
            old(self).wf() ==> final(self).wf(),
    {
        let len = self.buffer.as_str().as_bytes().len();
        self.cursor = if offset <= len { offset } else { len };
    }

    /// Schedules the block to attach on the next `CommandStart`.
    pub fn schedule_block(&mut self, block: BlockHandle)
        ensures
            final(self).same_text(old(self)),
            final(self).next_block_view() == Some(block),
            final(self).shell_view() == old(self).shell_view(),
            final(self).state_view() == old(self).state_view(),
            final(self).suggestions_view() == old(self).suggestions_view(),
            final(self).completions_view() == old(self).completions_view(),
    {
        self.next_block = Some(block);
    }

    /// Sets the prompt state directly, without transition checks.
    pub fn set_state(&mut self, target: PromptState)
        ensures
            final(self).same_text(old(self)),
            final(self).state_view() == target,
            final(self).shell_view() == old(self).shell_view(),
            final(self).next_block_view() == old(self).next_block_view(),
            final(self).suggestions_view() == old(self).suggestions_view(),
            final(self).completions_view() == old(self).completions_view(),
    {
        self.state = target;
    }

    /// Applies an OSC 133 event. `CommandStart` attaches the scheduled
    /// block and is ignored without one; leaving `Executing` clears the
    /// schedule. Returns whether the state changed.
    pub fn apply_shell_event(&mut self, event: ShellEvent) -> (moved: bool)
        ensures
            final(self).same_text(old(self)),
            final(self).shell_view() == old(self).shell_view(),
            final(self).suggestions_view() == old(self).suggestions_view(),
            final(self).completions_view() == old(self).completions_view(),
            match spec_shell_event_target(event, old(self).state_view(), old(self).next_block_view()) {
                None => {
                    &&& final(self).state_view() == old(self).state_view()
                    &&& final(self).next_block_view() == old(self).next_block_view()
                    &&& !moved
                },
                Some(t) => {
                    &&& final(self).state_view() == t
                    &&& final(self).next_block_view() == (if old(self).state_view() is Executing && t is Active {
                        None
                    } else {
                        old(self).next_block_view()
                    })
                    &&& moved == !same_prompt_state(t, old(self).state_view())
                },
            },
    {
        let was_executing = matches!(self.state, PromptState::Executing { .. });
        let block = match &self.state {
            PromptState::Executing { block, .. } => Some(*block),
            PromptState::Active => self.next_block,
        };
        let target = match block {
            Some(b) => transition_target(&event, &self.state, b),
            None => match event {
                ShellMarker::PromptStart => Some(PromptState::Active),
                ShellMarker::InputStart => Some(PromptState::Active),
                _ => None,
            },
        };
        match target {
            None => false,
            Some(t) => {
                if was_executing && matches!(t, PromptState::Active) {
                    self.next_block = None;
                }
                let moved = !prompt_states_equal(&t, &self.state);
                self.state = t;
                moved
            },
        }
    }

    /// Promotes `Executing::Hidden` to `Executing::Transient` with an
    /// empty buffer when an interactive prompt was detected. Returns
    /// whether the state changed.
    pub fn promote_to_transient(&mut self, detected: InteractionKind) -> (r: bool)
        ensures
            final(self).same_text(old(self)),
            final(self).shell_view() == old(self).shell_view(),
            final(self).next_block_view() == old(self).next_block_view(),
            final(self).suggestions_view() == old(self).suggestions_view(),
            final(self).completions_view() == old(self).completions_view(),
            promote_step(old(self).state_view(), detected, r, final(self).state_view()),
    {
        let block = match &self.state {
            PromptState::Executing { block, inner: InteractivePromptState::Hidden } => *block,
            _ => {
                return false;
            },
        };
        self.state = PromptState::Executing {
            block,
            inner: InteractivePromptState::Transient {
                detected,
                buffer: String::new(),
                masked: detected.default_masked(),
            },
        };
        true
    }

    /// Appends `text` to the transient buffer. Returns `false` when not
    /// in a `Transient` state.
    pub fn transient_append(&mut self, text: &str) -> (r: bool)
        ensures
            final(self).same_text(old(self)),
            final(self).shell_view() == old(self).shell_view(),
            final(self).next_block_view() == old(self).next_block_view(),
            final(self).suggestions_view() == old(self).suggestions_view(),
            final(self).completions_view() == old(self).completions_view(),
            append_step(old(self).state_view(), text@, r, final(self).state_view()),
    {
        let next = match &self.state {
            PromptState::Executing {
                block,
                inner: InteractivePromptState::Transient { detected, buffer, masked },
            } => {
                let mut nb = buffer.clone();
                push_str(&mut nb, text);
                PromptState::Executing {
                    block: *block,
                    inner: InteractivePromptState::Transient { detected: *detected, buffer: nb, masked: *masked },
                }
            },
            _ => {
                return false;
            },
        };
        self.state = next;
        true
    }

    /// Drops from `Transient` back to `Hidden`, handing out the buffered
    /// input for the PTY.
    pub fn commit_transient(&mut self) -> (r: Option<String>)
        ensures
            final(self).same_text(old(self)),
            final(self).shell_view() == old(self).shell_view(),
            final(self).next_block_view() == old(self).next_block_view(),
            final(self).suggestions_view() == old(self).suggestions_view(),
            final(self).completions_view() == old(self).completions_view(),
            commit_step(old(self).state_view(), r, final(self).state_view()),
    {
        let (block, bytes) = match &self.state {
            PromptState::Executing { block, inner: InteractivePromptState::Transient { buffer, .. } } => (
                *block,
                buffer.clone(),
            ),
            _ => {
                return None;
            },
        };
        self.state = PromptState::Executing { block, inner: InteractivePromptState::Hidden };
        Some(bytes)
    }

    /// Replaces the suggestion set.
    pub fn set_suggestions(&mut self, new: SuggestionSet)
        ensures
            final(self).same_text(old(self)),
            final(self).suggestions_view() == new,
            final(self).shell_view() == old(self).shell_view(),
            final(self).state_view() == old(self).state_view(),
            final(self).next_block_view() == old(self).next_block_view(),
            final(self).completions_view() == old(self).completions_view(),
    {
        self.suggestions = new;
    }

    /// Current best ghost-text suggestion, if any.
    pub fn active_suggestion(&self) -> (r: Option<&Suggestion>)
        ensures
            self.suggestions_view().candidates@.len() == 0 ==> r is None,
            self.suggestions_view().candidates@.len() > 0 ==> exists|i: int|
                is_best_index(self.suggestions_view().candidates@, i) && r == Some(
                    &self.suggestions_view().candidates@[i],
                ),
    {
        self.suggestions.best()
    }

    /// Replaces the completion set.
    pub fn set_completions(&mut self, new: CompletionSet)
        ensures
            final(self).same_text(old(self)),
            final(self).completions_view() == new,
            final(self).shell_view() == old(self).shell_view(),
            final(self).state_view() == old(self).state_view(),
            final(self).next_block_view() == old(self).next_block_view(),
            final(self).suggestions_view() == old(self).suggestions_view(),
    {
        self.completions = new;
    }
}

} // verus!
