# carrot

The command-line surface of the Carrot terminal and its CLI-agent session
model, written in Verus: every function in `src/` carries a contract that
Verus proves.

## Layout

- `src/text.rs`, `src/ast.rs`, `src/parse.rs`: text helpers over UTF-8, the
  semantic command AST, and the whitespace fallback parser.
- `src/syntax/`: AST extraction from tree-sitter syntax trees (bash, fish)
  and from nushell's node list.
- `src/session.rs`: the cmdline session (buffer, cursor, AST, prompt
  state); laws such as "deleting what was inserted restores the buffer"
  and "a transient prompt commits what was appended" are public lemmas.
- `src/prompt_state.rs`, `src/mount.rs`, `src/osc133.rs`,
  `src/shell_event.rs`: prompt lifecycle and shell-integration markers.
- `src/osc7777.rs`, `src/osc7777_roundtrip.rs`: the block-metadata codec,
  with the proof that parsing what `encode` writes gives the metadata
  back.
- `src/completion*.rs`, `src/highlight*.rs`, `src/validation.rs`,
  `src/history*.rs`, `src/keymap.rs`, `src/motion.rs`: completion,
  highlighting, validation, history search, key bindings.
- `src/phase2/`: ghost-text suggestion engines and MCP completion
  providers. Engines and providers are traits for users to implement;
  each states what its answers are, and the racing engine and the
  registry state that every answer they merge came from the engine or
  provider it belongs to, for the request at hand.
- `src/cli_agents/`: detection of CLI agents among a terminal's child
  processes, their hook events, and the session core, a state machine
  from input to next state and effects, whose invariants every step keeps.
  Agents are a trait too: each states its reading of a hook event, and
  the core applies a reading of the routed session's own agent.

Calls into the standard library, `sysinfo`, `serde_json` and tree-sitter
stand behind small trusted wrappers, each with a doc comment saying what
its contract claims.

## Checking

`tests/` holds the tests, which run against the compiled library.
