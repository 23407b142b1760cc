use carrot::ast::{CommandAst, Range};
use carrot::phase2::agent::{default_chips_for_failed_block, AgentChip, AgentEdit, AgentHandoff, ChipIntent};
#[test]
fn hash_line_strips_prefix_and_trims() {
    let h = AgentHandoff::from_hash_line("#  why did it fail  ").unwrap();
    assert_eq!(h.message, "why did it fail");
    assert!(!h.from_chip);
}

#[test]
fn hash_line_rejects_non_hash_prefix() {
    assert!(AgentHandoff::from_hash_line("why did it fail").is_none());
}

#[test]
fn hash_line_rejects_empty_body() {
    assert!(AgentHandoff::from_hash_line("#").is_none());
    assert!(AgentHandoff::from_hash_line("#   ").is_none());
}

#[test]
fn builder_chain_fills_context() {
    let h = AgentHandoff::from_hash_line("#fix this")
        .unwrap()
        .with_cwd("/tmp")
        .with_context_ast(CommandAst::empty())
        .from_chip();
    assert_eq!(h.cwd.as_deref(), Some("/tmp"));
    assert!(h.context_ast.is_some());
    assert!(h.from_chip);
}

#[test]
fn chip_into_handoff_marks_from_chip() {
    let chip = AgentChip {
        label: "Ask AI to fix".into(),
        seed: "# explain the failure".into(),
        intent: ChipIntent::Fix,
    };
    let handoff = chip.into_handoff();
    assert!(handoff.from_chip);
    assert_eq!(handoff.message, "explain the failure");
}

#[test]
fn chip_with_empty_seed_falls_back_to_label() {
    let chip = AgentChip {
        label: "Explain".into(),
        seed: String::new(),
        intent: ChipIntent::Explain,
    };
    let h = chip.into_handoff();
    assert_eq!(h.message, "Explain");
}

#[test]
fn agent_edit_noop_detection() {
    let edit = AgentEdit {
        range: Range::new(5, 5),
        replacement: String::new(),
        rationale: None,
    };
    assert!(edit.is_noop());
    let real = AgentEdit {
        range: Range::new(0, 3),
        replacement: "git".into(),
        rationale: None,
    };
    assert!(!real.is_noop());
}

#[test]
fn default_chips_empty_for_success() {
    assert!(default_chips_for_failed_block("ls", Some(0)).is_empty());
    assert!(default_chips_for_failed_block("ls", None).is_empty());
}

#[test]
fn default_chips_emit_for_failure() {
    let chips = default_chips_for_failed_block("git push", Some(1));
    assert_eq!(chips.len(), 2);
    assert!(matches!(chips[0].intent, ChipIntent::Fix));
    assert!(matches!(chips[1].intent, ChipIntent::Explain));
}

#[test]
fn ask_ai_to_fix_seeds_command_and_exit() {
    let chip = AgentChip::ask_ai_to_fix("git push", 128);
    assert_eq!(chip.seed, "# fix: git push (exit 128)");
    assert_eq!(chip.label, "Ask AI to fix this (Cmd+.)");
}

#[test]
fn explain_error_seeds_command() {
    let chip = AgentChip::explain_error("cargo build");
    assert_eq!(chip.seed, "# explain the output of: cargo build");
}

#[test]
fn ask_ai_to_fix_chip_round_trips_into_handoff() {
    let chip = AgentChip::ask_ai_to_fix("cargo test", 101);
    let h = chip.into_handoff();
    assert!(h.from_chip);
    assert_eq!(h.message, "fix: cargo test (exit 101)");
}
