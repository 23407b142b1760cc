use std::collections::HashSet;
use carrot::mount::BlockHandle;
use carrot::prompt_state::{detect_interaction_kind, InteractionKind, InteractivePromptState, PromptState};

fn h(n: u64) -> BlockHandle {
    BlockHandle::new(n).expect("non-zero")
}

#[test]
fn default_is_active() {
    assert_eq!(PromptState::default(), PromptState::Active);
}

#[test]
fn active_state_predicates() {
    let s = PromptState::Active;
    assert!(s.is_active());
    assert!(!s.is_executing());
    assert!(s.routes_input_to_cmdline());
    assert!(s.block().is_none());
}

#[test]
fn executing_hidden_predicates() {
    let s = PromptState::Executing {
        block: h(1),
        inner: InteractivePromptState::Hidden,
    };
    assert!(!s.is_active());
    assert!(s.is_executing());
    assert!(!s.routes_input_to_cmdline());
    assert_eq!(s.block(), Some(h(1)));
    assert!(s.interaction_kind().is_none());
}

#[test]
fn executing_transient_routes_to_cmdline() {
    let s = PromptState::Executing {
        block: h(2),
        inner: InteractivePromptState::Transient {
            detected: InteractionKind::FreeText,
            buffer: "hello".into(),
            masked: false,
        },
    };
    assert!(s.routes_input_to_cmdline());
    assert_eq!(s.interaction_kind(), Some(InteractionKind::FreeText));
    assert_eq!(s.buffer(), Some("hello"));
    assert_eq!(s.masked_buffer(), Some("hello"));
}

#[test]
fn masked_transient_hides_buffer() {
    let s = PromptState::Executing {
        block: h(3),
        inner: InteractivePromptState::Transient {
            detected: InteractionKind::Password,
            buffer: "super-secret".into(),
            masked: true,
        },
    };
    // Public `buffer()` hides the masked bytes.
    assert!(s.buffer().is_none());
    // Explicit `masked_buffer()` returns them for the PTY write.
    assert_eq!(s.masked_buffer(), Some("super-secret"));
}

#[test]
fn password_kind_defaults_to_masked() {
    assert!(InteractionKind::Password.default_masked());
    assert!(!InteractionKind::YesNo.default_masked());
    assert!(!InteractionKind::FreeText.default_masked());
}

#[test]
fn detect_password_prompts() {
    assert_eq!(
        detect_interaction_kind("Password: "),
        Some(InteractionKind::Password)
    );
    assert_eq!(
        detect_interaction_kind("[sudo] password for nyxb: "),
        Some(InteractionKind::Password)
    );
    assert_eq!(
        detect_interaction_kind("Enter passphrase for /Users/nyxb/.ssh/id_ed25519: "),
        Some(InteractionKind::Password)
    );
}

#[test]
fn detect_yes_no_prompts() {
    assert_eq!(
        detect_interaction_kind("Continue? [y/N] "),
        Some(InteractionKind::YesNo)
    );
    assert_eq!(
        detect_interaction_kind("Are you sure?"),
        Some(InteractionKind::YesNo)
    );
    assert_eq!(
        detect_interaction_kind("Proceed?"),
        Some(InteractionKind::YesNo)
    );
}

#[test]
fn detect_free_text_prompts() {
    assert_eq!(
        detect_interaction_kind("Name: "),
        Some(InteractionKind::FreeText)
    );
    assert_eq!(
        detect_interaction_kind("git> "),
        Some(InteractionKind::FreeText)
    );
}

#[test]
fn detect_none_on_plain_output() {
    assert!(detect_interaction_kind("").is_none());
    assert!(detect_interaction_kind("regular output line").is_none());
    assert!(detect_interaction_kind("Done.").is_none());
}

#[test]
fn interaction_kind_is_copy_and_hash() {
    let mut s: HashSet<InteractionKind> = HashSet::new();
    s.insert(InteractionKind::Password);
    s.insert(InteractionKind::Password);
    assert_eq!(s.len(), 1);
}

#[test]
fn executing_without_block_not_constructible() {
    // Compile-time guarantee: PromptState::Executing requires block.
    // This test just documents the invariant.
    let s = PromptState::Executing {
        block: h(42),
        inner: InteractivePromptState::Hidden,
    };
    assert_eq!(s.block().unwrap().get(), 42);
}
