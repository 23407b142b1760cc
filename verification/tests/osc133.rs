use carrot::mount::BlockHandle;
use carrot::osc133::{emit, ends_block, exit_code, opens_block, transition_target, PromptKindType, ShellMarker};
use carrot::prompt_state::{InteractionKind, InteractivePromptState, PromptState};

fn h(n: u64) -> BlockHandle {
    BlockHandle::new(n).expect("non-zero")
}

#[test]
fn prompt_start_always_returns_to_active() {
    let block = h(1);
    for state in [
        PromptState::Active,
        PromptState::Executing {
            block,
            inner: InteractivePromptState::Hidden,
        },
    ] {
        assert_eq!(
            transition_target(&ShellMarker::PromptStart, &state, block),
            Some(PromptState::Active)
        );
    }
}

#[test]
fn input_start_also_returns_active() {
    let block = h(1);
    assert_eq!(
        transition_target(&ShellMarker::InputStart, &PromptState::Active, block),
        Some(PromptState::Active)
    );
}

#[test]
fn command_start_only_from_active() {
    let block = h(5);
    let target = transition_target(&ShellMarker::CommandStart, &PromptState::Active, block);
    assert_eq!(
        target,
        Some(PromptState::Executing {
            block,
            inner: InteractivePromptState::Hidden,
        })
    );
    assert!(
        transition_target(
            &ShellMarker::CommandStart,
            &PromptState::Executing {
                block,
                inner: InteractivePromptState::Hidden,
            },
            block,
        )
        .is_none()
    );
}

#[test]
fn command_end_collapses_to_active() {
    let block = h(3);
    let ev = ShellMarker::CommandEnd { exit_code: 0 };
    let from_hidden = PromptState::Executing {
        block,
        inner: InteractivePromptState::Hidden,
    };
    assert_eq!(
        transition_target(&ev, &from_hidden, block),
        Some(PromptState::Active)
    );
    let from_transient = PromptState::Executing {
        block,
        inner: InteractivePromptState::Transient {
            detected: InteractionKind::FreeText,
            buffer: String::new(),
            masked: false,
        },
    };
    assert_eq!(
        transition_target(&ev, &from_transient, block),
        Some(PromptState::Active)
    );
}

#[test]
fn agent_edit_is_hint_only() {
    assert!(
        transition_target(&ShellMarker::AgentEditActive, &PromptState::Active, h(1)).is_none()
    );
}

#[test]
fn ends_and_opens_block_flags() {
    assert!(ends_block(&ShellMarker::CommandEnd { exit_code: 0 }));
    assert!(opens_block(&ShellMarker::PromptStart));
    assert!(!ends_block(&ShellMarker::CommandStart));
    assert!(!opens_block(&ShellMarker::CommandEnd { exit_code: 1 }));
}

#[test]
fn exit_code_extraction() {
    assert_eq!(
        exit_code(&ShellMarker::CommandEnd { exit_code: 42 }),
        Some(42)
    );
    assert_eq!(exit_code(&ShellMarker::PromptStart), None);
}

#[test]
fn emitter_roundtrip_shape() {
    assert_eq!(emit(&ShellMarker::PromptStart), b"\x1b]133;A\x07");
    assert_eq!(emit(&ShellMarker::InputStart), b"\x1b]133;B\x07");
    assert_eq!(emit(&ShellMarker::CommandStart), b"\x1b]133;C\x07");
    assert_eq!(
        emit(&ShellMarker::CommandEnd { exit_code: 0 }),
        b"\x1b]133;D;0\x07"
    );
    assert_eq!(emit(&ShellMarker::AgentEditActive), b"\x1b]133;L\x07");
}

#[test]
fn hint_markers_do_not_emit_bytes() {
    assert!(emit(&ShellMarker::Metadata("{}".into())).is_empty());
    assert!(emit(&ShellMarker::TuiHint("{}".into())).is_empty());
    assert!(emit(&ShellMarker::AgentEvent("{}".into())).is_empty());
    assert!(
        emit(&ShellMarker::PromptKind {
            kind: PromptKindType::Initial
        })
        .is_empty()
    );
}
