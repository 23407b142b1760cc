use carrot::ast::{ArgKind, GitScope};
use carrot::history::CommandHistory;
use carrot::mount::BlockHandle;
use carrot::phase2::ai::SuggestionRequest;
use carrot::phase2::ai_engine::{HistoryEngine, RacingEngine};
use carrot::osc133::ShellEvent;
use carrot::osc7777::{BlockMetadata, GitInfo};
use carrot::shell_event::{ShellBlockEvent, ShellStream};
use carrot::highlight::{highlight_ast, HighlightRole};
use carrot::session::CmdlineSession;
use carrot::shell::ShellKind;
use carrot::validation::{validate, ValidationContext};

fn block(n: u64) -> BlockHandle {
    BlockHandle::new(n).expect("non-zero")
}

#[test]
fn validation_plus_highlight_produces_red_underline_span() {
    let mut session = CmdlineSession::new(ShellKind::Zsh);
    session.set_buffer("git checkout main");

    let mut ast = session.ast().clone();
    for element in ast.elements.iter_mut() {
        for p in element.positionals.iter_mut() {
            p.kind = ArgKind::GitRef { scope: GitScope::Branch };
        }
    }

    let known = vec!["develop"];
    let ctx = ValidationContext {
        known_refs: Some(known),
        ..Default::default()
    };
    let errors = validate(&ast, &ctx);
    assert_eq!(errors.len(), 1);
    ast.errors = errors;
    let spans = highlight_ast(&ast);
    assert!(spans.iter().any(|s| s.role == HighlightRole::Error));
    assert!(spans.iter().any(|s| s.role == HighlightRole::GitRef));
}

#[test]
fn shell_stream_composes_full_command_lifecycle() {
    let mut stream = ShellStream::new();

    // PromptStart + metadata (cwd + git) → composed event.
    let pre = BlockMetadata {
        cwd: Some("/workspaces/carrot".into()),
        git: Some(GitInfo {
            branch: Some("main".into()),
            ..Default::default()
        }),
        ..Default::default()
    };
    stream.push_lifecycle(ShellEvent::PromptStart);
    let start = stream.push_metadata(pre).unwrap();
    assert_eq!(start.lifecycle, ShellEvent::PromptStart);
    assert_eq!(start.cwd(), Some("/workspaces/carrot"));
    assert_eq!(start.git_branch(), Some("main"));

    // CommandStart with no metadata — flushed alone by the next
    // lifecycle or by flush() at end of stream.
    assert!(stream.push_lifecycle(ShellEvent::CommandStart).is_none());
    let flushed = stream
        .push_lifecycle(ShellEvent::CommandEnd { exit_code: 0 })
        .unwrap();
    assert_eq!(flushed.lifecycle, ShellEvent::CommandStart);
    assert!(flushed.metadata.is_none());

    // Attach CommandEnd metadata.
    let post = BlockMetadata {
        exit: Some(0),
        runtime_ms: Some(1234),
        ..Default::default()
    };
    let end = stream.push_metadata(post).unwrap();
    assert_eq!(end.lifecycle, ShellEvent::CommandEnd { exit_code: 0 });
    assert_eq!(end.runtime_ms(), Some(1234));
}

#[test]
fn shell_stream_flush_returns_pending_lifecycle_at_end_of_stream() {
    let mut stream = ShellStream::new();
    stream.push_lifecycle(ShellEvent::PromptStart);
    assert!(stream.is_pending());
    let ev = stream.flush().unwrap();
    assert_eq!(ev.lifecycle, ShellEvent::PromptStart);
    assert!(ev.metadata.is_none());
    assert!(!stream.is_pending());
}

#[test]
fn session_applies_shell_events_through_full_cycle() {
    let mut s = CmdlineSession::new(ShellKind::Nushell);
    s.schedule_block(block(1));
    // Active → Active on InputStart, then user types, CommandStart
    // enters Executing::Hidden under the scheduled block,
    // CommandEnd returns to Active.
    assert!(s.state().is_active());
    s.apply_shell_event(ShellEvent::InputStart);
    assert!(s.state().is_active());
    s.set_buffer("echo hi");
    assert!(s.ast().has_command());
    s.apply_shell_event(ShellEvent::CommandStart);
    assert!(s.state().is_executing());
    let ev = ShellBlockEvent::new(ShellEvent::CommandEnd { exit_code: 0 }).with_metadata(
        BlockMetadata {
            exit: Some(0),
            runtime_ms: Some(5),
            ..Default::default()
        },
    );
    s.apply_shell_event(ev.lifecycle.clone());
    assert!(s.state().is_active());
    assert_eq!(ev.exit_code(), Some(0));
    assert_eq!(ev.runtime_ms(), Some(5));
}

#[test]
fn racing_engine_produces_ghost_text_from_history() {
    let mut h = CommandHistory::new();
    h.push_with_metadata("cargo test --workspace".to_string(), Some(0), None);
    let mut racer = RacingEngine::new();
    racer.register(HistoryEngine::new(&h));
    let request = SuggestionRequest::from_prefix("cargo test");
    let set = racer.run(&request);
    let best = set.best().unwrap();
    assert_eq!(best.completion, " --workspace");
    assert!(best.confidence >= 80);
}
