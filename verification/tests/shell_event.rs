use carrot::osc133::ShellEvent;
use carrot::osc7777::{BlockMetadata, GitInfo};
use carrot::shell_event::{ShellBlockEvent, ShellStream};

fn meta_with_cwd(cwd: &str) -> BlockMetadata {
    BlockMetadata {
        cwd: Some(cwd.into()),
        ..Default::default()
    }
}

#[test]
fn new_event_starts_without_metadata() {
    let e = ShellBlockEvent::new(ShellEvent::PromptStart);
    assert!(e.metadata.is_none());
    assert_eq!(e.cwd(), None);
}

#[test]
fn with_metadata_attaches_cwd() {
    let e = ShellBlockEvent::new(ShellEvent::PromptStart).with_metadata(meta_with_cwd("/tmp"));
    assert_eq!(e.cwd(), Some("/tmp"));
}

#[test]
fn exit_code_prefers_lifecycle_then_metadata() {
    let lifecycle_only = ShellBlockEvent::new(ShellEvent::CommandEnd { exit_code: 1 });
    assert_eq!(lifecycle_only.exit_code(), Some(1));

    // Lifecycle exit=0 → metadata overrides with its own value.
    let metadata_only =
        ShellBlockEvent::new(ShellEvent::PromptStart).with_metadata(BlockMetadata {
            exit: Some(7),
            ..Default::default()
        });
    assert_eq!(metadata_only.exit_code(), Some(7));
}

#[test]
fn git_branch_helper_reads_through_metadata() {
    let md = BlockMetadata {
        git: Some(GitInfo {
            branch: Some("main".into()),
            ..Default::default()
        }),
        ..Default::default()
    };
    let e = ShellBlockEvent::new(ShellEvent::PromptStart).with_metadata(md);
    assert_eq!(e.git_branch(), Some("main"));
}

#[test]
fn stream_composes_lifecycle_then_metadata() {
    let mut s = ShellStream::new();
    assert!(s.push_lifecycle(ShellEvent::PromptStart).is_none());
    let ev = s.push_metadata(meta_with_cwd("/home")).unwrap();
    assert_eq!(ev.lifecycle, ShellEvent::PromptStart);
    assert_eq!(ev.cwd(), Some("/home"));
}

#[test]
fn stream_composes_metadata_then_lifecycle() {
    let mut s = ShellStream::new();
    assert!(s.push_metadata(meta_with_cwd("/tmp")).is_none());
    // A new lifecycle flushes the previous (none) and buffers
    // the new one; we need one more event to force a yield.
    assert!(s.push_lifecycle(ShellEvent::PromptStart).is_none());
    let ev = s.flush().unwrap();
    assert_eq!(ev.lifecycle, ShellEvent::PromptStart);
    assert_eq!(ev.cwd(), Some("/tmp"));
}

#[test]
fn stream_flushes_lifecycle_without_metadata_on_new_event() {
    let mut s = ShellStream::new();
    assert!(s.push_lifecycle(ShellEvent::PromptStart).is_none());
    // InputStart arrives before any metadata — PromptStart must
    // be flushed alone.
    let flushed = s.push_lifecycle(ShellEvent::InputStart).unwrap();
    assert_eq!(flushed.lifecycle, ShellEvent::PromptStart);
    assert!(flushed.metadata.is_none());
}

#[test]
fn stream_flush_drains_pending_lifecycle() {
    let mut s = ShellStream::new();
    s.push_lifecycle(ShellEvent::CommandEnd { exit_code: 0 });
    let ev = s.flush().unwrap();
    assert!(matches!(ev.lifecycle, ShellEvent::CommandEnd { .. }));
}

#[test]
fn stream_flush_returns_none_when_empty() {
    let mut s = ShellStream::new();
    assert!(s.flush().is_none());
}

#[test]
fn stream_is_pending_reports_buffer_state() {
    let mut s = ShellStream::new();
    assert!(!s.is_pending());
    s.push_lifecycle(ShellEvent::PromptStart);
    assert!(s.is_pending());
    s.push_metadata(meta_with_cwd("/x"));
    assert!(!s.is_pending());
}

#[test]
fn runtime_ms_only_populated_from_metadata() {
    let ev = ShellBlockEvent::new(ShellEvent::CommandEnd { exit_code: 0 }).with_metadata(
        BlockMetadata {
            runtime_ms: Some(500),
            ..Default::default()
        },
    );
    assert_eq!(ev.runtime_ms(), Some(500));
    let bare = ShellBlockEvent::new(ShellEvent::CommandEnd { exit_code: 0 });
    assert_eq!(bare.runtime_ms(), None);
}
