use carrot::mount::{BlockHandle, BlockId, BlockLifecycle, MountController, MountSite, MountTransition};
fn handle(n: u64) -> BlockHandle {
    BlockHandle::new(n).expect("non-zero id")
}

#[test]
fn handle_rejects_zero_id() {
    assert!(BlockHandle::new(0).is_none());
    assert_eq!(handle(42).get(), 42);
}

#[test]
fn default_site_is_unmounted() {
    let c = MountController::new();
    assert_eq!(c.site(), MountSite::Unmounted);
    assert!(!c.site().is_mounted());
}

#[test]
fn attach_bottom_moves_to_bottom() {
    let mut c = MountController::new();
    let b = handle(1);
    assert!(c.apply(MountTransition::AttachBottom(b)));
    assert_eq!(c.site(), MountSite::Bottom(b));
    assert!(c.site().is_bottom());
    assert!(c.site().is_mounted());
    assert_eq!(c.site().block(), Some(b));
}

#[test]
fn descend_only_succeeds_when_bottom_on_same_block() {
    let mut c = MountController::new();
    let b = handle(1);
    c.apply(MountTransition::AttachBottom(b));
    assert!(c.apply(MountTransition::DescendInto(b)));
    assert!(c.site().is_inside());
}

#[test]
fn descend_to_different_block_is_rejected() {
    let mut c = MountController::new();
    let b = handle(1);
    let other = handle(2);
    c.apply(MountTransition::AttachBottom(b));
    assert!(!c.apply(MountTransition::DescendInto(other)));
    assert_eq!(c.site(), MountSite::Bottom(b));
}

#[test]
fn descend_from_unmounted_is_rejected() {
    let mut c = MountController::new();
    let b = handle(7);
    assert!(!c.apply(MountTransition::DescendInto(b)));
    assert_eq!(c.site(), MountSite::Unmounted);
}

#[test]
fn ascend_from_inside_returns_to_bottom_of_same_block() {
    let mut c = MountController::new();
    let b = handle(3);
    c.apply(MountTransition::AttachBottom(b));
    c.apply(MountTransition::DescendInto(b));
    assert!(c.apply(MountTransition::AscendToBottom));
    assert_eq!(c.site(), MountSite::Bottom(b));
}

#[test]
fn ascend_from_bottom_is_noop() {
    let mut c = MountController::new();
    let b = handle(3);
    c.apply(MountTransition::AttachBottom(b));
    assert!(!c.apply(MountTransition::AscendToBottom));
    assert_eq!(c.site(), MountSite::Bottom(b));
}

#[test]
fn detach_always_returns_to_unmounted() {
    let mut c = MountController::new();
    let b = handle(5);
    c.apply(MountTransition::AttachBottom(b));
    assert!(c.apply(MountTransition::Detach));
    assert_eq!(c.site(), MountSite::Unmounted);
}

#[test]
fn attach_new_block_overwrites_previous_site() {
    let mut c = MountController::new();
    let b1 = handle(1);
    let b2 = handle(2);
    c.apply(MountTransition::AttachBottom(b1));
    c.apply(MountTransition::DescendInto(b1));
    assert!(c.apply(MountTransition::AttachBottom(b2)));
    assert_eq!(c.site(), MountSite::Bottom(b2));
}

#[test]
fn unmounted_block_accessor_returns_none() {
    assert_eq!(MountSite::Unmounted.block(), None);
}

#[test]
fn is_mounted_predicates_cover_every_variant() {
    let b = handle(1);
    assert!(!MountSite::Unmounted.is_mounted());
    assert!(MountSite::Bottom(b).is_mounted());
    assert!(MountSite::Inside(b).is_mounted());
    assert!(MountSite::Bottom(b).is_bottom());
    assert!(!MountSite::Bottom(b).is_inside());
    assert!(MountSite::Inside(b).is_inside());
    assert!(!MountSite::Inside(b).is_bottom());
}

#[test]
fn prompt_start_attaches_cmdline_to_new_block() {
    let mut c = MountController::new();
    let id = BlockId(7);
    assert!(c.apply_lifecycle(id, BlockLifecycle::PromptStart));
    assert_eq!(c.site(), MountSite::Bottom(BlockHandle::new(7).unwrap()));
}

#[test]
fn input_start_is_idempotent_when_already_attached() {
    let mut c = MountController::new();
    let id = BlockId(3);
    c.apply_lifecycle(id, BlockLifecycle::PromptStart);
    // Input-start fires right after prompt-start and doesn't
    // change mount state — returns false.
    assert!(!c.apply_lifecycle(id, BlockLifecycle::InputStart));
    assert_eq!(c.site(), MountSite::Bottom(BlockHandle::new(3).unwrap()));
}

#[test]
fn command_start_and_end_are_mount_no_ops() {
    let mut c = MountController::new();
    let id = BlockId(9);
    c.apply_lifecycle(id, BlockLifecycle::PromptStart);
    assert!(!c.apply_lifecycle(id, BlockLifecycle::CommandStart));
    assert!(!c.apply_lifecycle(id, BlockLifecycle::CommandEnd { exit_code: 0 }));
    // Mount stayed at bottom of block 9 throughout.
    assert_eq!(c.site(), MountSite::Bottom(BlockHandle::new(9).unwrap()));
}

#[test]
fn lifecycle_with_zero_block_id_is_rejected() {
    let mut c = MountController::new();
    assert!(!c.apply_lifecycle(BlockId(0), BlockLifecycle::PromptStart));
    assert_eq!(c.site(), MountSite::Unmounted);
}

#[test]
fn prompt_start_on_new_block_re_attaches() {
    // Block 1 prompts, command runs, block 1 ends; then block 2
    // prompts → cmdline migrates to block 2's bottom.
    let mut c = MountController::new();
    c.apply_lifecycle(BlockId(1), BlockLifecycle::PromptStart);
    c.apply_lifecycle(BlockId(1), BlockLifecycle::CommandStart);
    c.apply_lifecycle(BlockId(1), BlockLifecycle::CommandEnd { exit_code: 0 });
    assert!(c.apply_lifecycle(BlockId(2), BlockLifecycle::PromptStart));
    assert_eq!(c.site(), MountSite::Bottom(BlockHandle::new(2).unwrap()));
}

#[test]
fn block_handle_from_block_id_roundtrips() {
    let original = BlockId(42);
    let handle = BlockHandle::from_block_id(original).expect("non-zero");
    assert_eq!(handle.to_block_id(), original);
}

#[test]
fn block_handle_from_zero_block_id_returns_none() {
    assert!(BlockHandle::from_block_id(BlockId(0)).is_none());
}
