use carrot::motion::{AnimationKind, MotionPreference};
#[test]
fn full_allows_everything() {
    for kind in [
        AnimationKind::CursorBlink,
        AnimationKind::GhostTextFadeIn,
        AnimationKind::CompletionDropdownSlide,
        AnimationKind::HoverCrossfade,
        AnimationKind::SelectionMarquee,
        AnimationKind::ScrollInertia,
        AnimationKind::StaticPaint,
    ] {
        assert!(MotionPreference::Full.allow_animation(kind));
    }
}

#[test]
fn reduced_blocks_animations_but_not_static() {
    assert!(!MotionPreference::Reduced.allow_animation(AnimationKind::CursorBlink));
    assert!(!MotionPreference::Reduced.allow_animation(AnimationKind::GhostTextFadeIn));
    assert!(!MotionPreference::Reduced.allow_animation(AnimationKind::CompletionDropdownSlide));
    assert!(!MotionPreference::Reduced.allow_animation(AnimationKind::HoverCrossfade));
    assert!(!MotionPreference::Reduced.allow_animation(AnimationKind::SelectionMarquee));
    assert!(!MotionPreference::Reduced.allow_animation(AnimationKind::ScrollInertia));
    // Static paint is always allowed.
    assert!(MotionPreference::Reduced.allow_animation(AnimationKind::StaticPaint));
}

#[test]
fn default_is_full() {
    assert_eq!(MotionPreference::default(), MotionPreference::Full);
}

#[test]
fn is_reduced_flag() {
    assert!(MotionPreference::Reduced.is_reduced());
    assert!(!MotionPreference::Full.is_reduced());
}

#[test]
fn animation_kind_partitions_correctly() {
    for kind in [
        AnimationKind::CursorBlink,
        AnimationKind::GhostTextFadeIn,
        AnimationKind::CompletionDropdownSlide,
        AnimationKind::HoverCrossfade,
        AnimationKind::SelectionMarquee,
        AnimationKind::ScrollInertia,
    ] {
        assert!(kind.is_animation(), "{kind:?} should be animation");
    }
    assert!(!AnimationKind::StaticPaint.is_animation());
}
