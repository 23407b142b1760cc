//! Motion-reduction settings: which animations may play.

use vstd::prelude::*;

verus! {

/// User / platform preference for animation.
#[derive(Debug, Clone, Copy, PartialEq, Eq, Hash, Default, Structural)]
pub enum MotionPreference {
    /// All animations enabled.
    #[default]
    Full,
    /// Animations disabled.
    Reduced,
}

impl MotionPreference {
    /// Full allows everything; Reduced allows only static paint.
    pub fn allow_animation(self, kind: AnimationKind) -> (r: bool)
        ensures
            r == (self == MotionPreference::Full || kind == AnimationKind::StaticPaint),
    {
        match self {
            MotionPreference::Full => true,
            MotionPreference::Reduced => !kind.is_animation(),
        }
    }

    pub fn is_reduced(self) -> (r: bool)
        ensures
            r == (self == MotionPreference::Reduced),
    {
        matches!(self, MotionPreference::Reduced)
    }
}

/// Category of animation the render layer wants to play.
#[derive(Debug, Clone, Copy, PartialEq, Eq, Hash, Structural)]
pub enum AnimationKind {
    CursorBlink,
    GhostTextFadeIn,
    CompletionDropdownSlide,
    HoverCrossfade,
    SelectionMarquee,
    ScrollInertia,
    /// Non-animation paint.
    StaticPaint,
}

impl AnimationKind {
    pub fn is_animation(self) -> (r: bool)
        ensures
            r == (self != AnimationKind::StaticPaint),
    {
        !matches!(self, AnimationKind::StaticPaint)
    }
}

} // verus!
