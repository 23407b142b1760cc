//! Cmdline ↔ block mount state machine.
//!
//! The cmdline moves between mount points: the bottom of the viewport
//! attached to a block, inside a running block (interactive prompt),
//! or unmounted. Invalid transitions leave the site unchanged.

use vstd::prelude::*;

verus! {

/// Opaque, non-zero block identifier.
#[derive(Debug, Clone, Copy, PartialEq, Eq, Hash, Structural)]
pub struct BlockHandle(u64);

impl BlockHandle {
    #[verifier::type_invariant]
    spec fn non_zero(self) -> bool {
        self.0 != 0
    }

    /// The numeric id carried by the handle.
    pub closed spec fn id(self) -> u64 {
        self.0
    }

    /// Handles with the same id are the same handle.
    pub broadcast proof fn lemma_id_injective(a: BlockHandle, b: BlockHandle)
        ensures
            #[trigger] a.id() == #[trigger] b.id() ==> a == b,
    {
    }

    /// `Some` handle for a non-zero id, `None` for zero.
    pub fn new(id: u64) -> (r: Option<Self>)
        ensures
            id == 0 ==> r.is_none(),
            id != 0 ==> r.is_some() && r.unwrap().id() == id,
    {
        if id == 0 {
            None
        } else {
            Some(BlockHandle(id))
        }
    }

    pub fn get(self) -> (r: u64)
        ensures
            r == self.id(),
            r != 0,
    {
        proof {
            use_type_invariant(&self);
        }
        self.0
    }

    /// Convert from a block primitive id; `BlockId(0)` is the "no
    /// block" sentinel and maps to `None`.
    pub fn from_block_id(id: BlockId) -> (r: Option<Self>)
        ensures
            id.0 == 0 ==> r.is_none(),
            id.0 != 0 ==> r.is_some() && r.unwrap().id() == id.0,
    {
        Self::new(id.0)
    }

    /// Convert back to a block primitive id.
    pub fn to_block_id(self) -> (r: BlockId)
        ensures
            r.0 == self.id(),
    {
        BlockId(self.get())
    }
}

/// Identifier of a block in the terminal's block primitive; `0` means
/// "no block".
#[derive(Debug, Clone, Copy, PartialEq, Eq, Hash, Structural)]
pub struct BlockId(pub u64);

/// Lifecycle events of a block as the block primitive reports them.
#[derive(Debug, Clone, Copy, PartialEq, Eq, Hash, Structural)]
pub enum BlockLifecycle {
    PromptStart,
    InputStart,
    CommandStart,
    CommandEnd { exit_code: i32 },
}

/// Where the cmdline currently lives.
#[derive(Debug, Clone, Copy, PartialEq, Eq, Hash, Default, Structural)]
pub enum MountSite {
    /// Not attached to any block.
    #[default]
    Unmounted,
    /// Attached at the bottom of the viewport for a block.
    Bottom(BlockHandle),
    /// Mounted inside a block (interactive prompt).
    Inside(BlockHandle),
}

impl MountSite {
    pub fn block(&self) -> (r: Option<BlockHandle>)
        ensures
            r == (match *self {
                MountSite::Unmounted => None,
                MountSite::Bottom(b) => Some(b),
                MountSite::Inside(b) => Some(b),
            }),
    {
        match self {
            MountSite::Unmounted => None,
            MountSite::Bottom(b) => Some(*b),
            MountSite::Inside(b) => Some(*b),
        }
    }

    pub fn is_inside(&self) -> (r: bool)
        ensures
            r == (*self is Inside),
    {
        matches!(self, MountSite::Inside(_))
    }

    pub fn is_bottom(&self) -> (r: bool)
        ensures
            r == (*self is Bottom),
    {
        matches!(self, MountSite::Bottom(_))
    }

    pub fn is_mounted(&self) -> (r: bool)
        ensures
            r == !(*self is Unmounted),
    {
        !matches!(self, MountSite::Unmounted)
    }
}

/// One-step transitions the cmdline mount can take.
#[derive(Debug, Clone, Copy, PartialEq, Eq, Hash, Structural)]
pub enum MountTransition {
    /// Attach at the bottom of the viewport for a block.
    AttachBottom(BlockHandle),
    /// Move into a block (interactive prompt detected).
    DescendInto(BlockHandle),
    /// Leave the block we were inside; return to its bottom.
    AscendToBottom,
    /// Detach completely.
    Detach,
}

/// The site after `t` from `site`: attach always wins, descend only
/// from the bottom of the same block, ascend only from inside, detach
/// always; anything else leaves the site unchanged.
pub open spec fn next_site(site: MountSite, t: MountTransition) -> MountSite {
    match (site, t) {
        (_, MountTransition::AttachBottom(b)) => MountSite::Bottom(b),
        (MountSite::Bottom(cur), MountTransition::DescendInto(b)) => if cur == b {
            MountSite::Inside(b)
        } else {
            site
        },
        (MountSite::Inside(cur), MountTransition::AscendToBottom) => MountSite::Bottom(cur),
        (_, MountTransition::Detach) => MountSite::Unmounted,
        _ => site,
    }
}

/// State machine guarding mount transitions.
#[derive(Debug, Clone, Default)]
pub struct MountController {
    site: MountSite,
}

impl MountController {
    pub closed spec fn spec_site(self) -> MountSite {
        self.site
    }

    pub fn new() -> (r: Self)
        ensures
            r.spec_site() == MountSite::Unmounted,
    {
        MountController { site: MountSite::Unmounted }
    }

    pub fn site(&self) -> (r: MountSite)
        ensures
            r == self.spec_site(),
    {
        self.site
    }

    /// Apply `transition`; `true` when the site changed.
    pub fn apply(&mut self, transition: MountTransition) -> (changed: bool)
        ensures
            final(self).spec_site() == next_site(old(self).spec_site(), transition),
            changed == (final(self).spec_site() != old(self).spec_site()),
    {
        let before = self.site;
        self.site = self.next_site(transition);
        self.site != before
    }

    fn next_site(&self, transition: MountTransition) -> (r: MountSite)
        ensures
            r == next_site(self.site, transition),
    {
        match (self.site, transition) {
            (_, MountTransition::AttachBottom(b)) => MountSite::Bottom(b),
            (MountSite::Bottom(current), MountTransition::DescendInto(b)) => {
                if current == b {
                    MountSite::Inside(b)
                } else {
                    self.site
                }
            },
            (MountSite::Inside(current), MountTransition::AscendToBottom) => MountSite::Bottom(
                current,
            ),
            (_, MountTransition::Detach) => MountSite::Unmounted,
            _ => self.site,
        }
    }

    /// Translate a block lifecycle event for `block_id` into a mount
    /// transition: prompt / input start attach at the bottom of that
    /// block; command start / end and the zero id leave the site alone.
    pub fn apply_lifecycle(&mut self, block_id: BlockId, event: BlockLifecycle) -> (changed: bool)
        ensures
            (block_id.0 == 0 || event is CommandStart || event is CommandEnd) ==> (
            final(self).spec_site() == old(self).spec_site() && !changed),
            (block_id.0 != 0 && (event is PromptStart || event is InputStart)) ==> (
            final(self).spec_site() is Bottom && final(self).spec_site()->Bottom_0.id()
                == block_id.0 && changed == (final(self).spec_site() != old(self).spec_site())),
    {
        let handle = match BlockHandle::from_block_id(block_id) {
            Some(h) => h,
            None => return false,
        };
        match event {
            BlockLifecycle::PromptStart | BlockLifecycle::InputStart => {
                self.apply(MountTransition::AttachBottom(handle))
            },
            BlockLifecycle::CommandStart | BlockLifecycle::CommandEnd { .. } => false,
        }
    }
}

} // verus!
