//! Lifecycle marker plus metadata, composed.
//!
//! At each block lifecycle marker the shell hooks emit an OSC 133 code
//! and, optionally, an OSC 7777 sidecar with typed metadata.
//! [`ShellBlockEvent`] is the pair. [`ShellStream`] takes the two
//! halves one at a time, in either order, and yields a composed event
//! once a marker has its metadata, or when the next marker arrives
//! (the earlier one then goes out alone). `flush` drains what is left
//! at the end of the stream.

use vstd::prelude::*;
use crate::osc133::{exit_code as marker_exit_code, ShellEvent};
use crate::osc7777::BlockMetadata;

verus! {

/// A lifecycle marker with its optional metadata.
#[derive(Debug, Clone, PartialEq, Eq)]
pub struct ShellBlockEvent {
    pub lifecycle: ShellEvent,
    pub metadata: Option<BlockMetadata>,
}

impl ShellBlockEvent {
    pub fn new(lifecycle: ShellEvent) -> (r: Self)
        ensures
            r.lifecycle == lifecycle,
            r.metadata is None,
    {
        ShellBlockEvent { lifecycle, metadata: None }
    }

    /// The same event carrying `metadata` (replacing any earlier one).
    pub fn with_metadata(self, metadata: BlockMetadata) -> (r: Self)
        ensures
            r.lifecycle == self.lifecycle,
            r.metadata == Some(metadata),
    {
        ShellBlockEvent { lifecycle: self.lifecycle, metadata: Some(metadata) }
    }

    /// The marker's exit code, else the metadata's.
    pub fn exit_code(&self) -> (r: Option<i32>)
        ensures
            r == match self.lifecycle {
                ShellEvent::CommandEnd { exit_code } => Some(exit_code),
                _ => match self.metadata {
                    Some(m) => m.exit,
                    None => None,
                },
            },
    {
        match marker_exit_code(&self.lifecycle) {
            Some(code) => Some(code),
            None => match &self.metadata {
                Some(m) => m.exit,
                None => None,
            },
        }
    }

    /// Runtime in milliseconds, from the metadata only.
    pub fn runtime_ms(&self) -> (r: Option<u64>)
        ensures
            r == match self.metadata {
                Some(m) => m.runtime_ms,
                None => None,
            },
    {
        match &self.metadata {
            Some(m) => m.runtime_ms,
            None => None,
        }
    }

    pub fn cwd(&self) -> (r: Option<&str>)
        ensures
            match r {
                Some(s) => self.metadata matches Some(m) && m.cwd matches Some(c) && s@ == c@,
                None => !(self.metadata matches Some(m) && m.cwd is Some),
            },
    {
        match &self.metadata {
            Some(m) => match &m.cwd {
                Some(c) => Some(c.as_str()),
                None => None,
            },
            None => None,
        }
    }

    pub fn git_branch(&self) -> (r: Option<&str>)
        ensures
            match r {
                Some(s) => self.metadata matches Some(m) && m.git matches Some(g) && g.branch matches Some(b) && s@
                    == b@,
                None => !(self.metadata matches Some(m) && m.git matches Some(g) && g.branch is Some),
            },
    {
        match &self.metadata {
            Some(m) => match &m.git {
                Some(g) => match &g.branch {
                    Some(b) => Some(b.as_str()),
                    None => None,
                },
                None => None,
            },
            None => None,
        }
    }
}

/// The event a buffered marker and metadata make, if a marker is there.
pub open spec fn pair_of(l: Option<ShellEvent>, m: Option<BlockMetadata>) -> Option<ShellBlockEvent> {
    match l {
        Some(x) => Some(ShellBlockEvent { lifecycle: x, metadata: m }),
        None => None,
    }
}

/// Composes OSC 133 markers and OSC 7777 metadata into events.
pub struct ShellStream {
    pending_lifecycle: Option<ShellEvent>,
    pending_metadata: Option<BlockMetadata>,
}

impl ShellStream {
    pub closed spec fn lifecycle_view(&self) -> Option<ShellEvent> {
        self.pending_lifecycle
    }

    pub closed spec fn metadata_view(&self) -> Option<BlockMetadata> {
        self.pending_metadata
    }

    pub fn new() -> (s: Self)
        ensures
            s.lifecycle_view() is None,
            s.metadata_view() is None,
    {
        ShellStream { pending_lifecycle: None, pending_metadata: None }
    }

    /// Takes a marker. The marker buffered before it, if any, goes out
    /// with whatever metadata was buffered; the new one is buffered.
    pub fn push_lifecycle(&mut self, ev: ShellEvent) -> (r: Option<ShellBlockEvent>)
        ensures
            r == pair_of(old(self).lifecycle_view(), old(self).metadata_view()),
            final(self).lifecycle_view() == Some(ev),
            final(self).metadata_view() == if old(self).lifecycle_view() is Some {
                None
            } else {
                old(self).metadata_view()
            },
    {
        let flushed = self.take_pair();
        self.pending_lifecycle = Some(ev);
        flushed
    }

    /// Takes metadata: with a buffered marker the pair goes out (this
    /// metadata wins over any buffered one); otherwise it is buffered
    /// for the next marker.
    pub fn push_metadata(&mut self, md: BlockMetadata) -> (r: Option<ShellBlockEvent>)
        ensures
            match old(self).lifecycle_view() {
                Some(l) => {
                    &&& r == Some(ShellBlockEvent { lifecycle: l, metadata: Some(md) })
                    &&& final(self).lifecycle_view() is None
                    &&& final(self).metadata_view() is None
                },
                None => {
                    &&& r is None
                    &&& final(self).lifecycle_view() is None
                    &&& final(self).metadata_view() == Some(md)
                },
            },
    {
        match self.pending_lifecycle.take() {
            Some(lifecycle) => {
                self.pending_metadata = None;
                Some(ShellBlockEvent { lifecycle, metadata: Some(md) })
            },
            None => {
                self.pending_metadata = Some(md);
                None
            },
        }
    }

    /// Drains the buffered marker, with its metadata if any.
    pub fn flush(&mut self) -> (r: Option<ShellBlockEvent>)
        ensures
            r == pair_of(old(self).lifecycle_view(), old(self).metadata_view()),
            final(self).lifecycle_view() is None,
            final(self).metadata_view() == if old(self).lifecycle_view() is Some {
                None
            } else {
                old(self).metadata_view()
            },
    {
        self.take_pair()
    }

    fn take_pair(&mut self) -> (r: Option<ShellBlockEvent>)
        ensures
            r == pair_of(old(self).lifecycle_view(), old(self).metadata_view()),
            final(self).lifecycle_view() is None,
            final(self).metadata_view() == if old(self).lifecycle_view() is Some {
                None
            } else {
                old(self).metadata_view()
            },
    {
        match self.pending_lifecycle.take() {
            Some(lifecycle) => {
                let metadata = self.pending_metadata.take();
                Some(ShellBlockEvent { lifecycle, metadata })
            },
            None => None,
        }
    }

    /// Whether anything is buffered.
    pub fn is_pending(&self) -> (r: bool)
        ensures
            r == (self.lifecycle_view() is Some || self.metadata_view() is Some),
    {
        self.pending_lifecycle.is_some() || self.pending_metadata.is_some()
    }
}

impl Default for ShellStream {
    fn default() -> (s: Self)
        ensures
            s.lifecycle_view() is None,
            s.metadata_view() is None,
    {
        ShellStream::new()
    }
}

} // verus!
