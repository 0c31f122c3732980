//! What every backend exchanges with the upper layers: stable hashes for
//! envelopes and folders, and the change events a watcher emits.

use vstd::prelude::*;

verus! {

/// Stable 64-bit key of one message.
pub type EnvelopeHash = u64;

/// Stable 64-bit key of one folder.
pub type FolderHash = u64;

/// A change a watcher announces for one folder.
#[derive(Clone, Copy, Debug, PartialEq, Eq, Structural)]
pub enum RefreshEventKind {
    /// A message appeared.
    Create(EnvelopeHash),
    /// A message disappeared.
    Remove(EnvelopeHash),
    /// A message changed identity: its old and its new hash.
    /// It must be processed before any later `Create` of the new hash.
    Rename(EnvelopeHash, EnvelopeHash),
    /// Only the flags of a message changed.
    FlagsChanged(EnvelopeHash),
}

/// A change event, tagged with the folder it happened in.
#[derive(Clone, Copy, Debug, PartialEq, Eq, Structural)]
pub struct RefreshEvent {
    pub folder: FolderHash,
    pub kind: RefreshEventKind,
}

} // verus!
