//! A verified core for a two-backend file browser: a local filesystem and a
//! flat-namespace object store are presented through one hierarchical view.
//!
//! The library holds the logic that is worth proving: the prefix-to-hierarchy
//! virtualization of the object store's flat key listing, the classification
//! of filesystem children, the streaming-copy state machine with its retry
//! rule, the event-multiplexing decisions, and the navigation state machine.
//! The surrounding I/O (terminal, network, disk) stays outside and hands the
//! library plain values.

use vstd::prelude::*;

pub mod providers;
pub mod transfer;
pub mod events;
pub mod nav;

verus! {

/// What one browsable entry is: a real file, a directory-like grouping, or an
/// entry whose metadata could not be determined. `Unknown` is never conflated
/// with the other two kinds.
#[derive(Clone, Copy, Debug, PartialEq, Eq, Structural)]
pub enum Kind {
    File,
    Directory,
    Unknown,
}

/// Backend-agnostic error kinds for provider operations.
#[derive(Clone, Copy, Debug, PartialEq, Eq, Structural)]
pub enum StorageError {
    NotFound,
    Unsupported,
    PermissionDenied,
    Transient,
    BackendFailure,
}

} // verus!
