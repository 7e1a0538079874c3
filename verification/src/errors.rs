//! Error taxonomy of the bot.
//!
//! Every kind aborts the current polling cycle; the fixed-interval
//! scheduler is the only retry mechanism.

use vstd::prelude::*;

verus! {

/// What can go wrong while parsing, fetching, persisting or publishing.
#[derive(Clone, Copy, Debug, PartialEq, Eq, Structural)]
pub enum Error {
    /// A string matched neither identifier grammar.
    InvalidIdentifier,
    /// A detail page no longer carries the expected structural anchors;
    /// fatal to the cycle, requires operator attention.
    LayoutDrift,
    /// A transport-level failure, or a response too garbled to read.
    NetworkFailure,
    /// The remote answered with a non-2xx status.
    RemoteRejected(u16),
    /// A constraint violation or connection error in the store.
    PersistenceFailure,
    /// The publishing collaborator refused the hand-off.
    PublishRejected,
}

} // verus!
