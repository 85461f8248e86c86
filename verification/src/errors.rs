//! The error taxonomy of the core.

use vstd::prelude::*;

verus! {

/// Why an operation of the core failed.
#[derive(Clone, Copy, Debug, PartialEq, Eq, Structural)]
pub enum CoreError {
    /// The feed could not be fetched, or replay has no history to serve.
    Fetch,
    /// A feed answered with a non-success status.
    Upstream,
    /// A document could not be parsed.
    Parse,
    /// A pilot lookup missed the persisted pilot document in replay mode.
    NotFound,
    /// Replay and record were requested at the same time.
    Config,
    /// A client-supplied filter parameter is malformed.
    Validation,
}

} // verus!
