//! Error kinds reported by the library, the typed classification of
//! provider faults handed in by the I/O shell, and the terminal outcome
//! of one provisioning run.

use vstd::prelude::*;

verus! {

/// The kind of failure that ended (or refused) an operation.
#[derive(PartialEq, Eq, Structural, Clone, Copy, Debug)]
pub enum Error {
    /// A group descriptor asked for zero machines.
    InvalidDescriptor,
    /// The duration budget was not positive.
    InvalidConfig,
    /// Submitting a capacity request failed, or the provider's answer to a
    /// submission was malformed.
    SubmissionFailed,
    /// Polling, cancelling, or describing through the provider failed with
    /// a non-transient fault, or a poll answer was malformed.
    PollFailed,
    /// Connecting to a machine or running its setup routine failed.
    SetupFailed,
    /// Terminating the acquired instances failed with a non-transient fault.
    TeardownFailed,
}

/// Typed classification of a provider fault, produced at the I/O boundary.
/// Only the first two classes are ever transient, and each only in one phase.
#[derive(PartialEq, Eq, Structural, Clone, Copy, Debug)]
pub enum ProviderError {
    /// The provider does not know the just-issued request identifiers yet
    /// (eventual consistency). Transient while awaiting the active state.
    RequestNotVisible,
    /// The transport connection dropped (pooled stream gone, broken pipe).
    /// Transient during teardown.
    TransportDisconnect,
    /// Anything else: fatal wherever it occurs.
    Other,
}

/// How a run ended.
#[derive(PartialEq, Eq, Structural, Clone, Copy, Debug)]
pub enum Outcome {
    /// Every provisioning phase succeeded and all acquired instances
    /// were terminated. (The callback's own verdict is reported
    /// separately, by the orchestrator's `callback_ok`.)
    Completed,
    /// A fatal error ended the run before any instance was assigned;
    /// there was nothing to tear down.
    Aborted,
    /// A fatal error ended the run after instances were assigned, and the
    /// teardown that followed terminated all of them.
    AbortedWithCleanup,
    /// Terminating the assigned instances itself failed: capacity may be
    /// left running.
    CleanupFailed,
}

} // verus!
