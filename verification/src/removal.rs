//! Interpretation of the runtime's answer to a removal request.
//!
//! Removal is forceful and best-effort. The runtime's answer is handed in
//! as a plain value: no message on success, or the error text it reported.
//! A report that a removal of the same container is already in flight is
//! the natural race between ticks and counts as success; every other
//! failure is contained to its container — no answer ever halts the pass.

use vstd::prelude::*;

use crate::text::{contains_seq, str_contains};

verus! {

/// The outcome of one removal request.
pub enum RemovalOutcome {
    /// The runtime accepted the removal.
    Removed,
    /// The runtime reported a concurrent removal already in flight;
    /// treated as success.
    AlreadyRemoving,
    /// Any other failure, with the runtime's report; non-fatal, the pass
    /// continues with the next candidate.
    Failed(String),
}

/// The marker by which the runtime's error text reports an in-flight
/// concurrent removal.
pub open spec fn spec_race_marker() -> Seq<char> {
    "is already in progress"@
}

/// Classify the runtime's answer to a removal request. Total: every
/// possible answer maps to an outcome, and none aborts the pass.
pub fn interpret_removal_response(response: Option<String>) -> (r: RemovalOutcome)
    ensures
        response is None <==> r is Removed,
        response matches Some(msg) ==> {
            if contains_seq(msg@, spec_race_marker()) {
                r is AlreadyRemoving
            } else {
                r matches RemovalOutcome::Failed(reason) && reason@ == msg@
            }
        },
{
    match response {
        None => RemovalOutcome::Removed,
        Some(msg) => {
            if str_contains(msg.as_str(), "is already in progress") {
                RemovalOutcome::AlreadyRemoving
            } else {
                RemovalOutcome::Failed(msg)
            }
        },
    }
}

/// An outcome counts as success exactly when the container is gone or
/// already on its way out.
pub fn removal_is_success(outcome: &RemovalOutcome) -> (r: bool)
    ensures
        r == !(outcome is Failed),
{
    match outcome {
        RemovalOutcome::Removed => true,
        RemovalOutcome::AlreadyRemoving => true,
        RemovalOutcome::Failed(_) => false,
    }
}

} // verus!
