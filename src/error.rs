//! Failures that the node's collaborators report upward.

use vstd::prelude::*;

verus! {

/// Why one iteration of the node's work could not be completed. The kinds
/// are kept apart so that a caller can pick a retry policy for each.
#[derive(Clone, Copy, Debug, PartialEq, Eq, Structural)]
pub enum NodeError {
    /// The sensor could not be reached or did not deliver a measurement.
    SensorUnavailable,
    /// The output line could not be timed or driven.
    OutputTimingUnavailable,
    /// The network could not be joined or was lost.
    NetworkUnavailable,
}

} // verus!
