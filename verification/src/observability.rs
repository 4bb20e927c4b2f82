//! Point-in-time snapshots for operators.

use vstd::prelude::*;

verus! {

/// Owned point-in-time snapshot of a hot index.
#[derive(Debug, Clone, Copy, PartialEq, Eq)]
pub struct HotIndexSnapshot {
    pub process_instance_count: usize,
    pub event_count: usize,
    pub pipeline_count: usize,
    pub metadata_ref_count: usize,
    pub duplicate_events: u64,
    pub rejected_events: u64,
}

/// Values of a process-event schema that were met but are not known, with the number of
/// times they were met.
#[derive(Debug, Clone, Default, PartialEq, Eq)]
pub struct DurgaCompatibilitySnapshot {
    /// Unknown status values encountered, with occurrence counts.
    pub unknown_status_values: Vec<(String, u64)>,
    /// Unknown event-type values encountered, with occurrence counts.
    pub unknown_event_type_values: Vec<(String, u64)>,
}

} // verus!
