//! The fleet's view of a node: its connectivity status and the drift items
//! that compare declared with observed state.
use vstd::prelude::*;

verus! {

/// Node connectivity and health status.
#[derive(Debug, Clone, Copy, PartialEq, Eq, Structural)]
pub enum NodeStatus {
    Online,
    Offline,
    Degraded,
    Maintenance,
    Unknown,
}

impl Default for NodeStatus {
    fn default() -> (r: Self)
        ensures
            r == NodeStatus::Unknown,
    {
        NodeStatus::Unknown
    }
}

/// How much a drift matters.
#[derive(Debug, Clone, Copy, PartialEq, Eq, Structural)]
pub enum DriftSeverity {
    Info,
    Warning,
    Critical,
}

/// One difference between the declared identity and the observed report.
#[derive(Debug, Clone)]
pub struct DriftItem {
    pub category: String,
    pub field: String,
    pub expected: Option<String>,
    pub actual: Option<String>,
    pub severity: DriftSeverity,
}

} // verus!
