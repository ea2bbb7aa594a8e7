use vstd::prelude::*;

verus! {

/// How a structure rule stands against the repository.
#[derive(Clone, Copy, Debug, PartialEq, Eq, Structural)]
pub enum RuleStatus {
    Green,
    Red,
    Error,
}

/// How the structure layer stands as a whole; `Absent` when no structure contract is active.
#[derive(Clone, Copy, Debug, PartialEq, Eq, Structural)]
pub enum LayerStatus {
    Green,
    Red,
    Error,
    Absent,
}

/// One structure rule as the structure layer evaluated it.
#[derive(Clone, Debug)]
pub struct RuleResult {
    pub id: String,
    pub group: Option<String>,
    pub label: String,
    pub file: String,
    pub line: usize,
    pub status: RuleStatus,
}

/// What the structure layer found, as the status reads it: its standing, how many rules it
/// verified and found violated out of how many, its first evaluation error, and each rule.
#[derive(Clone, Debug)]
pub struct StructureReport {
    pub status: LayerStatus,
    pub verified: usize,
    pub violated: usize,
    pub total: usize,
    pub first_error: Option<String>,
    pub rules: Vec<RuleResult>,
}

impl StructureReport {
    /// The report of a project with no active structure contract.
    pub fn none() -> (r: StructureReport)
        ensures
            r.status == LayerStatus::Absent,
            r.verified == 0 && r.violated == 0 && r.total == 0,
            r.first_error is None,
            r.rules@.len() == 0,
    {
        StructureReport {
            status: LayerStatus::Absent,
            verified: 0,
            violated: 0,
            total: 0,
            first_error: None,
            rules: Vec::new(),
        }
    }
}

} // verus!
