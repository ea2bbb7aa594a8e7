use vstd::prelude::*;
use crate::diagnostic::Location;

verus! {

/// The most shrink attempts a run makes on a failure.
pub const MAX_SHRINK_ATTEMPTS: usize = 256;

/// How many cases a run generates when nothing says otherwise.
pub const DEFAULT_CASES: usize = 16;

/// How many steps each case takes when nothing says otherwise.
pub const DEFAULT_STEPS: usize = 32;

/// How long one exchange with the application may take, in milliseconds, by default.
pub const DEFAULT_TIMEOUT_MS: u64 = 1000;

/// How a run is driven.
#[derive(Clone, Debug)]
pub struct RunOptions {
    pub seed: u64,
    pub cases: usize,
    pub steps: usize,
    pub shrink_budget: usize,
}

impl Default for RunOptions {
    fn default() -> (o: RunOptions)
        ensures
            o.seed == 0,
            o.cases == DEFAULT_CASES,
            o.steps == DEFAULT_STEPS,
            o.shrink_budget == MAX_SHRINK_ATTEMPTS,
    {
        RunOptions { seed: 0, cases: DEFAULT_CASES, steps: DEFAULT_STEPS, shrink_budget: MAX_SHRINK_ATTEMPTS }
    }
}

/// The outcome of a run.
#[derive(Clone, Copy, Debug, PartialEq, Eq, Structural)]
pub enum RunStatus {
    Green,
    Yellow,
    Red,
}

/// What a run found of one obligation.
#[derive(Clone, Copy, Debug, PartialEq, Eq, Structural)]
pub enum CoverageStatus {
    Verified,
    Unexercised,
    Violated,
}

/// How much work a campaign did, and when it reached full coverage.
#[derive(Clone, Debug, Default)]
pub struct CampaignMetrics {
    pub action_budget: usize,
    pub total_actions: usize,
    pub reduction_actions: usize,
    pub replay_actions: usize,
    pub resets: usize,
    pub corpus_size: usize,
    pub corpus_peak: usize,
    pub actions_to_full_coverage: Option<usize>,
    pub time_to_full_coverage_ms: Option<u64>,
    pub elapsed_ms: u64,
    pub detection_ms: Option<u64>,
    pub shrink_ms: u64,
    pub decisions: Vec<GenerationDecision>,
}

/// How the generator chose one action.
#[derive(Clone, Debug, PartialEq, Eq)]
pub struct GenerationDecision {
    pub action_index: usize,
    pub target: Option<String>,
    pub prefix: Option<usize>,
    pub random: bool,
}

/// How shrinking a failure went.
#[derive(Clone, Debug)]
pub struct ShrinkReport {
    pub status: ShrinkStatus,
    pub attempts: usize,
    pub confirmations: usize,
    pub reason: Option<String>,
}

/// Why shrinking stopped.
#[derive(Clone, Copy, Debug, PartialEq, Eq, Structural)]
pub enum ShrinkStatus {
    FixedPoint,
    BudgetExhausted,
    Interrupted,
}

/// One call of an action, with its arguments, each as the JSON text that denotes it.
#[derive(Clone, Debug)]
pub struct Call {
    pub action: String,
    pub args: Vec<String>,
}

/// What a run found of one obligation: how often it was evaluated and witnessed, and what
/// witness it still needs.
#[derive(Clone, Debug)]
pub struct CoverageObligation {
    pub id: String,
    pub property: String,
    pub action: Option<String>,
    pub location: Option<Location>,
    pub required_witness: String,
    pub status: CoverageStatus,
    pub evaluations: usize,
    pub witnesses: usize,
    pub passes: usize,
    pub failures: usize,
    pub first_witness_action: Option<usize>,
    pub first_witness_ms: Option<u64>,
    pub first_witness_trace: Option<Vec<Call>>,
    pub shortest_witness_trace: Option<Vec<Call>>,
    pub reason: Option<String>,
}

/// How many obligations a run verified, left unexercised and found violated, and each of
/// them.
#[derive(Clone, Debug)]
pub struct CoverageSummary {
    pub verified: usize,
    pub unexercised: usize,
    pub violated: usize,
    pub coverage: Vec<CoverageObligation>,
}

/// The violation a run found: the property, where it is written, the sequences that show it
/// and the states around the failing action, each state as its JSON text.
#[derive(Clone, Debug)]
pub struct Failure {
    pub property: String,
    pub location: Location,
    pub case_index: usize,
    pub original_sequence_length: usize,
    pub minimal_sequence_length: usize,
    pub sequence: Vec<Call>,
    pub original_sequence: Vec<Call>,
    pub predicate: String,
    pub before: String,
    pub input: String,
    pub after: String,
    pub expected: Option<String>,
    pub actual: Option<String>,
    pub shrink: ShrinkReport,
}

/// What a behavior run reports.
#[derive(Clone, Debug)]
pub struct RunReport {
    pub verifier_version: &'static str,
    pub status: RunStatus,
    pub seed: u64,
    pub cases: usize,
    pub steps: usize,
    pub shrink_budget: usize,
    pub cases_executed: usize,
    pub steps_executed: usize,
    pub sequences: Vec<Vec<Call>>,
    pub coverage_summary: CoverageSummary,
    pub metrics: CampaignMetrics,
    pub failure: Option<Failure>,
}

} // verus!
