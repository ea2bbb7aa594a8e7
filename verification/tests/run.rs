use blabla::cli::run::{write_calls, write_human_run};
use blabla::diagnostic::Location;
use blabla::report::{
    Call, CampaignMetrics, CoverageObligation, CoverageStatus, CoverageSummary, Failure, RunReport, RunStatus,
    ShrinkReport, ShrinkStatus,
};

fn call(action: &str, args: &[&str]) -> Call {
    Call { action: action.to_owned(), args: args.iter().map(|a| (*a).to_owned()).collect() }
}

fn obligation(id: &str, status: CoverageStatus) -> CoverageObligation {
    CoverageObligation {
        id: id.to_owned(),
        property: "p".to_owned(),
        action: None,
        location: None,
        required_witness: "a call that changes the total".to_owned(),
        status,
        evaluations: 4,
        witnesses: 0,
        passes: 4,
        failures: 0,
        first_witness_action: None,
        first_witness_ms: None,
        first_witness_trace: None,
        shortest_witness_trace: None,
        reason: None,
    }
}

fn report(status: RunStatus, coverage: Vec<CoverageObligation>, failure: Option<Failure>) -> RunReport {
    let count = |s: CoverageStatus| coverage.iter().filter(|o| o.status == s).count();
    let mut metrics = CampaignMetrics::default();
    metrics.action_budget = 512;
    RunReport {
        verifier_version: "1",
        status,
        seed: 7,
        cases: 16,
        steps: 32,
        shrink_budget: 256,
        cases_executed: 16,
        steps_executed: 300,
        sequences: Vec::new(),
        coverage_summary: CoverageSummary {
            verified: count(CoverageStatus::Verified),
            unexercised: count(CoverageStatus::Unexercised),
            violated: count(CoverageStatus::Violated),
            coverage,
        },
        metrics,
        failure,
    }
}

#[test]
fn calls_are_numbered_with_their_arguments() {
    let mut out = String::new();
    write_calls(&mut out, &vec![call("add", &["1", "\"x\""]), call("reset", &[])]);
    assert_eq!(out, "  1. add(1, \"x\")\n  2. reset()\n");
    let mut empty = String::new();
    write_calls(&mut empty, &Vec::new());
    assert_eq!(empty, "  (initial state; no actions)\n");
}

#[test]
fn a_green_run_reports_coverage_and_no_drift() {
    let green = report(RunStatus::Green, vec![obligation("rule::a", CoverageStatus::Verified)], None);
    let mut out = String::new();
    write_human_run(&mut out, &green, false);
    assert_eq!(
        out,
        "BlaBla\n\nBEHAVIOR  1/1  GREEN\n\nCoverage:\n  GREEN   1\n  YELLOW  0\n  RED     0\n\nActions: 300 / 512 budget\nseed: 7\ncases checked: 16 / 16\nactions checked: 300\n\nNo behavioral drift detected in the recorded campaign. GREEN.\n"
    );
}

#[test]
fn a_yellow_run_lists_what_it_left_unexercised() {
    let yellow = report(
        RunStatus::Yellow,
        vec![obligation("rule::a", CoverageStatus::Verified), obligation("rule::b", CoverageStatus::Unexercised)],
        None,
    );
    let mut out = String::new();
    write_human_run(&mut out, &yellow, false);
    assert!(out.starts_with("BlaBla\n\nBEHAVIOR  1/2  YELLOW\n"));
    assert!(out.ends_with(
        "\nUnexercised:\n  rule::b\n    evaluations: 4; meaningful witnesses: 0\n    Required witness: a call that changes the total\n\nBehavior is not fully verified under seed 7, 16 cases x 32 actions. NOT COMPLETE.\n"
    ));
}

#[test]
fn a_red_run_shows_the_counterexample_and_its_details_when_verbose() {
    let failure = Failure {
        property: "rule::total".to_owned(),
        location: Location { file: "core.bla".to_owned(), line: 4, column: 3 },
        case_index: 0,
        original_sequence_length: 3,
        minimal_sequence_length: 1,
        sequence: vec![call("add", &["-1"])],
        original_sequence: vec![call("add", &["2"]), call("add", &["-1"]), call("reset", &[])],
        predicate: "total >= 0".to_owned(),
        before: "{\"total\":0}".to_owned(),
        input: "[-1]".to_owned(),
        after: "{\"total\":-1}".to_owned(),
        expected: None,
        actual: None,
        shrink: ShrinkReport { status: ShrinkStatus::FixedPoint, attempts: 5, confirmations: 2, reason: None },
    };
    let red = report(RunStatus::Red, vec![obligation("rule::total", CoverageStatus::Violated)], Some(failure));
    let mut out = String::new();
    write_human_run(&mut out, &red, false);
    assert!(out.ends_with(
        "actions checked: 300\n\nrule::total violated\n\nminimal sequence:\n  1. add(-1)\n\npredicate: total >= 0\nexpected predicate: true\nactual predicate: false\n\noriginal sequence length: 3\nminimal sequence length: 1\ncounterexample reduction: \"fixed_point\"\n"
    ));
    let mut verbose = String::new();
    write_human_run(&mut verbose, &red, true);
    assert!(verbose.ends_with(
        "counterexample reduction: \"fixed_point\"\nsource: core.bla:4:3\nbefore: {\"total\":0}\ninput: [-1]\nafter: {\"total\":-1}\ncandidate replays: 5; confirmations: 2\noriginal sequence:\n  1. add(2)\n  2. add(-1)\n  3. reset()\n"
    ));
    let mut compared = red.clone();
    if let Some(f) = compared.failure.as_mut() {
        f.expected = Some("1".to_owned());
        f.actual = Some("2".to_owned());
        f.shrink.status = ShrinkStatus::BudgetExhausted;
        f.shrink.reason = Some("budget spent".to_owned());
    }
    let mut out = String::new();
    write_human_run(&mut out, &compared, false);
    assert!(out.contains("\nreduced sequence:\n"));
    assert!(out.contains("\nexpected: 1\nactual: 2\n"));
    assert!(out.ends_with("counterexample reduction: \"budget_exhausted\"\nreduction stopped: budget spent\n"));
}
