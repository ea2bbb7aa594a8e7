use blabla::project::status::{
    CompletionState, Evaluation, Record, RecordedObligation, RecordedReport, RecordedRun, State, evaluate,
};
use blabla::project::status_view::{ProjectSummary, StatusView, runtime_primitives, status_view};
use blabla::project::{Group, Layer, Profile, Rule};
use blabla::report::{CoverageStatus, RunStatus};
use blabla::structure::{LayerStatus, RuleResult, RuleStatus, StructureReport};

fn profile() -> Profile {
    Profile {
        command: vec!["python".to_owned(), "app.py".to_owned()],
        prepare: None,
        seed: 7,
        cases: 1,
        steps: 8,
        timeout_ms: 1000,
        startup_ms: None,
        shrink_budget: 256,
    }
}

fn rule(id: &str, group: &str, file: &str, runtime: Option<&'static str>) -> Rule {
    Rule {
        id: id.to_owned(),
        group: group.to_owned(),
        label: id.split("::").nth(1).unwrap().to_owned(),
        file: file.to_owned(),
        line: 1,
        column: 5,
        source: String::new(),
        action: None,
        runtime,
    }
}

fn group(name: &str, display: &str, rules: usize) -> Group {
    Group { name: name.to_owned(), display: display.to_owned(), rules, layer: Layer::Behavior }
}

/// The project with the core contract only, or with the core and feature contracts under
/// `contracts/`.
fn summary(with_feature: bool, profile: Option<Profile>) -> ProjectSummary {
    let (core_file, feature_file) = if with_feature {
        ("contracts/core.bla", "contracts/feature.bla")
    } else {
        ("core.bla", "feature.bla")
    };
    let mut rules = vec![rule("core::add-count", "core", core_file, None)];
    let mut groups = vec![group("core", core_file, 1)];
    if with_feature {
        rules.push(rule("feature::add-keeps-existing", "feature", feature_file, None));
        rules.push(rule("feature::persistence", "feature", feature_file, Some("runtime::restart")));
        rules.push(rule("feature::unique-ids", "feature", feature_file, None));
        groups.push(group("feature", feature_file, 3));
    }
    ProjectSummary {
        name: "Demo".to_owned(),
        manifest: "/p/project.bla".to_owned(),
        profile,
        rules,
        groups,
        drafts: Vec::new(),
        actions: 2,
        has_structure: false,
    }
}

fn obligation(id: &str, property: &str, status: CoverageStatus, witnesses: usize) -> RecordedObligation {
    RecordedObligation {
        id: id.to_owned(),
        property: property.to_owned(),
        action: None,
        location: None,
        required_witness: format!("witness for {id}"),
        status,
        evaluations: witnesses,
        witnesses,
        reason: None,
    }
}

fn report(status: RunStatus, coverage: Vec<RecordedObligation>) -> RecordedReport {
    let count = |s: CoverageStatus| coverage.iter().filter(|o| o.status == s).count();
    RecordedReport {
        status,
        seed: 7,
        cases: 1,
        steps: 8,
        shrink_budget: 256,
        steps_executed: 8,
        verified: count(CoverageStatus::Verified),
        unexercised: count(CoverageStatus::Unexercised),
        violated: count(CoverageStatus::Violated),
        coverage,
    }
}

fn record(profile: Option<Profile>) -> Record {
    Record {
        verifier_version: "1.0.0".to_owned(),
        project: "Demo".to_owned(),
        manifest: "/p/project.bla".to_owned(),
        project_identity: "ident".to_owned(),
        implementation_fingerprint: "print".to_owned(),
        fingerprinted_files: Vec::new(),
        application: vec!["python".to_owned(), "app.py".to_owned()],
        timeout_ms: 1000,
        profile,
        run_id: None,
        recorded_unix: 951_782_400,
    }
}

fn run(record: Record, report: RecordedReport) -> RecordedRun {
    RecordedRun { record, report: Ok(report), failure: None }
}

/// The evaluation of a record against the project as it is now: verifier 1.0.0, contracts
/// `ident`, implementation `print`.
fn current(p: &ProjectSummary, record: Result<Option<RecordedRun>, String>) -> Evaluation {
    evaluate("1.0.0", "ident", "print", &p.profile, record)
}

fn view(p: &ProjectSummary, e: Evaluation) -> StatusView {
    status_view(copy(p), e, StructureReport::none())
}

fn copy(p: &ProjectSummary) -> ProjectSummary {
    ProjectSummary {
        name: p.name.clone(),
        manifest: p.manifest.clone(),
        profile: p.profile.clone(),
        rules: p.rules.clone(),
        groups: p.groups.clone(),
        drafts: Vec::new(),
        actions: p.actions,
        has_structure: p.has_structure,
    }
}

fn yellow_coverage() -> Vec<RecordedObligation> {
    vec![
        obligation("action/add", "add", CoverageStatus::Verified, 3),
        obligation("action/restart", "restart", CoverageStatus::Unexercised, 0),
        obligation("core::add-count/root", "core::add-count", CoverageStatus::Verified, 3),
        obligation("feature::add-keeps-existing/root", "feature::add-keeps-existing", CoverageStatus::Verified, 3),
        obligation("feature::persistence/root.restart..true", "feature::persistence", CoverageStatus::Unexercised, 0),
        obligation(
            "feature::persistence/root.restart..nondefault",
            "feature::persistence",
            CoverageStatus::Unexercised,
            0,
        ),
        obligation("feature::unique-ids/root", "feature::unique-ids", CoverageStatus::Unexercised, 0),
    ]
}

fn green_coverage() -> Vec<RecordedObligation> {
    vec![
        obligation("action/add", "add", CoverageStatus::Verified, 3),
        obligation("action/restart", "restart", CoverageStatus::Verified, 1),
        obligation("core::add-count/root", "core::add-count", CoverageStatus::Verified, 3),
    ]
}

#[test]
fn status_view_derives_rule_states_group_states_and_next_rules() {
    let project = summary(true, None);
    let unverified = view(&project, current(&project, Ok(None)));
    assert_eq!(unverified.state, State::Unverified);
    assert_eq!(unverified.exit, 5);
    assert_eq!(unverified.rules.total, 4);
    assert_eq!(unverified.rules.green, 0);
    assert!(unverified.next.is_empty());
    assert!(unverified.groups[0].state.is_none());

    let yellow = report(RunStatus::Yellow, yellow_coverage());
    let view_y = view(&project, current(&project, Ok(Some(run(record(None), yellow)))));
    assert_eq!(view_y.state, State::Yellow);
    assert_eq!(view_y.exit, 5);
    assert_eq!((view_y.rules.total, view_y.rules.green, view_y.rules.yellow, view_y.rules.red), (4, 2, 2, 0));
    assert_eq!((view_y.actions.total, view_y.actions.exercised), (2, 1));
    assert_eq!(view_y.groups[0].state, Some(State::Green));
    assert_eq!(view_y.groups[1].state, Some(State::Yellow));
    assert_eq!(view_y.groups[1].counts.green, 1);
    let next: Vec<&str> = view_y.next.iter().map(|rule| rule.id.as_str()).collect();
    assert_eq!(next, ["feature::persistence", "feature::unique-ids"]);
    let recorded = view_y.recorded.as_ref().unwrap();
    assert_eq!(recorded.recorded_at, "2000-02-29T00:00:00Z");
    assert!(recorded.stale.is_empty());

    let mut red_coverage = yellow_coverage();
    red_coverage[3] =
        obligation("feature::add-keeps-existing/root", "feature::add-keeps-existing", CoverageStatus::Violated, 1);
    let red = report(RunStatus::Red, red_coverage);
    let view_r = view(&project, current(&project, Ok(Some(run(record(None), red)))));
    assert_eq!(view_r.state, State::Red);
    assert_eq!(view_r.exit, 1);
    assert_eq!(view_r.next[0].id, "feature::add-keeps-existing");
    assert_eq!(view_r.next[0].state, State::Red);
}

#[test]
fn status_view_is_stale_when_contracts_implementation_or_verifier_change() {
    let project = summary(false, None);
    let green = report(RunStatus::Green, green_coverage());
    let fresh = run(record(None), green.clone());
    let v = view(&project, current(&project, Ok(Some(fresh))));
    assert_eq!(v.state, State::Green);
    assert_eq!(v.exit, 0);

    let changed = evaluate("1.0.0", "ident", "changed", &None, Ok(Some(run(record(None), green.clone()))));
    let v = view(&project, changed);
    assert_eq!(v.state, State::Stale);
    assert_eq!(v.exit, 5);
    assert_eq!(v.recorded.as_ref().unwrap().stale, ["implementation"]);
    assert!(v.next.is_empty());
    assert_eq!(v.rules.green, 0);

    let mut contracts = record(None);
    contracts.project_identity = "0000000000000000".into();
    let v = view(&project, current(&project, Ok(Some(run(contracts, green.clone())))));
    assert_eq!(v.recorded.as_ref().unwrap().stale, ["contracts"]);

    let mut verifier = record(None);
    verifier.verifier_version = "0.0.0".into();
    let v = view(&project, current(&project, Ok(Some(run(verifier, green)))));
    assert_eq!(v.state, State::Stale);
    assert_eq!(v.recorded.as_ref().unwrap().stale, ["verifier"]);

    let v = view(&project, current(&project, Err("cannot parse".into())));
    assert_eq!(v.state, State::Unverified);
    assert_eq!(v.record_error.as_deref(), Some("cannot parse"));
}

#[test]
fn status_view_gates_completion_on_a_fresh_canonical_run() {
    let project = summary(false, Some(profile()));
    let green = report(RunStatus::Green, green_coverage());
    let unverified = view(&project, current(&project, Ok(None)));
    assert_eq!(unverified.completion.state, CompletionState::Unverified);
    assert!(!unverified.completion.allowed);
    assert_eq!(unverified.completion.command, Some("blabla finish"));
    assert_eq!(unverified.exit, 5);

    let v = view(&project, current(&project, Ok(Some(run(record(Some(profile())), green.clone())))));
    assert_eq!(v.state, State::Green);
    assert_eq!(v.completion.state, CompletionState::Green);
    assert!(v.completion.allowed);
    assert_eq!(v.exit, 0);
    assert!(v.recorded.as_ref().unwrap().canonical);

    let mut other_steps = green.clone();
    other_steps.steps = 4;
    let v = view(&project, current(&project, Ok(Some(run(record(Some(profile())), other_steps)))));
    assert_eq!(v.state, State::Green);
    assert_eq!(v.completion.state, CompletionState::NotCanonical);
    assert!(!v.completion.allowed);
    assert_eq!(v.exit, 5);
    assert!(!v.recorded.as_ref().unwrap().canonical);

    let mut other_command = record(Some(profile()));
    other_command.application = vec!["python".into(), "other.py".into()];
    let v = view(&project, current(&project, Ok(Some(run(other_command, green.clone())))));
    assert_eq!(v.completion.state, CompletionState::NotCanonical);

    let v = view(&project, current(&project, Ok(Some(run(record(None), green.clone())))));
    assert_eq!(v.state, State::Stale);
    assert_eq!(v.recorded.as_ref().unwrap().stale, ["profile"]);
    assert_eq!(v.completion.state, CompletionState::Stale);
    assert_eq!(v.exit, 5);

    let yellow = report(
        RunStatus::Yellow,
        vec![
            obligation("action/add", "add", CoverageStatus::Verified, 3),
            obligation("action/restart", "restart", CoverageStatus::Unexercised, 0),
            obligation("core::add-count/root", "core::add-count", CoverageStatus::Verified, 3),
        ],
    );
    let v = view(&project, current(&project, Ok(Some(run(record(Some(profile())), yellow)))));
    assert_eq!(v.completion.state, CompletionState::Yellow);
    assert!(!v.completion.allowed);
    assert_eq!(v.exit, 5);

    let unprofiled = summary(false, None);
    let v = view(&unprofiled, current(&unprofiled, Ok(Some(run(record(None), green)))));
    assert_eq!(v.state, State::Green);
    assert_eq!(v.completion.state, CompletionState::Green);
    assert!(v.completion.allowed);
    assert_eq!(v.completion.command, None);
    assert_eq!(v.exit, 0);
}

#[test]
fn the_runtime_primitives_are_listed_once_in_order() {
    let project = summary(true, None);
    let mut rules = project.rules.clone();
    rules.push(rule("feature::again", "feature", "contracts/feature.bla", Some("runtime::restart")));
    rules.push(rule("feature::clock", "feature", "contracts/feature.bla", Some("runtime::clock")));
    let ids = runtime_primitives(&rules);
    assert_eq!(ids, ["runtime::clock", "runtime::restart"]);
    let v = view(&project, current(&project, Ok(None)));
    assert_eq!(v.runtime_primitives, ["runtime::restart"]);
}

#[test]
fn structure_failures_lead_the_next_list_and_set_the_exit_code() {
    let mut project = summary(true, None);
    project.has_structure = true;
    let result = |id: &str, status: RuleStatus| RuleResult {
        id: id.to_owned(),
        group: Some("layers".to_owned()),
        label: id.to_owned(),
        file: "layers.bla".to_owned(),
        line: 3,
        status,
    };
    let structure = StructureReport {
        status: LayerStatus::Red,
        verified: 1,
        violated: 1,
        total: 3,
        first_error: None,
        rules: vec![
            result("layers::a", RuleStatus::Green),
            result("layers::b", RuleStatus::Red),
            result("layers::c", RuleStatus::Error),
        ],
    };
    let yellow = report(RunStatus::Yellow, yellow_coverage());
    let v = status_view(copy(&project), current(&project, Ok(Some(run(record(None), yellow)))), structure);
    let next: Vec<(&str, State)> = v.next.iter().map(|r| (r.id.as_str(), r.state)).collect();
    assert_eq!(next, [("layers::b", State::Red), ("layers::c", State::Yellow), ("feature::persistence", State::Yellow)]);
    assert_eq!(v.completion.state, CompletionState::StructureRed);
    assert_eq!(v.completion.reason, "structure: 1 of 3 rules violated");
    assert_eq!(v.exit, 1);
    assert_eq!(v.overall.exit, 1);
    assert!(!v.completion.allowed);
}
