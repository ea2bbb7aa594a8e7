use blabla::project::runstate::{Classification, Marker, profile_identity};
use blabla::project::status::{
    CompletionState, Evaluation, Record, RecordedObligation, RecordedReport, RecordedRun, State, apply_run_state,
    behavior_completion, evaluate, rule_obligations, rule_view, run_state_of, same_profile,
};
use blabla::project::{Profile, Rule};
use blabla::report::{CoverageStatus, RunStatus};

fn profile() -> Profile {
    Profile {
        command: vec!["python".to_owned(), "main.py".to_owned()],
        prepare: None,
        seed: 0,
        cases: 16,
        steps: 32,
        timeout_ms: 1000,
        startup_ms: None,
        shrink_budget: 256,
    }
}

fn obligation(property: &str, status: CoverageStatus) -> RecordedObligation {
    RecordedObligation {
        id: format!("{property}#1"),
        property: property.to_owned(),
        action: None,
        location: None,
        required_witness: "w".to_owned(),
        status,
        evaluations: 1,
        witnesses: 0,
        reason: None,
    }
}

fn report(status: RunStatus) -> RecordedReport {
    RecordedReport {
        status,
        seed: 0,
        cases: 16,
        steps: 32,
        shrink_budget: 256,
        steps_executed: 400,
        verified: 2,
        unexercised: 1,
        violated: 0,
        coverage: vec![
            obligation("core::a", CoverageStatus::Verified),
            obligation("core::a", CoverageStatus::Unexercised),
            obligation("core::b", CoverageStatus::Verified),
        ],
    }
}

fn record() -> Record {
    Record {
        verifier_version: "1.0.0".to_owned(),
        project: "demo".to_owned(),
        manifest: "/p/project.bla".to_owned(),
        project_identity: "ident".to_owned(),
        implementation_fingerprint: "print".to_owned(),
        fingerprinted_files: Vec::new(),
        application: vec!["python".to_owned(), "main.py".to_owned()],
        timeout_ms: 1000,
        profile: Some(profile()),
        run_id: Some("run-1".to_owned()),
        recorded_unix: 86_400,
    }
}

fn run(status: RunStatus) -> RecordedRun {
    RecordedRun { record: record(), report: Ok(report(status)), failure: None }
}

#[test]
fn an_unchanged_project_reads_its_recorded_run_as_current_and_canonical() {
    let e = evaluate("1.0.0", "ident", "print", &Some(profile()), Ok(Some(run(RunStatus::Yellow))));
    assert!(!e.stale);
    assert!(e.canonical);
    let recorded = e.recorded.as_ref().unwrap();
    assert!(recorded.stale.is_empty());
    assert_eq!(recorded.recorded_at, "1970-01-02T00:00:00Z");
    assert_eq!(recorded.unexercised, 1);
    assert_eq!(e.record_run_id.as_deref(), Some("run-1"));
    assert!(e.run_state.is_none());
}

#[test]
fn each_change_since_the_run_is_named_in_order() {
    let mut other = profile();
    other.seed = 9;
    let e = evaluate("2.0.0", "changed", "other", &Some(other), Ok(Some(run(RunStatus::Green))));
    assert!(e.stale);
    assert!(!e.canonical);
    assert_eq!(e.recorded.unwrap().stale, vec!["verifier", "contracts", "implementation", "profile"]);
    let e = evaluate("1.0.0", "ident", "other", &Some(profile()), Ok(Some(run(RunStatus::Green))));
    assert_eq!(e.recorded.unwrap().stale, vec!["implementation"]);
    let e = evaluate("1.0.0", "ident", "print", &None, Ok(Some(run(RunStatus::Green))));
    assert!(!e.canonical);
    assert_eq!(e.recorded.unwrap().stale, vec!["profile"]);
}

#[test]
fn a_missing_or_unreadable_record_evaluates_to_nothing_recorded() {
    let none = evaluate("1.0.0", "ident", "print", &None, Ok(None));
    assert!(none.recorded.is_none() && none.record_error.is_none() && !none.stale);
    let broken = evaluate("1.0.0", "ident", "print", &None, Err("cannot parse status.json".to_owned()));
    assert_eq!(broken.record_error.as_deref(), Some("cannot parse status.json"));
    let unreadable = evaluate(
        "1.0.0",
        "ident",
        "print",
        &None,
        Ok(Some(RecordedRun { record: record(), report: Err("missing field `seed`".to_owned()), failure: None })),
    );
    assert_eq!(unreadable.record_error.as_deref(), Some("recorded report is unreadable: missing field `seed`"));
    assert_eq!(unreadable.record_run_id.as_deref(), Some("run-1"));
    assert!(unreadable.report.is_none());
}

fn marker(run_id: &str) -> Marker {
    Marker {
        run_id: run_id.to_owned(),
        pid: 42,
        started_unix: 100,
        verifier_version: "1.0.0".to_owned(),
        project_identity: "ident".to_owned(),
        profile_identity: profile_identity(Some(&profile())),
        profile: Some(profile()),
    }
}

#[test]
fn a_marker_of_a_live_run_makes_the_project_verifying() {
    let mut e = evaluate("1.0.0", "ident", "print", &Some(profile()), Ok(Some(run(RunStatus::Green))));
    apply_run_state(&mut e, "ident", Some(&profile()), Ok(Some(marker("run-2"))), Some(101));
    let state = e.run_state.as_ref().unwrap();
    assert_eq!(state.classification, Classification::Verifying);
    assert_eq!(state.pid, 42);
    assert_eq!(state.started_at, "1970-01-01T00:01:40Z");
    assert_eq!(run_state_of(&e), Some(State::Verifying));
    let mut dead = evaluate("1.0.0", "ident", "print", &Some(profile()), Ok(Some(run(RunStatus::Green))));
    apply_run_state(&mut dead, "ident", Some(&profile()), Ok(Some(marker("run-2"))), None);
    assert_eq!(dead.run_state.as_ref().unwrap().classification, Classification::Interrupted);
    assert_eq!(run_state_of(&dead), Some(State::Interrupted));
    let mut done = evaluate("1.0.0", "ident", "print", &Some(profile()), Ok(Some(run(RunStatus::Green))));
    apply_run_state(&mut done, "ident", Some(&profile()), Ok(Some(marker("run-1"))), Some(101));
    assert!(done.run_state.is_none());
    let mut unreadable = evaluate("1.0.0", "ident", "print", &None, Ok(None));
    apply_run_state(&mut unreadable, "ident", None, Err("cannot read the marker".to_owned()), None);
    let state = unreadable.run_state.unwrap();
    assert_eq!(state.classification, Classification::Interrupted);
    assert_eq!(state.started_at, "cannot read the marker");
    assert!(state.run_id.is_empty());
}

#[test]
fn behavior_completion_is_green_only_for_a_canonical_green_run() {
    let green = evaluate("1.0.0", "ident", "print", &Some(profile()), Ok(Some(run(RunStatus::Green))));
    assert_eq!(
        behavior_completion(true, &green, State::Green),
        (CompletionState::Green, "canonical verification is GREEN".to_owned())
    );
    assert_eq!(
        behavior_completion(true, &green, State::Yellow),
        (CompletionState::Yellow, "1 obligations remain unverified under the canonical profile".to_owned())
    );
    let odd = evaluate("1.0.0", "ident", "print", &Some(Profile { seed: 3, ..profile() }), Ok(Some(run(RunStatus::Green))));
    assert_eq!(behavior_completion(true, &odd, State::Green).0, CompletionState::NotCanonical);
    let stale = evaluate("1.0.0", "changed", "print", &Some(profile()), Ok(Some(run(RunStatus::Green))));
    assert_eq!(
        behavior_completion(true, &stale, State::Stale),
        (CompletionState::Stale, "contracts changed since the recorded run".to_owned())
    );
    assert_eq!(behavior_completion(false, &green, State::Red).0, CompletionState::Red);
    assert_eq!(behavior_completion(false, &green, State::Unverified).0, CompletionState::Unverified);
    let empty = Evaluation {
        report: None,
        failure: None,
        recorded: None,
        stale: false,
        canonical: false,
        record_error: None,
        run_state: None,
        record_run_id: None,
    };
    assert_eq!(
        behavior_completion(true, &empty, State::Verifying),
        (CompletionState::Verifying, "blabla finish is running (started at unknown, pid 0)".to_owned())
    );
    assert_eq!(
        behavior_completion(true, &empty, State::Interrupted).1,
        "a blabla finish started at unknown did not complete; run it again"
    );
}

#[test]
fn a_rule_takes_its_state_from_its_own_obligations() {
    let rule = Rule {
        id: "core::a".to_owned(),
        group: "core".to_owned(),
        label: "a".to_owned(),
        file: "core.bla".to_owned(),
        line: 3,
        column: 1,
        source: "always a".to_owned(),
        action: None,
        runtime: None,
    };
    let recorded = report(RunStatus::Yellow);
    assert_eq!(rule_obligations(&rule, &recorded).len(), 2);
    let view = rule_view(&rule, Some(&recorded), State::Unverified);
    assert_eq!(view.state, State::Yellow);
    assert_eq!(view.unexercised, 1);
    assert_eq!(view.line, 3);
    let unrecorded = rule_view(&rule, None, State::Unverified);
    assert_eq!(unrecorded.state, State::Unverified);
    assert_eq!(unrecorded.unexercised, 0);
    assert!(same_profile(&Some(profile()), &Some(profile())));
    assert!(!same_profile(&Some(profile()), &None));
}
